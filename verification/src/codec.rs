//! JSON text: reading it into JSON values and writing it from them.
use vstd::prelude::*;
use vstd::string::*;

use crate::json;
use crate::json::{Json, JsonView};
use crate::text;
use crate::text_map;
use crate::text_map::TextMap;

verus! {

/// `serde_json::Number`, carried through as it is.
#[verifier::external_type_specification]
#[verifier::external_body]
pub struct ExNumber(serde_json::Number);

/// `serde_json::Value`, a parsed JSON text.
#[verifier::external_type_specification]
#[verifier::external_body]
pub struct ExValue(serde_json::Value);

/// A clone of a `serde_json::Number` is the same number.
pub assume_specification[ <serde_json::Number as Clone>::clone ](n: &serde_json::Number) -> (c:
    serde_json::Number)
    ensures
        c == *n,
;

/// `serde_json::Error`, why a text could not be read or written.
#[verifier::external_type_specification]
#[verifier::external_body]
pub struct ExError(serde_json::Error);

/// Whether `serde_json::Number::is_f64` is true of a number.
pub uninterp spec fn number_is_float(n: serde_json::Number) -> bool;

/// A JSON value as it is written: its objects name their fields in some order.
#[verifier::ext_equal]
pub enum Layout {
    Null,
    Bool(bool),
    Int(i64),
    Large(u64),
    Number(serde_json::Number),
    Text(Seq<char>),
    List(Seq<Layout>),
    Object(Seq<(Seq<char>, Layout)>),
}

/// What a value says, in whatever order its objects name their fields.
pub open spec fn content(layout: Layout) -> JsonView
    decreases layout,
{
    match layout {
        Layout::Null => JsonView::Null,
        Layout::Bool(b) => JsonView::Bool(b),
        Layout::Int(i) => JsonView::Int(i),
        Layout::Large(n) => JsonView::Large(n),
        Layout::Number(n) => JsonView::Number(n),
        Layout::Text(t) => JsonView::Text(t),
        Layout::List(items) => JsonView::List(
            Seq::new(
                items.len(),
                |i: int|
                    if 0 <= i < items.len() {
                        content(items[i])
                    } else {
                        JsonView::Null
                    },
            ),
        ),
        Layout::Object(fields) => JsonView::Object(
            Map::new(
                |key: Seq<char>| text_map::lists(fields, key),
                |key: Seq<char>|
                    if text_map::lists(fields, key) {
                        content(fields[text_map::place(fields, key)].1)
                    } else {
                        JsonView::Null
                    },
            ),
        ),
    }
}

/// Every object names its fields in the order of their keys.
pub open spec fn in_order(layout: Layout) -> bool
    decreases layout,
{
    match layout {
        Layout::List(items) => forall|i: int|
            0 <= i < items.len() ==> in_order(#[trigger] items[i]),
        Layout::Object(fields) => text_map::in_key_order(fields) && forall|i: int|
            0 <= i < fields.len() ==> in_order((#[trigger] fields[i]).1),
        _ => true,
    }
}

/// The layout of a value whose objects name their fields in the order of their keys.
pub open spec fn sorted(json: JsonView) -> Layout {
    choose|layout: Layout| in_order(layout) && #[trigger] content(layout) == json
}

/// What a `serde_json::Value` holds, its fields in the order in which its maps keep them.
pub uninterp spec fn value_layout(v: serde_json::Value) -> Layout;

/// What a `serde_json::Value` says.
pub open spec fn value_json(v: serde_json::Value) -> JsonView {
    content(value_layout(v))
}

/// What `serde_json::from_str` makes of a text: the value it spells, or the words of the error.
pub uninterp spec fn json_text(text: Seq<char>) -> Result<JsonView, Seq<char>>;

/// The parser reads this value from the text.
pub open spec fn spells(text: Seq<char>, json: JsonView) -> bool {
    json_text(text) == Ok::<JsonView, Seq<char>>(json)
}

/// What `serde_json::to_string` writes for a value, on one line.
pub uninterp spec fn layout_line(layout: Layout) -> Seq<char>;

/// What `serde_json::to_string_pretty` writes for a value, spread over lines.
pub uninterp spec fn layout_pretty(layout: Layout) -> Seq<char>;

/// A value on one line, fields in the order of their keys.
pub open spec fn json_line(json: JsonView) -> Seq<char> {
    layout_line(sorted(json))
}

/// A value spread over lines, fields in the order of their keys.
pub open spec fn json_pretty(json: JsonView) -> Seq<char> {
    layout_pretty(sorted(json))
}

/// A value of at most so many nested lists and objects, whose numbers are whole numbers of 64 bits,
/// with a sign or without.
pub open spec fn plain(json: JsonView, depth: nat) -> bool
    decreases depth,
{
    match json {
        JsonView::Number(_) => false,
        JsonView::List(items) => depth > 0 && forall|i: int|
            0 <= i < items.len() ==> plain(#[trigger] items[i], (depth - 1) as nat),
        JsonView::Object(fields) => depth > 0 && forall|key: Seq<char>|
            fields.contains_key(key) ==> plain(#[trigger] fields[key], (depth - 1) as nat),
        _ => true,
    }
}

/// A whole number that fits in 64 bits without a sign, but not with one.
#[derive(Debug, PartialEq, Eq)]
pub struct LargeInt {
    value: u64,
}

impl View for LargeInt {
    type V = u64;

    closed spec fn view(&self) -> u64 {
        self.value
    }
}

impl LargeInt {
    #[verifier::type_invariant]
    spec fn beyond_i64(self) -> bool {
        self.value > i64::MAX
    }
}

/// A number that is not a whole number of 64 bits.
#[derive(Debug, PartialEq, Eq)]
pub struct OtherNumber {
    number: serde_json::Number,
}

impl View for OtherNumber {
    type V = serde_json::Number;

    closed spec fn view(&self) -> serde_json::Number {
        self.number
    }
}

impl OtherNumber {
    #[verifier::type_invariant]
    spec fn floating(self) -> bool {
        number_is_float(self.number)
    }
}

/// One level of a `serde_json::Value`: which kind of value it is, and what it is made of.
enum Node {
    Null,
    Bool(bool),
    Int(i64),
    Large(u64),
    Number(serde_json::Number),
    Text(String),
    List(Vec<serde_json::Value>),
    Object(Vec<(String, serde_json::Value)>),
}

/// No key stands twice.
pub open spec fn keys_differ(fields: Seq<(String, serde_json::Value)>) -> bool {
    forall|i: int, j: int|
        0 <= i < j < fields.len() ==> (#[trigger] fields[i]).0@ != (#[trigger] fields[j]).0@
}

/// The layouts of the fields of a value, in their order.
pub open spec fn fields_layout(fields: Seq<(String, serde_json::Value)>) -> Seq<
    (Seq<char>, Layout),
> {
    Seq::new(fields.len(), |i: int| (fields[i].0@, value_layout(fields[i].1)))
}

/// One level of a value, and the layouts of what it is made of.
spec fn node_layout(node: Node) -> Layout {
    match node {
        Node::Null => Layout::Null,
        Node::Bool(b) => Layout::Bool(b),
        Node::Int(i) => Layout::Int(i),
        Node::Large(n) => Layout::Large(n),
        Node::Number(n) => Layout::Number(n),
        Node::Text(t) => Layout::Text(t@),
        Node::List(items) => Layout::List(
            Seq::new(items@.len(), |i: int| value_layout(items@[i])),
        ),
        Node::Object(fields) => Layout::Object(fields_layout(fields@)),
    }
}

/// Takes a `serde_json::Value` apart by matching on its variant. A number becomes an integer where
/// `serde_json::Number::as_i64` gives one, and a large one where only `serde_json::Number::as_u64`
/// does: that one lies above the integers with a sign. Of any other number
/// `serde_json::Number::is_f64` is true. The entries of a `serde_json::Map` come out of its
/// `into_iter` in the order in which it keeps them, each key once.
#[verifier::external_body]
fn open_value(value: serde_json::Value) -> (node: Node)
    ensures
        node_layout(node) == value_layout(value),
        node matches Node::Large(n) ==> n > i64::MAX,
        node matches Node::Number(n) ==> number_is_float(n),
        node matches Node::Object(fields) ==> keys_differ(fields@),
{
    match value {
        serde_json::Value::Null => Node::Null,
        serde_json::Value::Bool(b) => Node::Bool(b),
        serde_json::Value::Number(n) => match (n.as_i64(), n.as_u64()) {
            (Some(i), _) => Node::Int(i),
            (None, Some(u)) => Node::Large(u),
            (None, None) => Node::Number(n),
        },
        serde_json::Value::String(t) => Node::Text(t),
        serde_json::Value::Array(items) => Node::List(items),
        serde_json::Value::Object(fields) => Node::Object(fields.into_iter().collect()),
    }
}

/// Makes a `serde_json::Value` of the variant that the node names. The number of an integer is
/// `serde_json::Number::from` of it. A large one has to lie above the integers with a sign, and any
/// other number has to be one of which `serde_json::Number::is_f64` is true. The `serde_json::Map` of an object is collected from its
/// entries, of which no two may have the same key, and keeps them in their order.
#[verifier::external_body]
fn close_value(node: Node) -> (value: serde_json::Value)
    requires
        node matches Node::Large(n) ==> n > i64::MAX,
        node matches Node::Number(n) ==> number_is_float(n),
        node matches Node::Object(fields) ==> keys_differ(fields@),
    ensures
        value_layout(value) == node_layout(node),
{
    match node {
        Node::Null => serde_json::Value::Null,
        Node::Bool(b) => serde_json::Value::Bool(b),
        Node::Int(i) => serde_json::Value::Number(i.into()),
        Node::Large(n) => serde_json::Value::Number(n.into()),
        Node::Number(n) => serde_json::Value::Number(n),
        Node::Text(t) => serde_json::Value::String(t),
        Node::List(items) => serde_json::Value::Array(items),
        Node::Object(fields) => serde_json::Value::Object(fields.into_iter().collect()),
    }
}

/// `serde_json::from_str`: the value or the words of the error depend on the text alone, and are
/// known by that name.
#[verifier::external_body]
fn read_value(text: &str) -> (value: Result<serde_json::Value, String>)
    ensures
        json_text(text@) == (match value {
            Ok(v) => Ok::<JsonView, Seq<char>>(value_json(v)),
            Err(e) => Err::<JsonView, Seq<char>>(e@),
        }),
{
    match serde_json::from_str(text) {
        Ok(value) => Ok(value),
        Err(e) => Err(e.to_string()),
    }
}

/// `serde_json::to_string`. Writing a `serde_json::Value` into memory does not fail: its keys are
/// strings, and a string takes every byte. The text depends on the value alone, the order of
/// its fields among it, and is known by that name. Line feeds inside strings are escaped and none stands between the parts. Every value begins
/// and ends with a letter, a digit, a sign, a quote, a bracket or a brace. Of a plain value that nests
/// no deeper than the parser goes, `serde_json::from_str` reads back the same value.
#[verifier::external_body]
fn write_line(value: &serde_json::Value) -> (text: Result<String, serde_json::Error>)
    ensures
        text is Ok,
        text->Ok_0@ == layout_line(value_layout(*value)),
        !text->Ok_0@.contains('\n'),
        text->Ok_0@.len() > 0,
        !text::white_space(text->Ok_0@[0]),
        !text::white_space(text->Ok_0@.last()),
        plain(value_json(*value), 127) ==> spells(text->Ok_0@, value_json(*value)),
{
    serde_json::to_string(value)
}

/// `serde_json::to_string_pretty`. It does not fail, its text depends on the value alone, and a
/// plain value is read back from it, as with `serde_json::to_string`.
#[verifier::external_body]
fn write_pretty(value: &serde_json::Value) -> (text: Result<String, serde_json::Error>)
    ensures
        text is Ok,
        text->Ok_0@ == layout_pretty(value_layout(*value)),
        plain(value_json(*value), 127) ==> spells(text->Ok_0@, value_json(*value)),
{
    serde_json::to_string_pretty(value)
}

/// Two layouts that say the same, with the fields in the order of their keys, are the same.
proof fn lemma_one_order(a: Layout, b: Layout)
    requires
        in_order(a),
        in_order(b),
        content(a) == content(b),
    ensures
        a == b,
    decreases a,
{
    match (a, b) {
        (Layout::List(x), Layout::List(y)) => {
            let (p, q) = (content(a)->List_0, content(b)->List_0);
            assert(p.len() == x.len() && q.len() == y.len());
            assert forall|i: int| 0 <= i < x.len() implies x[i] == y[i] by {
                assert(p[i] == content(x[i]));
                assert(q[i] == content(y[i]));
                lemma_one_order(x[i], y[i]);
            }
            assert(x =~= y);
        },
        (Layout::Object(x), Layout::Object(y)) => {
            let (p, q) = (content(a)->Object_0, content(b)->Object_0);
            assert forall|key: Seq<char>| text_map::lists(x, key) == text_map::lists(y, key) by {
                assert(p.contains_key(key) == text_map::lists(x, key));
                assert(q.contains_key(key) == text_map::lists(y, key));
            }
            text_map::lemma_same_keys(x, y);
            assert forall|i: int| 0 <= i < x.len() implies x[i] == y[i] by {
                assert(x[i].0 == y[i].0);
                text_map::lemma_only_place(x, i);
                text_map::lemma_only_place(y, i);
                assert(p[x[i].0] == content(x[i].1));
                assert(q[y[i].0] == content(y[i].1));
                lemma_one_order(x[i].1, y[i].1);
            }
            assert(x =~= y);
        },
        _ => {},
    }
}

/// A layout whose fields stand in the order of their keys is the sorted one of what it says.
pub proof fn lemma_sorted(layout: Layout)
    requires
        in_order(layout),
    ensures
        sorted(content(layout)) == layout,
{
    let other = sorted(content(layout));
    assert(in_order(other) && content(other) == content(layout));
    lemma_one_order(other, layout);
}

/// The JSON value that a parsed text holds.
fn from_value(value: serde_json::Value) -> (json: Json)
    ensures
        json@ == value_json(value),
    decreases value_layout(value),
{
    match open_value(value) {
        Node::Null => Json::Null,
        Node::Bool(b) => Json::Bool(b),
        Node::Int(i) => Json::Int(i),
        Node::Large(n) => Json::Large(LargeInt { value: n }),
        Node::Number(n) => Json::Number(OtherNumber { number: n }),
        Node::Text(t) => Json::Text(t),
        Node::List(values) => {
            let ghost all = values@;
            let ghost parts = Seq::new(all.len(), |i: int| value_layout(all[i]));
            let mut items: Vec<Json> = Vec::new();
            for item in it: values
                invariant
                    it.seq() == all,
                    value_layout(value) == Layout::List(parts),
                    parts == Seq::new(all.len(), |i: int| value_layout(all[i])),
                    items@.len() == it.index(),
                    forall|i: int|
                        0 <= i < items@.len() ==> (#[trigger] items@[i])@ == content(parts[i]),
            {
                proof {
                    let i = items@.len() as int;
                    assert(item == all[i]);
                    assert(parts[i] == value_layout(item));
                    assert(decreases_to!(value_layout(value) => value_layout(value)->List_0));
                    assert(decreases_to!(parts => parts[i]));
                }
                items.push(from_value(item));
            }
            proof {
                json::lemma_items_view(items@);
                assert(json::items_view(items@) =~= value_json(value)->List_0);
            }
            Json::List(items)
        },
        Node::Object(entries) => {
            let ghost all = entries@;
            let ghost parts = fields_layout(all);
            let ghost views = value_json(value)->Object_0;
            let mut fields: TextMap<Json> = TextMap::new();
            proof {
                json::lemma_fields_view(fields);
            }
            for entry in it: entries
                invariant
                    it.seq() == all,
                    keys_differ(all),
                    parts == fields_layout(all),
                    value_layout(value) == Layout::Object(parts),
                    value_json(value) == JsonView::Object(views),
                    forall|key: Seq<char>|
                        json::fields_view(fields).contains_key(key) <==> #[trigger] text_map::lists(
                            parts.take(it.index()),
                            key,
                        ),
                    forall|key: Seq<char>| #[trigger]
                        json::fields_view(fields).contains_key(key) ==> views.contains_key(key)
                            && json::fields_view(fields)[key] == views[key],
            {
                let ghost i = it.index();
                let (key, part) = entry;
                proof {
                    assert(all[i] == entry);
                    assert(parts[i] == (key@, value_layout(part)));
                    assert(text_map::lists(parts, key@));
                    let p = text_map::place(parts, key@);
                    assert(parts[p].0 == key@);
                    assert(all[p].0@ == all[i].0@);
                    assert(p == i);
                    assert(views[key@] == value_json(part));
                    assert(decreases_to!(value_layout(value) => value_layout(value)->Object_0));
                    assert(decreases_to!(parts => parts[i]));
                    assert(decreases_to!(parts[i] => parts[i].1));
                }
                let ghost name = key@;
                json::put(&mut fields, key.as_str(), from_value(part));
                proof {
                    assert forall|k: Seq<char>|
                        json::fields_view(fields).contains_key(k) <==> #[trigger] text_map::lists(
                            parts.take(i + 1),
                            k,
                        ) by {
                        let shorter = parts.take(i);
                        let longer = parts.take(i + 1);
                        assert(longer[i] == parts[i]);
                        if text_map::lists(shorter, k) {
                            let p = text_map::place(shorter, k);
                            assert(longer[p] == shorter[p]);
                        }
                        if text_map::lists(longer, k) && k != name {
                            let p = text_map::place(longer, k);
                            assert(shorter[p] == longer[p]);
                        }
                    }
                }
            }
            proof {
                assert(parts.take(all.len() as int) == parts);
                assert(json::fields_view(fields) =~= views);
            }
            Json::Object(fields)
        },
    }
}

/// The parsed form of a JSON value, its fields in the order of their keys.
pub(crate) fn to_value(json: &Json) -> (value: serde_json::Value)
    ensures
        value_layout(value) == sorted(json@),
        value_json(value) == json@,
{
    let value = ordered_value(json);
    proof {
        lemma_sorted(value_layout(value));
    }
    value
}

/// The parsed form of a JSON value, its fields in the order of their keys.
fn ordered_value(json: &Json) -> (value: serde_json::Value)
    ensures
        value_json(value) == json@,
        in_order(value_layout(value)),
    decreases json,
{
    match json {
        Json::Null => close_value(Node::Null),
        Json::Bool(b) => close_value(Node::Bool(*b)),
        Json::Int(i) => close_value(Node::Int(*i)),
        Json::Large(n) => {
            proof {
                use_type_invariant(n);
            }
            close_value(Node::Large(n.value))
        },
        Json::Number(n) => {
            proof {
                use_type_invariant(n);
            }
            close_value(Node::Number(n.number.clone()))
        },
        Json::Text(t) => close_value(Node::Text(t.clone())),
        Json::List(items) => {
            let mut values: Vec<serde_json::Value> = Vec::new();
            for i in 0..items.len()
                invariant
                    *json == Json::List(*items),
                    values@.len() == i,
                    forall|j: int|
                        0 <= j < i ==> {
                            &&& value_json(#[trigger] values@[j]) == items@[j]@
                            &&& in_order(value_layout(values@[j]))
                        },
            {
                proof {
                    assert(decreases_to!(*json => json->List_0));
                    assert(decreases_to!(items => items@));
                    assert(decreases_to!(items@ => items@[i as int]));
                }
                values.push(ordered_value(&items[i]));
            }
            let ghost all = values@;
            let value = close_value(Node::List(values));
            proof {
                json::lemma_items_view(items@);
                let parts = Seq::new(all.len(), |i: int| value_layout(all[i]));
                assert(value_layout(value) == Layout::List(parts));
                assert forall|i: int| 0 <= i < parts.len() implies in_order(#[trigger] parts[i]) by {
                    assert(in_order(value_layout(all[i])));
                }
                assert(value_json(value)->List_0 =~= json::items_view(items@));
            }
            value
        },
        Json::Object(fields) => {
            let mut entries: Vec<(String, serde_json::Value)> = Vec::new();
            let n = fields.len();
            proof {
                text_map::lemma_entries(*fields);
            }
            for i in 0..n
                invariant
                    *json == Json::Object(*fields),
                    n == fields.entries().len(),
                    text_map::ordered(fields.entries()),
                    entries@.len() == i,
                    forall|j: int|
                        0 <= j < i ==> {
                            &&& (#[trigger] entries@[j]).0@ == fields.entries()[j].0@
                            &&& value_json(entries@[j].1) == fields.entries()[j].1@
                            &&& in_order(value_layout(entries@[j].1))
                        },
            {
                let (key, part) = fields.entry(i);
                proof {
                    text_map::lemma_entries(*fields);
                    assert(decreases_to!(*json => json->Object_0));
                    text_map::lemma_value_smaller(*fields, key@);
                }
                entries.push((key.clone(), ordered_value(part)));
            }
            let ghost all = entries@;
            let ghost parts = fields_layout(all);
            proof {
                assert forall|i: int, j: int| 0 <= i < j < n implies text_map::before(
                    (#[trigger] parts[i]).0,
                    (#[trigger] parts[j]).0,
                ) by {
                    assert(all[i].0@ == fields.entries()[i].0@);
                    assert(all[j].0@ == fields.entries()[j].0@);
                }
                assert forall|i: int, j: int| 0 <= i < j < n implies (#[trigger] all[i]).0@ != (
                #[trigger] all[j]).0@ by {
                    assert(text_map::before(parts[i].0, parts[j].0));
                    text_map::lemma_before_irreflexive(parts[j].0);
                }
            }
            let value = close_value(Node::Object(entries));
            proof {
                assert(value_layout(value) == Layout::Object(parts));
                assert forall|i: int| 0 <= i < parts.len() implies in_order((#[trigger] parts[i]).1) by {
                    assert(in_order(value_layout(all[i].1)));
                }
                let held = json::fields_view(*fields);
                let views = value_json(value)->Object_0;
                json::lemma_fields_view(*fields);
                assert forall|key: Seq<char>| views.contains_key(key) == held.contains_key(key) by {
                    if held.contains_key(key) {
                        let p = text_map::position(fields.entries(), key);
                        assert(all[p].0@ == fields.entries()[p].0@);
                        assert(parts[p].0 == key);
                    }
                    if views.contains_key(key) {
                        let p = text_map::place(parts, key);
                        assert(parts[p].0 == key);
                        assert(all[p].0@ == fields.entries()[p].0@);
                        assert(fields.entries()[p].0@ == key);
                    }
                }
                assert forall|key: Seq<char>| views.contains_key(key) implies views[key]
                    == held[key] by {
                    let p = text_map::place(parts, key);
                    assert(parts[p].0 == key);
                    assert(all[p].0@ == fields.entries()[p].0@);
                    assert(fields.entries()[p].0@ == key);
                }
                assert(views =~= held);
            }
            value
        },
    }
}

/// The parsed form of an object, its fields in the order in which they are given.
pub(crate) fn object_value(fields: Vec<(String, serde_json::Value)>) -> (value: serde_json::Value)
    requires
        keys_differ(fields@),
    ensures
        value_layout(value) == Layout::Object(fields_layout(fields@)),
{
    close_value(Node::Object(fields))
}

/// What reading a JSON text gives, as the names of the outside parser say it.
pub open spec fn outcome(json: Result<Json, String>) -> Result<JsonView, Seq<char>> {
    match json {
        Ok(j) => Ok(j@),
        Err(e) => Err(e@),
    }
}

/// Reads a JSON text.
pub fn parse(text: &str) -> (json: Result<Json, String>)
    ensures
        outcome(json) == json_text(text@),
{
    match read_value(text) {
        Ok(value) => Ok(from_value(value)),
        Err(e) => Err(e),
    }
}

/// Writes a JSON value on one line.
pub fn line_of(json: &Json) -> (text: String)
    ensures
        text@ == json_line(json@),
        !text@.contains('\n'),
        text@.len() > 0,
        !text::white_space(text@[0]),
        !text::white_space(text@.last()),
        plain(json@, 127) ==> spells(text@, json@),
{
    write_line(&to_value(json)).unwrap()
}

/// Writes a JSON value spread over lines.
pub fn pretty_of(json: &Json) -> (text: String)
    ensures
        text@ == json_pretty(json@),
        plain(json@, 127) ==> spells(text@, json@),
{
    pretty_value(&to_value(json))
}

/// Writes a value spread over lines, its fields in the order that it keeps.
pub(crate) fn pretty_value(value: &serde_json::Value) -> (text: String)
    ensures
        text@ == layout_pretty(value_layout(*value)),
        plain(value_json(*value), 127) ==> spells(text@, value_json(*value)),
{
    write_pretty(value).unwrap()
}

/// What a layout says does not depend on the order of its fields: each is found under its key, and a key
/// that no field has is not found. The items of a list are said in their order.
pub proof fn layouts_say_their_fields(
    fields: Seq<(Seq<char>, Layout)>,
    items: Seq<Layout>,
    i: int,
    key: Seq<char>,
)
    requires
        forall|j: int, k: int|
            0 <= j < k < fields.len() ==> (#[trigger] fields[j]).0 != (#[trigger] fields[k]).0,
    ensures
        0 <= i < fields.len() ==> content(Layout::Object(fields)).get(fields[i].0) == Some(
            content(fields[i].1),
        ),
        (forall|j: int| 0 <= j < fields.len() ==> (#[trigger] fields[j]).0 != key) ==> content(
            Layout::Object(fields),
        ).get(key) is None,
        content(Layout::List(items)) matches JsonView::List(said) && said.len() == items.len() && (0 <= i
            < items.len() ==> said[i] == content(items[i])),
{
    if 0 <= i < fields.len() {
        assert(text_map::lists(fields, fields[i].0));
        let p = text_map::place(fields, fields[i].0);
        assert(fields[p].0 == fields[i].0);
        assert(p == i);
    }
}

/// What a layout of a scalar says is that scalar.
pub proof fn layouts_say_their_scalars(b: bool, i: i64, n: u64, x: serde_json::Number, t: Seq<char>)
    ensures
        content(Layout::Null) == JsonView::Null,
        content(Layout::Bool(b)) == JsonView::Bool(b),
        content(Layout::Int(i)) == JsonView::Int(i),
        content(Layout::Large(n)) == JsonView::Large(n),
        content(Layout::Number(x)) == JsonView::Number(x),
        content(Layout::Text(t)) == JsonView::Text(t),
{
}

/// Whole numbers, texts, truth values and `null` are plain at any depth, and lists and objects of plain
/// values are plain one level further out.
pub proof fn plain_values_nest(
    i: i64,
    n: u64,
    b: bool,
    t: Seq<char>,
    items: Seq<JsonView>,
    fields: Map<Seq<char>, JsonView>,
    depth: nat,
)
    ensures
        plain(JsonView::Null, depth),
        plain(JsonView::Bool(b), depth),
        plain(JsonView::Int(i), depth),
        plain(JsonView::Large(n), depth),
        plain(JsonView::Text(t), depth),
        (forall|j: int| 0 <= j < items.len() ==> plain(#[trigger] items[j], depth)) ==> plain(
            JsonView::List(items),
            depth + 1,
        ),
        (forall|key: Seq<char>| fields.contains_key(key) ==> plain(#[trigger] fields[key], depth))
            ==> plain(JsonView::Object(fields), depth + 1),
{
}

/// What reading gives is the value that was read, or the words of the error.
pub proof fn outcomes_are_what_was_read(json: Json, words: String)
    ensures
        outcome(Ok(json)) == Ok::<JsonView, Seq<char>>(json@),
        outcome(Err(words)) == Err::<JsonView, Seq<char>>(words@),
{
}

/// A value is written with the fields of its objects in the order of their keys, whatever order they were
/// put in.
pub proof fn fields_are_written_in_key_order(
    fields: Seq<(Seq<char>, Layout)>,
    items: Seq<Layout>,
    t: Seq<char>,
    i: i64,
)
    requires
        forall|j: int, k: int|
            0 <= j < k < fields.len() ==> text_map::before(
                (#[trigger] fields[j]).0,
                (#[trigger] fields[k]).0,
            ),
        forall|j: int| 0 <= j < fields.len() ==> in_order((#[trigger] fields[j]).1),
        forall|j: int| 0 <= j < items.len() ==> in_order(#[trigger] items[j]),
    ensures
        json_line(content(Layout::Object(fields))) == layout_line(Layout::Object(fields)),
        json_pretty(content(Layout::Object(fields))) == layout_pretty(Layout::Object(fields)),
        json_line(content(Layout::List(items))) == layout_line(Layout::List(items)),
        json_pretty(content(Layout::List(items))) == layout_pretty(Layout::List(items)),
        json_line(JsonView::Text(t)) == layout_line(Layout::Text(t)),
        json_line(JsonView::Int(i)) == layout_line(Layout::Int(i)),
        in_order(Layout::Object(fields)),
        in_order(Layout::List(items)),
{
    lemma_sorted(Layout::Object(fields));
    lemma_sorted(Layout::List(items));
    lemma_sorted(Layout::Text(t));
    lemma_sorted(Layout::Int(i));
}

}
