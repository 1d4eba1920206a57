//! JSON values: what they are, and how their parts are read and put together.
use vstd::prelude::*;
use vstd::string::*;

use crate::codec::{LargeInt, OtherNumber};
use crate::text;
use crate::text_map;
use crate::text_map::TextMap;

verus! {

/// A JSON value.
#[derive(Debug, PartialEq, Eq)]
pub enum Json {
    Null,
    Bool(bool),
    /// A whole number that fits in 64 bits with its sign.
    Int(i64),
    /// A larger whole number, which fits in 64 bits without a sign.
    Large(LargeInt),
    /// Any other number.
    Number(OtherNumber),
    Text(String),
    List(Vec<Json>),
    Object(TextMap<Json>),
}

/// What a JSON value says.
#[verifier::ext_equal]
pub enum JsonView {
    Null,
    Bool(bool),
    Int(i64),
    Large(u64),
    Number(serde_json::Number),
    Text(Seq<char>),
    List(Seq<JsonView>),
    Object(Map<Seq<char>, JsonView>),
}

impl View for Json {
    type V = JsonView;

    open spec fn view(&self) -> JsonView {
        json_view(*self)
    }
}

/// What a JSON value says.
pub open spec fn json_view(json: Json) -> JsonView
    decreases json,
{
    match json {
        Json::Null => JsonView::Null,
        Json::Bool(b) => JsonView::Bool(b),
        Json::Int(i) => JsonView::Int(i),
        Json::Large(n) => JsonView::Large(n@),
        Json::Number(n) => JsonView::Number(n@),
        Json::Text(t) => JsonView::Text(t@),
        Json::List(items) => JsonView::List(items_view(items@)),
        Json::Object(fields) => JsonView::Object(fields_view(fields)),
    }
}

/// What the items of a list say, one by one.
pub open spec fn items_view(items: Seq<Json>) -> Seq<JsonView>
    decreases items,
{
    if items.len() == 0 {
        Seq::empty()
    } else {
        items_view(items.drop_last()).push(json_view(items.last()))
    }
}

/// What the fields of an object say, key by key.
pub closed spec fn fields_view(fields: TextMap<Json>) -> Map<Seq<char>, JsonView>
    decreases fields,
{
    proof {
        assert forall|key: Seq<char>| fields@.contains_key(key) implies decreases_to!(fields => #[trigger] fields@[key]) by {
            text_map::lemma_value_smaller(fields, key);
        }
    }
    Map::new(
        |key: Seq<char>| fields@.contains_key(key),
        |key: Seq<char>|
            if fields@.contains_key(key) {
                json_view(fields@[key])
            } else {
                JsonView::Null
            },
    )
}

/// The view of a list has an item for each of its items.
pub proof fn lemma_items_view(items: Seq<Json>)
    ensures
        items_view(items).len() == items.len(),
        forall|i: int| 0 <= i < items.len() ==> #[trigger] items_view(items)[i] == items[i]@,
    decreases items.len(),
{
    if items.len() > 0 {
        lemma_items_view(items.drop_last());
        assert forall|i: int| 0 <= i < items.len() implies #[trigger] items_view(items)[i]
            == items[i]@ by {
            if i < items.len() - 1 {
                assert(items_view(items.drop_last())[i] == items.drop_last()[i]@);
            }
        }
    }
}

/// The fields of an object are viewed key by key.
pub proof fn lemma_fields_view(fields: TextMap<Json>)
    ensures
        fields_view(fields).dom() == fields@.dom(),
        forall|key: Seq<char>|
            fields@.contains_key(key) ==> #[trigger] fields_view(fields)[key] == fields@[key]@,
{
    assert(fields_view(fields).dom() =~= fields@.dom());
}

impl JsonView {
    /// The field of an object under a key.
    pub open spec fn get(self, key: Seq<char>) -> Option<JsonView> {
        match self {
            JsonView::Object(fields) => if fields.contains_key(key) {
                Some(fields[key])
            } else {
                None
            },
            _ => None,
        }
    }

    /// The text that this is.
    pub open spec fn text(self) -> Option<Seq<char>> {
        match self {
            JsonView::Text(t) => Some(t),
            _ => None,
        }
    }

    /// The whole number that this is, where 64 bits with a sign hold it.
    pub open spec fn whole(self) -> Option<i64> {
        match self {
            JsonView::Int(i) => Some(i),
            _ => None,
        }
    }

    /// The truth value that this is.
    pub open spec fn flag(self) -> Option<bool> {
        match self {
            JsonView::Bool(b) => Some(b),
            _ => None,
        }
    }

    /// The field under a key, where it is a text.
    pub open spec fn text_at(self, key: Seq<char>) -> Option<Seq<char>> {
        match self.get(key) {
            Some(field) => field.text(),
            None => None,
        }
    }

    /// The field under a key, where it is a whole number.
    pub open spec fn int_at(self, key: Seq<char>) -> Option<i64> {
        match self.get(key) {
            Some(field) => field.whole(),
            None => None,
        }
    }
}

/// A JSON value that may be missing, as what it says.
pub open spec fn opt_json(json: Option<&Json>) -> Option<JsonView> {
    match json {
        Some(j) => Some(j@),
        None => None,
    }
}

impl Json {
    /// The object with no field.
    pub fn empty() -> (json: Json)
        ensures
            json@ == JsonView::Object(Map::empty()),
    {
        Json::Object(no_fields())
    }

    /// The JSON value that is a text.
    pub fn text(t: &str) -> (json: Json)
        ensures
            json@ == JsonView::Text(t@),
    {
        Json::Text(t.to_string())
    }

    /// Whether this is `null`.
    pub fn is_null(&self) -> (null: bool)
        ensures
            null == (self@ == JsonView::Null),
    {
        match self {
            Json::Null => true,
            _ => false,
        }
    }

    /// The field under a key; `None` where there is none, or this is no object.
    pub fn get(&self, key: &str) -> (field: Option<&Json>)
        ensures
            opt_json(field) == self@.get(key@),
    {
        match self {
            Json::Object(fields) => {
                proof {
                    lemma_fields_view(*fields);
                }
                fields.get(key)
            },
            _ => None,
        }
    }

    /// The text that this is.
    pub fn as_str(&self) -> (t: Option<&str>)
        ensures
            text::opt_text(t) == self@.text(),
    {
        match self {
            Json::Text(t) => Some(t.as_str()),
            _ => None,
        }
    }

    /// The whole number that this is, where 64 bits with a sign hold it.
    pub fn as_i64(&self) -> (i: Option<i64>)
        ensures
            i == self@.whole(),
    {
        match self {
            Json::Int(i) => Some(*i),
            _ => None,
        }
    }

    /// The truth value that this is.
    pub fn as_bool(&self) -> (b: Option<bool>)
        ensures
            b == self@.flag(),
    {
        match self {
            Json::Bool(b) => Some(*b),
            _ => None,
        }
    }

    /// The field under a key, where it is a text.
    pub fn text_at(&self, key: &str) -> (t: Option<&str>)
        ensures
            text::opt_text(t) == self@.text_at(key@),
    {
        match self.get(key) {
            Some(field) => field.as_str(),
            None => None,
        }
    }

    /// The field under a key, where it is a whole number.
    pub fn int_at(&self, key: &str) -> (i: Option<i64>)
        ensures
            i == self@.int_at(key@),
    {
        match self.get(key) {
            Some(field) => field.as_i64(),
            None => None,
        }
    }

    /// Takes the field under a key out of an object.
    pub fn take(&mut self, key: &str) -> (field: Option<Json>)
        ensures
            match field {
                Some(f) => old(self)@.get(key@) == Some(f@),
                None => old(self)@.get(key@) is None,
            },
            final(self)@ == old(self)@.without(key@),
    {
        match self {
            Json::Object(fields) => {
                let ghost whole = *fields;
                let field = fields.remove(key);
                proof {
                    lemma_fields_view(whole);
                    lemma_fields_view(*fields);
                    assert(fields_view(*fields) =~= fields_view(whole).remove(key@));
                }
                field
            },
            _ => None,
        }
    }
}

/// The fields of an object that has none yet.
pub fn no_fields() -> (fields: TextMap<Json>)
    ensures
        fields_view(fields) == Map::<Seq<char>, JsonView>::empty(),
{
    let fields: TextMap<Json> = TextMap::new();
    proof {
        lemma_fields_view(fields);
        assert(fields_view(fields) =~= Map::empty());
    }
    fields
}

/// Puts a field into an object's fields.
pub fn put(fields: &mut TextMap<Json>, key: &str, value: Json)
    ensures
        fields_view(*final(fields)) == fields_view(*old(fields)).insert(key@, value@),
{
    let ghost whole = *fields;
    fields.insert(key.to_string(), value);
    proof {
        lemma_fields_view(whole);
        lemma_fields_view(*fields);
        assert(fields_view(*fields) =~= fields_view(whole).insert(key@, value@));
    }
}

impl JsonView {
    /// An object without the field under a key; any other value as it is.
    pub open spec fn without(self, key: Seq<char>) -> JsonView {
        match self {
            JsonView::Object(fields) => JsonView::Object(fields.remove(key)),
            _ => self,
        }
    }
}

/// Fields with one more, where it has a value.
pub open spec fn with_field(
    fields: Map<Seq<char>, JsonView>,
    key: Seq<char>,
    value: Option<JsonView>,
) -> Map<Seq<char>, JsonView> {
    match value {
        Some(v) => fields.insert(key, v),
        None => fields,
    }
}

/// A text as a JSON value, where there is one.
pub open spec fn text_json(t: Option<Seq<char>>) -> Option<JsonView> {
    match t {
        Some(t) => Some(JsonView::Text(t)),
        None => None,
    }
}

/// Puts a text into an object's fields, where there is one.
pub fn put_text(fields: &mut TextMap<Json>, key: &str, value: Option<String>)
    ensures
        fields_view(*final(fields)) == with_field(
            fields_view(*old(fields)),
            key@,
            text_json(text::opt_string(value)),
        ),
{
    match value {
        Some(t) => {
            put(fields, key, Json::Text(t));
        },
        None => {},
    }
}

/// A field that was put into an object is found under its key, one that was taken out is not found,
/// and neither changes what is found under another key.
pub proof fn fields_are_found_under_their_keys(
    fields: Map<Seq<char>, JsonView>,
    key: Seq<char>,
    value: JsonView,
    other: Seq<char>,
)
    requires
        other != key,
    ensures
        JsonView::Object(fields.insert(key, value)).get(key) == Some(value),
        JsonView::Object(fields.remove(key)).get(key) is None,
        JsonView::Object(fields.insert(key, value)).get(other) == JsonView::Object(fields).get(other),
        JsonView::Object(fields.remove(key)).get(other) == JsonView::Object(fields).get(other),
        JsonView::Object(Map::empty()).get(key) is None,
{
}

/// Only an object has fields.
pub proof fn only_objects_have_fields(value: JsonView, key: Seq<char>)
    requires
        !(value is Object),
    ensures
        value.get(key) is None,
        value.text_at(key) is None,
        value.int_at(key) is None,
        value.without(key) == value,
{
}

/// A text is found under a key where a text was put there, a whole number where one was put there, and
/// neither of them where anything else was put there.
pub proof fn typed_fields_are_found(
    fields: Map<Seq<char>, JsonView>,
    key: Seq<char>,
    t: Seq<char>,
    i: i64,
    value: JsonView,
)
    ensures
        JsonView::Object(fields.insert(key, JsonView::Text(t))).text_at(key) == Some(t),
        JsonView::Object(fields.insert(key, JsonView::Int(i))).int_at(key) == Some(i),
        !(value is Text) ==> JsonView::Object(fields.insert(key, value)).text_at(key) is None,
        !(value is Int) ==> JsonView::Object(fields.insert(key, value)).int_at(key) is None,
        JsonView::Object(fields.remove(key)).text_at(key) is None,
        JsonView::Object(fields.remove(key)).int_at(key) is None,
        JsonView::Object(fields).without(key) == JsonView::Object(fields.remove(key)),
{
}

/// A text or a whole number under a key is the field under that key, where it is of that kind.
pub proof fn typed_fields_are_fields(value: JsonView, key: Seq<char>)
    ensures
        value.text_at(key) == (match value.get(key) {
            Some(JsonView::Text(t)) => Some(t),
            _ => None,
        }),
        value.int_at(key) == (match value.get(key) {
            Some(JsonView::Int(i)) => Some(i),
            _ => None,
        }),
{
}

/// A value is a text, a whole number or a truth value where it was made as one, and else it is not.
pub proof fn scalars_are_what_they_were_made_as(t: Seq<char>, i: i64, b: bool, value: JsonView)
    ensures
        JsonView::Text(t).text() == Some(t),
        JsonView::Int(i).whole() == Some(i),
        JsonView::Bool(b).flag() == Some(b),
        !(value is Text) ==> value.text() is None,
        !(value is Int) ==> value.whole() is None,
        !(value is Bool) ==> value.flag() is None,
{
}

/// A field with a value is put under its key, and one without changes nothing.
pub proof fn optional_fields_are_put_where_they_have_a_value(
    fields: Map<Seq<char>, JsonView>,
    key: Seq<char>,
    value: JsonView,
    t: Seq<char>,
)
    ensures
        with_field(fields, key, Some(value)) == fields.insert(key, value),
        with_field(fields, key, None) == fields,
        text_json(Some(t)) == Some(JsonView::Text(t)),
        text_json(None) is None,
{
}

/// A JSON value says what it holds: the same scalar, the same text, the items of a list in their order
/// and the fields of an object under their keys.
pub proof fn values_say_what_they_hold(
    b: bool,
    i: i64,
    t: String,
    items: Vec<Json>,
    fields: TextMap<Json>,
    n: int,
    key: Seq<char>,
)
    ensures
        Json::Null@ == JsonView::Null,
        Json::Bool(b)@ == JsonView::Bool(b),
        Json::Int(i)@ == JsonView::Int(i),
        Json::Text(t)@ == JsonView::Text(t@),
        Json::List(items)@ matches JsonView::List(said) && said.len() == items@.len() && (0 <= n
            < items@.len() ==> said[n] == items@[n]@),
        Json::Object(fields)@.get(key) == (if fields@.contains_key(key) {
            Some(fields@[key]@)
        } else {
            None
        }),
        opt_json(None) is None,
        0 <= n < items@.len() ==> opt_json(Some(&items@[n])) == Some(items@[n]@),
{
    lemma_items_view(items@);
    lemma_fields_view(fields);
}

}
