//! The keyring: one identity for each gateway, that of its owner or that of a visitor.
use vstd::prelude::*;
use vstd::string::*;

use crate::codec;
use crate::codec::Layout;
use crate::json;
use crate::json::{Json, JsonView};
use crate::text;
use crate::text_map;
use crate::text_map::TextMap;
use crate::url;
use crate::url::{AgentUrl, UrlView};

verus! {

/// The name under which a gateway's identity is kept: the gateway's id behind a relay, the host and
/// the port where it is dialled directly.
pub open spec fn gateway_key_view(url: UrlView) -> Seq<char> {
    match url.relay_target {
        Some(id) => id,
        None => url.relay_host + ":"@ + text::decimal(url.port as nat),
    }
}

/// The name under which a gateway's identity is kept.
pub fn gateway_key(u: &AgentUrl) -> (key: String)
    ensures
        key@ == gateway_key_view(u@),
{
    match &u.relay_target {
        Some(id) => id.clone(),
        None => {
            let mut key = u.relay_host.clone();
            key.append(":");
            key.append(text::decimal_of(u.port as u64).as_str());
            key
        },
    }
}

/// Who this client is to a gateway.
#[derive(Debug, PartialEq, Eq)]
pub struct StoredIdentity {
    /// The token that the gateway gave; none while a request for access is still open.
    pub token: Option<String>,
    /// The name of the device, or of the visitor.
    pub name: String,
    /// `owner` or `visitor`.
    pub role: String,
    /// The request for access that is still open.
    pub pending_request_id: Option<String>,
    /// When this was stored, in seconds.
    pub saved_at: i64,
}

/// Who this client is to a gateway.
#[verifier::ext_equal]
pub struct IdentityView {
    pub token: Option<Seq<char>>,
    pub name: Seq<char>,
    pub role: Seq<char>,
    pub pending_request_id: Option<Seq<char>>,
    pub saved_at: i64,
}

impl View for StoredIdentity {
    type V = IdentityView;

    open spec fn view(&self) -> IdentityView {
        IdentityView {
            token: text::opt_string(self.token),
            name: self.name@,
            role: self.role@,
            pending_request_id: text::opt_string(self.pending_request_id),
            saved_at: self.saved_at,
        }
    }
}

impl Clone for StoredIdentity {
    fn clone(&self) -> (copy: Self)
        ensures
            copy@ == self@,
    {
        StoredIdentity {
            token: match &self.token {
                Some(t) => Some(t.clone()),
                None => None,
            },
            name: self.name.clone(),
            role: self.role.clone(),
            pending_request_id: match &self.pending_request_id {
                Some(id) => Some(id.clone()),
                None => None,
            },
            saved_at: self.saved_at,
        }
    }
}

/// The identities that are kept.
#[derive(Debug, PartialEq, Eq)]
pub struct TokenStore {
    pub gateways: TextMap<StoredIdentity>,
}

impl View for TokenStore {
    type V = Map<Seq<char>, IdentityView>;

    open spec fn view(&self) -> Map<Seq<char>, IdentityView> {
        self.gateways@.map_values(|identity: StoredIdentity| identity@)
    }
}

impl Default for TokenStore {
    fn default() -> (store: Self)
        ensures
            store@ == Map::<Seq<char>, IdentityView>::empty(),
    {
        let store = TokenStore { gateways: TextMap::new() };
        assert(store@ =~= Map::<Seq<char>, IdentityView>::empty());
        store
    }
}

/// What is written of an identity: what it lacks is left out.
pub open spec fn identity_json(identity: IdentityView) -> JsonView {
    let fields = Map::empty();
    let fields = json::with_field(fields, "token"@, json::text_json(identity.token));
    let fields = fields.insert("name"@, JsonView::Text(identity.name));
    let fields = fields.insert("role"@, JsonView::Text(identity.role));
    let fields = json::with_field(
        fields,
        "pending_request_id"@,
        json::text_json(identity.pending_request_id),
    );
    JsonView::Object(fields.insert("saved_at"@, JsonView::Int(identity.saved_at)))
}

/// What is written of a store.
pub open spec fn store_json(store: Map<Seq<char>, IdentityView>) -> JsonView {
    JsonView::Object(
        map![
            "gateways"@ => JsonView::Object(
                store.map_values(|identity: IdentityView| identity_json(identity)),
            ),
        ],
    )
}

/// The parts of an identity with one more, where there is one.
pub open spec fn with_part(parts: Seq<(Seq<char>, Layout)>, key: Seq<char>, t: Option<Seq<char>>) -> Seq<
    (Seq<char>, Layout),
> {
    match t {
        Some(t) => parts.push((key, Layout::Text(t))),
        None => parts,
    }
}

/// The parts of an identity as they are written: the token, the name, the role, the open request and
/// the time, in this order.
pub open spec fn identity_parts(identity: IdentityView) -> Seq<(Seq<char>, Layout)> {
    let parts = with_part(Seq::empty(), "token"@, identity.token);
    let parts = parts.push(("name"@, Layout::Text(identity.name)));
    let parts = parts.push(("role"@, Layout::Text(identity.role)));
    let parts = with_part(parts, "pending_request_id"@, identity.pending_request_id);
    parts.push(("saved_at"@, Layout::Int(identity.saved_at)))
}

/// A store as it is written: the gateways in the order of their keys, and of each identity the parts
/// in their order.
pub open spec fn store_layout(store: Map<Seq<char>, IdentityView>) -> Layout {
    Layout::Object(
        seq![
            (
                "gateways"@,
                Layout::Object(
                    text_map::listed(
                        store.map_values(
                            |identity: IdentityView| Layout::Object(identity_parts(identity)),
                        ),
                    ),
                ),
            ),
        ],
    )
}

/// A text that may be left out or `null`. `None` where it is anything else.
pub open spec fn optional_text(value: Option<JsonView>) -> Option<Option<Seq<char>>> {
    match value {
        None => Some(None),
        Some(JsonView::Null) => Some(None),
        Some(JsonView::Text(t)) => Some(Some(t)),
        Some(_) => None,
    }
}

/// The identity that five parts make up.
pub open spec fn identity_of(
    token: Option<JsonView>,
    name: Option<JsonView>,
    role: Option<JsonView>,
    pending: Option<JsonView>,
    saved_at: Option<JsonView>,
) -> Option<IdentityView> {
    match (optional_text(token), name, role, optional_text(pending), saved_at) {
        (
            Some(token),
            Some(JsonView::Text(name)),
            Some(JsonView::Text(role)),
            Some(pending_request_id),
            Some(JsonView::Int(saved_at)),
        ) => Some(IdentityView { token, name, role, pending_request_id, saved_at }),
        _ => None,
    }
}

/// The identity that a JSON value spells: an object of its fields, or the list of all five in their
/// order.
pub open spec fn read_identity(value: JsonView) -> Option<IdentityView> {
    match value {
        JsonView::Object(_) => identity_of(
            value.get("token"@),
            value.get("name"@),
            value.get("role"@),
            value.get("pending_request_id"@),
            value.get("saved_at"@),
        ),
        JsonView::List(parts) => if parts.len() == 5 {
            identity_of(
                Some(parts[0]),
                Some(parts[1]),
                Some(parts[2]),
                Some(parts[3]),
                Some(parts[4]),
            )
        } else {
            None
        },
        _ => None,
    }
}

/// The identities that a JSON object spells, one under each key.
pub open spec fn read_gateways(value: JsonView) -> Option<Map<Seq<char>, IdentityView>> {
    match value {
        JsonView::Object(entries) => if forall|key: Seq<char>|
            entries.contains_key(key) ==> read_identity(#[trigger] entries[key]) is Some {
            Some(entries.map_values(|entry: JsonView| read_identity(entry)->Some_0))
        } else {
            None
        },
        _ => None,
    }
}

/// The store that a JSON value spells. A store that names no gateways has none.
pub open spec fn read_store(value: JsonView) -> Option<Map<Seq<char>, IdentityView>> {
    match value {
        JsonView::Object(_) => match value.get("gateways"@) {
            Some(gateways) => read_gateways(gateways),
            None => Some(Map::empty()),
        },
        JsonView::List(parts) => if parts.len() == 0 {
            Some(Map::empty())
        } else if parts.len() == 1 {
            read_gateways(parts[0])
        } else {
            None
        },
        _ => None,
    }
}

/// No two parts have the same key.
spec fn parts_differ(parts: Seq<(Seq<char>, Layout)>) -> bool {
    forall|i: int, j: int|
        0 <= i < j < parts.len() ==> (#[trigger] parts[i]).0 != (#[trigger] parts[j]).0
}

/// What an object of these parts says.
spec fn parts_json(parts: Seq<(Seq<char>, Layout)>) -> Map<Seq<char>, JsonView> {
    codec::content(Layout::Object(parts))->Object_0
}

/// What one more part adds.
proof fn lemma_one_more_part(parts: Seq<(Seq<char>, Layout)>, key: Seq<char>, part: Layout)
    requires
        parts_differ(parts),
        !parts_json(parts).contains_key(key),
    ensures
        parts_differ(parts.push((key, part))),
        parts_json(parts.push((key, part))) == parts_json(parts).insert(key, codec::content(part)),
{
    let longer = parts.push((key, part));
    let (old_map, new_map) = (parts_json(parts), parts_json(longer));
    assert(longer[parts.len() as int].0 == key);
    assert forall|i: int| 0 <= i < parts.len() implies (#[trigger] parts[i]).0 != key by {
        if parts[i].0 == key {
            assert(text_map::lists(parts, key));
        }
    }
    assert forall|k: Seq<char>| text_map::lists(longer, k) <==> k == key || text_map::lists(parts, k) by {
        if text_map::lists(parts, k) {
            assert(longer[text_map::place(parts, k)].0 == k);
        }
        if text_map::lists(longer, k) && k != key {
            assert(parts[text_map::place(longer, k)].0 == k);
        }
    }
    assert forall|k: Seq<char>| text_map::lists(longer, k) implies new_map[k] == old_map.insert(
        key,
        codec::content(part),
    )[k] by {
        let p = text_map::place(longer, k);
        assert(longer[p].0 == k);
        if k != key {
            let q = text_map::place(parts, k);
            assert(parts[p].0 == k && parts[q].0 == k);
            assert(p == q);
        }
    }
    assert(new_map =~= old_map.insert(key, codec::content(part)));
}

/// The parts of an identity have keys of their own, and say what is written of it.
proof fn lemma_identity_parts(identity: IdentityView)
    ensures
        parts_differ(identity_parts(identity)),
        codec::content(Layout::Object(identity_parts(identity))) == identity_json(identity),
{
    lemma_identity_keys();
    let none: Seq<(Seq<char>, Layout)> = Seq::empty();
    assert(parts_json(none) =~= Map::empty());
    if identity.token is Some {
        lemma_one_more_part(none, "token"@, Layout::Text(identity.token->0));
    }
    let p1 = with_part(none, "token"@, identity.token);
    lemma_one_more_part(p1, "name"@, Layout::Text(identity.name));
    let p2 = p1.push(("name"@, Layout::Text(identity.name)));
    lemma_one_more_part(p2, "role"@, Layout::Text(identity.role));
    let p3 = p2.push(("role"@, Layout::Text(identity.role)));
    if identity.pending_request_id is Some {
        lemma_one_more_part(
            p3,
            "pending_request_id"@,
            Layout::Text(identity.pending_request_id->0),
        );
    }
    let p4 = with_part(p3, "pending_request_id"@, identity.pending_request_id);
    lemma_one_more_part(p4, "saved_at"@, Layout::Int(identity.saved_at));
}

/// Puts a part behind the others.
fn put_part(parts: &mut Vec<(String, serde_json::Value)>, key: &str, part: &Json)
    ensures
        codec::fields_layout(final(parts)@) == codec::fields_layout(old(parts)@).push(
            (key@, codec::sorted(part@)),
        ),
{
    parts.push((key.to_string(), codec::to_value(part)));
    assert(codec::fields_layout(parts@) =~= codec::fields_layout(old(parts)@).push(
        (key@, codec::sorted(part@)),
    ));
}

/// Puts a text behind the other parts, where there is one.
fn put_text_part(parts: &mut Vec<(String, serde_json::Value)>, key: &str, t: Option<String>)
    ensures
        codec::fields_layout(final(parts)@) == with_part(
            codec::fields_layout(old(parts)@),
            key@,
            text::opt_string(t),
        ),
{
    match t {
        Some(t) => {
            proof {
                codec::lemma_sorted(Layout::Text(t@));
            }
            put_part(parts, key, &Json::Text(t));
        },
        None => {},
    }
}

/// An identity as it is written.
fn identity_value(identity: &StoredIdentity) -> (value: serde_json::Value)
    ensures
        codec::value_layout(value) == Layout::Object(identity_parts(identity@)),
{
    let copy = identity.clone();
    let mut parts: Vec<(String, serde_json::Value)> = Vec::new();
    proof {
        assert(codec::fields_layout(parts@) =~= Seq::empty());
        codec::lemma_sorted(Layout::Text(copy.name@));
        codec::lemma_sorted(Layout::Text(copy.role@));
        codec::lemma_sorted(Layout::Int(copy.saved_at));
    }
    put_text_part(&mut parts, "token", copy.token);
    put_part(&mut parts, "name", &Json::Text(copy.name));
    put_part(&mut parts, "role", &Json::Text(copy.role));
    put_text_part(&mut parts, "pending_request_id", copy.pending_request_id);
    put_part(&mut parts, "saved_at", &Json::Int(copy.saved_at));
    proof {
        lemma_identity_parts(identity@);
        let layouts = codec::fields_layout(parts@);
        assert forall|i: int, j: int| 0 <= i < j < parts@.len() implies (#[trigger] parts@[i]).0@ != (
        #[trigger] parts@[j]).0@ by {
            assert(layouts[i].0 != layouts[j].0);
        }
    }
    codec::object_value(parts)
}

/// A text that may be left out or `null`.
fn read_optional_text(value: Option<&Json>) -> (t: Option<Option<String>>)
    ensures
        optional_text(json::opt_json(value)) == (match t {
            Some(t) => Some(text::opt_string(t)),
            None => None,
        }),
{
    match value {
        None => Some(None),
        Some(Json::Null) => Some(None),
        Some(Json::Text(t)) => Some(Some(t.clone())),
        Some(_) => None,
    }
}

/// An identity that may be missing, as what it says.
pub open spec fn opt_identity(identity: Option<StoredIdentity>) -> Option<IdentityView> {
    match identity {
        Some(i) => Some(i@),
        None => None,
    }
}

/// The identity that five parts make up.
fn make_identity(
    token: Option<&Json>,
    name: Option<&Json>,
    role: Option<&Json>,
    pending: Option<&Json>,
    saved_at: Option<&Json>,
) -> (identity: Option<StoredIdentity>)
    ensures
        opt_identity(identity) == identity_of(
            json::opt_json(token),
            json::opt_json(name),
            json::opt_json(role),
            json::opt_json(pending),
            json::opt_json(saved_at),
        ),
{
    match (read_optional_text(token), name, role, read_optional_text(pending), saved_at) {
        (
            Some(token),
            Some(Json::Text(name)),
            Some(Json::Text(role)),
            Some(pending_request_id),
            Some(Json::Int(saved_at)),
        ) => Some(
            StoredIdentity {
                token,
                name: name.clone(),
                role: role.clone(),
                pending_request_id,
                saved_at: *saved_at,
            },
        ),
        _ => None,
    }
}

/// The identity that a JSON value spells.
fn identity_from_json(value: &Json) -> (identity: Option<StoredIdentity>)
    ensures
        opt_identity(identity) == read_identity(value@),
{
    match value {
        Json::Object(_) => make_identity(
            value.get("token"),
            value.get("name"),
            value.get("role"),
            value.get("pending_request_id"),
            value.get("saved_at"),
        ),
        Json::List(parts) => {
            proof {
                json::lemma_items_view(parts@);
            }
            if parts.len() == 5 {
                make_identity(
                    Some(&parts[0]),
                    Some(&parts[1]),
                    Some(&parts[2]),
                    Some(&parts[3]),
                    Some(&parts[4]),
                )
            } else {
                None
            }
        },
        _ => None,
    }
}

/// A store that may be missing, as what it holds.
pub open spec fn opt_store(store: Option<TokenStore>) -> Option<Map<Seq<char>, IdentityView>> {
    match store {
        Some(s) => Some(s@),
        None => None,
    }
}

/// The store of the identities that a JSON object spells.
fn gateways_from_json(value: &Json) -> (store: Option<TokenStore>)
    ensures
        opt_store(store) == read_gateways(value@),
{
    match value {
        Json::Object(entries) => {
            let mut gateways: TextMap<StoredIdentity> = TextMap::new();
            let n = entries.len();
            let ghost views = json::fields_view(*entries);
            proof {
                json::lemma_fields_view(*entries);
                text_map::lemma_entries(*entries);
            }
            for i in 0..n
                invariant
                    value@ == JsonView::Object(views),
                    views == json::fields_view(*entries),
                    views.dom() == entries@.dom(),
                    forall|key: Seq<char>|
                        entries@.contains_key(key) ==> #[trigger] views[key] == entries@[key]@,
                    n == entries.entries().len(),
                    forall|j: int|
                        0 <= j < n ==> {
                            &&& entries@.contains_key((#[trigger] entries.entries()[j]).0@)
                            &&& entries@[entries.entries()[j].0@] == entries.entries()[j].1
                        },
                    forall|j: int|
                        0 <= j < i ==> {
                            &&& gateways@.contains_key((#[trigger] entries.entries()[j]).0@)
                            &&& read_identity(entries.entries()[j].1@) == Some(
                                gateways@[entries.entries()[j].0@]@,
                            )
                        },
                    forall|key: Seq<char>| #[trigger]
                        gateways@.contains_key(key) ==> views.contains_key(key) && read_identity(
                            views[key],
                        ) == Some(gateways@[key]@),
            {
                let (key, entry) = entries.entry(i);
                proof {
                    assert(*entry == entries.entries()[i as int].1);
                    assert(views[key@] == entry@);
                }
                match identity_from_json(entry) {
                    Some(identity) => {
                        gateways.insert(key.clone(), identity);
                    },
                    None => {
                        assert(read_identity(views[key@]) is None);
                        return None;
                    },
                }
            }
            let store = TokenStore { gateways };
            proof {
                assert forall|key: Seq<char>| views.contains_key(key) implies gateways@.contains_key(
                    key,
                ) && read_identity(#[trigger] views[key]) is Some by {
                    let j = text_map::position(entries.entries(), key);
                    assert(entries.entries()[j].0@ == key);
                }
                assert(store@ =~= views.map_values(|entry: JsonView| read_identity(entry)->Some_0));
            }
            Some(store)
        },
        _ => None,
    }
}

impl TokenStore {
    /// The store that a JSON value spells.
    pub fn from_json(value: &Json) -> (store: Option<TokenStore>)
        ensures
            opt_store(store) == read_store(value@),
    {
        match value {
            Json::Object(_) => match value.get("gateways") {
                Some(gateways) => gateways_from_json(gateways),
                None => Some(TokenStore::default()),
            },
            Json::List(parts) => {
                proof {
                    json::lemma_items_view(parts@);
                }
                if parts.len() == 0 {
                    Some(TokenStore::default())
                } else if parts.len() == 1 {
                    gateways_from_json(&parts[0])
                } else {
                    None
                }
            },
            _ => None,
        }
    }
}

/// What is told of a file that is JSON but no keyring.
pub open spec fn no_keyring() -> Seq<char> {
    "not a keyring"@
}

/// The store that comes from a file, and what is told of it, from what the parser made of the file. A
/// file that cannot be read as a keyring counts as an empty one: a keyring can be built anew.
pub open spec fn loaded(parsed: Result<JsonView, Seq<char>>) -> (
    Map<Seq<char>, IdentityView>,
    Option<Seq<char>>,
) {
    match parsed {
        Ok(value) => match read_store(value) {
            Some(store) => (store, None),
            None => (Map::empty(), Some(no_keyring())),
        },
        Err(words) => (Map::empty(), Some(words)),
    }
}

/// The parts of an identity have names of their own.
proof fn lemma_identity_keys()
    ensures
        "token"@ != "name"@,
        "token"@ != "role"@,
        "token"@ != "pending_request_id"@,
        "token"@ != "saved_at"@,
        "name"@ != "role"@,
        "name"@ != "pending_request_id"@,
        "name"@ != "saved_at"@,
        "role"@ != "pending_request_id"@,
        "role"@ != "saved_at"@,
        "pending_request_id"@ != "saved_at"@,
{
    reveal_strlit("token");
    reveal_strlit("name");
    reveal_strlit("role");
    reveal_strlit("pending_request_id");
    reveal_strlit("saved_at");
    assert("token"@.len() == 5 && "name"@.len() == 4 && "role"@.len() == 4);
    assert("pending_request_id"@.len() == 18 && "saved_at"@.len() == 8);
    assert("name"@[0] == 'n' && "role"@[0] == 'r');
}

/// An identity is read back as it was written.
proof fn lemma_identity_round_trip(identity: IdentityView)
    ensures
        read_identity(identity_json(identity)) == Some(identity),
{
    lemma_identity_keys();
}

/// A store is read back as it was written: every gateway, and of its identity every part.
pub proof fn reading_undoes_writing(store: Map<Seq<char>, IdentityView>)
    ensures
        read_store(store_json(store)) == Some(store),
{
    let written = store.map_values(|identity: IdentityView| identity_json(identity));
    assert forall|key: Seq<char>| written.contains_key(key) implies read_identity(
        #[trigger] written[key],
    ) == Some(store[key]) by {
        lemma_identity_round_trip(store[key]);
    }
    assert(written.map_values(|entry: JsonView| read_identity(entry)->Some_0) =~= store);
}

/// Of an identity without a token no token is written, not even that there is none; and the same of
/// an open request.
pub proof fn absent_parts_are_left_out(identity: IdentityView)
    ensures
        identity_json(identity).get("token"@) is Some <==> identity.token is Some,
        identity_json(identity).get("pending_request_id"@) is Some
            <==> identity.pending_request_id is Some,
{
    lemma_identity_keys();
}

/// A written store is three objects deep and holds no number but whole ones.
proof fn lemma_store_plain(store: Map<Seq<char>, IdentityView>)
    ensures
        codec::plain(store_json(store), 127),
{
    lemma_identity_keys();
    let written = store.map_values(|identity: IdentityView| identity_json(identity));
    assert forall|key: Seq<char>| written.contains_key(key) implies codec::plain(
        #[trigger] written[key],
        125,
    ) by {
        reveal_with_fuel(codec::plain, 2);
    }
    assert(codec::plain(JsonView::Object(written), 126));
}

impl TokenStore {
    /// The store that comes from a file, and what is told of it, from what the parser made of the
    /// file.
    pub fn adopt(parsed: Result<Json, String>) -> (store: (TokenStore, Option<String>))
        ensures
            (store.0@, text::opt_string(store.1)) == loaded(codec::outcome(parsed)),
    {
        match parsed {
            Ok(value) => match TokenStore::from_json(&value) {
                Some(store) => (store, None),
                None => (TokenStore::default(), Some("not a keyring".to_string())),
            },
            Err(words) => (TokenStore::default(), Some(words)),
        }
    }

    /// The store that comes from a file's text, and what is told of it. Where there is no file the
    /// store is empty. A key that an object names twice counts with its last value, and what stands
    /// under a key that no keyring has is read as JSON all the same.
    pub fn load(raw: Option<&str>) -> (store: (TokenStore, Option<String>))
        ensures
            (store.0@, text::opt_string(store.1)) == (match raw {
                Some(t) => loaded(codec::json_text(t@)),
                None => (Map::empty(), None),
            }),
    {
        match raw {
            Some(t) => TokenStore::adopt(codec::parse(t)),
            None => (TokenStore::default(), None),
        }
    }

    /// The text of the file that keeps the store: the gateways in the order of their keys, and of each
    /// identity the parts in the order of its fields. It says what is written of the store, and the
    /// same store comes from it again.
    pub fn save(&self) -> (raw: String)
        ensures
            raw@ == codec::layout_pretty(store_layout(self@)),
            codec::spells(raw@, store_json(self@)),
            loaded(codec::json_text(raw@)) == (self@, None::<Seq<char>>),
    {
        proof {
            lemma_store_plain(self@);
            reading_undoes_writing(self@);
        }
        codec::pretty_value(&self.to_value())
    }

    /// The store as it is written.
    fn to_value(&self) -> (value: serde_json::Value)
        ensures
            codec::value_layout(value) == store_layout(self@),
            codec::value_json(value) == store_json(self@),
    {
        let mut entries: Vec<(String, serde_json::Value)> = Vec::new();
        let n = self.gateways.len();
        for i in 0..n
            invariant
                n == self.gateways.entries().len(),
                entries@.len() == i,
                forall|j: int|
                    0 <= j < i ==> {
                        &&& (#[trigger] entries@[j]).0@ == self.gateways.entries()[j].0@
                        &&& codec::value_layout(entries@[j].1) == Layout::Object(
                            identity_parts(self.gateways.entries()[j].1@),
                        )
                    },
        {
            let (key, identity) = self.gateways.entry(i);
            entries.push((key.clone(), identity_value(identity)));
        }
        let ghost all = entries@;
        let ghost parts = codec::fields_layout(all);
        let ghost written = self@.map_values(
            |identity: IdentityView| Layout::Object(identity_parts(identity)),
        );
        let ghost said = self@.map_values(|identity: IdentityView| identity_json(identity));
        proof {
            let kept = self.gateways.entries();
            text_map::lemma_entries(self.gateways);
            assert forall|i: int, j: int| 0 <= i < j < n implies text_map::before(
                (#[trigger] parts[i]).0,
                (#[trigger] parts[j]).0,
            ) by {
                assert(all[i].0@ == kept[i].0@ && all[j].0@ == kept[j].0@);
            }
            assert forall|i: int, j: int| 0 <= i < j < n implies (#[trigger] all[i]).0@ != (
            #[trigger] all[j]).0@ by {
                assert(text_map::before(parts[i].0, parts[j].0));
                text_map::lemma_before_irreflexive(parts[j].0);
            }
            assert forall|key: Seq<char>| text_map::lists(parts, key) == written.contains_key(key) by {
                if written.contains_key(key) {
                    let p = text_map::position(kept, key);
                    assert(all[p].0@ == kept[p].0@);
                    assert(parts[p].0 == key);
                }
                if text_map::lists(parts, key) {
                    let p = text_map::place(parts, key);
                    assert(parts[p].0 == key);
                    assert(all[p].0@ == kept[p].0@);
                    assert(self.gateways@.contains_key(kept[p].0@));
                }
            }
            assert forall|key: Seq<char>| text_map::lists(parts, key) implies {
                &&& #[trigger] parts[text_map::place(parts, key)].1 == written[key]
                &&& codec::content(written[key]) == said[key]
            } by {
                let p = text_map::place(parts, key);
                assert(parts[p].0 == key);
                assert(all[p].0@ == kept[p].0@);
                assert(self.gateways@[kept[p].0@] == kept[p].1);
                lemma_identity_parts(kept[p].1@);
            }
            assert(text_map::pairs_map(parts) =~= written);
            text_map::lemma_listed(parts);
            assert(parts_json(parts) =~= said);
        }
        let gateways = codec::object_value(entries);
        let mut fields: Vec<(String, serde_json::Value)> = Vec::new();
        fields.push(("gateways".to_string(), gateways));
        let ghost top = codec::fields_layout(fields@);
        proof {
            let none: Seq<(Seq<char>, Layout)> = Seq::empty();
            assert(parts_json(none) =~= Map::empty());
            lemma_one_more_part(none, "gateways"@, Layout::Object(parts));
            assert(top =~= none.push(("gateways"@, Layout::Object(parts))));
            assert(top =~= seq![("gateways"@, Layout::Object(parts))]);
            assert(parts_json(top) =~= map!["gateways"@ => JsonView::Object(said)]);
        }
        codec::object_value(fields)
    }

    /// The identity that is kept for a gateway.
    pub fn identity(&self, key: &str) -> (identity: Option<&StoredIdentity>)
        ensures
            match identity {
                Some(i) => self@.contains_key(key@) && self@[key@] == i@,
                None => !self@.contains_key(key@),
            },
    {
        self.gateways.get(key)
    }

    /// Keeps an identity for a gateway, in place of the one before.
    pub fn remember(&mut self, key: &str, identity: StoredIdentity)
        ensures
            final(self)@ == old(self)@.insert(key@, identity@),
    {
        self.gateways.insert(key.to_string(), identity);
        assert(self@ =~= old(self)@.insert(key@, identity@));
    }

    /// Forgets the identity of a gateway, and hands it out.
    pub fn forget(&mut self, key: &str) -> (identity: Option<StoredIdentity>)
        ensures
            final(self)@ == old(self)@.remove(key@),
            opt_identity(identity) == (if old(self)@.contains_key(key@) {
                Some(old(self)@[key@])
            } else {
                None
            }),
    {
        let identity = self.gateways.remove(key);
        assert(self@ =~= old(self)@.remove(key@));
        identity
    }
}

/// Keeps the owner's token of a device that was bound.
pub fn keep_owner(
    store: &mut TokenStore,
    gw_key: &str,
    name: &str,
    token: String,
    saved_at: i64,
)
    ensures
        final(store)@ == old(store)@.insert(
            gw_key@,
            IdentityView {
                token: Some(token@),
                name: name@,
                role: "owner"@,
                pending_request_id: None,
                saved_at,
            },
        ),
{
    store.remember(
        gw_key,
        StoredIdentity {
            token: Some(token),
            name: name.to_string(),
            role: "owner".to_string(),
            pending_request_id: None,
            saved_at,
        },
    );
}

/// The seconds of a time stamp, from the seconds since the epoch: those that 64 bits with a sign
/// hold, and zero before the epoch.
pub open spec fn stamp_view(elapsed: Option<u64>) -> i64 {
    match elapsed {
        Some(seconds) => if seconds <= i64::MAX {
            seconds as i64
        } else {
            (seconds - 0x1_0000_0000_0000_0000) as i64
        },
        None => 0,
    }
}

/// The seconds of a time stamp, from the seconds since the epoch.
pub fn stamp(elapsed: Option<u64>) -> (seconds: i64)
    ensures
        seconds == stamp_view(elapsed),
{
    match elapsed {
        Some(s) => {
            assert(s <= 0x7fff_ffff_ffff_ffff ==> s as i64 == s) by (bit_vector);
            assert(s > 0x7fff_ffff_ffff_ffff ==> s as i64 == s - 0x1_0000_0000_0000_0000) by (bit_vector);
            s as i64
        },
        None => 0,
    }
}

/// `std::time::SystemTime`, a point in time.
#[verifier::external_type_specification]
#[verifier::external_body]
pub struct ExSystemTime(std::time::SystemTime);

/// The span from the epoch to a point in time. `None` where the point lies before the epoch.
pub uninterp spec fn epoch_span(time: std::time::SystemTime) -> Option<std::time::Duration>;

/// The whole seconds of a span of time.
pub uninterp spec fn whole_seconds(span: std::time::Duration) -> u64;

/// `SystemTime::now`: nothing is said of what the clock shows.
pub assume_specification[ std::time::SystemTime::now ]() -> std::time::SystemTime;

/// `Duration::as_secs`: the whole seconds of a span depend on the span alone, and are known by that
/// name.
pub assume_specification[ std::time::Duration::as_secs ](span: &std::time::Duration) -> (seconds: u64)
    ensures
        seconds == whole_seconds(*span),
;

/// `SystemTime::duration_since` the epoch: the span, and that there is none, depend on the point in
/// time alone, and are known by that name.
#[verifier::external_body]
fn since_epoch(time: std::time::SystemTime) -> (span: Option<std::time::Duration>)
    ensures
        span == epoch_span(time),
{
    time.duration_since(std::time::UNIX_EPOCH).ok()
}

/// The time stamp of a point in time: its whole seconds since the epoch.
pub open spec fn stamp_of(time: std::time::SystemTime) -> i64 {
    stamp_view(
        match epoch_span(time) {
            Some(span) => Some(whole_seconds(span)),
            None => None,
        },
    )
}

impl TokenStore {
    /// The time stamp of this moment, by the system's clock. It is the stamp of a point in time; which
    /// one is left to the clock.
    pub fn now() -> (seconds: i64)
        ensures
            exists|time: std::time::SystemTime| seconds == #[trigger] stamp_of(time),
    {
        let time = std::time::SystemTime::now();
        let elapsed: Option<u64> = match since_epoch(time) {
            Some(span) => Some(span.as_secs()),
            None => None,
        };
        let seconds: i64 = stamp(elapsed);
        assert(seconds == stamp_of(time));
        seconds
    }
}

/// The name of a device that is given none: that of the user, where there is one.
pub fn default_device_name(user: Option<&str>) -> (name: String)
    ensures
        name@ == (match user {
            Some(u) => if u@.len() > 0 {
                u@ + "-agc"@
            } else {
                "agc"@
            },
            None => "agc"@,
        }),
{
    match user {
        Some(u) => if u.is_empty() {
            "agc".to_string()
        } else {
            let mut name = u.to_string();
            name.append("-agc");
            name
        },
        None => "agc".to_string(),
    }
}

/// Behind a relay a gateway is the same whatever port the URL names, and whether it names one.
pub proof fn relay_key_ignores_port(host: Seq<char>, digits: Seq<char>, path: Option<Seq<char>>)
    requires
        !host.contains('/'),
        !host.contains(':'),
        url::relay_parts(host) is Some,
        url::named_port(digits) is Some,
    ensures
        url::parsed("agent://"@ + host + url::path_part(path)) is Ok,
        url::parsed("agent://"@ + host + seq![':'] + digits + url::path_part(path)) is Ok,
        gateway_key_view(url::parsed("agent://"@ + host + url::path_part(path))->Ok_0)
            == gateway_key_view(
            url::parsed("agent://"@ + host + seq![':'] + digits + url::path_part(path))->Ok_0,
        ),
{
    host.index_of_first_ensures('.');
    url::parts_are_read_back(host, digits, path);
}

/// What is kept for one gateway changes nothing for the others.
pub proof fn other_gateways_are_untouched(
    store: Map<Seq<char>, IdentityView>,
    key: Seq<char>,
    identity: IdentityView,
    other: Seq<char>,
)
    requires
        other != key,
    ensures
        store.insert(key, identity).contains_key(other) == store.contains_key(other),
        store.remove(key).contains_key(other) == store.contains_key(other),
        store.contains_key(other) ==> store.insert(key, identity)[other] == store[other]
            && store.remove(key)[other] == store[other],
{
}

/// Behind a relay the key of a gateway is its id. Dialled directly it is the host, a colon and the digits
/// of the port, without leading zeros.
pub proof fn keys_name_the_gateway(url: UrlView, digits: Seq<char>)
    requires
        text::all_digits(digits),
        digits[0] == '0' ==> digits.len() == 1,
        text::number_of(digits) == url.port,
    ensures
        url.relay_target matches Some(id) ==> gateway_key_view(url) == id,
        url.relay_target is None ==> gateway_key_view(url) == url.relay_host + ":"@ + digits,
{
    text::digits_are_those_of_their_number(digits);
}

/// Two gateways that are dialled directly have the same key only where they have the same host and the
/// same port.
pub proof fn direct_keys_differ(a: UrlView, b: UrlView)
    requires
        a.relay_target is None,
        b.relay_target is None,
        !a.relay_host.contains(':'),
        !b.relay_host.contains(':'),
        gateway_key_view(a) == gateway_key_view(b),
    ensures
        a.relay_host == b.relay_host,
        a.port == b.port,
{
    reveal_strlit(":");
    assert(":"@ =~= seq![':']);
    let (x, y) = (text::decimal(a.port as nat), text::decimal(b.port as nat));
    text::lemma_cut_at(a.relay_host, ':', x);
    text::lemma_cut_at(b.relay_host, ':', y);
    text::decimal_spells_its_number(a.port as nat);
    text::decimal_spells_its_number(b.port as nat);
}

/// Two gateways of one host that are dialled directly at different ports have different keys.
pub proof fn ports_of_one_host_have_their_own_keys(a: UrlView, b: UrlView)
    requires
        a.relay_target is None,
        b.relay_target is None,
        a.relay_host == b.relay_host,
        a.port != b.port,
    ensures
        gateway_key_view(a) != gateway_key_view(b),
{
    let (x, y) = (text::decimal(a.port as nat), text::decimal(b.port as nat));
    let front = a.relay_host + ":"@;
    if gateway_key_view(a) == gateway_key_view(b) {
        assert((front + x).skip(front.len() as int) =~= x);
        assert((front + y).skip(front.len() as int) =~= y);
        text::decimal_spells_its_number(a.port as nat);
        text::decimal_spells_its_number(b.port as nat);
    }
}

/// What is written of an identity are its parts, each under its name where there is one, and nothing
/// else.
pub proof fn identities_are_written_part_by_part(identity: IdentityView, other: Seq<char>)
    ensures
        ({
            let value = identity_json(identity);
            &&& identity.token matches Some(t) ==> value.get("token"@) == Some(JsonView::Text(t))
            &&& identity.token is None ==> value.get("token"@) is None
            &&& value.get("name"@) == Some(JsonView::Text(identity.name))
            &&& value.get("role"@) == Some(JsonView::Text(identity.role))
            &&& identity.pending_request_id matches Some(id) ==> value.get("pending_request_id"@) == Some(
                JsonView::Text(id),
            )
            &&& identity.pending_request_id is None ==> value.get("pending_request_id"@) is None
            &&& value.get("saved_at"@) == Some(JsonView::Int(identity.saved_at))
            &&& other != "token"@ && other != "name"@ && other != "role"@ && other
                != "pending_request_id"@ && other != "saved_at"@ ==> value.get(other) is None
        }),
{
    lemma_identity_keys();
}

/// The parts of an identity are written in one order: the token, the name, the role, the open request,
/// the time.
pub proof fn parts_are_written_in_their_order(identity: IdentityView)
    ensures
        identity_parts(identity) == (match identity.token {
            Some(t) => seq![("token"@, Layout::Text(t))],
            None => Seq::empty(),
        }) + seq![("name"@, Layout::Text(identity.name)), ("role"@, Layout::Text(identity.role))] + (
        match identity.pending_request_id {
            Some(id) => seq![("pending_request_id"@, Layout::Text(id))],
            None => Seq::empty(),
        }) + seq![("saved_at"@, Layout::Int(identity.saved_at))],
{
    let told = (match identity.token {
        Some(t) => seq![("token"@, Layout::Text(t))],
        None => Seq::empty(),
    }) + seq![("name"@, Layout::Text(identity.name)), ("role"@, Layout::Text(identity.role))] + (
    match identity.pending_request_id {
        Some(id) => seq![("pending_request_id"@, Layout::Text(id))],
        None => Seq::empty(),
    }) + seq![("saved_at"@, Layout::Int(identity.saved_at))];
    assert(identity_parts(identity) =~= told);
}

/// A store is written as one object, `gateways`, with the identity of each gateway under its key, in the
/// order of the keys.
pub proof fn gateways_are_written_in_key_order(pairs: Seq<(Seq<char>, IdentityView)>, i: int)
    requires
        forall|j: int, k: int|
            0 <= j < k < pairs.len() ==> text_map::before(
                (#[trigger] pairs[j]).0,
                (#[trigger] pairs[k]).0,
            ),
        0 <= i < pairs.len(),
    ensures
        store_layout(text_map::pairs_map(pairs)) matches Layout::Object(top) && {
            &&& top.len() == 1
            &&& top[0].0 == "gateways"@
            &&& top[0].1 matches Layout::Object(written)
            &&& written.len() == pairs.len()
            &&& written[i].0 == pairs[i].0
            &&& written[i].1 == Layout::Object(identity_parts(pairs[i].1))
        },
{
    let store = text_map::pairs_map(pairs);
    let layouts = store.map_values(
        |identity: IdentityView| Layout::Object(identity_parts(identity)),
    );
    let written = Seq::new(
        pairs.len(),
        |j: int| (pairs[j].0, Layout::Object(identity_parts(pairs[j].1))),
    );
    assert(text_map::in_key_order(pairs));
    assert(text_map::in_key_order(written)) by {
        assert forall|j: int, k: int| 0 <= j < k < written.len() implies text_map::before(
            (#[trigger] written[j]).0,
            (#[trigger] written[k]).0,
        ) by {
            assert(text_map::before(pairs[j].0, pairs[k].0));
        }
    }
    assert forall|key: Seq<char>| text_map::lists(written, key) == text_map::lists(pairs, key) by {
        if text_map::lists(pairs, key) {
            assert(written[text_map::place(pairs, key)].0 == key);
        }
        if text_map::lists(written, key) {
            assert(pairs[text_map::place(written, key)].0 == key);
        }
    }
    assert forall|key: Seq<char>| text_map::lists(pairs, key) implies text_map::pairs_map(written)[key]
        == layouts[key] by {
        let p = text_map::place(pairs, key);
        assert(pairs[p].0 == key && written[p].0 == key);
        text_map::lemma_only_place(written, p);
    }
    assert(text_map::pairs_map(written) =~= layouts);
    text_map::lemma_listed(written);
}

/// What is written of a store is, for each gateway, what is written of its identity.
pub proof fn stores_are_written_gateway_by_gateway(
    store: Map<Seq<char>, IdentityView>,
    key: Seq<char>,
    other: Seq<char>,
)
    ensures
        store_json(store).get("gateways"@) matches Some(gateways) && gateways.get(key) == (
        if store.contains_key(key) {
            Some(identity_json(store[key]))
        } else {
            None
        }),
        other != "gateways"@ ==> store_json(store).get(other) is None,
{
}

/// An object is read as an identity where its name and its role are texts, its time is a whole number,
/// and its token and its open request are texts, `null` or missing. It has these parts then.
pub proof fn identities_are_read_from_their_parts(value: JsonView)
    requires
        value is Object,
    ensures
        read_identity(value) is Some <==> {
            &&& value.text_at("name"@) is Some
            &&& value.text_at("role"@) is Some
            &&& value.int_at("saved_at"@) is Some
            &&& value.get("token"@) is None || value.get("token"@) == Some(JsonView::Null)
                || value.text_at("token"@) is Some
            &&& value.get("pending_request_id"@) is None || value.get("pending_request_id"@) == Some(
                JsonView::Null,
            ) || value.text_at("pending_request_id"@) is Some
        },
        read_identity(value) matches Some(identity) ==> {
            &&& Some(identity.name) == value.text_at("name"@)
            &&& Some(identity.role) == value.text_at("role"@)
            &&& Some(identity.saved_at) == value.int_at("saved_at"@)
            &&& identity.token == value.text_at("token"@)
            &&& identity.pending_request_id == value.text_at("pending_request_id"@)
        },
{
}

/// A list is read as an identity where it has the five parts in their order, and nothing but an object or
/// a list is read as one.
pub proof fn identities_are_read_from_lists(
    token: Option<Seq<char>>,
    name: Seq<char>,
    role: Seq<char>,
    pending: Option<Seq<char>>,
    saved_at: i64,
    value: JsonView,
)
    ensures
        ({
            let first = match token {
                Some(t) => JsonView::Text(t),
                None => JsonView::Null,
            };
            let fourth = match pending {
                Some(t) => JsonView::Text(t),
                None => JsonView::Null,
            };
            let parts = seq![
                first,
                JsonView::Text(name),
                JsonView::Text(role),
                fourth,
                JsonView::Int(saved_at),
            ];
            read_identity(JsonView::List(parts)) == Some(
                IdentityView { token, name, role, pending_request_id: pending, saved_at },
            )
        }),
        !(value is Object) && !(value is List) ==> read_identity(value) is None,
        value matches JsonView::List(parts) && parts.len() != 5 ==> read_identity(value) is None,
        value matches JsonView::List(parts) && parts.len() == 5 && (!(parts[1] is Text) || !(
        parts[2] is Text) || !(parts[4] is Int) || !(parts[0] is Text || parts[0] is Null) || !(
        parts[3] is Text || parts[3] is Null)) ==> read_identity(value) is None,
{
}

/// The gateways are read from an object, one under each key, where every entry is read as an identity,
/// and not at all where one of them is not, or from anything else.
pub proof fn gateways_are_read_entry_by_entry(entries: Map<Seq<char>, JsonView>, key: Seq<char>, value: JsonView)
    ensures
        entries.contains_key(key) && read_identity(entries[key]) is None ==> read_gateways(
            JsonView::Object(entries),
        ) is None,
        read_gateways(JsonView::Object(entries)) matches Some(store) ==> {
            &&& store.contains_key(key) == entries.contains_key(key)
            &&& entries.contains_key(key) ==> read_identity(entries[key]) == Some(store[key])
        },
        (forall|k: Seq<char>| entries.contains_key(k) ==> read_identity(#[trigger] entries[k]) is Some)
            ==> read_gateways(JsonView::Object(entries)) is Some,
        !(value is Object) ==> read_gateways(value) is None,
{
}

/// A store is read from the gateways of an object, and has none where the object names none. A list of
/// the gateways alone and an empty list are read the same way, and nothing else is read.
pub proof fn stores_are_read_from_their_gateways(value: JsonView, gateways: JsonView)
    ensures
        value.get("gateways"@) == Some(gateways) ==> read_store(value) == read_gateways(gateways),
        value is Object && value.get("gateways"@) is None ==> read_store(value) == Some(
            Map::<Seq<char>, IdentityView>::empty(),
        ),
        read_store(JsonView::List(Seq::empty())) == Some(Map::<Seq<char>, IdentityView>::empty()),
        read_store(JsonView::List(seq![gateways])) == read_gateways(gateways),
        value matches JsonView::List(parts) && parts.len() > 1 ==> read_store(value) is None,
        !(value is Object) && !(value is List) ==> read_store(value) is None,
{
}

/// A file that is read as a store gives that store and nothing to tell. Any other gives an empty store,
/// and the words of the parser or `not a keyring` are told.
pub proof fn files_give_a_store_or_words(
    value: JsonView,
    store: Map<Seq<char>, IdentityView>,
    words: Seq<char>,
)
    ensures
        read_store(value) == Some(store) ==> loaded(Ok(value)) == (store, None::<Seq<char>>),
        read_store(value) is None ==> loaded(Ok(value)) == (
            Map::<Seq<char>, IdentityView>::empty(),
            Some("not a keyring"@),
        ),
        loaded(Err(words)) == (Map::<Seq<char>, IdentityView>::empty(), Some(words)),
{
}

/// A time stamp is the seconds themselves where 64 bits with a sign hold them, and differs from them by
/// 2 to the power of 64 where they do not. Before the epoch it is zero.
pub proof fn stamps_are_the_seconds(seconds: u64)
    ensures
        seconds <= i64::MAX ==> stamp_view(Some(seconds)) == seconds,
        seconds > i64::MAX ==> stamp_view(Some(seconds)) == seconds - 0x1_0000_0000_0000_0000,
        stamp_view(None) == 0,
{
}

/// The stamp of a point in time is that of its whole seconds since the epoch.
pub proof fn stamps_are_of_the_epoch(time: std::time::SystemTime, span: std::time::Duration)
    ensures
        epoch_span(time) == Some(span) ==> stamp_of(time) == stamp_view(Some(whole_seconds(span))),
        epoch_span(time) is None ==> stamp_of(time) == 0,
{
}

/// An identity and a store say what they hold.
pub proof fn identities_say_what_they_hold(identity: StoredIdentity, store: TokenStore, key: Seq<char>)
    ensures
        identity@.token == text::opt_string(identity.token),
        identity@.name == identity.name@,
        identity@.role == identity.role@,
        identity@.pending_request_id == text::opt_string(identity.pending_request_id),
        identity@.saved_at == identity.saved_at,
        opt_identity(Some(identity)) == Some(identity@),
        opt_identity(None) is None,
        opt_store(Some(store)) == Some(store@),
        opt_store(None) is None,
        store@.contains_key(key) == store.gateways@.contains_key(key),
        store@.contains_key(key) ==> store@[key] == store.gateways@[key]@,
{
}

/// The key of a gateway that is dialled directly is the host and the port's digits as the URL names them,
/// where these have no leading zeros, so URLs of one host with different ports have different keys.
pub proof fn direct_urls_are_their_keys(
    host: Seq<char>,
    digits: Seq<char>,
    others: Seq<char>,
    path: Option<Seq<char>>,
)
    requires
        host.len() > 0,
        !host.contains('/'),
        !host.contains(':'),
        forall|id: Seq<char>, domain: Seq<char>|
            id.len() > 0 && !id.contains('.') && domain.len() > 0 ==> host != #[trigger] (id + ".relay."@
                + domain),
        text::all_digits(digits) && text::number_of(digits) <= 65535,
        text::all_digits(others) && text::number_of(others) <= 65535,
        digits[0] == '0' ==> digits.len() == 1,
        others[0] == '0' ==> others.len() == 1,
    ensures
        ({
            let rest = match path {
                Some(p) => seq!['/'] + p,
                None => Seq::empty(),
            };
            let one = url::parsed("agent://"@ + host + (seq![':'] + digits) + rest);
            let two = url::parsed("agent://"@ + host + (seq![':'] + others) + rest);
            &&& one is Ok && two is Ok
            &&& gateway_key_view(one->Ok_0) == host + ":"@ + digits
            &&& digits != others ==> gateway_key_view(one->Ok_0) != gateway_key_view(two->Ok_0)
        }),
{
    let rest = match path {
        Some(p) => seq!['/'] + p,
        None => Seq::empty(),
    };
    let one = "agent://"@ + host + (seq![':'] + digits) + rest;
    let two = "agent://"@ + host + (seq![':'] + others) + rest;
    url::direct_urls_name_the_host(host, Some(digits), path, one);
    url::direct_urls_name_the_host(host, Some(others), path, two);
    keys_name_the_gateway(url::parsed(one)->Ok_0, digits);
    keys_name_the_gateway(url::parsed(two)->Ok_0, others);
    let front = host + ":"@;
    assert((front + digits).skip(front.len() as int) =~= digits);
    assert((front + others).skip(front.len() as int) =~= others);
}

/// The key of a gateway behind a relay is the id that its URL begins with, whatever port and agent the
/// URL names.
pub proof fn relay_urls_are_kept_by_id(
    id: Seq<char>,
    domain: Seq<char>,
    digits: Option<Seq<char>>,
    path: Option<Seq<char>>,
    url: Seq<char>,
)
    requires
        id.len() > 0,
        domain.len() > 0,
        !id.contains('.') && !id.contains('/') && !id.contains(':'),
        !domain.contains('/') && !domain.contains(':'),
        digits matches Some(d) ==> text::all_digits(d) && text::number_of(d) <= 65535,
        url == "agent://"@ + (id + ".relay."@ + domain) + (match digits {
            Some(d) => seq![':'] + d,
            None => Seq::empty(),
        }) + (match path {
            Some(p) => seq!['/'] + p,
            None => Seq::empty(),
        }),
    ensures
        url::parsed(url) matches Ok(u) && gateway_key_view(u) == id,
{
    url::relay_urls_name_the_gateway(id, domain, digits, path, url);
}

}
