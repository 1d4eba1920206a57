//! A map from texts to values, its entries in the order of their keys.
use vstd::prelude::*;
use vstd::string::*;
use vstd::utf8::*;

use crate::text::same_text;

verus! {

/// `a` and `b` agree before position `k`, and `a` comes first there: it ends, or holds the
/// smaller byte.
pub open spec fn parts_at(a: Seq<u8>, b: Seq<u8>, k: int) -> bool {
    &&& 0 <= k <= a.len()
    &&& k < b.len()
    &&& forall|j: int| 0 <= j < k ==> a[j] == b[j]
    &&& k < a.len() ==> a[k] < b[k]
}

/// The order of texts: by their bytes, from the first one on.
pub open spec fn before(a: Seq<char>, b: Seq<char>) -> bool {
    exists|k: int| parts_at(encode_utf8(a), encode_utf8(b), k)
}

/// A text that comes before another comes before all that the other comes before.
proof fn lemma_before_transitive(a: Seq<char>, b: Seq<char>, c: Seq<char>)
    requires
        before(a, b),
        before(b, c),
    ensures
        before(a, c),
{
    let (x, y, z) = (encode_utf8(a), encode_utf8(b), encode_utf8(c));
    let i = choose|k: int| parts_at(x, y, k);
    let j = choose|k: int| parts_at(y, z, k);
    let k = if i <= j { i } else { j };
    assert(parts_at(x, z, k));
}

/// No text comes before itself.
pub proof fn lemma_before_irreflexive(a: Seq<char>)
    ensures
        !before(a, a),
{
}

/// Whether `a` comes before `b`.
pub fn precedes(a: &str, b: &str) -> (first: bool)
    ensures
        first == before(a@, b@),
        !first ==> a@ == b@ || before(b@, a@),
{
    let x = a.as_bytes();
    let y = b.as_bytes();
    proof {
        encode_utf8_decode_utf8(a@);
        encode_utf8_decode_utf8(b@);
    }
    let mut i: usize = 0;
    while i < x.len() && i < y.len() && x[i] == y[i]
        invariant
            i <= x@.len(),
            i <= y@.len(),
            forall|j: int| 0 <= j < i ==> x@[j] == y@[j],
        decreases x@.len() - i,
    {
        i = i + 1;
    }
    let first = i < y.len() && (i == x.len() || x[i] < y[i]);
    proof {
        if first {
            assert(parts_at(x@, y@, i as int));
        } else {
            if before(a@, b@) {
                let k = choose|k: int| parts_at(x@, y@, k);
                assert(k < i || k == i || k > i);
            }
            if i < x@.len() {
                assert(parts_at(y@, x@, i as int));
            } else {
                assert(x@ == y@);
            }
        }
    }
    first
}

/// The key stands in one of the entries.
pub open spec fn has_key<V>(entries: Seq<(String, V)>, key: Seq<char>) -> bool {
    exists|i: int| 0 <= i < entries.len() && (#[trigger] entries[i]).0@ == key
}

/// The position of an entry with this key.
pub open spec fn position<V>(entries: Seq<(String, V)>, key: Seq<char>) -> int {
    choose|i: int| 0 <= i < entries.len() && (#[trigger] entries[i]).0@ == key
}

/// Every key comes before the keys that follow it: none stands twice.
pub open spec fn ordered<V>(entries: Seq<(String, V)>) -> bool {
    forall|i: int, j: int|
        0 <= i < j < entries.len() ==> before((#[trigger] entries[i]).0@, (#[trigger] entries[j]).0@)
}

/// A map from texts to values.
#[derive(Debug, PartialEq, Eq)]
pub struct TextMap<V> {
    entries: Vec<(String, V)>,
}

impl<V> TextMap<V> {
    /// The entries in the order of their keys.
    pub closed spec fn entries(self) -> Seq<(String, V)> {
        self.entries@
    }

    #[verifier::type_invariant]
    spec fn in_order(self) -> bool {
        ordered(self.entries@)
    }
}

impl<V> View for TextMap<V> {
    type V = Map<Seq<char>, V>;

    open spec fn view(&self) -> Map<Seq<char>, V> {
        Map::new(
            |key: Seq<char>| has_key(self.entries(), key),
            |key: Seq<char>| self.entries()[position(self.entries(), key)].1,
        )
    }
}

/// A map is larger than each value in it.
pub proof fn lemma_value_smaller<V>(map: TextMap<V>, key: Seq<char>)
    requires
        map@.contains_key(key),
    ensures
        decreases_to!(map => map@[key]),
{
    let entries = map.entries@;
    let i = position(entries, key);
    assert(decreases_to!(map => map.entries));
    assert(decreases_to!(map.entries => entries));
    assert(decreases_to!(entries => entries[i]));
    assert(decreases_to!(entries[i] => entries[i].1));
}

/// In ordered entries a key has one position.
proof fn lemma_only_position<V>(entries: Seq<(String, V)>, i: int)
    requires
        ordered(entries),
        0 <= i < entries.len(),
    ensures
        has_key(entries, entries[i].0@),
        position(entries, entries[i].0@) == i,
{
    let p = position(entries, entries[i].0@);
    lemma_before_irreflexive(entries[i].0@);
    assert(entries[p].0@ == entries[i].0@);
}

/// In a map whose entries are in order, the entry at a position is what the map holds under its
/// key.
pub proof fn lemma_entries<V>(map: TextMap<V>)
    requires
        ordered(map.entries()),
    ensures
        forall|i: int|
            0 <= i < map.entries().len() ==> {
                &&& map@.contains_key((#[trigger] map.entries()[i]).0@)
                &&& map@[map.entries()[i].0@] == map.entries()[i].1
            },
{
    assert forall|i: int| 0 <= i < map.entries().len() implies {
        &&& map@.contains_key((#[trigger] map.entries()[i]).0@)
        &&& map@[map.entries()[i].0@] == map.entries()[i].1
    } by {
        lemma_only_position(map.entries(), i);
    }
}

/// The key stands in one of the pairs.
pub open spec fn lists<V>(pairs: Seq<(Seq<char>, V)>, key: Seq<char>) -> bool {
    exists|i: int| 0 <= i < pairs.len() && (#[trigger] pairs[i]).0 == key
}

/// The position of a pair with this key.
pub open spec fn place<V>(pairs: Seq<(Seq<char>, V)>, key: Seq<char>) -> int {
    choose|i: int| 0 <= i < pairs.len() && (#[trigger] pairs[i]).0 == key
}

/// Every key comes before the keys that follow it.
pub open spec fn in_key_order<V>(pairs: Seq<(Seq<char>, V)>) -> bool {
    forall|i: int, j: int|
        0 <= i < j < pairs.len() ==> before((#[trigger] pairs[i]).0, (#[trigger] pairs[j]).0)
}

/// What the pairs hold, key by key.
pub open spec fn pairs_map<V>(pairs: Seq<(Seq<char>, V)>) -> Map<Seq<char>, V> {
    Map::new(|key: Seq<char>| lists(pairs, key), |key: Seq<char>| pairs[place(pairs, key)].1)
}

/// What a map holds, as pairs in the order of their keys.
pub open spec fn listed<V>(map: Map<Seq<char>, V>) -> Seq<(Seq<char>, V)> {
    choose|pairs: Seq<(Seq<char>, V)>| in_key_order(pairs) && #[trigger] pairs_map(pairs) == map
}

/// In ordered pairs a key has one position.
pub proof fn lemma_only_place<V>(pairs: Seq<(Seq<char>, V)>, i: int)
    requires
        in_key_order(pairs),
        0 <= i < pairs.len(),
    ensures
        lists(pairs, pairs[i].0),
        place(pairs, pairs[i].0) == i,
{
    let p = place(pairs, pairs[i].0);
    lemma_before_irreflexive(pairs[i].0);
    assert(pairs[p].0 == pairs[i].0);
}

/// Ordered pairs with the same keys agree on their first keys.
proof fn lemma_first_keys<V, W>(a: Seq<(Seq<char>, V)>, b: Seq<(Seq<char>, W)>, n: int)
    requires
        in_key_order(a),
        in_key_order(b),
        forall|key: Seq<char>| lists(a, key) == lists(b, key),
        0 <= n <= a.len(),
        n <= b.len(),
    ensures
        forall|i: int| 0 <= i < n ==> (#[trigger] a[i]).0 == b[i].0,
    decreases n,
{
    if n > 0 {
        lemma_first_keys(a, b, n - 1);
        let (x, y) = (a[n - 1].0, b[n - 1].0);
        if x != y {
            assert(lists(a, x));
            assert(lists(b, y));
            let i = place(b, x);
            let j = place(a, y);
            assert(b[i].0 == x && a[j].0 == y);
            lemma_before_irreflexive(x);
            lemma_before_irreflexive(y);
            if i < n - 1 {
                assert(a[i].0 == b[i].0);
            } else if j < n - 1 {
                assert(a[j].0 == b[j].0);
            } else {
                lemma_before_transitive(x, y, x);
            }
        }
    }
}

/// Ordered pairs with the same keys have them at the same positions.
pub proof fn lemma_same_keys<V, W>(a: Seq<(Seq<char>, V)>, b: Seq<(Seq<char>, W)>)
    requires
        in_key_order(a),
        in_key_order(b),
        forall|key: Seq<char>| lists(a, key) == lists(b, key),
    ensures
        a.len() == b.len(),
        forall|i: int| 0 <= i < a.len() ==> (#[trigger] a[i]).0 == b[i].0,
{
    let n = if a.len() <= b.len() {
        a.len() as int
    } else {
        b.len() as int
    };
    lemma_first_keys(a, b, n);
    if n < a.len() {
        assert(lists(a, a[n].0));
        let i = place(b, a[n].0);
        assert(a[i].0 == b[i].0);
        lemma_before_irreflexive(a[n].0);
    }
    if n < b.len() {
        assert(lists(b, b[n].0));
        let i = place(a, b[n].0);
        assert(a[i].0 == b[i].0);
        lemma_before_irreflexive(b[n].0);
    }
}

/// Ordered pairs are the ones in which what they hold is listed.
pub proof fn lemma_listed<V>(pairs: Seq<(Seq<char>, V)>)
    requires
        in_key_order(pairs),
    ensures
        listed(pairs_map(pairs)) == pairs,
{
    let map = pairs_map(pairs);
    let other = listed(map);
    assert(in_key_order(other) && pairs_map(other) == map);
    assert forall|key: Seq<char>| lists(pairs, key) == lists(other, key) by {
        assert(map.contains_key(key) == lists(pairs, key));
        assert(pairs_map(other).contains_key(key) == lists(other, key));
    }
    lemma_same_keys(pairs, other);
    assert forall|i: int| 0 <= i < pairs.len() implies pairs[i] == other[i] by {
        lemma_only_place(pairs, i);
        lemma_only_place(other, i);
        assert(map[pairs[i].0] == pairs[i].1);
        assert(pairs_map(other)[other[i].0] == other[i].1);
    }
    assert(pairs =~= other);
}

impl<V> TextMap<V> {
    /// The map with no entry.
    pub fn new() -> (map: Self)
        ensures
            map@ == Map::<Seq<char>, V>::empty(),
            map.entries() == Seq::<(String, V)>::empty(),
    {
        TextMap { entries: Vec::new() }
    }

    /// How many entries there are.
    pub fn len(&self) -> (n: usize)
        ensures
            n == self.entries().len(),
            ordered(self.entries()),
    {
        proof {
            use_type_invariant(self);
        }
        self.entries.len()
    }

    /// The entry at a position.
    pub fn entry(&self, i: usize) -> (entry: &(String, V))
        requires
            i < self.entries().len(),
        ensures
            *entry == self.entries()[i as int],
    {
        &self.entries[i]
    }

    /// The number of keys that come before this one.
    fn rank(&self, key: &str) -> (n: usize)
        ensures
            n <= self.entries@.len(),
            forall|i: int| 0 <= i < n ==> before((#[trigger] self.entries@[i]).0@, key@),
            n < self.entries@.len() ==> self.entries@[n as int].0@ == key@ || before(
                key@,
                self.entries@[n as int].0@,
            ),
            has_key(self.entries@, key@) <==> n < self.entries@.len() && self.entries@[n as int].0@
                == key@,
            has_key(self.entries@, key@) ==> position(self.entries@, key@) == n,
    {
        let mut n: usize = 0;
        while n < self.entries.len() && precedes(self.entries[n].0.as_str(), key)
            invariant
                n <= self.entries@.len(),
                forall|i: int| 0 <= i < n ==> before((#[trigger] self.entries@[i]).0@, key@),
            ensures
                n < self.entries@.len() ==> self.entries@[n as int].0@ == key@ || before(
                    key@,
                    self.entries@[n as int].0@,
                ),
            decreases self.entries@.len() - n,
        {
            n = n + 1;
        }
        proof {
            use_type_invariant(self);
            lemma_before_irreflexive(key@);
            if has_key(self.entries@, key@) {
                let p = position(self.entries@, key@);
                if p > n {
                    lemma_before_transitive(key@, self.entries@[n as int].0@, key@);
                }
                lemma_only_position(self.entries@, p);
            }
        }
        n
    }

    /// What the map holds under a key.
    pub fn get(&self, key: &str) -> (value: Option<&V>)
        ensures
            value matches Some(v) ==> self@.contains_key(key@) && *v == self@[key@],
            value is None ==> !self@.contains_key(key@),
    {
        let n = self.rank(key);
        if n < self.entries.len() && same_text(self.entries[n].0.as_str(), key) {
            Some(&self.entries[n].1)
        } else {
            None
        }
    }

    /// Puts a value under a key, in place of the one that stood there, which is handed out.
    pub fn insert(&mut self, key: String, value: V) -> (replaced: Option<V>)
        ensures
            final(self)@ == old(self)@.insert(key@, value),
            replaced == (if old(self)@.contains_key(key@) {
                Some(old(self)@[key@])
            } else {
                None
            }),
    {
        let n = self.rank(key.as_str());
        let mut entries: Vec<(String, V)> = Vec::new();
        proof {
            use_type_invariant(&*self);
        }
        std::mem::swap(&mut entries, &mut self.entries);
        let ghost before_call = entries@;
        let ghost name = key@;
        let replaced = if n < entries.len() && same_text(entries[n].0.as_str(), key.as_str()) {
            let (_, gone) = entries.remove(n);
            Some(gone)
        } else {
            None
        };
        let ghost kept = entries@;
        entries.insert(n, (key, value));
        proof {
            let after = entries@;
            assert forall|i: int, j: int| 0 <= i < j < after.len() implies before(
                (#[trigger] after[i]).0@,
                (#[trigger] after[j]).0@,
            ) by {
                if i < n && j > n {
                    assert(after[i] == before_call[i]);
                    assert(after[j] == kept[j - 1]);
                } else if i == n {
                    assert(after[j] == kept[j - 1]);
                    if replaced is None && j - 1 > n {
                        assert(before(before_call[n as int].0@, before_call[j - 1].0@));
                        lemma_before_transitive(
                            name,
                            before_call[n as int].0@,
                            before_call[j - 1].0@,
                        );
                    }
                }
            }
            assert(ordered(after));
            let old_map = old(self)@;
            let new_map = Map::new(
                |k: Seq<char>| has_key(after, k),
                |k: Seq<char>| after[position(after, k)].1,
            );
            assert forall|k: Seq<char>| has_key(after, k) <==> (k == name || has_key(before_call, k)) by {
                assert(after[n as int].0@ == name);
                if has_key(before_call, k) && k != name {
                    let p = position(before_call, k);
                    if p < n {
                        assert(after[p] == before_call[p]);
                    } else if replaced is Some {
                        assert(after[p] == before_call[p]);
                    } else {
                        assert(after[p + 1] == before_call[p]);
                    }
                }
                if has_key(after, k) && k != name {
                    let p = position(after, k);
                    if p < n {
                        assert(before_call[p] == after[p]);
                    } else if replaced is Some {
                        assert(before_call[p] == after[p]);
                    } else {
                        assert(before_call[p - 1] == after[p]);
                    }
                }
            }
            assert forall|k: Seq<char>| has_key(after, k) implies #[trigger] new_map[k] == old_map.insert(
                name,
                value,
            )[k] by {
                lemma_only_position(after, n as int);
                if k != name {
                    let p = position(before_call, k);
                    let q = if p < n || replaced is Some { p } else { p + 1 };
                    assert(after[q] == before_call[p]);
                    lemma_only_position(after, q);
                }
            }
            assert(new_map =~= old_map.insert(name, value));
        }
        self.entries = entries;
        replaced
    }

    /// Takes a key out of the map, and hands out what stood under it.
    pub fn remove(&mut self, key: &str) -> (removed: Option<V>)
        ensures
            final(self)@ == old(self)@.remove(key@),
            removed == (if old(self)@.contains_key(key@) {
                Some(old(self)@[key@])
            } else {
                None
            }),
    {
        let n = self.rank(key);
        let mut entries: Vec<(String, V)> = Vec::new();
        proof {
            use_type_invariant(&*self);
        }
        std::mem::swap(&mut entries, &mut self.entries);
        let ghost before_call = entries@;
        let removed = if n < entries.len() && same_text(entries[n].0.as_str(), key) {
            let (_, gone) = entries.remove(n);
            Some(gone)
        } else {
            None
        };
        proof {
            let after = entries@;
            if removed is Some {
                assert(ordered(after)) by {
                    assert forall|i: int, j: int| 0 <= i < j < after.len() implies before(
                        (#[trigger] after[i]).0@,
                        (#[trigger] after[j]).0@,
                    ) by {
                        let a = if i < n { i } else { i + 1 };
                        let b = if j < n { j } else { j + 1 };
                        assert(after[i] == before_call[a]);
                        assert(after[j] == before_call[b]);
                    }
                }
                let old_map = old(self)@;
                let new_map = Map::new(
                    |k: Seq<char>| has_key(after, k),
                    |k: Seq<char>| after[position(after, k)].1,
                );
                assert forall|k: Seq<char>| has_key(after, k) <==> (k != key@ && has_key(
                    before_call,
                    k,
                )) by {
                    if has_key(before_call, k) && k != key@ {
                        let p = position(before_call, k);
                        let q = if p < n { p } else { p - 1 };
                        assert(after[q] == before_call[p]);
                    }
                    if has_key(after, k) {
                        let q = position(after, k);
                        let p = if q < n { q } else { q + 1 };
                        assert(after[q] == before_call[p]);
                        lemma_only_position(before_call, p);
                        lemma_only_position(before_call, n as int);
                    }
                }
                assert forall|k: Seq<char>| has_key(after, k) implies #[trigger] new_map[k]
                    == old_map.remove(key@)[k] by {
                    let p = position(before_call, k);
                    let q = if p < n { p } else { p - 1 };
                    assert(after[q] == before_call[p]);
                    lemma_only_position(after, q);
                }
                assert(new_map =~= old_map.remove(key@));
            } else {
                assert(old(self)@.remove(key@) =~= old(self)@);
            }
        }
        self.entries = entries;
        removed
    }
}

/// Entries of different keys are all in the map that they make up, each under its key, and no key is
/// there that none of them has.
pub proof fn map_holds_its_entries<V>(map: TextMap<V>, i: int, key: Seq<char>)
    requires
        ordered(map.entries()),
    ensures
        0 <= i < map.entries().len() ==> map@.contains_key(map.entries()[i].0@)
            && map@[map.entries()[i].0@] == map.entries()[i].1,
        map@.contains_key(key) ==> exists|j: int|
            0 <= j < map.entries().len() && (#[trigger] map.entries()[j]).0@ == key,
{
    lemma_entries(map);
}

/// Of two different texts one comes before the other, and not the other way round.
pub proof fn order_is_strict(a: Seq<char>, b: Seq<char>)
    requires
        before(a, b),
    ensures
        a != b,
        !before(b, a),
{
    lemma_before_irreflexive(a);
    if before(b, a) {
        lemma_before_transitive(a, b, a);
    }
}

/// A text comes before one that goes on after it, and one with a smaller byte at the first difference
/// comes first.
pub proof fn order_is_by_bytes(a: Seq<char>, b: Seq<char>, k: int)
    requires
        0 <= k < encode_utf8(b).len(),
        k <= encode_utf8(a).len(),
        encode_utf8(a).take(k) == encode_utf8(b).take(k),
        k < encode_utf8(a).len() ==> encode_utf8(a)[k] < encode_utf8(b)[k],
    ensures
        before(a, b),
{
    let (x, y) = (encode_utf8(a), encode_utf8(b));
    assert forall|j: int| 0 <= j < k implies x[j] == y[j] by {
        assert(x.take(k)[j] == y.take(k)[j]);
    }
    assert(parts_at(x, y, k));
}

/// Pairs in the order of their keys are what the map that they make up is listed as: a map that has been
/// listed has one pair for each key, under which it holds what stands there.
pub proof fn listing_has_every_key_once<V>(pairs: Seq<(Seq<char>, V)>, i: int, key: Seq<char>)
    requires
        forall|j: int, k: int|
            0 <= j < k < pairs.len() ==> before((#[trigger] pairs[j]).0, (#[trigger] pairs[k]).0),
    ensures
        listed(pairs_map(pairs)) == pairs,
        0 <= i < pairs.len() ==> pairs_map(pairs).contains_key(pairs[i].0) && pairs_map(
            pairs,
        )[pairs[i].0] == pairs[i].1,
        pairs_map(pairs).contains_key(key) ==> exists|j: int|
            0 <= j < pairs.len() && (#[trigger] pairs[j]).0 == key,
{
    lemma_listed(pairs);
    if 0 <= i < pairs.len() {
        lemma_only_place(pairs, i);
    }
}

}
