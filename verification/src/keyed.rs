//! A map from text to values, kept in the order of its keys.
//!
//! Keys are ordered by their characters, as strings are; the order is what a
//! walk over the entries shows and nothing else depends on it.

use vstd::prelude::*;

use crate::text::{all_digits, chars_of, decimal_value, is_digit, same};

verus! {

/// Whether `a` comes before `b`: by the first character in which they differ,
/// a text before the longer ones it begins.
pub open spec fn before(a: Seq<char>, b: Seq<char>) -> bool
    decreases a.len(),
{
    if b.len() == 0 {
        false
    } else if a.len() == 0 {
        true
    } else if a[0] == b[0] {
        before(a.skip(1), b.skip(1))
    } else {
        a[0] < b[0]
    }
}

/// No text comes before itself.
pub proof fn lemma_before_irreflexive(a: Seq<char>)
    ensures
        !before(a, a),
    decreases a.len(),
{
    if a.len() > 0 {
        lemma_before_irreflexive(a.skip(1));
    }
}

/// The order is transitive.
pub proof fn lemma_before_transitive(a: Seq<char>, b: Seq<char>, c: Seq<char>)
    requires
        before(a, b),
        before(b, c),
    ensures
        before(a, c),
    decreases a.len(),
{
    if a.len() > 0 && a[0] == b[0] && b[0] == c[0] {
        lemma_before_transitive(a.skip(1), b.skip(1), c.skip(1));
    }
}

/// Of two different texts one comes before the other, and not both ways.
pub proof fn lemma_before_total(a: Seq<char>, b: Seq<char>)
    ensures
        before(a, b) || before(b, a) || a == b,
        !(before(a, b) && before(b, a)),
    decreases a.len(),
{
    if a.len() > 0 && b.len() > 0 && a[0] == b[0] {
        lemma_before_total(a.skip(1), b.skip(1));
        if a.skip(1) == b.skip(1) {
            assert(a =~= seq![a[0]] + a.skip(1));
            assert(b =~= seq![b[0]] + b.skip(1));
        }
    } else if a.len() == 0 && b.len() == 0 {
        assert(a =~= b);
    }
}

/// Whether `a` comes before `b`.
pub fn precedes(a: &str, b: &str) -> (r: bool)
    ensures
        r == before(a@, b@),
{
    let x = chars_of(a);
    let y = chars_of(b);
    let mut i: usize = 0;
    proof {
        assert(x@.skip(0) =~= x@);
        assert(y@.skip(0) =~= y@);
    }
    loop
        invariant
            x@ == a@,
            y@ == b@,
            i <= x@.len(),
            i <= y@.len(),
            before(x@.skip(i as int), y@.skip(i as int)) == before(a@, b@),
        decreases x@.len() - i,
    {
        if i == y.len() {
            return false;
        }
        if i == x.len() {
            return true;
        }
        if x[i] != y[i] {
            return x[i] < y[i];
        }
        proof {
            assert(x@.skip(i as int).skip(1) =~= x@.skip(i + 1));
            assert(y@.skip(i as int).skip(1) =~= y@.skip(i + 1));
        }
        i += 1;
    }
}

/// Whether the keys of `entries` are in order, each once.
pub open spec fn in_order<V>(entries: Seq<(String, V)>) -> bool {
    forall|i: int, j: int|
        0 <= i < j < entries.len() ==> before((#[trigger] entries[i]).0@, (#[trigger] entries[j]).0@)
}

/// Whether `entries` hold a value for `key`.
pub open spec fn has_key<V>(entries: Seq<(String, V)>, key: Seq<char>) -> bool {
    exists|i: int| 0 <= i < entries.len() && (#[trigger] entries[i]).0@ == key
}

/// Where the entry for `key` is.
pub open spec fn key_index<V>(entries: Seq<(String, V)>, key: Seq<char>) -> int {
    choose|i: int| 0 <= i < entries.len() && (#[trigger] entries[i]).0@ == key
}

/// The map that `entries` stand for.
pub open spec fn as_map<V>(entries: Seq<(String, V)>) -> Map<Seq<char>, V> {
    Map::new(
        |key: Seq<char>| has_key(entries, key),
        |key: Seq<char>| entries[key_index(entries, key)].1,
    )
}

/// Keys in order are different keys.
proof fn lemma_in_order_distinct<V>(entries: Seq<(String, V)>, i: int, j: int)
    requires
        in_order(entries),
        0 <= i < entries.len(),
        0 <= j < entries.len(),
        entries[i].0@ == entries[j].0@,
    ensures
        i == j,
{
    lemma_before_irreflexive(entries[i].0@);
    if i < j {
        assert(before(entries[i].0@, entries[j].0@));
    }
    if j < i {
        assert(before(entries[j].0@, entries[i].0@));
    }
}

/// The map gives for a key what its entry holds.
pub proof fn lemma_as_map_entry<V>(entries: Seq<(String, V)>, i: int)
    requires
        in_order(entries),
        0 <= i < entries.len(),
    ensures
        as_map(entries).contains_key(entries[i].0@),
        as_map(entries)[entries[i].0@] == entries[i].1,
{
    let key = entries[i].0@;
    assert(has_key(entries, key));
    lemma_in_order_distinct(entries, i, key_index(entries, key));
}

/// Whether `list` holds each entry of `map` once, in the order of the keys.
pub open spec fn is_listing<V>(list: Seq<(Seq<char>, V)>, map: Map<Seq<char>, V>) -> bool {
    &&& forall|i: int, j: int|
        0 <= i < j < list.len() ==> before((#[trigger] list[i]).0, (#[trigger] list[j]).0)
    &&& forall|i: int|
        0 <= i < list.len() ==> map.contains_key((#[trigger] list[i]).0) && map[list[i].0]
            == list[i].1
    &&& forall|key: Seq<char>| #[trigger]
        map.contains_key(key) ==> exists|i: int|
            0 <= i < list.len() && (#[trigger] list[i]).0 == key
}

/// The entries of a map, in the order of their keys. A map with infinitely many
/// keys has no such list, and none of its entries is in it.
pub open spec fn listing<V>(map: Map<Seq<char>, V>) -> Seq<(Seq<char>, V)> {
    if exists|list: Seq<(Seq<char>, V)>| is_listing(list, map) {
        choose|list: Seq<(Seq<char>, V)>| is_listing(list, map)
    } else {
        seq![]
    }
}

/// Entries, their keys as texts.
pub open spec fn entry_texts<V>(entries: Seq<(String, V)>) -> Seq<(Seq<char>, V)> {
    entries.map_values(|entry: (String, V)| (entry.0@, entry.1))
}

/// Without its last entry, a list holds the map without that entry's key.
proof fn lemma_listing_shorter<V>(list: Seq<(Seq<char>, V)>, map: Map<Seq<char>, V>)
    requires
        is_listing(list, map),
        list.len() > 0,
    ensures
        is_listing(list.drop_last(), map.remove(list.last().0)),
{
    let rest = list.drop_last();
    let key = list.last().0;
    let less = map.remove(key);
    assert forall|i: int, j: int| 0 <= i < j < rest.len() implies before(
        (#[trigger] rest[i]).0,
        (#[trigger] rest[j]).0,
    ) by {
        assert(before(list[i].0, list[j].0));
    }
    assert forall|i: int| 0 <= i < rest.len() implies less.contains_key((#[trigger] rest[i]).0)
        && less[rest[i].0] == rest[i].1 by {
        assert(before(list[i].0, list[list.len() - 1].0));
        lemma_before_irreflexive(key);
        assert(map.contains_key(list[i].0));
    }
    assert forall|k: Seq<char>| #[trigger] less.contains_key(k) implies exists|i: int|
        0 <= i < rest.len() && (#[trigger] rest[i]).0 == k by {
        assert(map.contains_key(k));
        let i = choose|i: int| 0 <= i < list.len() && (#[trigger] list[i]).0 == k;
        assert(rest[i].0 == k);
    }
}

/// A map has one list of its entries.
pub proof fn lemma_one_listing<V>(
    a: Seq<(Seq<char>, V)>,
    b: Seq<(Seq<char>, V)>,
    map: Map<Seq<char>, V>,
)
    requires
        is_listing(a, map),
        is_listing(b, map),
    ensures
        a == b,
    decreases a.len(),
{
    if a.len() == 0 {
        if b.len() > 0 {
            assert(map.contains_key(b[0].0));
        }
        assert(a =~= b);
    } else {
        let x = a.last().0;
        assert(map.contains_key(a[a.len() - 1].0));
        let j = choose|j: int| 0 <= j < b.len() && (#[trigger] b[j]).0 == x;
        let y = b.last().0;
        assert(map.contains_key(b[b.len() - 1].0));
        let i = choose|i: int| 0 <= i < a.len() && (#[trigger] a[i]).0 == y;
        if j < b.len() - 1 {
            assert(before(b[j].0, b[b.len() - 1].0));
        }
        if i < a.len() - 1 {
            assert(before(a[i].0, a[a.len() - 1].0));
        }
        lemma_before_total(x, y);
        lemma_before_irreflexive(x);
        assert(x == y);
        lemma_listing_shorter(a, map);
        lemma_listing_shorter(b, map);
        lemma_one_listing(a.drop_last(), b.drop_last(), map.remove(x));
        assert(a =~= a.drop_last().push(a.last()));
        assert(b =~= b.drop_last().push(b.last()));
    }
}

/// A map that has a list of its entries has as many keys as the list is long.
pub proof fn lemma_listing_len<V>(list: Seq<(Seq<char>, V)>, map: Map<Seq<char>, V>)
    requires
        is_listing(list, map),
    ensures
        map.dom().finite(),
        map.dom().len() == list.len(),
    decreases list.len(),
{
    if list.len() == 0 {
        assert forall|key: Seq<char>| !map.dom().contains(key) by {
            if map.contains_key(key) {
                let i = choose|i: int| 0 <= i < list.len() && (#[trigger] list[i]).0 == key;
            }
        }
        assert(map.dom() =~= Set::empty());
    } else {
        let key = list.last().0;
        assert(map.contains_key(list[list.len() - 1].0));
        lemma_listing_shorter(list, map);
        lemma_listing_len(list.drop_last(), map.remove(key));
        assert(map.dom() =~= map.remove(key).dom().insert(key));
    }
}

/// Entries in order are the list of the map that they stand for.
pub proof fn lemma_entries_listing<V>(entries: Seq<(String, V)>)
    requires
        in_order(entries),
    ensures
        is_listing(entry_texts(entries), as_map(entries)),
        entry_texts(entries) == listing(as_map(entries)),
{
    let list = entry_texts(entries);
    let map = as_map(entries);
    assert forall|i: int, j: int| 0 <= i < j < list.len() implies before(
        (#[trigger] list[i]).0,
        (#[trigger] list[j]).0,
    ) by {
        assert(before(entries[i].0@, entries[j].0@));
    }
    assert forall|i: int| 0 <= i < list.len() implies map.contains_key((#[trigger] list[i]).0)
        && map[list[i].0] == list[i].1 by {
        lemma_as_map_entry(entries, i);
    }
    assert forall|key: Seq<char>| #[trigger] map.contains_key(key) implies exists|i: int|
        0 <= i < list.len() && (#[trigger] list[i]).0 == key by {
        let i = choose|i: int| 0 <= i < entries.len() && (#[trigger] entries[i]).0@ == key;
        assert(list[i].0 == key);
    }
    assert(is_listing(list, map));
    lemma_one_listing(list, listing(map), map);
}

/// Where a new key belongs in a list.
proof fn lemma_place<V>(list: Seq<(Seq<char>, V)>, map: Map<Seq<char>, V>, key: Seq<char>) -> (i:
    int)
    requires
        is_listing(list, map),
        !map.contains_key(key),
    ensures
        0 <= i <= list.len(),
        forall|j: int| 0 <= j < i ==> before((#[trigger] list[j]).0, key),
        forall|j: int| i <= j < list.len() ==> before(key, (#[trigger] list[j]).0),
    decreases list.len(),
{
    if list.len() == 0 {
        0
    } else {
        let last = list[list.len() - 1].0;
        assert(map.contains_key(last));
        lemma_before_total(last, key);
        if before(last, key) {
            assert forall|j: int| 0 <= j < list.len() implies before((#[trigger] list[j]).0, key) by {
                if j < list.len() - 1 {
                    assert(before(list[j].0, last));
                    lemma_before_transitive(list[j].0, last, key);
                }
            }
            list.len() as int
        } else {
            let rest = list.drop_last();
            lemma_listing_shorter(list, map);
            let i = lemma_place(rest, map.remove(last), key);
            assert forall|j: int| 0 <= j < i implies before((#[trigger] list[j]).0, key) by {
                assert(rest[j] == list[j]);
            }
            assert forall|j: int| i <= j < list.len() implies before(
                key,
                (#[trigger] list[j]).0,
            ) by {
                if j < rest.len() {
                    assert(rest[j] == list[j]);
                }
            }
            i
        }
    }
}

/// Every map with finitely many keys has a list of its entries.
pub proof fn lemma_finite_listing<V>(map: Map<Seq<char>, V>)
    requires
        map.dom().finite(),
    ensures
        is_listing(listing(map), map),
    decreases map.dom().len(),
{
    if map.dom().len() == 0 {
        assert(map.dom() =~= Set::empty());
        let none: Seq<(Seq<char>, V)> = seq![];
        assert forall|key: Seq<char>| #[trigger] map.contains_key(key) implies false by {
            assert(map.dom().contains(key));
        }
        assert(is_listing(none, map));
    } else {
        let key = map.dom().choose();
        let less = map.remove(key);
        assert(less.dom() =~= map.dom().remove(key));
        lemma_finite_listing(less);
        let rest = listing(less);
        let at = lemma_place(rest, less, key);
        let list = rest.insert(at, (key, map[key]));
        assert forall|i: int, j: int| 0 <= i < j < list.len() implies before(
            (#[trigger] list[i]).0,
            (#[trigger] list[j]).0,
        ) by {
            let x = if i < at {
                i
            } else {
                i - 1
            };
            let y = if j < at {
                j
            } else {
                j - 1
            };
            if i == at {
                assert(list[j] == rest[y]);
            } else if j == at {
                assert(list[i] == rest[x]);
            } else {
                assert(list[i] == rest[x] && list[j] == rest[y]);
                assert(before(rest[x].0, rest[y].0));
            }
        }
        assert forall|i: int| 0 <= i < list.len() implies map.contains_key((#[trigger] list[i]).0)
            && map[list[i].0] == list[i].1 by {
            let x = if i < at {
                i
            } else {
                i - 1
            };
            if i != at {
                assert(list[i] == rest[x]);
                assert(less.contains_key(rest[x].0));
            }
        }
        assert forall|k: Seq<char>| #[trigger] map.contains_key(k) implies exists|i: int|
            0 <= i < list.len() && (#[trigger] list[i]).0 == k by {
            if k == key {
                assert(list[at].0 == k);
            } else {
                assert(less.contains_key(k));
                let x = choose|x: int| 0 <= x < rest.len() && (#[trigger] rest[x]).0 == k;
                let i = if x < at {
                    x
                } else {
                    x + 1
                };
                assert(list[i] == rest[x]);
            }
        }
        assert(is_listing(list, map));
    }
}

/// A map from text to values.
#[derive(Debug, PartialEq, Eq)]
pub struct TextMap<V> {
    entries: Vec<(String, V)>,
}

impl<V> View for TextMap<V> {
    type V = Map<Seq<char>, V>;

    closed spec fn view(&self) -> Map<Seq<char>, V> {
        as_map(self.entries@)
    }
}

impl<V> TextMap<V> {
    #[verifier::type_invariant]
    spec fn ordered(&self) -> bool {
        in_order(self.entries@)
    }

    /// The map without entries.
    pub fn new() -> (r: TextMap<V>)
        ensures
            r@ == Map::<Seq<char>, V>::empty(),
    {
        let entries: Vec<(String, V)> = Vec::new();
        proof {
            assert(as_map(entries@) =~= Map::<Seq<char>, V>::empty());
        }
        TextMap { entries }
    }

    /// How many entries there are.
    pub fn len(&self) -> (r: usize)
        ensures
            self@.dom().finite(),
            r == self@.dom().len(),
    {
        proof {
            use_type_invariant(self);
            lemma_entries_listing(self.entries@);
            lemma_listing_len(entry_texts(self.entries@), self@);
        }
        self.entries.len()
    }

    /// Whether there are no entries.
    pub fn is_empty(&self) -> (r: bool)
        ensures
            r == (self@ == Map::<Seq<char>, V>::empty()),
    {
        proof {
            use_type_invariant(self);
            if self.entries@.len() > 0 {
                lemma_as_map_entry(self.entries@, 0);
            } else {
                assert(as_map(self.entries@) =~= Map::<Seq<char>, V>::empty());
            }
        }
        self.entries.len() == 0
    }

    /// The entries, in the order of their keys: each key once, and each entry
    /// what the map holds for its key.
    pub fn entries(&self) -> (r: &Vec<(String, V)>)
        ensures
            in_order(r@),
            as_map(r@) == self@,
            entry_texts(r@) == listing(self@),
    {
        proof {
            use_type_invariant(self);
            lemma_entries_listing(self.entries@);
        }
        &self.entries
    }

    /// The entries themselves, in the order of their keys.
    pub fn into_entries(self) -> (r: Vec<(String, V)>)
        ensures
            in_order(r@),
            as_map(r@) == self@,
            entry_texts(r@) == listing(self@),
    {
        proof {
            use_type_invariant(&self);
            lemma_entries_listing(self.entries@);
        }
        self.entries
    }

    /// The first index whose key does not come before `key`.
    fn place(&self, key: &str) -> (r: usize)
        ensures
            r <= self.entries@.len(),
            forall|i: int|
                0 <= i < r ==> before((#[trigger] self.entries@[i]).0@, key@),
            forall|i: int|
                r <= i < self.entries@.len() ==> !before((#[trigger] self.entries@[i]).0@, key@),
    {
        proof {
            use_type_invariant(self);
        }
        let mut i: usize = 0;
        while i < self.entries.len() && precedes(self.entries[i].0.as_str(), key)
            invariant
                i <= self.entries@.len(),
                forall|j: int| 0 <= j < i ==> before((#[trigger] self.entries@[j]).0@, key@),
            decreases self.entries@.len() - i,
        {
            i += 1;
        }
        proof {
            assert forall|j: int| i <= j < self.entries@.len() implies !before(
                (#[trigger] self.entries@[j]).0@,
                key@,
            ) by {
                if j > i && before(self.entries@[j].0@, key@) {
                    assert(before(self.entries@[i as int].0@, self.entries@[j].0@));
                    lemma_before_transitive(
                        self.entries@[i as int].0@,
                        self.entries@[j].0@,
                        key@,
                    );
                }
            }
        }
        i
    }

    /// The value for `key`.
    pub fn get(&self, key: &str) -> (r: Option<&V>)
        ensures
            match r {
                Some(v) => self@.contains_key(key@) && self@[key@] == *v,
                None => !self@.contains_key(key@),
            },
    {
        proof {
            use_type_invariant(self);
        }
        let i = self.place(key);
        if i < self.entries.len() && same(self.entries[i].0.as_str(), key) {
            proof {
                lemma_as_map_entry(self.entries@, i as int);
            }
            Some(&self.entries[i].1)
        } else {
            proof {
                if has_key(self.entries@, key@) {
                    let j = choose|j: int|
                        0 <= j < self.entries@.len() && (#[trigger] self.entries@[j]).0@ == key@;
                    lemma_before_irreflexive(key@);
                    if j > i {
                        assert(before(self.entries@[i as int].0@, self.entries@[j].0@));
                    }
                }
            }
            None
        }
    }

    /// Whether there is a value for `key`.
    pub fn contains_key(&self, key: &str) -> (r: bool)
        ensures
            r == self@.contains_key(key@),
    {
        self.get(key).is_some()
    }

    /// Puts `value` in for `key`, in place of any value there.
    pub fn insert(&mut self, key: String, value: V)
        ensures
            final(self)@ == old(self)@.insert(key@, value),
    {
        proof {
            use_type_invariant(&*self);
        }
        let ghost prior = self.entries@;
        let i = self.place(key.as_str());
        let ghost k = key@;
        proof {
            lemma_before_irreflexive(k);
            if has_key(prior, k) {
                let j = choose|j: int| 0 <= j < prior.len() && (#[trigger] prior[j]).0@ == k;
                if j > i {
                    assert(before(prior[i as int].0@, prior[j].0@));
                }
                assert(j == i);
            }
        }
        if i < self.entries.len() && same(self.entries[i].0.as_str(), key.as_str()) {
            let mut entries: Vec<(String, V)> = Vec::new();
            std::mem::swap(&mut entries, &mut self.entries);
            entries.set(i, (key, value));
            proof {
                let now = entries@;
                assert(now =~= prior.update(i as int, (key, value)));
                assert forall|a: int, b: int| 0 <= a < b < now.len() implies before(
                    (#[trigger] now[a]).0@,
                    (#[trigger] now[b]).0@,
                ) by {
                    assert(before(prior[a].0@, prior[b].0@));
                }
                lemma_inserted(prior, now, k, value, i as int);
            }
            self.entries = entries;
        } else {
            let mut entries: Vec<(String, V)> = Vec::new();
            std::mem::swap(&mut entries, &mut self.entries);
            entries.insert(i, (key, value));
            proof {
                let now = entries@;
                assert(now =~= prior.insert(i as int, (key, value)));
                assert forall|a: int, b: int| 0 <= a < b < now.len() implies before(
                    (#[trigger] now[a]).0@,
                    (#[trigger] now[b]).0@,
                ) by {
                    if a == i {
                        assert(now[b] == prior[b - 1]);
                        lemma_before_total(k, prior[b - 1].0@);
                        if b - 1 > i {
                            assert(before(prior[i as int].0@, prior[b - 1].0@));
                            lemma_before_irreflexive(k);
                        }
                    } else if b == i {
                        assert(now[a] == prior[a]);
                    } else {
                        let x = if a < i {
                            a
                        } else {
                            a - 1
                        };
                        let y = if b < i {
                            b
                        } else {
                            b - 1
                        };
                        assert(now[a] == prior[x] && now[b] == prior[y]);
                        assert(before(prior[x].0@, prior[y].0@));
                    }
                }
                lemma_inserted(prior, now, k, value, i as int);
            }
            self.entries = entries;
        }
    }

    /// Takes the value for `key` out.
    pub fn remove(&mut self, key: &str) -> (r: Option<V>)
        ensures
            final(self)@ == old(self)@.remove(key@),
            match r {
                Some(v) => old(self)@.contains_key(key@) && old(self)@[key@] == v,
                None => !old(self)@.contains_key(key@),
            },
    {
        proof {
            use_type_invariant(&*self);
        }
        let ghost prior = self.entries@;
        let held = self.contains_key(key);
        if !held {
            proof {
                assert(as_map(prior).remove(key@) =~= as_map(prior));
            }
            return None;
        }
        let i = self.place(key);
        proof {
            let j = choose|j: int| 0 <= j < prior.len() && (#[trigger] prior[j]).0@ == key@;
            assert(has_key(prior, key@));
            lemma_before_irreflexive(key@);
            if j > i {
                assert(before(prior[i as int].0@, prior[j].0@));
            }
            assert(j == i);
            lemma_as_map_entry(prior, i as int);
        }
        let mut entries: Vec<(String, V)> = Vec::new();
        std::mem::swap(&mut entries, &mut self.entries);
        let (_, value) = entries.remove(i);
        proof {
            lemma_removed(prior, i as int);
            assert(entries@ =~= prior.remove(i as int));
        }
        self.entries = entries;
        Some(value)
    }
}

/// Taking one entry out takes its key out of the map.
proof fn lemma_removed<V>(prior: Seq<(String, V)>, i: int)
    requires
        in_order(prior),
        0 <= i < prior.len(),
    ensures
        in_order(prior.remove(i)),
        as_map(prior.remove(i)) == as_map(prior).remove(prior[i].0@),
{
    let now = prior.remove(i);
    let key = prior[i].0@;
    assert forall|a: int, b: int| 0 <= a < b < now.len() implies before(
        (#[trigger] now[a]).0@,
        (#[trigger] now[b]).0@,
    ) by {
        let x = if a < i {
            a
        } else {
            a + 1
        };
        let y = if b < i {
            b
        } else {
            b + 1
        };
        assert(now[a] == prior[x] && now[b] == prior[y]);
        assert(before(prior[x].0@, prior[y].0@));
    }
    assert forall|q: Seq<char>| has_key(now, q) <==> (has_key(prior, q) && q != key) by {
        if has_key(now, q) {
            let a = key_index(now, q);
            let x = if a < i {
                a
            } else {
                a + 1
            };
            assert(now[a] == prior[x]);
            if q == key {
                lemma_in_order_distinct(prior, x, i);
            }
        }
        if has_key(prior, q) && q != key {
            let x = key_index(prior, q);
            let a = if x < i {
                x
            } else {
                x - 1
            };
            assert(now[a] == prior[x]);
        }
    }
    assert forall|q: Seq<char>| has_key(now, q) implies as_map(now)[q] == as_map(prior)[q] by {
        let a = key_index(now, q);
        let x = if a < i {
            a
        } else {
            a + 1
        };
        assert(now[a] == prior[x]);
        lemma_as_map_entry(now, a);
        lemma_as_map_entry(prior, x);
    }
    assert(as_map(now) =~= as_map(prior).remove(key));
}

/// Putting one entry in, in order, puts one value into the map.
proof fn lemma_inserted<V>(
    prior: Seq<(String, V)>,
    now: Seq<(String, V)>,
    key: Seq<char>,
    value: V,
    i: int,
)
    requires
        in_order(prior),
        in_order(now),
        0 <= i < now.len(),
        now[i].0@ == key,
        now[i].1 == value,
        (i < prior.len() && prior[i].0@ == key && now == prior.update(i, now[i])) || (i
            <= prior.len() && now == prior.insert(i, now[i])),
    ensures
        as_map(now) == as_map(prior).insert(key, value),
{
    let updated = now.len() == prior.len();
    lemma_as_map_entry(now, i);
    assert forall|q: Seq<char>| has_key(now, q) <==> (has_key(prior, q) || q == key) by {
        if has_key(now, q) && q != key {
            let a = choose|a: int| 0 <= a < now.len() && (#[trigger] now[a]).0@ == q;
            let x = if updated || a < i {
                a
            } else {
                a - 1
            };
            assert(now[a] == prior[x]);
        }
        if has_key(prior, q) {
            let x = choose|x: int| 0 <= x < prior.len() && (#[trigger] prior[x]).0@ == q;
            let a = if updated || x < i {
                x
            } else {
                x + 1
            };
            if updated && x == i {
                assert(now[i].0@ == q);
            } else {
                assert(now[a] == prior[x]);
            }
        }
        if q == key {
            assert(now[i].0@ == q);
        }
    }
    assert forall|q: Seq<char>| has_key(prior, q) && q != key implies as_map(now)[q] == as_map(
        prior,
    )[q] by {
        let x = choose|x: int| 0 <= x < prior.len() && (#[trigger] prior[x]).0@ == q;
        let a = if updated || x < i {
            x
        } else {
            x + 1
        };
        assert(now[a] == prior[x]);
        lemma_as_map_entry(now, a);
        lemma_as_map_entry(prior, x);
    }
    assert(as_map(now) =~= as_map(prior).insert(key, value));
}

/// One entry more is one value more in the map.
pub proof fn lemma_as_map_step<V>(entries: Seq<(String, V)>, i: int)
    requires
        in_order(entries),
        0 <= i < entries.len(),
    ensures
        as_map(entries.take(i + 1)) == as_map(entries.take(i)).insert(entries[i].0@, entries[i].1),
{
    let prior = entries.take(i);
    let now = entries.take(i + 1);
    assert(now =~= prior.insert(i, now[i]));
    lemma_inserted(prior, now, entries[i].0@, entries[i].1, i);
}

impl<V: Clone> Clone for TextMap<V> {
    fn clone(&self) -> (r: TextMap<V>) {
        proof {
            use_type_invariant(self);
        }
        let mut entries: Vec<(String, V)> = Vec::new();
        let mut i: usize = 0;
        while i < self.entries.len()
            invariant
                i <= self.entries@.len(),
                entries@.len() == i,
                in_order(self.entries@),
                forall|j: int|
                    0 <= j < i ==> (#[trigger] entries@[j]).0@ == self.entries@[j].0@,
            decreases self.entries@.len() - i,
        {
            let key = self.entries[i].0.clone();
            let value = self.entries[i].1.clone();
            entries.push((key, value));
            i += 1;
        }
        proof {
            assert forall|a: int, b: int| 0 <= a < b < entries@.len() implies before(
                (#[trigger] entries@[a]).0@,
                (#[trigger] entries@[b]).0@,
            ) by {
                assert(before(self.entries@[a].0@, self.entries@[b].0@));
            }
        }
        TextMap { entries }
    }
}

impl<V> Default for TextMap<V> {
    fn default() -> (r: TextMap<V>)
        ensures
            r@ == Map::<Seq<char>, V>::empty(),
    {
        TextMap::new()
    }
}

impl<V> TextMap<V> {
    /// The map without the keys in `gone`.
    pub fn without(self, gone: &TextSet) -> (r: TextMap<V>)
        ensures
            r@ == self@.remove_keys(gone@),
    {
        let mut r = self;
        let members = gone.elements.entries();
        let ghost seen = members@;
        let mut i: usize = 0;
        proof {
            assert(r@.remove_keys(Set::empty()) =~= r@);
            assert(keys_of(seen.take(0)) =~= Set::empty());
        }
        while i < members.len()
            invariant
                i <= members@.len(),
                seen == members@,
                r@ == self@.remove_keys(keys_of(seen.take(i as int))),
            decreases members@.len() - i,
        {
            let _gone = r.remove(members[i].0.as_str());
            proof {
                let key = seen[i as int].0@;
                assert forall|k: Seq<char>|
                    keys_of(seen.take(i + 1)).contains(k) <==> (keys_of(
                        seen.take(i as int),
                    ).contains(k) || k == key) by {
                    if has_key(seen.take(i + 1), k) {
                        let j = key_index(seen.take(i + 1), k);
                        if j < i {
                            assert(seen.take(i as int)[j] == seen[j]);
                        }
                    }
                    if has_key(seen.take(i as int), k) {
                        let j = key_index(seen.take(i as int), k);
                        assert(seen.take(i + 1)[j] == seen[j]);
                    }
                    if k == key {
                        assert(seen.take(i + 1)[i as int] == seen[i as int]);
                    }
                }
                assert(r@ =~= self@.remove_keys(keys_of(seen.take(i + 1))));
            }
            i += 1;
        }
        proof {
            assert(seen.take(seen.len() as int) =~= seen);
            assert(keys_of(seen) =~= gone@);
        }
        r
    }
}

/// The keys of `entries`.
pub open spec fn keys_of<V>(entries: Seq<(String, V)>) -> Set<Seq<char>> {
    Set::new(|key: Seq<char>| has_key(entries, key))
}

/// A set of texts.
#[derive(Debug, PartialEq, Eq)]
pub struct TextSet {
    elements: TextMap<()>,
}

impl View for TextSet {
    type V = Set<Seq<char>>;

    closed spec fn view(&self) -> Set<Seq<char>> {
        self.elements@.dom()
    }
}

impl TextSet {
    /// The set without elements.
    pub fn new() -> (r: TextSet)
        ensures
            r@ == Set::<Seq<char>>::empty(),
    {
        let r = TextSet { elements: TextMap::new() };
        proof {
            assert(r@ =~= Set::<Seq<char>>::empty());
        }
        r
    }

    /// Puts `element` in.
    pub fn insert(&mut self, element: String)
        ensures
            final(self)@ == old(self)@.insert(element@),
    {
        let ghost e = element@;
        self.elements.insert(element, ());
        proof {
            assert(self@ =~= old(self)@.insert(e));
        }
    }

    /// Whether `element` is in the set.
    pub fn contains(&self, element: &str) -> (r: bool)
        ensures
            r == self@.contains(element@),
    {
        self.elements.contains_key(element)
    }

    /// Whether the set has no elements.
    pub fn is_empty(&self) -> (r: bool)
        ensures
            r == (self@ == Set::<Seq<char>>::empty()),
    {
        let r = self.elements.is_empty();
        proof {
            if r {
                assert(self@ =~= Set::<Seq<char>>::empty());
            } else if self@ == Set::<Seq<char>>::empty() {
                assert(self.elements@ =~= Map::<Seq<char>, ()>::empty());
            }
        }
        r
    }
}

/// Of two texts of one length, the last characters matter only where all before
/// them are the same.
proof fn lemma_before_by_last(a: Seq<char>, b: Seq<char>)
    requires
        a.len() == b.len(),
        a.len() > 0,
    ensures
        before(a, b) == (before(a.drop_last(), b.drop_last()) || (a.drop_last() == b.drop_last()
            && a.last() < b.last())),
    decreases a.len(),
{
    if a.len() == 1 {
        assert(a.drop_last() =~= b.drop_last());
        assert(!before(a.drop_last(), b.drop_last()));
        assert(!before(a.skip(1), b.skip(1)));
    } else if a[0] == b[0] {
        lemma_before_by_last(a.skip(1), b.skip(1));
        assert(a.skip(1).drop_last() =~= a.drop_last().skip(1));
        assert(b.skip(1).drop_last() =~= b.drop_last().skip(1));
        if a.drop_last().skip(1) == b.drop_last().skip(1) {
            assert(a.drop_last() =~= seq![a[0]] + a.drop_last().skip(1));
            assert(b.drop_last() =~= seq![b[0]] + b.drop_last().skip(1));
        }
    } else {
        assert(a.drop_last()[0] != b.drop_last()[0]);
    }
}

/// Law: runs of digits of one length are in the order of the numbers that they
/// write.
pub proof fn law_digits_order_as_numbers(a: Seq<char>, b: Seq<char>)
    requires
        a.len() == b.len(),
        all_digits(a),
        all_digits(b),
    ensures
        before(a, b) <==> decimal_value(a) < decimal_value(b),
        a == b <==> decimal_value(a) == decimal_value(b),
    decreases a.len(),
{
    if a.len() == 0 {
        assert(a =~= b);
    } else {
        let x = a.drop_last();
        let y = b.drop_last();
        assert forall|i: int| 0 <= i < x.len() implies #[trigger] is_digit(x[i]) && is_digit(
            y[i],
        ) by {
            assert(is_digit(a[i]));
            assert(is_digit(b[i]));
        }
        assert(is_digit(a[a.len() - 1]));
        assert(is_digit(b[b.len() - 1]));
        law_digits_order_as_numbers(x, y);
        lemma_before_by_last(a, b);
        assert(a =~= x.push(a.last()));
        assert(b =~= y.push(b.last()));
    }
}

} // verus!
