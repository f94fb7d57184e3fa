//! Putting items in order by a key, those with the same key as they came.

use vstd::prelude::*;

use crate::keyed::{
    before, lemma_before_irreflexive, lemma_before_total, lemma_before_transitive, precedes,
};
use crate::text::texts;

verus! {

/// What an item is ordered by: a rank, then a name.
pub type Key = (u64, String);

/// The keys as plain values.
pub open spec fn key_views(keys: Seq<Key>) -> Seq<(u64, Seq<char>)> {
    keys.map_values(|key: Key| (key.0, key.1@))
}

/// Whether one key comes before another.
pub open spec fn key_before(a: (u64, Seq<char>), b: (u64, Seq<char>)) -> bool {
    a.0 < b.0 || (a.0 == b.0 && before(a.1, b.1))
}

/// Whether the item at `i` comes before the item at `j`: by their keys, and
/// where those are the same, by where they stand.
pub open spec fn earlier(keys: Seq<(u64, Seq<char>)>, i: int, j: int) -> bool {
    key_before(keys[i], keys[j]) || (keys[i] == keys[j] && i < j)
}

/// Whether `places` names every item once, in order.
pub open spec fn is_order(places: Seq<int>, keys: Seq<(u64, Seq<char>)>) -> bool {
    &&& places.len() == keys.len()
    &&& forall|i: int| 0 <= i < places.len() ==> 0 <= #[trigger] places[i] < keys.len()
    &&& forall|i: int, j: int|
        0 <= i < j < places.len() ==> earlier(keys, #[trigger] places[i], #[trigger] places[j])
}

/// Whether `r` holds the items of `items` in the order of their keys, those
/// with the same key as they came.
pub open spec fn is_arranged<A>(r: Seq<A>, items: Seq<A>, keys: Seq<(u64, Seq<char>)>) -> bool {
    exists|places: Seq<int>| #[trigger]
        is_order(places, keys) && r == Seq::new(places.len(), |i: int| items[places[i]])
}

proof fn lemma_earlier_total(keys: Seq<(u64, Seq<char>)>, i: int, j: int)
    ensures
        earlier(keys, i, j) || earlier(keys, j, i) || i == j,
        !(earlier(keys, i, j) && earlier(keys, j, i)),
{
    lemma_before_total(keys[i].1, keys[j].1);
}

proof fn lemma_earlier_transitive(keys: Seq<(u64, Seq<char>)>, i: int, j: int, k: int)
    requires
        earlier(keys, i, j),
        earlier(keys, j, k),
    ensures
        earlier(keys, i, k),
{
    if keys[i].0 == keys[j].0 && keys[j].0 == keys[k].0 && keys[i] != keys[j] && keys[j] != keys[k] {
        lemma_before_transitive(keys[i].1, keys[j].1, keys[k].1);
    }
}

/// Whether the key `a` comes before the key `b`.
fn key_precedes(a: &Key, b: &Key) -> (r: bool)
    ensures
        r == key_before((a.0, a.1@), (b.0, b.1@)),
{
    if a.0 == b.0 {
        precedes(a.1.as_str(), b.1.as_str())
    } else {
        a.0 < b.0
    }
}

/// The places as numbers.
pub open spec fn as_ints(places: Seq<usize>) -> Seq<int> {
    places.map_values(|p: usize| p as int)
}

/// The places of the items in the order of their keys.
pub fn order_of(keys: &[Key]) -> (r: Vec<usize>)
    ensures
        is_order(as_ints(r@), key_views(keys@)),
{
    let ghost views = key_views(keys@);
    let mut r: Vec<usize> = Vec::new();
    let mut k: usize = 0;
    while k < keys.len()
        invariant
            k <= keys@.len(),
            views == key_views(keys@),
            r@.len() == k,
            forall|i: int| 0 <= i < r@.len() ==> (#[trigger] r@[i]) < k,
            forall|i: int, j: int|
                0 <= i < j < r@.len() ==> earlier(
                    views,
                    #[trigger] r@[i] as int,
                    #[trigger] r@[j] as int,
                ),
        decreases keys@.len() - k,
    {
        let at: usize = place_for(keys, &r, k);
        let ghost prior = r@;
        r.insert(at, k);
        proof {
            assert forall|i: int, j: int| 0 <= i < j < r@.len() implies earlier(
                views,
                #[trigger] r@[i] as int,
                #[trigger] r@[j] as int,
            ) by {
                let x = if i < at {
                    i
                } else {
                    i - 1
                };
                let y = if j < at {
                    j
                } else {
                    j - 1
                };
                if i != at {
                    assert(r@[i] == prior[x]);
                }
                if j != at {
                    assert(r@[j] == prior[y]);
                }
            }
        }
        k += 1;
    }
    proof {
        assert forall|i: int, j: int| 0 <= i < j < as_ints(r@).len() implies earlier(
            views,
            #[trigger] as_ints(r@)[i],
            #[trigger] as_ints(r@)[j],
        ) by {
            assert(as_ints(r@)[i] == r@[i] as int);
            assert(as_ints(r@)[j] == r@[j] as int);
        }
    }
    r
}

/// Where the item at `k` belongs among those at `places`, which all stand
/// before it.
fn place_for(keys: &[Key], places: &Vec<usize>, k: usize) -> (at: usize)
    requires
        k < keys@.len(),
        forall|i: int| 0 <= i < places@.len() ==> (#[trigger] places@[i]) < k,
        forall|i: int, j: int|
            0 <= i < j < places@.len() ==> earlier(
                key_views(keys@),
                #[trigger] places@[i] as int,
                #[trigger] places@[j] as int,
            ),
    ensures
        at <= places@.len(),
        forall|i: int|
            0 <= i < at ==> earlier(key_views(keys@), #[trigger] places@[i] as int, k as int),
        forall|i: int|
            at <= i < places@.len() ==> earlier(
                key_views(keys@),
                k as int,
                #[trigger] places@[i] as int,
            ),
{
    let ghost views = key_views(keys@);
    let mut at: usize = 0;
    while at < places.len()
        invariant
            at <= places@.len(),
            views == key_views(keys@),
            k < keys@.len(),
            forall|i: int| 0 <= i < places@.len() ==> (#[trigger] places@[i]) < k,
            forall|i: int, j: int|
                0 <= i < j < places@.len() ==> earlier(
                    views,
                    #[trigger] places@[i] as int,
                    #[trigger] places@[j] as int,
                ),
            forall|i: int|
                0 <= i < at ==> earlier(views, #[trigger] places@[i] as int, k as int),
        decreases places@.len() - at,
    {
        let here: usize = places[at];
        proof {
            lemma_earlier_total(views, here as int, k as int);
        }
        if key_precedes(&keys[k], &keys[here]) {
            proof {
                assert(earlier(views, k as int, here as int));
                assert forall|i: int| at <= i < places@.len() implies earlier(
                    views,
                    k as int,
                    #[trigger] places@[i] as int,
                ) by {
                    if i > at {
                        lemma_earlier_transitive(views, k as int, here as int, places@[i] as int);
                    }
                }
            }
            return at;
        }
        at += 1;
    }
    at
}

/// There is one order only: any two that fit the same keys are the same.
pub proof fn law_order_is_unique(keys: Seq<(u64, Seq<char>)>, one: Seq<int>, other: Seq<int>)
    requires
        is_order(one, keys),
        is_order(other, keys),
    ensures
        one == other,
{
    lemma_order_covers(keys, one);
    lemma_order_covers(keys, other);
    assert forall|i: int| 0 <= i < one.len() implies one[i] == other[i] by {
        lemma_same_place(keys, one, other, i);
    }
    assert(one =~= other);
}

/// An order names every item.
proof fn lemma_order_covers(keys: Seq<(u64, Seq<char>)>, places: Seq<int>)
    requires
        is_order(places, keys),
    ensures
        forall|k: int| 0 <= k < keys.len() ==> places.contains(k),
{
    assert(places.no_duplicates()) by {
        assert forall|i: int, j: int|
            0 <= i < places.len() && 0 <= j < places.len() && i != j implies places[i]
            != places[j] by {
            if i < j {
                assert(earlier(keys, places[i], places[j]));
                lemma_earlier_total(keys, places[i], places[j]);
            } else {
                assert(earlier(keys, places[j], places[i]));
                lemma_earlier_total(keys, places[i], places[j]);
            }
            lemma_before_irreflexive(keys[places[i]].1);
        }
    }
    let all = vstd::set_lib::set_int_range(0, keys.len() as int);
    vstd::set_lib::lemma_int_range(0, keys.len() as int);
    places.unique_seq_to_set();
    assert(places.to_set().subset_of(all));
    vstd::set_lib::lemma_subset_equality(places.to_set(), all);
    assert forall|k: int| 0 <= k < keys.len() implies places.contains(k) by {
        assert(all.contains(k));
        assert(places.to_set().contains(k));
    }
}

proof fn lemma_same_place(keys: Seq<(u64, Seq<char>)>, one: Seq<int>, other: Seq<int>, i: int)
    requires
        is_order(one, keys),
        is_order(other, keys),
        forall|k: int| 0 <= k < keys.len() ==> one.contains(k),
        forall|k: int| 0 <= k < keys.len() ==> other.contains(k),
        0 <= i < one.len(),
    ensures
        one[i] == other[i],
    decreases i,
{
    assert forall|h: int| 0 <= h < i implies one[h] == other[h] by {
        lemma_same_place(keys, one, other, h);
    }
    let a = one[i];
    let b = other[i];
    if a != b {
        let x = choose|x: int| 0 <= x < other.len() && other[x] == a;
        let y = choose|y: int| 0 <= y < one.len() && one[y] == b;
        assert(other.contains(a));
        assert(one.contains(b));
        lemma_earlier_total(keys, a, b);
        if x < i {
            assert(one[x] == other[x]);
            assert(earlier(keys, one[x], one[i]));
            lemma_before_irreflexive(keys[a].1);
            assert(false);
        }
        if y < i {
            assert(one[y] == other[y]);
            assert(earlier(keys, other[y], other[i]));
            lemma_before_irreflexive(keys[b].1);
            assert(false);
        }
        assert(earlier(keys, other[i], other[x]));
        assert(earlier(keys, one[i], one[y]));
        assert(false);
    }
}

/// Whether texts are in order, the same one allowed twice.
pub open spec fn is_sorted(v: Seq<Seq<char>>) -> bool {
    forall|i: int, j: int| 0 <= i < j < v.len() ==> !before(#[trigger] v[j], #[trigger] v[i])
}

/// The keys that order texts by themselves.
pub open spec fn by_name(v: Seq<Seq<char>>) -> Seq<(u64, Seq<char>)> {
    v.map_values(|s: Seq<char>| (0u64, s))
}

/// Texts, put in order.
pub fn sort_texts(v: &[String]) -> (r: Vec<String>)
    ensures
        is_arranged(texts(r@), texts(v@), by_name(texts(v@))),
        is_sorted(texts(r@)),
{
    let mut keys: Vec<Key> = Vec::new();
    let mut i: usize = 0;
    while i < v.len()
        invariant
            i <= v@.len(),
            keys@.len() == i,
            forall|j: int|
                0 <= j < i ==> (#[trigger] keys@[j]).0 == 0 && keys@[j].1@ == v@[j]@,
        decreases v@.len() - i,
    {
        keys.push((0, v[i].clone()));
        i += 1;
    }
    let places = order_of(keys.as_slice());
    let ghost views = key_views(keys@);
    let ghost ints = as_ints(places@);
    let mut r: Vec<String> = Vec::new();
    let mut k: usize = 0;
    while k < places.len()
        invariant
            k <= places@.len(),
            r@.len() == k,
            ints == as_ints(places@),
            is_order(ints, views),
            views.len() == v@.len(),
            forall|j: int| 0 <= j < k ==> (#[trigger] r@[j])@ == v@[ints[j]]@,
        decreases places@.len() - k,
    {
        proof {
            assert(ints[k as int] == places@[k as int] as int);
        }
        r.push(v[places[k]].clone());
        k += 1;
    }
    proof {
        let all = texts(v@);
        assert forall|i: int, j: int| 0 <= i < j < texts(r@).len() implies !before(
            #[trigger] texts(r@)[j],
            #[trigger] texts(r@)[i],
        ) by {
            assert(texts(r@)[i] == r@[i]@);
            assert(texts(r@)[j] == r@[j]@);
            assert(earlier(views, ints[i], ints[j]));
            assert(views[ints[i]].1 == v@[ints[i]]@);
            assert(views[ints[j]].1 == v@[ints[j]]@);
            lemma_before_total(v@[ints[i]]@, v@[ints[j]]@);
            lemma_before_irreflexive(v@[ints[i]]@);
        }
        assert(views =~= by_name(all));
        assert(texts(r@) =~= Seq::new(ints.len(), |i: int| all[ints[i]]));
    }
    r
}

/// Law: what is arranged holds every item once, and no item comes after one whose
/// key its own comes before.
pub proof fn law_arranged_keeps_every_item<A>(
    r: Seq<A>,
    items: Seq<A>,
    keys: Seq<(u64, Seq<char>)>,
)
    requires
        is_arranged(r, items, keys),
        items.len() == keys.len(),
    ensures
        r.len() == items.len(),
        exists|places: Seq<int>|
            {
                &&& #[trigger] places.no_duplicates()
                &&& places.len() == items.len()
                &&& forall|k: int|
                    0 <= k < places.len() ==> 0 <= #[trigger] places[k] < items.len() && r[k]
                        == items[places[k]]
                &&& forall|j: int, k: int|
                    0 <= j < k < places.len() ==> !key_before(
                        keys[#[trigger] places[k]],
                        keys[#[trigger] places[j]],
                    )
            },
        forall|i: int| 0 <= i < items.len() ==> r.contains(#[trigger] items[i]),
{
    let places = choose|places: Seq<int>| #[trigger]
        is_order(places, keys) && r == Seq::new(places.len(), |i: int| items[places[i]]);
    assert(places.no_duplicates()) by {
        assert forall|i: int, j: int| 0 <= i < j < places.len() implies places[i] != places[j] by {
            assert(earlier(keys, places[i], places[j]));
            lemma_before_irreflexive(keys[places[i]].1);
        }
    }
    assert forall|j: int, k: int| 0 <= j < k < places.len() implies !key_before(
        keys[#[trigger] places[k]],
        keys[#[trigger] places[j]],
    ) by {
        assert(earlier(keys, places[j], places[k]));
        lemma_before_total(keys[places[j]].1, keys[places[k]].1);
        lemma_before_irreflexive(keys[places[j]].1);
    }
    lemma_order_covers(keys, places);
    assert forall|i: int| 0 <= i < items.len() implies r.contains(#[trigger] items[i]) by {
        assert(places.contains(i));
        let k = choose|k: int| 0 <= k < places.len() && places[k] == i;
        assert(r[k] == items[i]);
    }
}

} // verus!
