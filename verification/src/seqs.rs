//! Sequences: the few operations that contracts across the library share.

use vstd::prelude::*;

verus! {

/// The index of the first element that `p` holds of, or `s.len()`.
pub open spec fn first_where<A>(s: Seq<A>, p: spec_fn(A) -> bool) -> int
    decreases s.len(),
{
    if s.len() == 0 || p(s[0]) {
        0
    } else {
        1 + first_where(s.skip(1), p)
    }
}

/// `first_where` is the first index that `p` holds of.
pub proof fn lemma_first_where<A>(s: Seq<A>, p: spec_fn(A) -> bool)
    ensures
        0 <= first_where(s, p) <= s.len(),
        forall|j: int| 0 <= j < first_where(s, p) ==> !p(#[trigger] s[j]),
        first_where(s, p) < s.len() ==> p(s[first_where(s, p)]),
    decreases s.len(),
{
    if s.len() > 0 && !p(s[0]) {
        lemma_first_where(s.skip(1), p);
        let k = first_where(s.skip(1), p);
        assert forall|j: int| 0 <= j < 1 + k implies !p(#[trigger] s[j]) by {
            if j > 0 {
                assert(s.skip(1)[j - 1] == s[j]);
            }
        }
        if k < s.len() - 1 {
            assert(s[k + 1] == s.skip(1)[k]);
        }
    }
}

/// An index with the property of `first_where` is it.
pub proof fn lemma_first_where_is<A>(s: Seq<A>, p: spec_fn(A) -> bool, i: int)
    requires
        0 <= i <= s.len(),
        forall|j: int| 0 <= j < i ==> !p(#[trigger] s[j]),
        i < s.len() ==> p(s[i]),
    ensures
        first_where(s, p) == i,
{
    lemma_first_where(s, p);
    let k = first_where(s, p);
    if k < i {
        assert(!p(s[k]));
    }
    if i < k {
        assert(!p(s[i]));
    }
}

/// What `f` gives for the elements of `s`, in order, those left out for which
/// it gives nothing.
pub open spec fn kept<A, B>(s: Seq<A>, f: spec_fn(A) -> Option<B>) -> Seq<B>
    decreases s.len(),
{
    if s.len() == 0 {
        seq![]
    } else {
        match f(s.last()) {
            Some(b) => kept(s.drop_last(), f).push(b),
            None => kept(s.drop_last(), f),
        }
    }
}

/// One element more adds what `f` gives for it.
pub proof fn lemma_kept_step<A, B>(s: Seq<A>, f: spec_fn(A) -> Option<B>, i: int)
    requires
        0 <= i < s.len(),
    ensures
        kept(s.take(i + 1), f) == match f(s[i]) {
            Some(b) => kept(s.take(i), f).push(b),
            None => kept(s.take(i), f),
        },
{
    assert(s.take(i + 1).drop_last() =~= s.take(i));
    assert(s.take(i + 1).last() == s[i]);
}

/// What is kept of two sequences in a row is what is kept of each.
pub proof fn lemma_kept_concat<A, B>(a: Seq<A>, b: Seq<A>, f: spec_fn(A) -> Option<B>)
    ensures
        kept(a + b, f) == kept(a, f) + kept(b, f),
    decreases b.len(),
{
    if b.len() == 0 {
        assert(a + b =~= a);
        assert(kept(a, f) + kept(b, f) =~= kept(a, f));
    } else {
        lemma_kept_concat(a, b.drop_last(), f);
        assert((a + b).drop_last() =~= a + b.drop_last());
        assert((a + b).last() == b.last());
        assert(kept(a + b, f) =~= kept(a, f) + kept(b, f));
    }
}

/// Whatever is kept comes from an element.
pub proof fn lemma_kept_from<A, B>(s: Seq<A>, f: spec_fn(A) -> Option<B>, k: int) -> (i: int)
    requires
        0 <= k < kept(s, f).len(),
    ensures
        0 <= i < s.len(),
        f(s[i]) == Some(kept(s, f)[k]),
    decreases s.len(),
{
    let rest = kept(s.drop_last(), f);
    if k < rest.len() {
        let i = lemma_kept_from(s.drop_last(), f, k);
        assert(s.drop_last()[i] == s[i]);
        i
    } else {
        s.len() - 1
    }
}

/// An element that `f` gives something for is kept.
pub proof fn lemma_kept_has<A, B>(s: Seq<A>, f: spec_fn(A) -> Option<B>, i: int) -> (k: int)
    requires
        0 <= i < s.len(),
        f(s[i]) is Some,
    ensures
        0 <= k < kept(s, f).len(),
        kept(s, f)[k] == f(s[i])->0,
    decreases s.len(),
{
    if i == s.len() - 1 {
        kept(s, f).len() - 1
    } else {
        assert(s.drop_last()[i] == s[i]);
        lemma_kept_has(s.drop_last(), f, i)
    }
}

/// Where every element is kept, none is lost.
pub proof fn lemma_kept_all<A, B>(s: Seq<A>, f: spec_fn(A) -> Option<B>, t: Seq<B>)
    requires
        s.len() == t.len(),
        forall|i: int| 0 <= i < s.len() ==> f(#[trigger] s[i]) == Some(t[i]),
    ensures
        kept(s, f) == t,
    decreases s.len(),
{
    if s.len() > 0 {
        lemma_kept_all(s.drop_last(), f, t.drop_last());
        assert(t.drop_last().push(t.last()) =~= t);
    } else {
        assert(t =~= Seq::empty());
    }
}

/// Functions that agree on every element keep the same of them.
pub proof fn lemma_kept_same<A, B>(
    s: Seq<A>,
    f: spec_fn(A) -> Option<B>,
    g: spec_fn(A) -> Option<B>,
)
    requires
        forall|i: int| 0 <= i < s.len() ==> f(#[trigger] s[i]) == g(s[i]),
    ensures
        kept(s, f) == kept(s, g),
    decreases s.len(),
{
    if s.len() > 0 {
        lemma_kept_same(s.drop_last(), f, g);
        assert(f(s[s.len() - 1]) == g(s[s.len() - 1]));
    }
}

/// Where `f` gives nothing for any element, nothing is kept.
pub proof fn lemma_kept_none<A, B>(s: Seq<A>, f: spec_fn(A) -> Option<B>)
    requires
        forall|i: int| 0 <= i < s.len() ==> f(#[trigger] s[i]) is None,
    ensures
        kept(s, f) == Seq::<B>::empty(),
    decreases s.len(),
{
    if s.len() > 0 {
        assert(f(s[s.len() - 1]) is None);
        assert forall|i: int| 0 <= i < s.drop_last().len() implies f(
            #[trigger] s.drop_last()[i],
        ) is None by {
            assert(s.drop_last()[i] == s[i]);
        }
        lemma_kept_none(s.drop_last(), f);
    } else {
        assert(kept(s, f) =~= Seq::<B>::empty());
    }
}

} // verus!
