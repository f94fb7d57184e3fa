//! Fast revocation, sourced from the `refs/meta/revoked` ref: a deny list of
//! fingerprints that is taken from the trust set before a push is checked.

use vstd::prelude::*;

use crate::component::{self, is_loaded_map, map_document};
use crate::documents::{map_value, single, Node};
use crate::keyed::{TextMap, TextSet};

verus! {

/// The ref whose tree holds the revocation list.
pub const REVOKED_REF: &'static str = "refs/meta/revoked";

/// One revoked key.
#[derive(Debug, Clone, PartialEq, Eq)]
pub struct Revocation {
    /// The revoked key's fingerprint.
    pub fingerprint: String,
    /// A free-text reason, or `""` when none was given.
    pub reason: String,
}

/// A revoked key's stored body. The fingerprint it stands under is its identity,
/// so it is not repeated in the body.
#[derive(Debug, Clone, PartialEq, Eq)]
pub struct RevocationBody {
    /// A free-text reason, or `""` when none was given.
    pub reason: String,
}

/// The fingerprints of a list of revocations.
pub open spec fn revoked_set(revocations: Seq<Revocation>) -> Set<Seq<char>> {
    Set::new(
        |f: Seq<char>|
            exists|i: int|
                0 <= i < revocations.len() && (#[trigger] revocations[i]).fingerprint@ == f,
    )
}

/// The set of revoked fingerprints, for the verifier to subtract from the trust
/// set.
pub fn fingerprints(revocations: &[Revocation]) -> (r: TextSet)
    ensures
        r@ == revoked_set(revocations@),
{
    let mut r = TextSet::new();
    let mut i: usize = 0;
    proof {
        assert(r@ =~= revoked_set(revocations@.take(0)));
    }
    while i < revocations.len()
        invariant
            i <= revocations@.len(),
            r@ == revoked_set(revocations@.take(i as int)),
        decreases revocations@.len() - i,
    {
        r.insert(revocations[i].fingerprint.clone());
        proof {
            let now = revocations@.take(i + 1);
            let prior = revocations@.take(i as int);
            let added = revocations@[i as int].fingerprint@;
            assert forall|f: Seq<char>|
                revoked_set(now).contains(f) <==> (revoked_set(prior).contains(f) || f
                    == added) by {
                if revoked_set(now).contains(f) {
                    let j = choose|j: int|
                        0 <= j < now.len() && (#[trigger] now[j]).fingerprint@ == f;
                    if j < i {
                        assert(prior[j].fingerprint@ == f);
                    }
                }
                if revoked_set(prior).contains(f) {
                    let j = choose|j: int|
                        0 <= j < prior.len() && (#[trigger] prior[j]).fingerprint@ == f;
                    assert(now[j].fingerprint@ == f);
                }
                if f == added {
                    assert(now[i as int].fingerprint@ == f);
                }
            }
            assert(r@ =~= revoked_set(now));
        }
        i += 1;
    }
    proof {
        assert(revocations@.take(revocations@.len() as int) =~= revocations@);
    }
    r
}

/// The document revokes exactly the fingerprints that are listed.
pub proof fn law_document_revokes_what_is_listed(revocations: Seq<Revocation>)
    ensures
        map_document(revocations).dom() == revoked_set(revocations),
    decreases revocations.len(),
{
    if revocations.len() > 0 {
        let prior = revocations.drop_last();
        law_document_revokes_what_is_listed(prior);
        assert forall|f: Seq<char>|
            revoked_set(revocations).contains(f) <==> (revoked_set(prior).contains(f) || f
                == revocations.last().fingerprint@) by {
            if revoked_set(revocations).contains(f) {
                let j = choose|j: int|
                    0 <= j < revocations.len() && (#[trigger] revocations[j]).fingerprint@ == f;
                if j < prior.len() {
                    assert(prior[j].fingerprint@ == f);
                }
            }
            if revoked_set(prior).contains(f) {
                let j = choose|j: int|
                    0 <= j < prior.len() && (#[trigger] prior[j]).fingerprint@ == f;
                assert(revocations[j].fingerprint@ == f);
            }
            if f == revocations.last().fingerprint@ {
                assert(revocations[revocations.len() - 1].fingerprint@ == f);
            }
        }
    }
    assert(map_document(revocations).dom() =~= revoked_set(revocations));
}

/// Loads the revocations from what [`REVOKED_REF`] holds, in the order of their keys: none
/// where the ref is absent, and `None` where it cannot be read.
pub fn load(node: Option<&Node>) -> (r: Option<Vec<Revocation>>)
    ensures
        is_loaded_map(r, node),
{
    component::load_map(node)
}

/// The ref that revocations are stored on, and what it holds then: these revocations and
/// no others.
pub fn store(items: Vec<Revocation>) -> (r: (&'static str, Node))
    ensures
        r.0@ == REVOKED_REF@,
        single::<TextMap<RevocationBody>>(r.1, "revoked"@, map_value(map_document(items@))),
{
    (REVOKED_REF, component::store_map(items))
}

/// Law: every revocation that is listed revokes its fingerprint, and nothing else
/// is revoked.
pub proof fn law_each_revocation_revokes_its_key(
    revocations: Seq<Revocation>,
    revocation: Revocation,
)
    ensures
        revoked_set(Seq::empty()) == Set::<Seq<char>>::empty(),
        revoked_set(revocations.push(revocation)) == revoked_set(revocations).insert(
            revocation.fingerprint@,
        ),
{
    assert(revoked_set(Seq::empty()) =~= Set::<Seq<char>>::empty());
    let more = revocations.push(revocation);
    assert forall|f: Seq<char>|
        revoked_set(more).contains(f) <==> revoked_set(revocations).insert(
            revocation.fingerprint@,
        ).contains(f) by {
        if revoked_set(revocations).contains(f) {
            let i = choose|i: int|
                0 <= i < revocations.len() && (#[trigger] revocations[i]).fingerprint@ == f;
            assert(more[i].fingerprint@ == f);
        }
        if f == revocation.fingerprint@ {
            assert(more[revocations.len() as int].fingerprint@ == f);
        }
        if revoked_set(more).contains(f) {
            let i = choose|i: int| 0 <= i < more.len() && (#[trigger] more[i]).fingerprint@ == f;
            if i < revocations.len() {
                assert(revocations[i].fingerprint@ == f);
            }
        }
    }
    assert(revoked_set(more) =~= revoked_set(revocations).insert(revocation.fingerprint@));
}

} // verus!
