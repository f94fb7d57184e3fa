//! Signing keys held under their fingerprints in one document, each with the
//! window it is trusted within.

use vstd::prelude::*;

use crate::component::{self, is_loaded_map, map_document};
use crate::documents::{map_value, single, Node};
use crate::keyed::TextMap;
use crate::members::{allowed_signers_line, signer_line};
use crate::text::opt_text;

verus! {

/// The ref whose tree holds the signer set.
pub const MEMBERS_REF: &'static str = "refs/meta/members";

/// One fingerprint's stored authorization: the OpenSSH public key it names and
/// the window that key is trusted within.
#[derive(Debug, Clone, PartialEq, Eq)]
pub struct Authorization {
    /// The OpenSSH public key the member signs with.
    pub key: String,
    /// The key is trusted at or after this OpenSSH timestamp.
    pub valid_after: Option<String>,
    /// The key is trusted at or before this OpenSSH timestamp.
    pub valid_before: Option<String>,
}

/// One member's authorized signing key, with the validity window it is trusted
/// within.
#[derive(Debug, Clone, PartialEq, Eq)]
pub struct Signer {
    /// The key it is stored under: its fingerprint.
    pub fingerprint: String,
    /// The OpenSSH public key (`<type> <base64> [comment]`).
    pub key: String,
    /// The OpenSSH timestamp at or after which the key is trusted, or `None`
    /// for no lower bound.
    pub valid_after: Option<String>,
    /// The OpenSSH timestamp at or before which the key is trusted, or `None`
    /// for trust that never lapses on its own.
    pub valid_before: Option<String>,
}

/// The `allowed_signers` file of `signers`.
pub open spec fn signers_file(signers: Seq<Signer>) -> Seq<char>
    decreases signers.len(),
{
    if signers.len() == 0 {
        seq![]
    } else {
        signers_file(signers.drop_last()) + signer_line(
            false,
            opt_text(signers.last().valid_after),
            opt_text(signers.last().valid_before),
            signers.last().key@,
        )
    }
}

/// Renders `signers` as an OpenSSH `allowed_signers` file that authorizes any
/// pusher identity (`*`) signing in git's namespace, each key within its
/// window.
pub fn allowed_signers(signers: &[Signer]) -> (r: String)
    ensures
        r@ == signers_file(signers@),
{
    let mut out = String::new();
    let mut i: usize = 0;
    while i < signers.len()
        invariant
            i <= signers@.len(),
            out@ == signers_file(signers@.take(i as int)),
        decreases signers@.len() - i,
    {
        let line = allowed_signers_line(
            &signers[i].valid_after,
            &signers[i].valid_before,
            false,
            signers[i].key.as_str(),
        );
        out.append(line.as_str());
        proof {
            assert(signers@.take(i + 1).drop_last() =~= signers@.take(i as int));
        }
        i += 1;
    }
    proof {
        assert(signers@.take(signers@.len() as int) =~= signers@);
    }
    out
}

/// Loads the signers from what [`MEMBERS_REF`] holds, in the order of their keys: none
/// where the ref is absent, and `None` where it cannot be read.
pub fn load(node: Option<&Node>) -> (r: Option<Vec<Signer>>)
    ensures
        is_loaded_map(r, node),
{
    component::load_map(node)
}

/// The ref that signers are stored on, and what it holds then: these signers and
/// no others.
pub fn store(items: Vec<Signer>) -> (r: (&'static str, Node))
    ensures
        r.0@ == MEMBERS_REF@,
        single::<TextMap<Authorization>>(r.1, "members"@, map_value(map_document(items@))),
{
    (MEMBERS_REF, component::store_map(items))
}

/// Law: the file has a line for each signer, in order, with the signer's own key
/// and window.
pub proof fn law_each_signer_has_a_line(signers: Seq<Signer>, signer: Signer)
    ensures
        signers_file(Seq::empty()) == Seq::<char>::empty(),
        signers_file(signers.push(signer)) == signers_file(signers) + signer_line(
            false,
            opt_text(signer.valid_after),
            opt_text(signer.valid_before),
            signer.key@,
        ),
{
    assert(signers.push(signer).drop_last() =~= signers);
}

} // verus!
