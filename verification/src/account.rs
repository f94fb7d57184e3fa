//! The repository's account identity, sourced from the `refs/meta/account` ref.
//!
//! An *account* is just a repository that carries a `refs/meta/account` ref:
//! the presence of the ref is what marks a repository as an account, and its
//! document carries the profile.

use vstd::prelude::*;

use crate::component::{self, is_loaded};
use crate::documents::{Node, Stored};

verus! {

/// The ref whose tree holds the account profile, and whose mere presence marks
/// a repository as an account repo.
pub const ACCOUNT_REF: &'static str = "refs/meta/account";

/// A repository's account profile.
#[derive(Debug, Clone, PartialEq, Eq)]
pub struct Account {
    /// The account's username, authoritative here rather than in the path.
    pub username: String,
    /// The human-facing display name; defaults to the username.
    pub display_name: String,
    /// A short free-text bio; `""` when unset.
    pub bio: String,
    /// When the account was created, as seconds since the Unix epoch.
    pub created_at: u64,
}

impl Default for Account {
    fn default() -> (r: Account)
        ensures
            r.username@.len() == 0,
            r.display_name@.len() == 0,
            r.bio@.len() == 0,
            r.created_at == 0,
    {
        Account {
            username: String::new(),
            display_name: String::new(),
            bio: String::new(),
            created_at: 0,
        }
    }
}

/// Whether a repository is an account repo, from what was loaded of its account
/// ref: a ref that is there makes it one, and one that cannot be read is an
/// error.
pub fn is_account_repo<E>(loaded: Result<Option<Account>, E>) -> (r: Result<bool, E>)
    ensures
        match loaded {
            Ok(account) => r == Ok::<bool, E>(account is Some),
            Err(error) => r == Err::<bool, E>(error),
        },
{
    match loaded {
        Ok(account) => Ok(account.is_some()),
        Err(error) => Err(error),
    }
}

/// Loads the account from what [`ACCOUNT_REF`] holds: `Some(None)` where the ref
/// is absent, so the repository is no account, and `None` where it cannot be
/// read.
pub fn load(node: Option<&Node>) -> (r: Option<Option<Account>>)
    ensures
        is_loaded(r, node),
{
    component::load(node)
}

/// The ref that an account is stored on, and what it holds then.
pub fn store(account: &Account) -> (r: (&'static str, Node))
    ensures
        r.0@ == ACCOUNT_REF@,
        Account::layout(r.1, account.value()),
{
    component::store(account)
}

} // verus!
