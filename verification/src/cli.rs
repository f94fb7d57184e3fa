//! The argument grammar of `git ents`: which subcommands there are, and what
//! each takes.

use vstd::prelude::*;

verus! {

/// Every top-level subcommand.
#[derive(Debug, PartialEq, Eq)]
pub enum Top {
    /// Configure this repository for signed local writes.
    Setup {
        /// Key to sign with.
        key: Option<String>,
    },
    /// Manage the repository members at `refs/meta/member/<username>`.
    Members {
        /// The member action to run.
        action: MembersAction,
    },
    /// Manage this repository's account identity at `refs/meta/account`.
    Account {
        /// The account action to run.
        action: AccountAction,
    },
    /// Manage the configured effects at `refs/meta/effects/<name>` and run them
    /// locally.
    Effect {
        /// The effect action to run.
        action: EffectAction,
    },
    /// Manage the toolchains stored as git trees at
    /// `refs/meta/toolchains/<name>`.
    Toolchain {
        /// The toolchain action to run.
        action: ToolchainAction,
    },
    /// Comment on code: one comment per ref at `refs/meta/comments/<id>`.
    Comment {
        /// The comment action to run.
        action: CommentAction,
    },
    /// Work with entities awaiting adoption at
    /// `refs/meta/inbox/<member>/<id>`.
    Inbox {
        /// The inbox action to run.
        action: InboxAction,
    },
    /// Record that an object was redacted.
    Redact {
        /// The object id to redact.
        oid: String,
        /// A human-readable reason recorded alongside.
        reason: String,
        /// Key to sign with.
        key: Option<String>,
    },
    /// Plumbing invoked by git's own hooks.
    Hook {
        /// Which hook is running.
        action: HookAction,
    },
}

/// `git ents members` actions.
#[derive(Debug, PartialEq, Eq)]
pub enum MembersAction {
    /// List the members recorded in this repository.
    List,
    /// Enroll a new member, or update an existing one's key.
    Add {
        /// The member's username.
        username: String,
        /// The public key to enroll; defaults to the signer's own.
        pubkey: Option<String>,
        /// Key to sign the enrollment with.
        key: Option<String>,
    },
    /// Remove a member, deleting its ref.
    Remove {
        /// The member to remove.
        username: String,
        /// Key to sign the removal with.
        key: Option<String>,
    },
    /// Revoke a member's key: the record stays, but the key no longer
    /// authorizes new signatures.
    Revoke {
        /// The member to revoke.
        username: String,
        /// Key to sign the revocation with.
        key: Option<String>,
    },
    /// Lift a revocation, restoring a member's key to active.
    Unrevoke {
        /// The member to unrevoke.
        username: String,
        /// Key to sign the unrevocation with.
        key: Option<String>,
    },
    /// Report whether a key is an active member.
    Check {
        /// Key to look for.
        key: Option<String>,
    },
}

/// `git ents account` actions.
#[derive(Debug, PartialEq, Eq)]
pub enum AccountAction {
    /// Create or update this repository's account identity.
    Create {
        /// The member this account belongs to; defaults to the signer's own.
        member: Option<String>,
        /// The login identity the member authenticates as.
        login: String,
        /// Key to sign with.
        key: Option<String>,
    },
}

/// `git ents effect` actions.
#[derive(Debug, PartialEq, Eq)]
pub enum EffectAction {
    /// List the effects configured in this repository.
    List,
    /// Show one effect's definition and, when a commit is given, its result.
    Show {
        /// The effect's name.
        name: String,
        /// Commit to show the result for.
        at: Option<String>,
    },
    /// Define (or replace) an effect.
    Add {
        /// Name to record the effect under.
        name: String,
        /// The query this effect triggers on.
        on: String,
        /// The command the effect runs.
        run: String,
        /// Toolchains to activate before the command runs.
        toolchain: Vec<String>,
        /// Key to sign with.
        key: Option<String>,
    },
    /// Run this repository's effects locally.
    Run {
        /// The effect's name.
        name: String,
        /// Commit to run against; omitted to run every outstanding commit.
        at: Option<String>,
        /// Key to sign the result with.
        key: Option<String>,
    },
    /// Show recorded results for an effect, newest first.
    Log {
        /// The effect's name.
        name: String,
    },
}

/// `git ents toolchain` actions.
#[derive(Debug, PartialEq, Eq)]
pub enum ToolchainAction {
    /// Import a local directory, embedding its contents whole.
    Import {
        /// Name to record the toolchain under.
        name: String,
        /// Directory of executables to import.
        bin: String,
        /// Key to sign with.
        key: Option<String>,
    },
    /// Show a toolchain's provenance.
    View {
        /// Name to view.
        name: String,
    },
    /// Show a toolchain's import history.
    Log {
        /// Name to show history for.
        name: String,
    },
}

/// `git ents comment` actions.
#[derive(Debug, PartialEq, Eq)]
pub enum CommentAction {
    /// Anchor a comment to a file at a revision.
    Add {
        /// Repository-relative path of the file.
        path: String,
        /// The comment's body text.
        body: String,
        /// Lines to anchor, as `<start>[:<end>]`; omitted for the whole file.
        lines: Option<String>,
        /// Revision to anchor against.
        rev: String,
        /// Key to sign with.
        key: Option<String>,
    },
    /// Show one comment: its anchor, projected onto a revision, and its body.
    Show {
        /// The comment's id.
        id: String,
        /// Revision to project the comment's anchor onto.
        rev: String,
    },
}

/// `git ents inbox` actions.
#[derive(Debug, PartialEq, Eq)]
pub enum InboxAction {
    /// List entities awaiting adoption.
    List,
    /// Adopt an inbox entity onto its canonical ref.
    Adopt {
        /// The inbox entry to adopt, as `<member>/<id>`.
        entry: String,
        /// Key to sign the adoption merge with.
        key: Option<String>,
    },
}

/// What a hook of the hosted root is to do.
#[derive(Debug, Clone, Copy, PartialEq, Eq, Structural)]
pub enum HookAction {
    /// Hold every proposed transition to the repository's rules.
    PreReceive,
    /// Reconcile outstanding effect obligations and run them.
    PostReceive,
    /// Reconcile outstanding effect obligations without running anything.
    Reconcile,
}

} // verus!
