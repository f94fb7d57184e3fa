//! Every way a subcommand can fail, rendered for a terminal.

use vstd::prelude::*;

verus! {

/// Every way a subcommand can fail.
#[derive(Debug, PartialEq, Eq)]
pub enum Error {
    /// The current directory is not inside a git repository.
    NotARepo {
        /// The directory that the search started from.
        path: String,
    },
    /// No signing key could be resolved.
    NoSigningKey,
    /// The signing key could not be read, or is protected by a passphrase.
    BadSigningKey {
        /// The key file that failed to load.
        path: String,
        /// What went wrong.
        detail: String,
    },
    /// The proposed mutation broke a rule of the repository.
    Refused(String),
    /// Another writer moved a ref between read and write.
    Stale {
        /// The ref whose precondition was stale.
        name: String,
    },
    /// A previously redacted object would have been refilled.
    Redacted {
        /// The redacted object id.
        oid: String,
    },
    /// The named entity does not exist.
    NotFound {
        /// What was being looked up.
        what: String,
    },
    /// Reading or writing a file outside the object database failed.
    Io {
        /// The path being read or written.
        path: String,
        /// The underlying failure.
        source: String,
    },
    /// An argument is malformed.
    InvalidArgument(String),
    /// A store or another part failed, in its own words.
    Other(String),
}

/// What is said of a failure.
pub open spec fn message_of(error: Error) -> Seq<char> {
    match error {
        Error::NotARepo {
            path,
        } => "not a git repository (or any parent up to mount point): "@ + path@,
        Error::NoSigningKey => "no signing key configured; run `git ents setup` or pass --key"@,
        Error::BadSigningKey { path, detail } => "cannot use signing key at "@ + path@ + ": "@
            + detail@,
        Error::Refused(reasons) => "rejected: "@ + reasons@,
        Error::Stale { name } => "rejected: "@ + name@ + " changed concurrently, retry"@,
        Error::Redacted { oid } => "refused: object "@ + oid@
            + " was redacted and cannot be refilled"@,
        Error::NotFound { what } => "not found: "@ + what@,
        Error::Io { path, source } => "io error at "@ + path@ + ": "@ + source@,
        Error::InvalidArgument(what) => "invalid argument: "@ + what@,
        Error::Other(text) => text@,
    }
}

impl Error {
    /// What is said of a failure.
    pub fn message(&self) -> (r: String)
        ensures
            r@ == message_of(*self),
    {
        match self {
            Error::NotARepo { path } => {
                let mut r = "not a git repository (or any parent up to mount point): ".to_owned();
                r.append(path.as_str());
                r
            },
            Error::NoSigningKey =>
                "no signing key configured; run `git ents setup` or pass --key".to_owned(),
            Error::BadSigningKey { path, detail } => {
                let mut r = "cannot use signing key at ".to_owned();
                r.append(path.as_str());
                r.append(": ");
                r.append(detail.as_str());
                r
            },
            Error::Refused(reasons) => {
                let mut r = "rejected: ".to_owned();
                r.append(reasons.as_str());
                r
            },
            Error::Stale { name } => {
                let mut r = "rejected: ".to_owned();
                r.append(name.as_str());
                r.append(" changed concurrently, retry");
                r
            },
            Error::Redacted { oid } => {
                let mut r = "refused: object ".to_owned();
                r.append(oid.as_str());
                r.append(" was redacted and cannot be refilled");
                r
            },
            Error::NotFound { what } => {
                let mut r = "not found: ".to_owned();
                r.append(what.as_str());
                r
            },
            Error::Io { path, source } => {
                let mut r = "io error at ".to_owned();
                r.append(path.as_str());
                r.append(": ");
                r.append(source.as_str());
                r
            },
            Error::InvalidArgument(what) => {
                let mut r = "invalid argument: ".to_owned();
                r.append(what.as_str());
                r
            },
            Error::Other(text) => text.clone(),
        }
    }
}

} // verus!
