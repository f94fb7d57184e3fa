//! SSH commit signing with the user's own key, in the namespace git signs
//! commits under.

use vstd::prelude::*;

use crate::error::Error;
use crate::keys::{default_key, default_key_path};

verus! {

/// The SSHSIG namespace git signs commits under.
pub const GIT_SIGN_NAMESPACE: &'static str = "git";

/// A result as plain values.
pub open spec fn outcome_text(r: Result<String, String>) -> Result<Seq<char>, Seq<char>> {
    match r {
        Ok(text) => Ok(text@),
        Err(detail) => Err(detail@),
    }
}

/// Whether an OpenSSH private key is encrypted, or why it is none.
pub uninterp spec fn key_encrypted(pem: Seq<char>) -> Result<bool, Seq<char>>;

/// `ssh_key::PrivateKey::from_openssh` reads a private key, and `is_encrypted`
/// tells whether a passphrase protects it. Which texts are keys, and what is
/// said of those that are none, is left unsaid.
#[verifier::external_body]
fn read_private_key(pem: &str) -> (r: Result<bool, String>)
    ensures
        match r {
            Ok(encrypted) => key_encrypted(pem@) == Ok::<bool, Seq<char>>(encrypted),
            Err(detail) => key_encrypted(pem@) == Err::<bool, Seq<char>>(detail@),
        },
{
    ssh_key::PrivateKey::from_openssh(pem).map(|key| key.is_encrypted()).map_err(|e| e.to_string())
}

/// The public half of an OpenSSH private key, or why it has none.
pub uninterp spec fn public_half(pem: Seq<char>) -> Result<Seq<char>, Seq<char>>;

/// `ssh_key::PublicKey::to_openssh` writes the public half of a private key on
/// one line. What the line is, is left unsaid.
#[verifier::external_body]
fn derive_public_key(pem: &str) -> (r: Result<String, String>)
    ensures
        outcome_text(r) == public_half(pem@),
{
    ssh_key::PrivateKey::from_openssh(pem).and_then(|key| key.public_key().to_openssh()).map_err(
        |e| e.to_string(),
    )
}

/// The armored signature of a payload under a namespace, or why there is none.
pub uninterp spec fn ssh_signature(pem: Seq<char>, namespace: Seq<char>, payload: Seq<u8>) -> Result<
    Seq<char>,
    Seq<char>,
>;

/// `ssh_key::PrivateKey::sign` signs a payload with SHA-512 under a namespace,
/// and `SshSig::to_pem` armors the signature. What the signature is, is left
/// unsaid.
#[verifier::external_body]
fn sign_payload(pem: &str, namespace: &str, payload: &[u8]) -> (r: Result<String, String>)
    ensures
        outcome_text(r) == ssh_signature(pem@, namespace@, payload@),
{
    ssh_key::PrivateKey::from_openssh(pem).and_then(
        |key| key.sign(namespace, ssh_key::HashAlg::Sha512, payload),
    ).and_then(|signature| signature.to_pem(ssh_key::LineEnding::LF)).map_err(|e| e.to_string())
}

/// A loaded SSH signing identity. Its view is the private key's text, which no
/// passphrase protects.
pub struct Signer {
    pem: String,
}

impl View for Signer {
    type V = Seq<char>;

    closed spec fn view(&self) -> Seq<char> {
        self.pem@
    }
}

/// What is said of a key that a passphrase protects.
pub const PROTECTED: &'static str =
    "passphrase-protected keys are not supported yet; use an unencrypted key or ssh-agent (deferred)";

impl Signer {
    /// Loads a signing identity from what was read at `path`. An encrypted key
    /// is refused.
    pub fn load(path: &str, pem: String) -> (r: Result<Signer, Error>)
        ensures
            match key_encrypted(pem@) {
                Err(detail) => r matches Err(Error::BadSigningKey { path: p, detail: d }) && p@
                    == path@ && d@ == detail,
                Ok(true) => r matches Err(Error::BadSigningKey { path: p, detail: d }) && p@
                    == path@ && d@ == PROTECTED@,
                Ok(false) => r matches Ok(signer) && signer@ == pem@,
            },
    {
        match read_private_key(pem.as_str()) {
            Err(detail) => Err(Error::BadSigningKey { path: path.to_owned(), detail }),
            Ok(encrypted) => if encrypted {
                Err(Error::BadSigningKey { path: path.to_owned(), detail: PROTECTED.to_owned() })
            } else {
                Ok(Signer { pem })
            },
        }
    }

    /// The public half in OpenSSH single-line format.
    pub fn public_openssh(&self) -> (r: Result<String, String>)
        ensures
            outcome_text(r) == public_half(self@),
    {
        derive_public_key(self.pem.as_str())
    }

    /// Signs `payload` in git's namespace: the armored block git stores in a
    /// commit's `gpgsig` header.
    pub fn sign(&self, payload: &[u8]) -> (r: Result<String, String>)
        ensures
            outcome_text(r) == ssh_signature(self@, GIT_SIGN_NAMESPACE@, payload@),
    {
        sign_payload(self.pem.as_str(), GIT_SIGN_NAMESPACE, payload)
    }
}

/// Resolves the signing key path a command uses: the one given, else what
/// `user.signingkey` is set to, else the default one where it is there.
pub fn resolve_key_path(
    explicit: Option<&str>,
    configured: Option<&str>,
    home: Option<&str>,
    default_present: bool,
) -> (r: Result<String, Error>)
    ensures
        match (explicit, configured, home) {
            (Some(path), _, _) => r matches Ok(found) && found@ == path@,
            (None, Some(path), _) => r matches Ok(found) && found@ == path@,
            (None, None, Some(home)) if default_present => r matches Ok(found) && found@
                == default_key(home@),
            _ => r matches Err(Error::NoSigningKey),
        },
{
    if let Some(path) = explicit {
        return Ok(path.to_owned());
    }
    if let Some(path) = configured {
        return Ok(path.to_owned());
    }
    if default_present {
        if let Ok(path) = default_key_path(home) {
            return Ok(path);
        }
    }
    Err(Error::NoSigningKey)
}

/// What setting up does about the signing key.
#[derive(Debug, PartialEq, Eq)]
pub enum KeyStep {
    /// Use the one there.
    Use(String),
    /// Generate one.
    Generate(String),
}

/// Decides on the signing key of a setup: the one resolved where it is there,
/// else a new one in its place, or at the default path where none was resolved.
pub fn setup_key(resolved: Result<String, Error>, present: bool, home: Option<&str>) -> (r: Result<
    KeyStep,
    Error,
>)
    ensures
        match resolved {
            Ok(path) => r == Ok::<KeyStep, Error>(
                if present {
                    KeyStep::Use(path)
                } else {
                    KeyStep::Generate(path)
                },
            ),
            Err(Error::NoSigningKey) => match home {
                Some(home) => r matches Ok(KeyStep::Generate(path)) && path@ == default_key(home@),
                None => r matches Err(Error::NoSigningKey),
            },
            Err(other) => r == Err::<KeyStep, Error>(other),
        },
{
    match resolved {
        Ok(path) => if present {
            Ok(KeyStep::Use(path))
        } else {
            Ok(KeyStep::Generate(path))
        },
        Err(Error::NoSigningKey) => match default_key_path(home) {
            Ok(path) => Ok(KeyStep::Generate(path)),
            Err(_) => Err(Error::NoSigningKey),
        },
        Err(other) => Err(other),
    }
}

} // verus!
