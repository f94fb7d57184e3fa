//! How the server is configured: command-line flags over environment
//! variables over defaults.

use vstd::prelude::*;

use crate::text::{decimal, lemma_decimal_round_trip, opt_text, parse_decimal, parsed_decimal};

verus! {

/// Subcommands that run instead of serving HTTP.
#[derive(Debug, PartialEq, Eq, Structural, Clone, Copy)]
pub enum Command {
    /// Verify a signed push against the authorized signers (a git
    /// `pre-receive` hook).
    PreReceive,
    /// Run the configured checks against a push in a Sprite (a git
    /// `post-receive` hook).
    PostReceive,
}

/// Command-line arguments, layered over the matching environment variables
/// (the flag always wins).
#[derive(Debug)]
pub struct Args {
    /// Subcommand that runs instead of serving HTTP.
    pub command: Option<Command>,
    /// Port to listen on ($PORT, default 8080).
    pub port: Option<u16>,
    /// Directory holding the bare repositories served over HTTP
    /// ($GIT_PROJECT_ROOT, default `/data/repos`).
    pub data_dir: Option<String>,
    /// Secret seed for signed-push nonces ($CERT_NONCE_SEED). Setting it
    /// requires pushes to carry a signed-push certificate.
    pub cert_nonce_seed: Option<String>,
    /// Directory of git hooks (a `pre-receive`) applied to every served repo
    /// ($GIT_ENTS_HOOKS_DIR).
    pub hooks_dir: Option<String>,
    /// The server's own SSH private key, used to sign browser-made edits
    /// ($GIT_ENTS_WEB_SIGNING_KEY). Editing is disabled unless this is set.
    pub web_signing_key: Option<String>,
    /// Directory where the `post-receive` hook queues pushes for the check
    /// worker ($GIT_ENTS_CHECKS_QUEUE, default `/data/checks-queue`).
    pub checks_queue: Option<String>,
}

/// The environment variables that the server reads, as they are set.
#[derive(Debug)]
pub struct Environment {
    /// `PORT`.
    pub port: Option<String>,
    /// `GIT_PROJECT_ROOT`.
    pub project_root: Option<String>,
    /// `CERT_NONCE_SEED`.
    pub cert_nonce_seed: Option<String>,
    /// `GIT_ENTS_HOOKS_DIR`.
    pub hooks_dir: Option<String>,
    /// `GIT_ENTS_WEB_SIGNING_KEY`.
    pub web_signing_key: Option<String>,
    /// `GIT_ENTS_CHECKS_QUEUE`.
    pub checks_queue: Option<String>,
}

/// Where hydrated objects are kept.
#[derive(Debug)]
pub enum BlobStore {
    /// A directory.
    Fs(String),
    /// An S3 bucket.
    S3(S3Config),
}

/// How an S3 bucket is reached.
#[derive(Debug)]
pub struct S3Config {
    /// The bucket's name.
    pub bucket: String,
    /// The region it is in.
    pub region: String,
    /// The endpoint it is reached at.
    pub endpoint: String,
    /// The id of the access key.
    pub access_key_id: String,
    /// The access key's secret.
    pub secret_access_key: String,
    /// Whether the endpoint may be plain HTTP.
    pub allow_http: bool,
}

/// The durable stores that a hydrated deployment reads and writes.
#[derive(Debug)]
pub struct HydrateConfig {
    /// How the database with the refs is reached.
    pub postgres_conninfo: String,
    /// Where the objects are.
    pub blob: BlobStore,
}

/// What every request handler sees of the configuration.
#[derive(Debug)]
pub struct AppState {
    /// Where the bare repositories live.
    pub data_dir: String,
    /// When set, the backend demands a signed-push certificate.
    pub cert_nonce_seed: Option<String>,
    /// When set, every served repository runs the hooks in it.
    pub hooks_dir: Option<String>,
    /// Directory the `post-receive` hook queues pushes into.
    pub checks_queue: String,
    /// The server's own signing key for browser-made edits; `None` disables
    /// editing.
    pub web_signing_key: Option<String>,
    /// The durable stores behind the local repositories, if there are any.
    pub hydrate: Option<HydrateConfig>,
}

/// An environment variable that is set to nothing counts as unset.
pub open spec fn set_value(value: Option<String>) -> Option<Seq<char>> {
    match value {
        Some(s) => if s@.len() > 0 {
            Some(s@)
        } else {
            None
        },
        None => None,
    }
}

/// The value of an environment variable that is set to something.
pub fn env_var(value: &Option<String>) -> (r: Option<String>)
    ensures
        opt_text(r) == set_value(*value),
{
    match value {
        Some(s) => if s.as_str().is_empty() {
            None
        } else {
            Some(s.clone())
        },
        None => None,
    }
}

/// The flag if it is given, else the variable if it is set.
pub open spec fn layered(flag: Option<String>, variable: Option<String>) -> Option<Seq<char>> {
    match flag {
        Some(s) => Some(s@),
        None => set_value(variable),
    }
}

/// The flag if it is given, else the variable if it is set.
fn layer(flag: &Option<String>, variable: &Option<String>) -> (r: Option<String>)
    ensures
        opt_text(r) == layered(*flag, *variable),
{
    match flag {
        Some(s) => Some(s.clone()),
        None => env_var(variable),
    }
}

/// The port to listen on: the flag, else a variable that writes a port number,
/// else 8080.
pub open spec fn listen_port(flag: Option<u16>, variable: Option<String>) -> int {
    match flag {
        Some(port) => port as int,
        None => match set_value(variable) {
            Some(text) => match parsed_decimal(text, 0xffff) {
                Some(n) => n as int,
                None => 8080,
            },
            None => 8080,
        },
    }
}

/// The port to listen on.
pub fn port(args: &Args, env: &Environment) -> (r: u16)
    ensures
        r == listen_port(args.port, env.port),
{
    match args.port {
        Some(port) => port,
        None => match env_var(&env.port) {
            Some(text) => match parse_decimal(text.as_str(), 0xffff) {
                Some(n) => n as u16,
                None => 8080,
            },
            None => 8080,
        },
    }
}

/// The configuration that `args` and `env` come to: each flag wins over its
/// variable, which wins over the default.
pub fn resolve(args: &Args, env: &Environment) -> (r: AppState)
    ensures
        r.data_dir@ == layered(args.data_dir, env.project_root).unwrap_or("/data/repos"@),
        r.checks_queue@ == layered(args.checks_queue, env.checks_queue).unwrap_or(
            "/data/checks-queue"@,
        ),
        opt_text(r.cert_nonce_seed) == layered(args.cert_nonce_seed, env.cert_nonce_seed),
        opt_text(r.hooks_dir) == layered(args.hooks_dir, env.hooks_dir),
        opt_text(r.web_signing_key) == layered(args.web_signing_key, env.web_signing_key),
        r.hydrate is None,
{
    let data_dir = match layer(&args.data_dir, &env.project_root) {
        Some(dir) => dir,
        None => "/data/repos".to_owned(),
    };
    let checks_queue = match layer(&args.checks_queue, &env.checks_queue) {
        Some(dir) => dir,
        None => "/data/checks-queue".to_owned(),
    };
    AppState {
        data_dir,
        cert_nonce_seed: layer(&args.cert_nonce_seed, &env.cert_nonce_seed),
        hooks_dir: layer(&args.hooks_dir, &env.hooks_dir),
        checks_queue,
        web_signing_key: layer(&args.web_signing_key, &env.web_signing_key),
        hydrate: None,
    }
}

/// A flag that is given decides, whatever the environment holds.
pub proof fn law_flags_win(flag: Option<String>, variable: Option<String>, other: Option<String>)
    requires
        flag is Some,
    ensures
        layered(flag, variable) == layered(flag, other),
        layered(flag, variable) == Some(flag->0@),
{
}

/// Law: a variable that is set to nothing counts as unset, and one that is set
/// stands where no flag is given.
pub proof fn law_set_variables_stand_in(variable: String)
    ensures
        variable@.len() > 0 ==> layered(None, Some(variable)) == Some(variable@),
        variable@.len() == 0 ==> layered(None, Some(variable)) is None,
        layered(None, None) is None,
{
}

/// Law: the server listens on the port that the flag names, else on the one that
/// the variable writes, else on 8080.
pub proof fn law_port_is_the_one_given(flag: u16, other: u16, variable: String)
    ensures
        listen_port(Some(flag), Some(variable)) == flag,
        listen_port(None, None) == 8080,
        variable@ == decimal(other as nat) ==> listen_port(None, Some(variable)) == other,
        parsed_decimal(variable@, 0xffff) is None ==> listen_port(None, Some(variable)) == 8080,
{
    lemma_decimal_round_trip(other as nat, 0xffff);
}

} // verus!
