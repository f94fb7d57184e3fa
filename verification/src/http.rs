//! The smart-HTTP gateway: which requests are git's and which the web UI's,
//! which repository a request names, and what is handed to and read back from
//! `git http-backend`.

use vstd::prelude::*;

use crate::bytes::{
    cr_trimmed, find_byte, find_subsequence, latin, space_trimmed_end, space_trimmed_start,
    split_bytes, subsequence_at, to_latin, trim_cr, trim_space, bytes_of,
};
use crate::seqs::{first_where, kept, lemma_first_where_is, lemma_kept_step};
use crate::text::{
    alphanumeric, before_suffix, chars_of, contains, decimal, ends, ends_with, holds, index_of,
    is_alphanumeric, join, join_path, joined, law_split_undoes_join, lemma_index_of,
    lemma_split_front, lines, lines_nonempty, lines_of, lowered, nonempty, opt_text, pairs,
    parse_decimal, parsed_decimal, push_pair, same, same_ignoring_case, split, split_nonempty,
    split_on, starts, strip_prefix, strip_suffix, texts, to_decimal, under,
};

use crate::server::{AppState, BlobStore};

verus! {

/// Whether a POST is a git smart-HTTP RPC rather than a browser form.
pub open spec fn git_post(path: Seq<char>) -> bool {
    ends(path, "/git-upload-pack"@) || ends(path, "/git-receive-pack"@)
}

/// Whether a POST is a git smart-HTTP RPC rather than a browser form.
pub fn is_git_post(path_info: &str) -> (r: bool)
    ensures
        r == git_post(path_info@),
{
    ends_with(path_info, "/git-upload-pack") || ends_with(path_info, "/git-receive-pack")
}

/// Whether a request is one of the smart-HTTP services: the ref advertisement
/// or one of the two RPCs.
pub open spec fn service_request(path: Seq<char>, query: Seq<char>) -> bool {
    ||| ends(path, "/info/refs"@)
    ||| ends(path, "/git-upload-pack"@)
    ||| ends(path, "/git-receive-pack"@)
    ||| holds(query, "service="@)
}

/// Whether a request is one of the smart-HTTP services.
pub fn is_service_request(path: &str, query: &str) -> (r: bool)
    ensures
        r == service_request(path@, query@),
{
    ends_with(path, "/info/refs") || ends_with(path, "/git-upload-pack") || ends_with(
        path,
        "/git-receive-pack",
    ) || contains(query, "service=")
}

/// Whether a GET is answered with the web UI: everything that is not git's
/// wire protocol, and the browse routes even where a file's path looks like a
/// loose object's, but never an actual service request.
pub open spec fn web_get(path: Seq<char>, query: Seq<char>) -> bool {
    let wire = service_request(path, query) || ends(path, "/HEAD"@) || holds(path, "/objects/"@);
    let browse = holds(path, "/tree/"@) || holds(path, "/blob/"@) || holds(path, "/commit/"@);
    !wire || (browse && !service_request(path, query))
}

/// Whether a GET is answered with the web UI.
pub fn is_web_get(path: &str, query: &str) -> (r: bool)
    ensures
        r == web_get(path@, query@),
{
    let service = is_service_request(path, query);
    let wire = service || ends_with(path, "/HEAD") || contains(path, "/objects/");
    let browse = contains(path, "/tree/") || contains(path, "/blob/") || contains(path, "/commit/");
    !wire || (browse && !service)
}

/// The value of the first `service` parameter of a query.
pub open spec fn service_of(query: Seq<char>) -> Option<Seq<char>> {
    let pairs = split_on(query, '&');
    let i = first_where(pairs, |p: Seq<char>| starts(p, "service="@));
    if i < pairs.len() {
        Some(pairs[i].skip("service="@.len() as int))
    } else {
        None
    }
}

/// The value of the `service` query parameter, if there is one.
pub fn query_service(query: &str) -> (r: Option<String>)
    ensures
        match r {
            Some(service) => service_of(query@) == Some(service@),
            None => service_of(query@) is None,
        },
{
    let pairs = split(query, '&');
    let ghost p = |p: Seq<char>| starts(p, "service="@);
    let ghost all = texts(pairs@);
    let mut i: usize = 0;
    while i < pairs.len()
        invariant
            i <= pairs@.len(),
            all == texts(pairs@),
            all == split_on(query@, '&'),
            p == (|p: Seq<char>| starts(p, "service="@)),
            forall|j: int| 0 <= j < i ==> !p(#[trigger] all[j]),
        decreases pairs@.len() - i,
    {
        if let Some(value) = strip_prefix(pairs[i].as_str(), "service=") {
            proof {
                lemma_first_where_is(all, p, i as int);
            }
            return Some(value.to_owned());
        }
        i += 1;
    }
    proof {
        lemma_first_where_is(all, p, i as int);
    }
    None
}

/// Whether a request is a push: the receive-pack advertisement, with the
/// service named exactly, or the receive-pack RPC itself.
pub open spec fn receive_pack(path: Seq<char>, query: Seq<char>) -> bool {
    ends(path, "/git-receive-pack"@) || (ends(path, "/info/refs"@) && service_of(query) == Some(
        "git-receive-pack"@,
    ))
}

/// Whether a request is a push.
pub fn is_receive_pack(path_info: &str, query: &str) -> (r: bool)
    ensures
        r == receive_pack(path_info@, query@),
{
    if ends_with(path_info, "/git-receive-pack") {
        return true;
    }
    if !ends_with(path_info, "/info/refs") {
        return false;
    }
    match query_service(query) {
        Some(service) => same(service.as_str(), "git-receive-pack"),
        None => false,
    }
}

/// Greatest repository nesting depth: `repo`, `org/repo`, or `org/team/repo`.
pub const MAX_REPO_DEPTH: usize = 3;

/// Whether `c` may stand in a path segment.
pub open spec fn segment_char(c: char) -> bool {
    is_alphanumeric(c) || c == '.' || c == '_' || c == '-'
}

/// Whether a path component is a safe repository or namespace name: not empty,
/// not hidden, and made of letters, digits, dots, underscores and dashes.
pub open spec fn safe_segment(s: Seq<char>) -> bool {
    &&& s.len() > 0
    &&& s[0] != '.'
    &&& forall|i: int| 0 <= i < s.len() ==> #[trigger] segment_char(s[i])
}

/// Whether a path component is a safe repository or namespace name.
pub fn valid_segment(segment: &str) -> (r: bool)
    ensures
        r == safe_segment(segment@),
{
    let v = chars_of(segment);
    if v.len() == 0 || v[0] == '.' {
        return false;
    }
    let mut i: usize = 0;
    while i < v.len()
        invariant
            v@ == segment@,
            i <= v@.len(),
            forall|j: int| 0 <= j < i ==> #[trigger] segment_char(v@[j]),
        decreases v@.len() - i,
    {
        let c = v[i];
        if !(alphanumeric(c) || c == '.' || c == '_' || c == '-') {
            proof {
                assert(!segment_char(segment@[i as int]));
            }
            return false;
        }
        i += 1;
    }
    true
}

/// Whether `parts` name a repository: one to three safe segments.
pub open spec fn repo_segments(parts: Seq<Seq<char>>) -> bool {
    &&& 0 < parts.len() <= MAX_REPO_DEPTH
    &&& forall|i: int| 0 <= i < parts.len() ==> safe_segment(#[trigger] parts[i])
}

/// Whether `parts` name a repository.
pub fn are_repo_segments(parts: &[String]) -> (r: bool)
    ensures
        r == repo_segments(texts(parts@)),
{
    if parts.len() == 0 || parts.len() > MAX_REPO_DEPTH {
        return false;
    }
    let mut i: usize = 0;
    while i < parts.len()
        invariant
            i <= parts@.len(),
            forall|j: int| 0 <= j < i ==> safe_segment(#[trigger] texts(parts@)[j]),
        decreases parts@.len() - i,
    {
        if !valid_segment(parts[i].as_str()) {
            proof {
                assert(!safe_segment(texts(parts@)[i as int]));
            }
            return false;
        }
        i += 1;
    }
    true
}

/// What comes before the service suffix of a path.
pub open spec fn service_target(path: Seq<char>) -> Option<Seq<char>> {
    match before_suffix(path, "/git-receive-pack"@) {
        Some(repo) => Some(repo),
        None => match before_suffix(path, "/git-upload-pack"@) {
            Some(repo) => Some(repo),
            None => before_suffix(path, "/info/refs"@),
        },
    }
}

/// The repository that a service request names, relative to the data
/// directory.
pub open spec fn target_repo(path: Seq<char>) -> Option<Seq<char>> {
    match service_target(path) {
        Some(repo) => {
            let parts = nonempty(split_on(repo, '/'));
            if repo_segments(parts) {
                Some(joined(parts, "/"@))
            } else {
                None
            }
        },
        None => None,
    }
}

/// The repository that a service request names, relative to the data
/// directory, or none if the request names no acceptable repository.
pub fn repo_path(path_info: &str) -> (r: Option<String>)
    ensures
        match r {
            Some(repo) => target_repo(path_info@) == Some(repo@),
            None => target_repo(path_info@) is None,
        },
{
    let repo = match strip_suffix(path_info, "/git-receive-pack") {
        Some(repo) => repo,
        None => match strip_suffix(path_info, "/git-upload-pack") {
            Some(repo) => repo,
            None => match strip_suffix(path_info, "/info/refs") {
                Some(repo) => repo,
                None => {
                    return None;
                },
            },
        },
    };
    let segments = split_nonempty(repo, '/');
    if !are_repo_segments(&segments) {
        return None;
    }
    Some(join(&segments, "/"))
}

/// A safe segment holds no separator, and is neither `.` nor `..`.
pub proof fn law_segment_stays_put(s: Seq<char>)
    requires
        safe_segment(s),
    ensures
        !s.contains('/'),
        !s.contains('\\'),
        !s.contains('\0'),
        !s.contains('%'),
        s != "."@,
        s != ".."@,
{
    reveal_strlit(".");
    reveal_strlit("..");
    assert forall|c: char| #[trigger] s.contains(c) implies segment_char(c) by {
        let i = choose|i: int| 0 <= i < s.len() && s[i] == c;
        assert(segment_char(s[i]));
    }
}

/// A request can only name a repository below the data directory: the path it
/// comes to is one to three safe names, one below the other.
pub proof fn law_repo_path_stays_inside(path: Seq<char>)
    requires
        target_repo(path) is Some,
    ensures
        repo_segments(split_on(target_repo(path)->0, '/')),
{
    let repo = service_target(path)->0;
    let parts = nonempty(split_on(repo, '/'));
    assert forall|i: int| 0 <= i < parts.len() implies !(#[trigger] parts[i]).contains('/') by {
        law_segment_stays_put(parts[i]);
    }
    reveal_strlit("/");
    assert("/"@ =~= seq!['/']);
    law_split_undoes_join(parts, '/');
}

/// A push is a service request, a git POST is one too, and no service request
/// is ever answered with the web UI.
pub proof fn law_services_are_never_web(path: Seq<char>, query: Seq<char>)
    ensures
        git_post(path) ==> service_request(path, query),
        receive_pack(path, query) ==> service_request(path, query),
        service_request(path, query) ==> !web_get(path, query),
{
}

/// A repository's id: its path below the data directory, with forward slashes.
pub open spec fn repo_id(relative: Seq<char>) -> Seq<char> {
    relative.map_values(
        |c: char|
            if c == '\\' {
                '/'
            } else {
                c
            },
    )
}

/// A repository's id: its path below the data directory, with forward slashes.
pub fn repo_id_string(relative: &str) -> (r: String)
    ensures
        r@ == repo_id(relative@),
{
    let v = chars_of(relative);
    let mut r = String::new();
    let mut i: usize = 0;
    while i < v.len()
        invariant
            v@ == relative@,
            i <= v@.len(),
            r@ == repo_id(relative@.take(i as int)),
        decreases v@.len() - i,
    {
        r.push(
            if v[i] == '\\' {
                '/'
            } else {
                v[i]
            },
        );
        proof {
            let t = relative@.take(i + 1);
            assert(repo_id(t) =~= repo_id(relative@.take(i as int)).push(
                if relative@[i as int] == '\\' {
                    '/'
                } else {
                    relative@[i as int]
                },
            ));
        }
        i += 1;
    }
    proof {
        assert(relative@.take(relative@.len() as int) =~= relative@);
    }
    r
}

/// Who answers a request.
#[derive(Debug, PartialEq, Eq, Structural, Clone, Copy)]
pub enum Answer {
    /// Nobody: the request is refused as a bad one.
    BadRequest,
    /// The web UI.
    Web,
    /// `git http-backend`.
    Backend,
}

/// Who answers a GET: a path that climbs is refused, and the rest goes to the
/// web UI or to git.
pub fn route_get(path_info: &str, query: &str) -> (r: Answer)
    ensures
        r == (if holds(path_info@, ".."@) {
            Answer::BadRequest
        } else if web_get(path_info@, query@) {
            Answer::Web
        } else {
            Answer::Backend
        }),
{
    if contains(path_info, "..") {
        Answer::BadRequest
    } else if is_web_get(path_info, query) {
        Answer::Web
    } else {
        Answer::Backend
    }
}

/// Who answers a POST: only the two RPCs are git's.
pub fn route_post(path_info: &str) -> (r: Answer)
    ensures
        r == (if holds(path_info@, ".."@) {
            Answer::BadRequest
        } else if git_post(path_info@) {
            Answer::Backend
        } else {
            Answer::Web
        }),
{
    if contains(path_info, "..") {
        Answer::BadRequest
    } else if is_git_post(path_info) {
        Answer::Backend
    } else {
        Answer::Web
    }
}

/// The git configuration that a configured server adds.
pub open spec fn config_overrides(state: AppState) -> Seq<(Seq<char>, Seq<char>)> {
    let nonce = match state.cert_nonce_seed {
        Some(seed) => seq![
            ("receive.certNonceSeed"@, seed@),
            ("receive.certNonceSlop"@, "60"@),
        ],
        None => seq![],
    };
    let hooks = match state.hooks_dir {
        Some(dir) => seq![("core.hooksPath"@, dir@)],
        None => seq![],
    };
    nonce + hooks
}

/// The texts of a sequence of borrowed pairs.
pub open spec fn borrowed_pairs(v: Seq<(&str, &str)>) -> Seq<(Seq<char>, Seq<char>)> {
    v.map_values(|p: (&str, &str)| (p.0@, p.1@))
}

/// The `git` config overrides applied to every backend invocation: a seed
/// turns the signed-push nonce on, with a minute's slop for the two processes
/// that issue and verify it, and the hooks directory points the backend at the
/// `pre-receive` verifier.
pub fn backend_config<'a>(state: &'a AppState) -> (r: Vec<(&'static str, &'a str)>)
    ensures
        borrowed_pairs(r@) == config_overrides(*state),
{
    let mut overrides: Vec<(&'static str, &'a str)> = Vec::new();
    if let Some(seed) = &state.cert_nonce_seed {
        overrides.push(("receive.certNonceSeed", seed.as_str()));
        overrides.push(("receive.certNonceSlop", "60"));
    }
    if let Some(hooks) = &state.hooks_dir {
        overrides.push(("core.hooksPath", hooks.as_str()));
    }
    proof {
        assert(borrowed_pairs(overrides@) =~= config_overrides(*state));
    }
    overrides
}

/// A git wire-protocol request: its method, its path and query, and the
/// headers that the backend is told of.
#[derive(Debug)]
pub struct GitRequest {
    /// `GET` or `POST`.
    pub method: String,
    /// The request's path.
    pub path_info: String,
    /// The request's query, without the question mark.
    pub query_string: String,
    /// `Content-Type`.
    pub content_type: Option<String>,
    /// `Content-Length`.
    pub content_length: Option<String>,
    /// `Content-Encoding`.
    pub content_encoding: Option<String>,
}

/// `vars` with one variable more, where it has a value.
pub open spec fn with_var(
    vars: Seq<(Seq<char>, Seq<char>)>,
    key: Seq<char>,
    value: Option<String>,
) -> Seq<(Seq<char>, Seq<char>)> {
    match value {
        Some(v) => vars.push((key, v@)),
        None => vars,
    }
}

/// Adds a variable, where it has a value.
fn push_var(vars: &mut Vec<(String, String)>, key: &str, value: &Option<String>)
    ensures
        pairs(final(vars)@) == with_var(pairs(old(vars)@), key@, *value),
{
    if let Some(v) = value {
        push_pair(vars, key, v.as_str());
    }
}

/// The variables that describe the request itself.
pub open spec fn request_vars(state: AppState, request: GitRequest) -> Seq<
    (Seq<char>, Seq<char>),
> {
    let base = seq![
        ("GIT_PROJECT_ROOT"@, state.data_dir@),
        ("GIT_HTTP_EXPORT_ALL"@, "1"@),
        ("PATH_INFO"@, request.path_info@),
        ("QUERY_STRING"@, request.query_string@),
        ("REQUEST_METHOD"@, request.method@),
        ("GIT_ENTS_CHECKS_QUEUE"@, state.checks_queue@),
    ];
    with_var(
        with_var(
            with_var(base, "CONTENT_TYPE"@, request.content_type),
            "CONTENT_LENGTH"@,
            request.content_length,
        ),
        "HTTP_CONTENT_ENCODING"@,
        request.content_encoding,
    )
}

/// The variables that hand a hydrated deployment's stores to the hook.
pub open spec fn hydrate_vars(state: AppState) -> Seq<(Seq<char>, Seq<char>)> {
    match state.hydrate {
        None => seq![],
        Some(hydrate) => {
            let head = with_var(seq![], "GIT_ENTS_WEB_SIGNING_KEY"@, state.web_signing_key).push(
                ("GIT_ENTS_HYDRATE_POSTGRES_URL"@, hydrate.postgres_conninfo@),
            );
            head + match hydrate.blob {
                BlobStore::Fs(root) => seq![("GIT_ENTS_HYDRATE_BLOB_ROOT"@, root@)],
                BlobStore::S3(s3) => {
                    let vars = seq![
                        ("GIT_ENTS_HYDRATE_S3_BUCKET"@, s3.bucket@),
                        ("GIT_ENTS_HYDRATE_S3_REGION"@, s3.region@),
                        ("GIT_ENTS_HYDRATE_S3_ENDPOINT"@, s3.endpoint@),
                        ("GIT_ENTS_HYDRATE_S3_ACCESS_KEY_ID"@, s3.access_key_id@),
                        ("GIT_ENTS_HYDRATE_S3_SECRET_ACCESS_KEY"@, s3.secret_access_key@),
                    ];
                    if s3.allow_http {
                        vars.push(("GIT_ENTS_HYDRATE_S3_ALLOW_HTTP"@, "1"@))
                    } else {
                        vars
                    }
                },
            }
        },
    }
}

/// The variables that carry configuration to every process git starts: for
/// each override its key and its value, numbered from zero.
pub open spec fn numbered(overrides: Seq<(Seq<char>, Seq<char>)>) -> Seq<(Seq<char>, Seq<char>)>
    decreases overrides.len(),
{
    if overrides.len() == 0 {
        seq![]
    } else {
        let index = decimal((overrides.len() - 1) as nat);
        numbered(overrides.drop_last()).push(
            ("GIT_CONFIG_KEY_"@ + index, overrides.last().0),
        ).push(("GIT_CONFIG_VALUE_"@ + index, overrides.last().1))
    }
}

/// The variables that carry the configuration overrides, if there are any.
pub open spec fn config_vars(overrides: Seq<(Seq<char>, Seq<char>)>) -> Seq<
    (Seq<char>, Seq<char>),
> {
    if overrides.len() == 0 {
        seq![]
    } else {
        seq![("GIT_CONFIG_COUNT"@, decimal(overrides.len()))] + numbered(overrides)
    }
}

/// The variables that carry the configuration overrides.
fn push_config(vars: &mut Vec<(String, String)>, overrides: &Vec<(&'static str, &str)>)
    ensures
        pairs(final(vars)@) == pairs(old(vars)@) + config_vars(borrowed_pairs(overrides@)),
{
    let ghost all = borrowed_pairs(overrides@);
    let n: usize = overrides.len();
    if n == 0 {
        proof {
            assert(pairs(vars@) + config_vars(all) =~= pairs(vars@));
        }
        return ;
    }
    let count = to_decimal(n as u64);
    push_pair(vars, "GIT_CONFIG_COUNT", count.as_str());
    let ghost start = pairs(vars@);
    let mut i: usize = 0;
    proof {
        assert(numbered(all.take(0)) =~= seq![]);
        assert(start + numbered(all.take(0)) =~= start);
    }
    while i < n
        invariant
            n == overrides@.len(),
            i <= n,
            all == borrowed_pairs(overrides@),
            pairs(vars@) == start + numbered(all.take(i as int)),
        decreases n - i,
    {
        let index = to_decimal(i as u64);
        let mut key = "GIT_CONFIG_KEY_".to_owned();
        key.append(index.as_str());
        let mut value = "GIT_CONFIG_VALUE_".to_owned();
        value.append(index.as_str());
        let ghost before = pairs(vars@);
        push_pair(vars, key.as_str(), overrides[i].0);
        push_pair(vars, value.as_str(), overrides[i].1);
        proof {
            assert(all.take(i + 1).drop_last() =~= all.take(i as int));
            assert(all.take(i + 1).last() == (overrides@[i as int].0@, overrides@[i as int].1@));
            assert(pairs(vars@) =~= start + numbered(all.take(i + 1)));
        }
        i += 1;
    }
    proof {
        assert(all.take(n as int) =~= all);
        assert(pairs(vars@) =~= pairs(old(vars)@) + config_vars(all));
    }
}

/// Adds the variables that hand a hydrated deployment's stores to the hook.
fn push_hydrate(vars: &mut Vec<(String, String)>, state: &AppState)
    ensures
        pairs(final(vars)@) == pairs(old(vars)@) + hydrate_vars(*state),
{
    if let Some(hydrate) = &state.hydrate {
        push_var(vars, "GIT_ENTS_WEB_SIGNING_KEY", &state.web_signing_key);
        push_pair(vars, "GIT_ENTS_HYDRATE_POSTGRES_URL", hydrate.postgres_conninfo.as_str());
        match &hydrate.blob {
            BlobStore::Fs(root) => {
                push_pair(vars, "GIT_ENTS_HYDRATE_BLOB_ROOT", root.as_str());
            },
            BlobStore::S3(s3) => {
                push_pair(vars, "GIT_ENTS_HYDRATE_S3_BUCKET", s3.bucket.as_str());
                push_pair(vars, "GIT_ENTS_HYDRATE_S3_REGION", s3.region.as_str());
                push_pair(vars, "GIT_ENTS_HYDRATE_S3_ENDPOINT", s3.endpoint.as_str());
                push_pair(vars, "GIT_ENTS_HYDRATE_S3_ACCESS_KEY_ID", s3.access_key_id.as_str());
                push_pair(
                    vars,
                    "GIT_ENTS_HYDRATE_S3_SECRET_ACCESS_KEY",
                    s3.secret_access_key.as_str(),
                );
                if s3.allow_http {
                    push_pair(vars, "GIT_ENTS_HYDRATE_S3_ALLOW_HTTP", "1");
                }
            },
        }
    }
    proof {
        assert(pairs(vars@) =~= pairs(old(vars)@) + hydrate_vars(*state));
    }
}

/// The whole environment that the backend runs in, on top of the server's own.
pub open spec fn backend_vars(state: AppState, request: GitRequest) -> Seq<
    (Seq<char>, Seq<char>),
> {
    request_vars(state, request) + hydrate_vars(state) + config_vars(config_overrides(state))
}

/// The environment that the backend runs in. The overrides travel as
/// `GIT_CONFIG_*` variables, so that they reach the processes that the backend
/// starts.
pub fn backend_env(state: &AppState, request: &GitRequest) -> (r: Vec<(String, String)>)
    ensures
        pairs(r@) == backend_vars(*state, *request),
{
    let mut vars: Vec<(String, String)> = Vec::new();
    push_pair(&mut vars, "GIT_PROJECT_ROOT", state.data_dir.as_str());
    push_pair(&mut vars, "GIT_HTTP_EXPORT_ALL", "1");
    push_pair(&mut vars, "PATH_INFO", request.path_info.as_str());
    push_pair(&mut vars, "QUERY_STRING", request.query_string.as_str());
    push_pair(&mut vars, "REQUEST_METHOD", request.method.as_str());
    push_pair(&mut vars, "GIT_ENTS_CHECKS_QUEUE", state.checks_queue.as_str());
    proof {
        assert(pairs(vars@) =~= seq![
            ("GIT_PROJECT_ROOT"@, state.data_dir@),
            ("GIT_HTTP_EXPORT_ALL"@, "1"@),
            ("PATH_INFO"@, request.path_info@),
            ("QUERY_STRING"@, request.query_string@),
            ("REQUEST_METHOD"@, request.method@),
            ("GIT_ENTS_CHECKS_QUEUE"@, state.checks_queue@),
        ]);
    }
    push_var(&mut vars, "CONTENT_TYPE", &request.content_type);
    push_var(&mut vars, "CONTENT_LENGTH", &request.content_length);
    push_var(&mut vars, "HTTP_CONTENT_ENCODING", &request.content_encoding);
    push_hydrate(&mut vars, state);
    let overrides = backend_config(state);
    push_config(&mut vars, &overrides);
    vars
}

/// What is done for a git request before and after the backend runs.
#[derive(Debug)]
pub struct BackendPlan {
    /// The repository that a push goes to: made if it is not there yet, and
    /// its `HEAD` reconciled once the push has succeeded.
    pub push_repo: Option<String>,
    /// The repository to hydrate first: where it lies and its id.
    pub hydrate: Option<(String, String)>,
    /// The environment that the backend runs in.
    pub env: Vec<(String, String)>,
}

/// The path and the id of the repository that a request has hydrated.
pub open spec fn hydrate_target(state: AppState, request: GitRequest) -> Option<
    (Seq<char>, Seq<char>),
> {
    if state.hydrate is Some && service_request(request.path_info@, request.query_string@) {
        match target_repo(request.path_info@) {
            Some(relative) => Some((under(state.data_dir@, relative), repo_id(relative))),
            None => None,
        }
    } else {
        None
    }
}

/// Plans a git request. A push whose path names no acceptable repository is
/// refused; every other request is planned.
pub fn backend(state: &AppState, request: &GitRequest) -> (r: Option<BackendPlan>)
    ensures
        r is None <==> receive_pack(request.path_info@, request.query_string@) && target_repo(
            request.path_info@,
        ) is None,
        r matches Some(plan) ==> {
            &&& opt_text(plan.push_repo) == (if receive_pack(
                request.path_info@,
                request.query_string@,
            ) {
                Some(under(state.data_dir@, target_repo(request.path_info@)->0))
            } else {
                None
            })
            &&& match plan.hydrate {
                Some((path, id)) => hydrate_target(*state, *request) == Some((path@, id@)),
                None => hydrate_target(*state, *request) is None,
            }
            &&& pairs(plan.env@) == backend_vars(*state, *request)
        },
{
    let path = request.path_info.as_str();
    let query = request.query_string.as_str();
    let relative = repo_path(path);
    let push_repo = if is_receive_pack(path, query) {
        match &relative {
            Some(relative) => Some(join_path(state.data_dir.as_str(), relative.as_str())),
            None => {
                return None;
            },
        }
    } else {
        None
    };
    let hydrate = if state.hydrate.is_some() && is_service_request(path, query) {
        match &relative {
            Some(relative) => Some(
                (
                    join_path(state.data_dir.as_str(), relative.as_str()),
                    repo_id_string(relative.as_str()),
                ),
            ),
            None => None,
        }
    } else {
        None
    };
    Some(BackendPlan { push_repo, hydrate, env: backend_env(state, request) })
}

/// Whether `HEAD` is looked after once the backend is done: after a push that
/// succeeded.
pub fn reconciles_head(plan: &BackendPlan, succeeded: bool) -> (r: bool)
    ensures
        r == (plan.push_repo is Some && succeeded),
{
    plan.push_repo.is_some() && succeeded
}

/// The environment always tells the backend which path was asked for, and
/// nothing in it but the request decides that.
pub proof fn law_backend_sees_the_request(state: AppState, request: GitRequest)
    ensures
        backend_vars(state, request).len() >= 6,
        backend_vars(state, request)[0] == ("GIT_PROJECT_ROOT"@, state.data_dir@),
        backend_vars(state, request)[2] == ("PATH_INFO"@, request.path_info@),
        backend_vars(state, request)[3] == ("QUERY_STRING"@, request.query_string@),
        backend_vars(state, request)[4] == ("REQUEST_METHOD"@, request.method@),
{
}

/// What becomes of a push's target before the push runs.
#[derive(Debug, PartialEq, Eq, Structural, Clone, Copy)]
pub enum Target {
    /// It is there.
    Ready,
    /// It has to be made.
    Create,
    /// It lies inside another repository.
    Nested,
    /// It is a directory of other repositories.
    Namespace,
}

/// What becomes of a push's target: a path inside a repository is refused, a
/// bare repository is used, any other thing that is there is a namespace, and
/// what is not there is made.
pub fn ensure_repo(nested: bool, exists: bool, bare: bool) -> (r: Target)
    ensures
        r == (if nested {
            Target::Nested
        } else if !exists {
            Target::Create
        } else if bare {
            Target::Ready
        } else {
            Target::Namespace
        }),
{
    if nested {
        Target::Nested
    } else if exists {
        if bare {
            Target::Ready
        } else {
            Target::Namespace
        }
    } else {
        Target::Create
    }
}

/// Why a target is refused, in words.
pub fn refusal(target: Target) -> (r: Option<&'static str>)
    ensures
        match r {
            Some(text) => {
                ||| target == Target::Nested && text@
                    == "repository path is nested inside an existing repository"@
                ||| target == Target::Namespace && text@
                    == "repository path already exists as a namespace"@
            },
            None => target == Target::Ready || target == Target::Create,
        },
{
    match target {
        Target::Nested => Some("repository path is nested inside an existing repository"),
        Target::Namespace => Some("repository path already exists as a namespace"),
        Target::Ready => None,
        Target::Create => None,
    }
}

/// The directory that the first `n` of `parts` lead to.
pub open spec fn descend(base: Seq<char>, parts: Seq<Seq<char>>, n: int) -> Seq<char>
    decreases n,
{
    if n <= 0 {
        base
    } else {
        under(descend(base, parts, n - 1), parts[n - 1])
    }
}

/// The directories strictly between `base` and what `parts` lead to, from the
/// top down.
pub open spec fn between(base: Seq<char>, parts: Seq<Seq<char>>) -> Seq<Seq<char>> {
    if parts.len() == 0 {
        seq![]
    } else {
        Seq::new((parts.len() - 1) as nat, |i: int| descend(base, parts, i + 1))
    }
}

/// The directories strictly between `data_dir` and the repository at
/// `relative` below it, from the top down: those that could be a repository
/// around it.
pub fn ancestors(data_dir: &str, relative: &str) -> (r: Vec<String>)
    ensures
        texts(r@) == between(data_dir@, nonempty(split_on(relative@, '/'))),
{
    let parts = split_nonempty(relative, '/');
    let ghost all = texts(parts@);
    let mut r: Vec<String> = Vec::new();
    let n: usize = parts.len();
    if n == 0 {
        proof {
            assert(texts(r@) =~= between(data_dir@, all));
        }
        return r;
    }
    let mut current = data_dir.to_owned();
    let mut i: usize = 0;
    while i < n - 1
        invariant
            n == parts@.len(),
            i < n,
            all == texts(parts@),
            current@ == descend(data_dir@, all, i as int),
            texts(r@) == Seq::new(i as nat, |j: int| descend(data_dir@, all, j + 1)),
        decreases n - i,
    {
        current = join_path(current.as_str(), parts[i].as_str());
        let ghost before = texts(r@);
        let copy = current.clone();
        r.push(copy);
        proof {
            assert(all[i as int] == parts@[i as int]@);
            assert(texts(r@) =~= before.push(current@));
            assert(texts(r@) =~= Seq::new(
                (i + 1) as nat,
                |j: int| descend(data_dir@, all, j + 1),
            ));
        }
        i += 1;
    }
    r
}

/// The first of `candidates` that is a repository, as told in `bare`.
pub fn enclosing_repo(candidates: &[String], bare: &[bool]) -> (r: Option<String>)
    requires
        candidates@.len() == bare@.len(),
    ensures
        match r {
            Some(path) => exists|i: int|
                {
                    &&& 0 <= i < bare@.len()
                    &&& #[trigger] bare@[i]
                    &&& (forall|j: int| 0 <= j < i ==> !bare@[j])
                    &&& path@ == candidates@[i]@
                },
            None => forall|i: int| 0 <= i < bare@.len() ==> !bare@[i],
        },
{
    let mut i: usize = 0;
    while i < candidates.len()
        invariant
            candidates@.len() == bare@.len(),
            i <= bare@.len(),
            forall|j: int| 0 <= j < i ==> !bare@[j],
        decreases candidates@.len() - i,
    {
        if bare[i] {
            return Some(candidates[i].clone());
        }
        i += 1;
    }
    None
}

/// The branch that a dangling `HEAD` adopts: `main`, else `master`, else the
/// first there is.
pub open spec fn adopted(branches: Seq<Seq<char>>) -> Option<Seq<char>> {
    if branches.contains("main"@) {
        Some("main"@)
    } else if branches.contains("master"@) {
        Some("master"@)
    } else if branches.len() > 0 {
        Some(branches[0])
    } else {
        None
    }
}

/// Whether `name` is one of `names`.
fn among(names: &Vec<String>, name: &str) -> (r: bool)
    ensures
        r == texts(names@).contains(name@),
{
    let mut i: usize = 0;
    while i < names.len()
        invariant
            i <= names@.len(),
            forall|j: int| 0 <= j < i ==> names@[j]@ != name@,
        decreases names@.len() - i,
    {
        if same(names[i].as_str(), name) {
            proof {
                assert(texts(names@)[i as int] == name@);
            }
            return true;
        }
        i += 1;
    }
    proof {
        assert forall|j: int| 0 <= j < texts(names@).len() implies texts(names@)[j] != name@ by {
            assert(texts(names@)[j] == names@[j]@);
        }
    }
    false
}

/// What a dangling `HEAD` is pointed at, given the branches that git lists one
/// to a line; a valid one is left alone.
pub fn reconcile_head(head_valid: bool, listing: &str) -> (r: Option<String>)
    ensures
        match r {
            Some(name) => !head_valid && adopted(nonempty(lines_of(listing@))) is Some && name@
                == "refs/heads/"@ + adopted(nonempty(lines_of(listing@)))->0,
            None => head_valid || adopted(nonempty(lines_of(listing@))) is None,
        },
{
    if head_valid {
        return None;
    }
    let branches = lines_nonempty(listing);
    let mut name = "refs/heads/".to_owned();
    if among(&branches, "main") {
        name.append("main");
    } else if among(&branches, "master") {
        name.append("master");
    } else if branches.len() > 0 {
        name.append(branches[0].as_str());
    } else {
        return None;
    }
    Some(name)
}

/// A valid `HEAD` is never moved, and one that dangles comes to point at a
/// branch that is there.
pub proof fn law_head_adopts_an_existing_branch(branches: Seq<Seq<char>>)
    ensures
        adopted(branches) is Some <==> branches.len() > 0,
        adopted(branches) matches Some(name) ==> branches.contains(name),
{
    if branches.len() > 0 {
        assert(branches.contains(branches[0]));
    }
}

/// The status that a CGI `Status` header gives.
pub open spec fn status_value(value: Seq<u8>) -> Option<nat> {
    parsed_decimal(latin(split_on(value, 32u8)[0]), 0xffff)
}

/// The status that a CGI `Status` header gives: its first word, a number.
pub fn parse_status(value: &[u8]) -> (r: Option<u16>)
    ensures
        match r {
            Some(n) => status_value(value@) == Some(n as nat),
            None => status_value(value@) is None,
        },
{
    let end = find_byte(value, 0, value.len(), 32);
    let word = bytes_of(value, 0, end);
    proof {
        assert(value@.subrange(0, value@.len() as int) =~= value@);
        lemma_index_of(value@, 32u8);
        assert(word@ =~= split_on(value@, 32u8)[0]);
    }
    let text = to_latin(&word);
    match parse_decimal(text.as_str(), 0xffff) {
        Some(n) => Some(n as u16),
        None => None,
    }
}

/// One line of a CGI header block: its name and its value.
pub open spec fn header_parts(raw: Seq<u8>) -> Option<(Seq<u8>, Seq<u8>)> {
    let line = cr_trimmed(raw);
    let colon = index_of(line, 58u8);
    if colon < line.len() {
        Some(
            (line.take(colon), space_trimmed_end(space_trimmed_start(line.skip(colon + 1)))),
        )
    } else {
        None
    }
}

/// Whether a header's name is `wanted`, whatever its case.
pub open spec fn named(name: Seq<u8>, wanted: Seq<char>) -> bool {
    lowered(latin(name)) == lowered(wanted)
}

/// The header that a line of the block is passed on as: the status and the
/// length are not.
pub open spec fn passed_header(raw: Seq<u8>) -> Option<(Seq<u8>, Seq<u8>)> {
    match header_parts(raw) {
        Some((name, value)) => if named(name, "Status"@) || named(name, "Content-Length"@) {
            None
        } else {
            Some((name, value))
        },
        None => None,
    }
}

/// The status of a block of header lines: the last one given, and 200 where
/// none is or the last is no number.
pub open spec fn block_status(lines: Seq<Seq<u8>>) -> nat
    decreases lines.len(),
{
    if lines.len() == 0 {
        200
    } else {
        match header_parts(lines.last()) {
            Some((name, value)) => if named(name, "Status"@) {
                match status_value(value) {
                    Some(n) => n,
                    None => 200,
                }
            } else {
                block_status(lines.drop_last())
            },
            None => block_status(lines.drop_last()),
        }
    }
}

/// The header block of a CGI response, and its body.
pub open spec fn cgi_parts(stdout: Seq<u8>) -> (Seq<u8>, Seq<u8>) {
    match subsequence_at(stdout, seq![13u8, 10u8, 13u8, 10u8]) {
        Some(i) => (stdout.take(i), stdout.skip(i + 4)),
        None => (seq![], stdout),
    }
}

/// A CGI response as HTTP: its status, its headers and its body.
#[derive(Debug)]
pub struct CgiResponse {
    /// The status.
    pub status: u16,
    /// The headers, names and values.
    pub headers: Vec<(Vec<u8>, Vec<u8>)>,
    /// The body.
    pub body: Vec<u8>,
}

/// The views of a sequence of headers.
pub open spec fn header_views(v: Seq<(Vec<u8>, Vec<u8>)>) -> Seq<(Seq<u8>, Seq<u8>)> {
    v.map_values(|h: (Vec<u8>, Vec<u8>)| (h.0@, h.1@))
}

/// Reads one header line.
fn read_header(raw: &[u8]) -> (r: Option<(Vec<u8>, Vec<u8>)>)
    ensures
        match r {
            Some((name, value)) => header_parts(raw@) == Some((name@, value@)),
            None => header_parts(raw@) is None,
        },
{
    let line = trim_cr(raw);
    let size: usize = line.len();
    let colon = find_byte(&line, 0, size, 58);
    proof {
        assert(line@.subrange(0, size as int) =~= line@);
    }
    if colon == size {
        return None;
    }
    let name = bytes_of(&line, 0, colon);
    let rest = bytes_of(&line, colon + 1, size);
    proof {
        assert(name@ =~= line@.take(colon as int));
        assert(rest@ =~= line@.skip(colon + 1));
    }
    let value = trim_space(&rest);
    Some((name, value))
}

/// Whether a header's name is `wanted`, whatever its case.
fn is_named(name: &[u8], wanted: &str) -> (r: bool)
    ensures
        r == named(name@, wanted@),
{
    let text = to_latin(name);
    same_ignoring_case(text.as_str(), wanted)
}

/// Translates a CGI response (header block, blank line, body) into HTTP.
pub fn build_response(stdout: &[u8]) -> (r: CgiResponse)
    ensures
        r.status == block_status(split_on(cgi_parts(stdout@).0, 10u8)),
        header_views(r.headers@) == kept(
            split_on(cgi_parts(stdout@).0, 10u8),
            |raw: Seq<u8>| passed_header(raw),
        ),
        r.body@ == cgi_parts(stdout@).1,
{
    let size: usize = stdout.len();
    let mut sep: Vec<u8> = Vec::new();
    sep.push(13);
    sep.push(10);
    sep.push(13);
    sep.push(10);
    proof {
        assert(sep@ =~= seq![13u8, 10u8, 13u8, 10u8]);
    }
    let (block, body) = match find_subsequence(stdout, &sep) {
        Some(i) => {
            let block = bytes_of(stdout, 0, i);
            let body = bytes_of(stdout, i + 4, size);
            proof {
                assert(block@ =~= stdout@.take(i as int));
                assert(body@ =~= stdout@.skip(i + 4));
            }
            (block, body)
        },
        None => {
            let block: Vec<u8> = Vec::new();
            let body = bytes_of(stdout, 0, size);
            proof {
                assert(body@ =~= stdout@);
                assert(block@ =~= seq![]);
            }
            (block, body)
        },
    };
    let lines = split_bytes(&block, 10);
    let ghost all = lines@.map_values(|x: Vec<u8>| x@);
    let ghost f = |raw: Seq<u8>| passed_header(raw);
    let mut status: u16 = 200;
    let mut headers: Vec<(Vec<u8>, Vec<u8>)> = Vec::new();
    let mut i: usize = 0;
    proof {
        assert(kept(all.take(0), f) =~= seq![]);
        assert(header_views(headers@) =~= seq![]);
    }
    while i < lines.len()
        invariant
            i <= lines@.len(),
            all == lines@.map_values(|x: Vec<u8>| x@),
            f == (|raw: Seq<u8>| passed_header(raw)),
            status == block_status(all.take(i as int)),
            header_views(headers@) == kept(all.take(i as int), f),
        decreases lines@.len() - i,
    {
        proof {
            lemma_kept_step(all, f, i as int);
            assert(all.take(i + 1).drop_last() =~= all.take(i as int));
            assert(all.take(i + 1).last() == lines@[i as int]@);
        }
        if let Some((name, value)) = read_header(&lines[i]) {
            if is_named(&name, "Status") {
                status = match parse_status(&value) {
                    Some(n) => n,
                    None => 200,
                };
            } else if !is_named(&name, "Content-Length") {
                let ghost before = header_views(headers@);
                let ghost pair = (name@, value@);
                headers.push((name, value));
                proof {
                    assert(header_views(headers@) =~= before.push(pair));
                }
            }
        }
        i += 1;
    }
    proof {
        assert(all.take(all.len() as int) =~= all);
    }
    CgiResponse { status, headers, body }
}

/// Whether a text can be one name of a repository: letters, digits, dots,
/// underscores and dashes, and no dot first.
pub open spec fn plain_segment(s: Seq<char>) -> bool {
    s.len() > 0 && s[0] != '.' && forall|i: int|
        0 <= i < s.len() ==> 'a' <= #[trigger] s[i] <= 'z' || 'A' <= s[i] <= 'Z' || '0' <= s[i]
            <= '9' || s[i] == '.' || s[i] == '_' || s[i] == '-'
}

/// Law: a name is safe exactly where it is made of the characters that are.
pub proof fn law_safe_names_are_plain(s: Seq<char>)
    ensures
        safe_segment(s) <==> plain_segment(s),
{
    if safe_segment(s) {
        assert forall|i: int| 0 <= i < s.len() implies 'a' <= #[trigger] s[i] <= 'z' || 'A' <= s[i]
            <= 'Z' || '0' <= s[i] <= '9' || s[i] == '.' || s[i] == '_' || s[i] == '-' by {
            assert(segment_char(s[i]));
        }
    }
}

/// Names in a row, after a slash, come apart again.
pub proof fn lemma_named_parts(parts: Seq<Seq<char>>)
    requires
        parts.len() > 0,
        forall|i: int|
            0 <= i < parts.len() ==> (#[trigger] parts[i]).len() > 0 && !parts[i].contains('/'),
    ensures
        nonempty(split_on(seq!['/'] + joined(parts, "/"@), '/')) == parts,
        nonempty(split_on(joined(parts, "/"@), '/')) == parts,
{
    reveal_strlit("/");
    assert("/"@ =~= seq!['/']);
    law_split_undoes_join(parts, '/');
    let none: Seq<char> = seq![];
    let path = joined(parts, "/"@);
    assert(seq!['/'] + path =~= none + seq!['/'] + path);
    lemma_split_front(none, '/', path);
    let f = |p: Seq<char>|
        if p.len() > 0 {
            Some(p)
        } else {
            None
        };
    assert forall|i: int| 0 <= i < parts.len() implies f(#[trigger] parts[i]) == Some(
        parts[i],
    ) by {}
    crate::seqs::lemma_kept_all(parts, f, parts);
    crate::seqs::lemma_kept_concat(seq![none], parts, f);
    let empty: Seq<Seq<char>> = seq![];
    assert(seq![none].drop_last() =~= empty);
    assert(kept(empty, f) =~= empty);
    assert(f(none) is None);
    assert(kept(seq![none], f) =~= empty);
    assert(kept(seq![none], f) + parts =~= parts);
}

/// Law: a git request names the repository that stands before the service in its
/// path, one to three plain names deep; any other path names none.
pub proof fn law_path_names_its_repository(parts: Seq<Seq<char>>)
    requires
        parts.len() > 0,
        forall|i: int|
            0 <= i < parts.len() ==> (#[trigger] parts[i]).len() > 0 && !parts[i].contains('/'),
    ensures
        ({
            let repo = joined(parts, "/"@);
            let named = if parts.len() <= 3 && forall|i: int|
                0 <= i < parts.len() ==> plain_segment(#[trigger] parts[i]) {
                Some(repo)
            } else {
                None
            };
            &&& target_repo("/"@ + repo + "/git-receive-pack"@) == named
            &&& target_repo("/"@ + repo + "/git-upload-pack"@) == named
            &&& target_repo("/"@ + repo + "/info/refs"@) == named
        }),
{
    reveal_strlit("/");
    reveal_strlit("/git-receive-pack");
    reveal_strlit("/git-upload-pack");
    reveal_strlit("/info/refs");
    assert("/"@ =~= seq!['/']);
    lemma_named_parts(parts);
    let repo = joined(parts, "/"@);
    let path = "/"@ + repo;
    lemma_suffix(path, "/git-receive-pack"@);
    lemma_suffix(path, "/git-upload-pack"@);
    lemma_suffix(path, "/info/refs"@);
    let upload = path + "/git-upload-pack"@;
    let info = path + "/info/refs"@;
    assert(!ends(upload, "/git-receive-pack"@)) by {
        if ends(upload, "/git-receive-pack"@) {
            assert(upload.skip(upload.len() - 17)[11] == "/git-receive-pack"@[11]);
            assert(upload[upload.len() - 6] == "/git-upload-pack"@[10]);
        }
    }
    assert(!ends(info, "/git-receive-pack"@)) by {
        if ends(info, "/git-receive-pack"@) {
            assert(info.skip(info.len() - 17)[16] == "/git-receive-pack"@[16]);
            assert(info[info.len() - 1] == "/info/refs"@[9]);
        }
    }
    assert(!ends(info, "/git-upload-pack"@)) by {
        if ends(info, "/git-upload-pack"@) {
            assert(info.skip(info.len() - 16)[15] == "/git-upload-pack"@[15]);
            assert(info[info.len() - 1] == "/info/refs"@[9]);
        }
    }
    if parts.len() <= 3 && forall|i: int|
        0 <= i < parts.len() ==> plain_segment(#[trigger] parts[i]) {
        assert forall|i: int| 0 <= i < parts.len() implies safe_segment(#[trigger] parts[i]) by {
            law_safe_names_are_plain(parts[i]);
        }
    } else if repo_segments(parts) {
        assert forall|i: int| 0 <= i < parts.len() implies plain_segment(#[trigger] parts[i]) by {
            law_safe_names_are_plain(parts[i]);
        }
    }
}

/// What stands before a suffix.
pub proof fn lemma_suffix(a: Seq<char>, suffix: Seq<char>)
    ensures
        before_suffix(a + suffix, suffix) == Some(a),
        ends(a + suffix, suffix),
{
    let all = a + suffix;
    assert(all.skip(all.len() - suffix.len()) =~= suffix);
    assert(all.take(all.len() - suffix.len()) =~= a);
}

/// Law: the service that a query asks for is the value of its first `service`
/// pair, whatever pairs stand before and after it.
pub proof fn law_service_is_read(before: Seq<char>, service: Seq<char>, after: Seq<char>)
    requires
        service_of(before) is None,
        !service.contains('&'),
    ensures
        service_of("service="@ + service) == Some(service),
        service_of(before + "&service="@ + service) == Some(service),
        service_of(before + "&service="@ + service + "&"@ + after) == Some(service),
{
    reveal_strlit("service=");
    reveal_strlit("&service=");
    reveal_strlit("&");
    let pair = "service="@ + service;
    let p = |p: Seq<char>| starts(p, "service="@);
    assert(pair.take(8) =~= "service="@);
    assert(pair.skip(8) =~= service);
    assert(!pair.contains('&')) by {
        assert forall|j: int| 0 <= j < pair.len() implies pair[j] != '&' by {
            if j >= 8 {
                assert(pair[j] == service[j - 8]);
                assert(service.contains(service[j - 8]));
            }
        }
    }
    lemma_split_front(pair, '&', after);
    lemma_first_where_is(seq![pair], p, 0);
    let parts = split_on(before, '&');
    crate::seqs::lemma_first_where(parts, p);
    assert(before + "&service="@ + service =~= before + seq!['&'] + pair);
    crate::text::lemma_split_concat(before, '&', pair);
    let whole = parts + seq![pair];
    assert forall|j: int| 0 <= j < parts.len() implies !p(#[trigger] whole[j]) by {
        assert(!p(parts[j]));
    }
    assert(whole[parts.len() as int] == pair);
    lemma_first_where_is(whole, p, parts.len() as int);
    assert(before + "&service="@ + service + "&"@ + after =~= before + seq!['&'] + (pair + seq![
        '&',
    ] + after));
    crate::text::lemma_split_concat(before, '&', pair + seq!['&'] + after);
    let longer = parts + (seq![pair] + split_on(after, '&'));
    assert forall|j: int| 0 <= j < parts.len() implies !p(#[trigger] longer[j]) by {
        assert(!p(parts[j]));
    }
    assert(longer[parts.len() as int] == pair);
    lemma_first_where_is(longer, p, parts.len() as int);
}

/// Law: a request is a push exactly where it posts to `git-receive-pack` or asks
/// for the refs in order to.
pub proof fn law_pushes_are_known(repo: Seq<char>, service: Seq<char>)
    requires
        !service.contains('&'),
    ensures
        receive_pack(repo + "/git-receive-pack"@, ""@),
        !receive_pack(repo + "/git-upload-pack"@, ""@),
        receive_pack(repo + "/info/refs"@, "service="@ + service) <==> service
            == "git-receive-pack"@,
        git_post(repo + "/git-receive-pack"@),
        git_post(repo + "/git-upload-pack"@),
        !git_post(repo + "/info/refs"@),
{
    reveal_strlit("/git-receive-pack");
    reveal_strlit("/git-upload-pack");
    reveal_strlit("/info/refs");
    reveal_strlit("");
    reveal_strlit("service=");
    lemma_suffix(repo, "/git-receive-pack"@);
    lemma_suffix(repo, "/git-upload-pack"@);
    lemma_suffix(repo, "/info/refs"@);
    let upload = repo + "/git-upload-pack"@;
    let info = repo + "/info/refs"@;
    if ends(upload, "/git-receive-pack"@) {
        assert(upload.skip(upload.len() - 17)[11] == "/git-receive-pack"@[11]);
        assert(upload[upload.len() - 6] == "/git-upload-pack"@[10]);
    }
    if ends(upload, "/info/refs"@) {
        assert(upload.skip(upload.len() - 10)[9] == "/info/refs"@[9]);
        assert(upload[upload.len() - 1] == "/git-upload-pack"@[15]);
    }
    if ends(info, "/git-receive-pack"@) {
        assert(info.skip(info.len() - 17)[16] == "/git-receive-pack"@[16]);
        assert(info[info.len() - 1] == "/info/refs"@[9]);
    }
    if ends(info, "/git-upload-pack"@) {
        assert(info.skip(info.len() - 16)[15] == "/git-upload-pack"@[15]);
        assert(info[info.len() - 1] == "/info/refs"@[9]);
    }
    let none: Seq<char> = seq![];
    assert(service_of(none) is None) by {
        let p = |p: Seq<char>| starts(p, "service="@);
        lemma_split_front(none, '&', none);
        lemma_first_where_is(seq![none], p, 1);
    }
    law_service_is_read(none, service, none);
}

/// The two line ends that make a blank line.
pub open spec fn blank_line() -> Seq<u8> {
    seq![13u8, 10u8, 13u8, 10u8]
}

/// Law: a backend's answer is cut at its first blank line: the headers stand
/// before it and the body is all that follows, byte for byte.
pub proof fn law_answer_is_cut_at_the_blank_line(head: Seq<u8>, body: Seq<u8>)
    requires
        forall|i: int|
            0 <= i < head.len() ==> !#[trigger] starts(
                (head + blank_line() + body).skip(i),
                blank_line(),
            ),
    ensures
        cgi_parts(head + seq![13u8, 10u8, 13u8, 10u8] + body) == (head, body),
{
    let mark = blank_line();
    let all = head + mark + body;
    let n = head.len() as int;
    assert(mark =~= seq![13u8, 10u8, 13u8, 10u8]);
    assert(all.skip(n).take(4) =~= mark);
    crate::text::lemma_find_sub_is(all, mark, n);
    assert(all.take(n) =~= head);
    assert(all.skip(n + 4) =~= body);
}

/// Law: an answer without a blank line is all body, and answers `200`.
pub proof fn law_answer_without_headers_is_a_body(stdout: Seq<u8>)
    requires
        forall|i: int|
            0 <= i <= stdout.len() ==> !#[trigger] starts(stdout.skip(i), blank_line()),
    ensures
        cgi_parts(stdout).0.len() == 0,
        cgi_parts(stdout).1 == stdout,
        block_status(split_on(cgi_parts(stdout).0, 10u8)) == 200,
{
    let mark = blank_line();
    assert(mark =~= seq![13u8, 10u8, 13u8, 10u8]);
    crate::text::lemma_find_sub(stdout, mark);
    assert(!holds(stdout, mark));
    assert(subsequence_at(stdout, mark) is None);
    let none: Seq<u8> = seq![];
    lemma_split_front(none, 10u8, none);
    crate::text::lemma_index_of_is(none, 58u8, 0);
    assert(header_parts(none) is None);
    let lines = seq![none];
    assert(lines.drop_last() =~= seq![]);
    assert(block_status(lines.drop_last()) == 200);
    assert(block_status(lines) == 200);
}

/// Whether bytes can be a header's value: no line break, and nothing blank
/// around it.
pub open spec fn plain_value(value: Seq<u8>) -> bool {
    value.len() > 0 && value[0] != 32 && value[0] != 9 && value.last() != 32 && value.last() != 9
        && value.last() != 13
}

/// Law: a header line is a name, a colon and a value, which is passed on without
/// the blanks around it and without the line's end. `Status` and
/// `Content-Length` are not passed on, in whatever case they are written.
pub proof fn law_header_is_passed_on(name: Seq<u8>, value: Seq<u8>)
    requires
        !name.contains(58u8),
        plain_value(value),
    ensures
        header_parts(name + seq![58u8, 32u8] + value + seq![13u8]) == Some((name, value)),
        header_parts(name + seq![58u8] + value) == Some((name, value)),
        passed_header(name + seq![58u8, 32u8] + value + seq![13u8]) == (if lowered(latin(name))
            == lowered("Status"@) || lowered(latin(name)) == lowered("Content-Length"@) {
            None
        } else {
            Some((name, value))
        }),
{
    let raw = name + seq![58u8, 32u8] + value + seq![13u8];
    let line = name + seq![58u8, 32u8] + value;
    assert(raw.drop_last() =~= line);
    assert(cr_trimmed(raw) == line);
    let n = name.len() as int;
    assert forall|j: int| 0 <= j < n implies line[j] != 58u8 by {
        assert(line[j] == name[j]);
        assert(name.contains(name[j]));
    }
    crate::text::lemma_index_of_is(line, 58u8, n);
    assert(line.take(n) =~= name);
    let after = line.skip(n + 1);
    assert(after =~= seq![32u8] + value);
    assert(after.skip(1) =~= value);
    assert(space_trimmed_start(value) == value);
    assert(space_trimmed_start(after) == space_trimmed_start(after.skip(1)));
    assert(space_trimmed_end(value) == value);
    let short = name + seq![58u8] + value;
    assert(short.last() == value.last());
    assert forall|j: int| 0 <= j < n implies short[j] != 58u8 by {
        assert(short[j] == name[j]);
        assert(name.contains(name[j]));
    }
    crate::text::lemma_index_of_is(short, 58u8, n);
    assert(short.take(n) =~= name);
    assert(short.skip(n + 1) =~= value);
}

/// Law: the status is the number that the last `Status` header gives, and `200`
/// where there is no such header.
pub proof fn law_status_is_the_headers(lines: Seq<Seq<u8>>, i: int)
    requires
        forall|k: int|
            i < k < lines.len() ==> !(header_parts(#[trigger] lines[k]) matches Some(header)
                && named(header.0, "Status"@)),
        -1 <= i < lines.len(),
        i >= 0 ==> (header_parts(lines[i]) matches Some(header) && named(header.0, "Status"@)),
    ensures
        i < 0 ==> block_status(lines) == 200,
        i >= 0 ==> (header_parts(lines[i]) matches Some(header) && block_status(lines) == (
        match status_value(header.1) {
            Some(n) => n,
            None => 200,
        })),
    decreases lines.len(),
{
    if lines.len() > 0 && i < lines.len() - 1 {
        let less = lines.drop_last();
        assert forall|k: int| i < k < less.len() implies !(header_parts(
            #[trigger] less[k],
        ) matches Some(header) && named(header.0, "Status"@)) by {
            assert(less[k] == lines[k]);
        }
        if i >= 0 {
            assert(less[i] == lines[i]);
        }
        assert(lines[lines.len() - 1] == lines.last());
        law_status_is_the_headers(less, i);
    }
}

/// Law: every setting that a server overrides reaches git, under its own number,
/// with its own value, and git is told how many there are.
pub proof fn law_overrides_reach_git(overrides: Seq<(Seq<char>, Seq<char>)>, i: int)
    requires
        0 <= i < overrides.len(),
    ensures
        config_vars(overrides)[0] == ("GIT_CONFIG_COUNT"@, decimal(overrides.len())),
        config_vars(overrides).len() == 1 + 2 * overrides.len(),
        config_vars(overrides)[1 + 2 * i] == ("GIT_CONFIG_KEY_"@ + decimal(i as nat), overrides[i].0),
        config_vars(overrides)[2 + 2 * i] == (
            "GIT_CONFIG_VALUE_"@ + decimal(i as nat),
            overrides[i].1,
        ),
{
    lemma_numbered(overrides, i);
    let count = seq![("GIT_CONFIG_COUNT"@, decimal(overrides.len()))];
    assert(config_vars(overrides) == count + numbered(overrides));
    assert((count + numbered(overrides))[1 + 2 * i] == numbered(overrides)[2 * i]);
    assert((count + numbered(overrides))[2 + 2 * i] == numbered(overrides)[1 + 2 * i]);
}

proof fn lemma_numbered(overrides: Seq<(Seq<char>, Seq<char>)>, i: int)
    requires
        0 <= i < overrides.len(),
    ensures
        numbered(overrides).len() == 2 * overrides.len(),
        numbered(overrides)[2 * i] == ("GIT_CONFIG_KEY_"@ + decimal(i as nat), overrides[i].0),
        numbered(overrides)[1 + 2 * i] == (
            "GIT_CONFIG_VALUE_"@ + decimal(i as nat),
            overrides[i].1,
        ),
    decreases overrides.len(),
{
    if overrides.len() > 1 {
        if i < overrides.len() - 1 {
            lemma_numbered(overrides.drop_last(), i);
        } else {
            lemma_numbered(overrides.drop_last(), 0);
        }
    } else {
        assert(overrides.drop_last() =~= seq![]);
        assert(numbered(overrides.drop_last()).len() == 0);
    }
}

/// Law: a server with a seed has git demand signed pushes, a minute's slop
/// allowed, and one with hooks has git run them; nothing else is overridden.
pub proof fn law_settings_gate_pushes(state: AppState)
    ensures
        state.cert_nonce_seed matches Some(seed) ==> config_overrides(state).contains(
            ("receive.certNonceSeed"@, seed@),
        ) && config_overrides(state).contains(("receive.certNonceSlop"@, "60"@)),
        state.hooks_dir matches Some(dir) ==> config_overrides(state).contains(
            ("core.hooksPath"@, dir@),
        ),
        config_overrides(state).len() == (if state.cert_nonce_seed is Some {
            2int
        } else {
            0
        }) + (if state.hooks_dir is Some {
            1int
        } else {
            0
        }),
{
    let all = config_overrides(state);
    if state.cert_nonce_seed is Some {
        assert(all[0] == ("receive.certNonceSeed"@, state.cert_nonce_seed->0@));
        assert(all[1] == ("receive.certNonceSlop"@, "60"@));
    }
    if state.hooks_dir is Some {
        assert(all[all.len() - 1] == ("core.hooksPath"@, state.hooks_dir->0@));
    }
}

/// Law: what a request says of its body reaches the backend, and so does where
/// the checks wait.
pub proof fn law_backend_is_told_of_the_body(state: AppState, request: GitRequest)
    ensures
        request.content_type matches Some(text) ==> backend_vars(state, request).contains(
            ("CONTENT_TYPE"@, text@),
        ),
        request.content_length matches Some(text) ==> backend_vars(state, request).contains(
            ("CONTENT_LENGTH"@, text@),
        ),
        request.content_encoding matches Some(text) ==> backend_vars(state, request).contains(
            ("HTTP_CONTENT_ENCODING"@, text@),
        ),
        backend_vars(state, request).contains(("GIT_ENTS_CHECKS_QUEUE"@, state.checks_queue@)),
        backend_vars(state, request).contains(("GIT_HTTP_EXPORT_ALL"@, "1"@)),
        forall|i: int|
            0 <= i < config_vars(config_overrides(state)).len() ==> backend_vars(
                state,
                request,
            ).contains(#[trigger] config_vars(config_overrides(state))[i]),
        forall|i: int|
            0 <= i < hydrate_vars(state).len() ==> backend_vars(state, request).contains(
                #[trigger] hydrate_vars(state)[i],
            ),
{
    let all = backend_vars(state, request);
    let own = request_vars(state, request);
    let more = hydrate_vars(state);
    let set = config_vars(config_overrides(state));
    assert(all[5] == ("GIT_ENTS_CHECKS_QUEUE"@, state.checks_queue@));
    assert(all[1] == ("GIT_HTTP_EXPORT_ALL"@, "1"@));
    if request.content_type is Some {
        assert(all[6] == ("CONTENT_TYPE"@, request.content_type->0@));
    }
    let at = 6 + (if request.content_type is Some {
        1int
    } else {
        0int
    });
    if request.content_length is Some {
        assert(all[at] == ("CONTENT_LENGTH"@, request.content_length->0@));
    }
    if request.content_encoding is Some {
        assert(all[own.len() - 1] == ("HTTP_CONTENT_ENCODING"@, request.content_encoding->0@));
    }
    assert forall|i: int| 0 <= i < set.len() implies all.contains(#[trigger] set[i]) by {
        assert(all[own.len() + more.len() + i] == set[i]);
    }
    assert forall|i: int| 0 <= i < more.len() implies all.contains(#[trigger] more[i]) by {
        assert(all[own.len() + i] == more[i]);
    }
}

/// Law: a repository whose `HEAD` names nothing adopts `main` before `master` and
/// `master` before any other branch.
pub proof fn law_head_prefers_main(branches: Seq<Seq<char>>)
    ensures
        branches.contains("main"@) ==> adopted(branches) == Some("main"@),
        branches.contains("master"@) && !branches.contains("main"@) ==> adopted(branches) == Some(
            "master"@,
        ),
        branches.len() > 0 && !branches.contains("main"@) && !branches.contains("master"@)
            ==> adopted(branches) == Some(branches[0]),
{
}

/// Law: the directories above a repository are the ones that its names lead
/// through, from the top, and the repository is not among them.
pub proof fn law_ancestors_lead_to_the_repository(base: Seq<char>, parts: Seq<Seq<char>>, i: int)
    requires
        0 <= i < parts.len() - 1,
    ensures
        between(base, parts).len() == parts.len() - 1,
        between(base, parts)[0] == under(base, parts[0]),
        i > 0 ==> between(base, parts)[i] == under(between(base, parts)[i - 1], parts[i]),
{
    reveal_with_fuel(descend, 2);
}

/// Law: what a browser asks for is answered with a page, and what git asks for is
/// handed to it: a service, `HEAD`, or an object, unless the path is one of the
/// file views.
pub proof fn law_git_requests_are_told_from_pages(path: Seq<char>, query: Seq<char>)
    ensures
        !service_request(path, query) && !ends(path, "/HEAD"@) && !holds(path, "/objects/"@)
            ==> web_get(path, query),
        !service_request(path, query) && (holds(path, "/tree/"@) || holds(path, "/blob/"@)
            || holds(path, "/commit/"@)) ==> web_get(path, query),
        (ends(path, "/HEAD"@) || holds(path, "/objects/"@)) && !holds(path, "/tree/"@) && !holds(
            path,
            "/blob/"@,
        ) && !holds(path, "/commit/"@) ==> !web_get(path, query),
        service_request(path, query) <==> ends(path, "/info/refs"@) || ends(
            path,
            "/git-upload-pack"@,
        ) || ends(path, "/git-receive-pack"@) || holds(query, "service="@),
{
}

/// Law: a repository's name is the same on every system: only the separators
/// change.
pub proof fn law_repository_id_has_slashes(relative: Seq<char>, i: int)
    requires
        0 <= i < relative.len(),
    ensures
        repo_id(relative).len() == relative.len(),
        relative[i] == '\\' ==> repo_id(relative)[i] == '/',
        relative[i] != '\\' ==> repo_id(relative)[i] == relative[i],
{
}

/// Law: a status is the number before its first space, whatever words follow.
pub proof fn law_status_number_is_read(code: u16, digits: Seq<u8>, words: Seq<u8>)
    requires
        latin(digits) == decimal(code as nat),
    ensures
        status_value(digits) == Some(code as nat),
        status_value(digits + seq![32u8] + words) == Some(code as nat),
{
    crate::text::lemma_decimal_round_trip(code as nat, 0xffff);
    assert(!digits.contains(32u8)) by {
        assert forall|i: int| 0 <= i < digits.len() implies digits[i] != 32u8 by {
            assert(latin(digits)[i] == digits[i] as char);
            assert(crate::text::is_digit(latin(digits)[i]));
        }
    }
    lemma_split_front(digits, 32u8, words);
}

} // verus!
