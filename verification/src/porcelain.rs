//! What the command line asks of git and of a remote's server: mirroring and
//! pushing meta refs, signing in, and reading what came back.

use vstd::prelude::*;
use vstd::utf8::encode_utf8;

use crate::bytes::{decoded, from_utf8_lossy};
use crate::forms::{encoded_form, field_of, fields_map, law_form_round_trip, serialize_form};
use crate::object_id::{null_digits, ObjectId};
use crate::text::{
    after_prefix, alphanumeric, before_suffix, chars_of, contains, decimal, ends, fields, fields_of,
    find_chars, find_sub, halves, holds, is_alphanumeric, is_white, is_word, join_path,
    lemma_fields_front, lemma_find_sub, lemma_index_of_is, opt_text, pairs, push_decimal, same,
    short_of, shorten, split_once, starts, strip_prefix, strip_suffix, stripped_end, stripped_start,
    text_of, texts, trim, trim_end_of, trim_start_of, trimmed, under,
};

verus! {

/// The first twelve characters of a hex id, as listings abbreviate it.
pub fn short_id(id: &str) -> (r: String)
    ensures
        r@ == short_of(id@, 12),
{
    shorten(id, 12)
}

/// The object a remote's ref is at, from what `git ls-remote` printed.
pub open spec fn tip_in(listing: Seq<char>) -> Option<Seq<char>> {
    if fields_of(listing).len() > 0 {
        Some(fields_of(listing)[0])
    } else {
        None
    }
}

/// The object a remote's ref is at, or none where the remote has no such ref.
pub fn remote_tip(listing: &str) -> (r: Option<String>)
    ensures
        opt_text(r) == tip_in(listing@),
{
    let words = fields(listing);
    proof {
        assert(texts(words@).len() == words@.len());
    }
    if words.len() > 0 {
        proof {
            assert(texts(words@)[0] == words@[0]@);
        }
        Some(words[0].clone())
    } else {
        None
    }
}

/// The git command that mirrors a remote's ref into the local repository: it
/// is fetched where the remote has it, and a stale local one is cleared where
/// the remote has none.
pub fn sync_args(remote: &str, refname: &str, tip: &Option<String>) -> (r: Vec<String>)
    ensures
        texts(r@) == (match tip {
            Some(_) => seq![
                "fetch"@,
                "--quiet"@,
                remote@,
                "+"@ + refname@ + ":"@ + refname@,
            ],
            None => seq!["update-ref"@, "-d"@, refname@],
        }),
{
    let mut r: Vec<String> = Vec::new();
    match tip {
        Some(_) => {
            let mut refspec = "+".to_owned();
            refspec.append(refname);
            refspec.append(":");
            refspec.append(refname);
            r.push("fetch".to_owned());
            r.push("--quiet".to_owned());
            r.push(remote.to_owned());
            r.push(refspec);
            proof {
                assert(texts(r@) =~= seq![
                    "fetch"@,
                    "--quiet"@,
                    remote@,
                    "+"@ + refname@ + ":"@ + refname@,
                ]);
            }
        },
        None => {
            r.push("update-ref".to_owned());
            r.push("-d".to_owned());
            r.push(refname.to_owned());
            proof {
                assert(texts(r@) =~= seq!["update-ref"@, "-d"@, refname@]);
            }
        },
    }
    r
}

/// The git command that mirrors every ref under a remote's namespace, dropping
/// local ones that the remote no longer has.
pub fn sync_namespace_args(remote: &str, namespace: &str) -> (r: Vec<String>)
    ensures
        texts(r@) == seq![
            "fetch"@,
            "--quiet"@,
            "--prune"@,
            remote@,
            "+"@ + namespace@ + "/*:"@ + namespace@ + "/*"@,
        ],
{
    let mut refspec = "+".to_owned();
    refspec.append(namespace);
    refspec.append("/*:");
    refspec.append(namespace);
    refspec.append("/*");
    let mut r: Vec<String> = Vec::new();
    r.push("fetch".to_owned());
    r.push("--quiet".to_owned());
    r.push("--prune".to_owned());
    r.push(remote.to_owned());
    r.push(refspec);
    proof {
        assert(texts(r@) =~= seq![
            "fetch"@,
            "--quiet"@,
            "--prune"@,
            remote@,
            "+"@ + namespace@ + "/*:"@ + namespace@ + "/*"@,
        ]);
    }
    r
}

/// The lease a push is pinned to: the tip that was seen, or that there was none.
pub open spec fn lease(refname: Seq<char>, expected: Option<Seq<char>>) -> Seq<char> {
    "--force-with-lease="@ + refname + ":"@ + (match expected {
        Some(tip) => tip,
        None => null_digits(),
    })
}

fn push_args(remote: &str, refname: &str, expected: Option<&str>, refspec: String) -> (r: Vec<
    String,
>)
    ensures
        texts(r@) == seq![
            "push"@,
            "--force-if-includes"@,
            lease(
                refname@,
                match expected {
                    Some(tip) => Some(tip@),
                    None => None,
                },
            ),
            remote@,
            refspec@,
        ],
{
    let mut pinned = "--force-with-lease=".to_owned();
    pinned.append(refname);
    pinned.append(":");
    match expected {
        Some(tip) => {
            pinned.append(tip);
        },
        None => {
            pinned.append(ObjectId::null().as_str());
        },
    }
    let mut r: Vec<String> = Vec::new();
    r.push("push".to_owned());
    r.push("--force-if-includes".to_owned());
    r.push(pinned);
    r.push(remote.to_owned());
    r.push(refspec);
    proof {
        assert(texts(r@) =~= seq![
            "push"@,
            "--force-if-includes"@,
            lease(
                refname@,
                match expected {
                    Some(tip) => Some(tip@),
                    None => None,
                },
            ),
            remote@,
            refspec@,
        ]);
    }
    r
}

/// The git command that pushes a ref as a clean compare-and-swap: pinned to the
/// tip that was seen, so that it is rejected rather than clobbering what
/// somebody changed since.
pub fn push_signed(remote: &str, refname: &str, expected: Option<&str>) -> (r: Vec<String>)
    ensures
        texts(r@) == seq![
            "push"@,
            "--force-if-includes"@,
            lease(
                refname@,
                match expected {
                    Some(tip) => Some(tip@),
                    None => None,
                },
            ),
            remote@,
            refname@,
        ],
{
    push_args(remote, refname, expected, refname.to_owned())
}

/// The git command that deletes a ref on a remote, pinned to the tip that was
/// seen.
pub fn push_delete(remote: &str, refname: &str, expected: &str) -> (r: Vec<String>)
    ensures
        texts(r@) == seq![
            "push"@,
            "--force-if-includes"@,
            lease(refname@, Some(expected@)),
            remote@,
            ":"@ + refname@,
        ],
{
    let mut refspec = ":".to_owned();
    refspec.append(refname);
    push_args(remote, refname, Some(expected), refspec)
}

/// What is said where git failed.
pub fn git_failure(command: Option<&str>) -> (r: String)
    ensures
        r@ == "git "@ + (match command {
            Some(command) => command@,
            None => "?"@,
        }) + " failed"@,
{
    let mut r = "git ".to_owned();
    match command {
        Some(command) => {
            r.append(command);
        },
        None => {
            r.append("?");
        },
    }
    r.append(" failed");
    r
}

/// What is said where a remote could not be listed: in the command line's own
/// words where there is no such remote, in git's otherwise.
pub fn ls_remote_error(remote: &str, stderr: &[u8]) -> (r: String)
    ensures
        ({
            let text = decoded(stderr@);
            r@ == if holds(text, "does not appear to be a git repository"@) || holds(
                text,
                "Could not read from remote repository"@,
            ) {
                "remote '"@ + remote@ + "' not found"@
            } else {
                trimmed(text)
            }
        }),
{
    let text = from_utf8_lossy(stderr);
    if contains(text.as_str(), "does not appear to be a git repository") || contains(
        text.as_str(),
        "Could not read from remote repository",
    ) {
        let mut r = "remote '".to_owned();
        r.append(remote);
        r.append("' not found");
        r
    } else {
        trim(text.as_str())
    }
}

/// What an HTTP response comes to: its body, or why it failed, which is its body
/// too unless that is empty.
pub fn http_outcome(method: &str, url: &str, success: bool, status: &str, text: String) -> (r:
    Result<String, String>)
    ensures
        if success {
            r == Ok::<String, String>(text)
        } else if text@.len() == 0 {
            r matches Err(message) && message@ == method@ + " "@ + url@ + " returned "@ + status@
        } else {
            r == Err::<String, String>(text)
        },
{
    if success {
        Ok(text)
    } else if text.as_str().is_empty() {
        let mut message = method.to_owned();
        message.append(" ");
        message.append(url);
        message.append(" returned ");
        message.append(status);
        Err(message)
    } else {
        Err(text)
    }
}

/// The two parts of an address round its `://`.
pub open spec fn scheme_split(url: Seq<char>) -> Option<(Seq<char>, Seq<char>)> {
    match find_sub(url, "://"@) {
        None => None,
        Some(at) => Some((url.take(at), url.skip(at + "://"@.len()))),
    }
}

fn split_scheme(url: &str) -> (r: Option<(String, String)>)
    ensures
        match r {
            Some(parts) => scheme_split(url@) == Some((parts.0@, parts.1@)),
            None => scheme_split(url@) is None,
        },
{
    let v = chars_of(url);
    let mark = chars_of("://");
    let n: usize = v.len();
    proof {
        assert(v@.skip(0) =~= v@);
    }
    match find_chars(v.as_slice(), 0, mark.as_slice()) {
        None => None,
        Some(at) => {
            let from: usize = at + mark.len();
            let scheme = text_of(v.as_slice(), 0, at);
            let rest = text_of(v.as_slice(), from, n);
            proof {
                assert(scheme@ =~= url@.take(at as int));
                assert(rest@ =~= url@.skip(at + "://"@.len()));
            }
            Some((scheme, rest))
        },
    }
}

/// A server's base address and a repository's path there.
pub open spec fn base_of(url: Seq<char>) -> Option<(Seq<char>, Seq<char>)> {
    match scheme_split(trimmed(url)) {
        Some((scheme, rest)) if scheme == "http"@ || scheme == "https"@ => {
            let (host, path) = match halves(rest, '/') {
                Some((host, path)) => (host, path),
                None => (rest, Seq::empty()),
            };
            let bare = match before_suffix(path, ".git"@) {
                Some(bare) => bare,
                None => path,
            };
            Some((scheme + "://"@ + host, stripped_end(stripped_start(bare, '/'), '/')))
        },
        _ => None,
    }
}

/// The server's http(s) base URL and repository path (without `.git`) for a
/// remote's configured URL.
pub fn remote_http_base(remote: &str, url: &str) -> (r: Result<(String, String), String>)
    ensures
        match base_of(url@) {
            Some((base, path)) => r matches Ok(found) && found.0@ == base && found.1@ == path,
            None => r matches Err(message) && message@ == remote@
                + " is not an http(s) remote; login and debug need one"@,
        },
{
    let url = trim(url);
    if let Some((scheme, rest)) = split_scheme(url.as_str()) {
        if same(scheme.as_str(), "http") || same(scheme.as_str(), "https") {
            let (host, path) = match split_once(rest.as_str(), '/') {
                Some((host, path)) => (host, path),
                None => (rest, String::new()),
            };
            let bare = match strip_suffix(path.as_str(), ".git") {
                Some(bare) => bare,
                None => path.as_str(),
            };
            let from = trim_start_of(bare, '/');
            let repo_path = trim_end_of(from.as_str(), '/');
            let mut base = scheme;
            base.append("://");
            base.append(host.as_str());
            return Ok((base, repo_path));
        }
    }
    let mut message = remote.to_owned();
    message.append(" is not an http(s) remote; login and debug need one");
    Err(message)
}

/// The `host[:port]` portion of an `http(s)://host[:port]` base URL.
pub fn host_of(base: &str) -> (r: Result<String, &'static str>)
    ensures
        match scheme_split(base@) {
            Some((_, host)) => r matches Ok(found) && found@ == host,
            None => r matches Err(message) && message@ == "malformed server URL"@,
        },
{
    match split_scheme(base) {
        Some((_, host)) => Ok(host),
        None => Err("malformed server URL"),
    }
}

/// A remote's base address always has a host to store a session under.
pub proof fn law_base_has_a_host(url: Seq<char>)
    requires
        base_of(url) is Some,
    ensures
        scheme_split(base_of(url)->Some_0.0) is Some,
{
    let base = base_of(url)->Some_0.0;
    let scheme = scheme_split(trimmed(url))->Some_0.0;
    let at = scheme.len() as int;
    lemma_find_sub(base, "://"@);
    assert(crate::text::starts(base.skip(at), "://"@)) by {
        assert(base.skip(at).take("://"@.len() as int) =~= "://"@);
    }
    assert(holds(base, "://"@));
}

/// A base address over WebSockets.
pub open spec fn over_ws(base: Seq<char>) -> Seq<char> {
    match after_prefix(base, "https://"@) {
        Some(rest) => "wss://"@ + rest,
        None => match after_prefix(base, "http://"@) {
            Some(rest) => "ws://"@ + rest,
            None => base,
        },
    }
}

/// Rewrites an `http(s)://` base URL to its `ws(s)://` equivalent.
pub fn to_ws(base: &str) -> (r: String)
    ensures
        r@ == over_ws(base@),
{
    if let Some(rest) = strip_prefix(base, "https://") {
        let mut r = "wss://".to_owned();
        r.append(rest);
        r
    } else if let Some(rest) = strip_prefix(base, "http://") {
        let mut r = "ws://".to_owned();
        r.append(rest);
        r
    } else {
        base.to_owned()
    }
}

/// Where a repository's debug session is opened.
pub fn debug_url(base: &str, repo_path: &str) -> (r: String)
    ensures
        r@ == over_ws(base@) + "/_debug/"@ + repo_path@,
{
    let mut url = to_ws(base);
    url.append("/_debug/");
    url.append(repo_path);
    url
}

/// What is said where nobody signed in to a remote from this machine.
pub fn not_signed_in(remote: &str) -> (r: String)
    ensures
        r@ == "not signed in to "@ + remote@ + "; run `git ents login "@ + remote@ + "` first"@,
{
    let mut r = "not signed in to ".to_owned();
    r.append(remote);
    r.append("; run `git ents login ");
    r.append(remote);
    r.append("` first");
    r
}

/// A host as a file name.
pub open spec fn host_file(host: Seq<char>) -> Seq<char> {
    host.map_values(
        |c: char|
            if is_alphanumeric(c) || c == '.' || c == '-' {
                c
            } else {
                '_'
            },
    )
}

fn sanitize_host(host: &str) -> (r: String)
    ensures
        r@ == host_file(host@),
{
    let v = chars_of(host);
    let mut r = String::new();
    let mut i: usize = 0;
    while i < v.len()
        invariant
            i <= v@.len(),
            v@ == host@,
            r@ == host_file(v@.take(i as int)),
        decreases v@.len() - i,
    {
        proof {
            assert(v@.take(i + 1) =~= v@.take(i as int).push(v@[i as int]));
        }
        let c = v[i];
        if alphanumeric(c) || c == '.' || c == '-' {
            r.push(c);
        } else {
            r.push('_');
        }
        proof {
            assert(r@ =~= host_file(v@.take(i + 1)));
        }
        i += 1;
    }
    proof {
        assert(v@.take(v@.len() as int) =~= v@);
    }
    r
}

/// Where the session token for a host is stored, one file per host.
pub fn session_path(home: Option<&str>, host: &str) -> (r: Result<String, &'static str>)
    ensures
        match home {
            None => r matches Err(message) && message@ == "HOME is not set"@,
            Some(home) => r matches Ok(path) && path@ == under(
                under(home@, ".config/git-ents/sessions"@),
                host_file(host@),
            ),
        },
{
    match home {
        None => Err("HOME is not set"),
        Some(home) => {
            let dir = join_path(home, ".config/git-ents/sessions");
            let name = sanitize_host(host);
            Ok(join_path(dir.as_str(), name.as_str()))
        },
    }
}

/// A host's file is never outside the sessions' directory by a slash in it.
pub proof fn law_session_file_is_one_name(host: Seq<char>)
    ensures
        !host_file(host).contains('/'),
{
    assert forall|i: int| 0 <= i < host_file(host).len() implies host_file(host)[i] != '/' by {
        let c = host[i];
    }
}

/// The form that signs in: the public key, the signature over the challenge, and
/// the challenge.
pub open spec fn login_fields(public_key: Seq<char>, signature: Seq<char>, nonce: Seq<char>) -> Seq<
    (Seq<char>, Seq<char>),
> {
    seq![("public_key"@, public_key), ("signature"@, signature), ("nonce"@, nonce)]
}

/// The form body that signs in.
pub fn login_body(public_key: &str, signature: &str, nonce: &str) -> (r: String)
    ensures
        r@ == encoded_form(login_fields(public_key@, signature@, nonce@)),
{
    let mut form: Vec<(String, String)> = Vec::new();
    form.push(("public_key".to_owned(), public_key.to_owned()));
    form.push(("signature".to_owned(), signature.to_owned()));
    form.push(("nonce".to_owned(), nonce.to_owned()));
    proof {
        assert(pairs(form@) =~= login_fields(public_key@, signature@, nonce@));
    }
    serialize_form(&form)
}

/// The server reads back from a sign-in what the command line wrote.
pub proof fn law_login_reads_back(public_key: Seq<char>, signature: Seq<char>, nonce: Seq<char>)
    ensures
        ({
            let body = encode_utf8(encoded_form(login_fields(public_key, signature, nonce)));
            field_of(body, "public_key"@) == Some(public_key) && field_of(body, "signature"@)
                == Some(signature) && field_of(body, "nonce"@) == Some(nonce)
        }),
{
    let all = login_fields(public_key, signature, nonce);
    law_form_round_trip(all);
    reveal_strlit("public_key");
    reveal_strlit("signature");
    reveal_strlit("nonce");
    assert("public_key"@.len() == 10);
    assert("signature"@.len() == 9);
    assert("nonce"@.len() == 5);
    let two = all.drop_last();
    let one = two.drop_last();
    let none = one.drop_last();
    assert(all.last() == ("nonce"@, nonce));
    assert(two.last() == ("signature"@, signature));
    assert(one.last() == ("public_key"@, public_key));
    assert(none.len() == 0);
    assert(fields_map(one) == fields_map(none).insert("public_key"@, public_key));
    assert(fields_map(two) == fields_map(one).insert("signature"@, signature));
    assert(fields_map(all) == fields_map(two).insert("nonce"@, nonce));
}

/// How long ago a run was, in short.
pub open spec fn short_ago(seconds: nat) -> Seq<char> {
    if seconds < 60 {
        "just now"@
    } else if seconds < 3600 {
        decimal(seconds / 60) + "m ago"@
    } else if seconds < 86400 {
        decimal(seconds / 3600) + "h ago"@
    } else {
        decimal(seconds / 86400) + "d ago"@
    }
}

/// A time as a relative "N units ago" string, both in seconds since the epoch.
pub fn ago(now: u64, at: u64) -> (r: String)
    ensures
        r@ == short_ago(
            if now > at {
                (now - at) as nat
            } else {
                0
            },
        ),
{
    let seconds: u64 = if now > at {
        now - at
    } else {
        0
    };
    let mut r = String::new();
    if seconds < 60 {
        r.append("just now");
    } else if seconds < 3600 {
        push_decimal(&mut r, seconds / 60);
        r.append("m ago");
    } else if seconds < 86400 {
        push_decimal(&mut r, seconds / 3600);
        r.append("h ago");
    } else {
        push_decimal(&mut r, seconds / 86400);
        r.append("d ago");
    }
    proof {
        assert(r@ =~= short_ago(seconds as nat));
    }
    r
}

/// Law: the tip that a remote lists is the first word of its answer.
pub proof fn law_listed_tip_is_read(tip: Seq<char>, rest: Seq<char>)
    requires
        is_word(tip),
    ensures
        tip_in(tip + "\t"@ + rest) == Some(tip),
        tip_in(Seq::empty()) is None,
{
    reveal_strlit("\t");
    assert(tip + "\t"@ + rest =~= tip + seq!['\t'] + rest);
    lemma_fields_front(tip, '\t', rest);
}

/// Law: a push holds the remote to the tip that was seen, or to there being none.
pub proof fn law_lease_is_on_what_was_seen(refname: Seq<char>, tip: Seq<char>)
    ensures
        lease(refname, Some(tip)) == "--force-with-lease="@ + refname + ":"@ + tip,
        lease(refname, None) == "--force-with-lease="@ + refname + ":"@ + Seq::new(
            40,
            |i: int| '0',
        ),
{
    assert(null_digits() =~= Seq::new(40, |i: int| '0'));
}

/// Law: an http remote is its server and the repository's path there, with or
/// without `.git`.
pub proof fn law_remote_is_server_and_path(secure: bool, host: Seq<char>, path: Seq<char>)
    requires
        host.len() > 0,
        !host.contains('/'),
        path.len() > 0,
        path[0] != '/',
        path.last() != '/',
        !is_white(path.last()),
        !ends(path, ".git"@),
    ensures
        ({
            let scheme = if secure {
                "https"@
            } else {
                "http"@
            };
            &&& base_of(scheme + "://"@ + host + "/"@ + path) == Some(
                (scheme + "://"@ + host, path),
            )
            &&& base_of(scheme + "://"@ + host + "/"@ + path + ".git"@) == Some(
                (scheme + "://"@ + host, path),
            )
        }),
{
    reveal_strlit("https");
    reveal_strlit("http");
    reveal_strlit("://");
    reveal_strlit("/");
    reveal_strlit(".git");
    let scheme = if secure {
        "https"@
    } else {
        "http"@
    };
    lemma_base(scheme, host, path);
    lemma_base(scheme, host, path + ".git"@);
    let full = path + ".git"@;
    assert(full.skip(full.len() - 4) =~= ".git"@);
    assert(full.take(full.len() - 4) =~= path);
    assert(scheme + "://"@ + host + "/"@ + path + ".git"@ =~= scheme + "://"@ + host + "/"@ + full);
    assert(stripped_start(path, '/') == path);
    assert(stripped_end(path, '/') == path);
}

/// A URL comes apart at its scheme and at the first slash after it.
proof fn lemma_base(scheme: Seq<char>, host: Seq<char>, path: Seq<char>)
    requires
        scheme == "http"@ || scheme == "https"@,
        host.len() > 0,
        !host.contains('/'),
        path.len() > 0,
        !is_white(path.last()),
    ensures
        ({
            let url = scheme + "://"@ + host + "/"@ + path;
            &&& trimmed(url) == url
            &&& scheme_split(url) == Some((scheme, host + "/"@ + path))
            &&& halves(host + "/"@ + path, '/') == Some((host, path))
        }),
{
    reveal_strlit("https");
    reveal_strlit("http");
    reveal_strlit("://");
    reveal_strlit("/");
    let mark = "://"@;
    let rest = host + "/"@ + path;
    let url = scheme + "://"@ + host + "/"@ + path;
    assert(url =~= scheme + mark + rest);
    assert(url[0] == 'h');
    assert(url.last() == path.last());
    crate::sessions::lemma_trimmed_plain(url);
    let n = scheme.len() as int;
    lemma_find_sub(url, mark);
    assert(url.skip(n).take(3) =~= mark);
    assert(starts(url.skip(n), mark));
    assert(holds(url, mark));
    let at = find_sub(url, mark)->0;
    if at < n {
        assert(url.skip(at).take(3)[0] == ':');
        assert(url[at] == scheme[at]);
        assert(scheme[at] != ':');
    }
    assert(at == n);
    assert(url.take(n) =~= scheme);
    assert(url.skip(n + 3) =~= rest);
    assert forall|j: int| 0 <= j < host.len() implies rest[j] != '/' by {
        assert(rest[j] == host[j]);
        assert(host.contains(host[j]));
    }
    lemma_index_of_is(rest, '/', host.len() as int);
    assert(rest.take(host.len() as int) =~= host);
    assert(rest.skip(1 + host.len() as int) =~= path);
}

/// Law: a socket is opened on the server that the pages come from, secure where
/// they are.
pub proof fn law_socket_is_on_the_same_server(rest: Seq<char>)
    ensures
        over_ws("https://"@ + rest) == "wss://"@ + rest,
        over_ws("http://"@ + rest) == "ws://"@ + rest,
{
    reveal_strlit("https://");
    reveal_strlit("http://");
    let a = "https://"@ + rest;
    let b = "http://"@ + rest;
    assert(a.take(8) =~= "https://"@);
    assert(a.skip(8) =~= rest);
    assert(b.take(7) =~= "http://"@);
    assert(b.skip(7) =~= rest);
    if starts(b, "https://"@) {
        assert(b.take(8)[4] == 's');
        assert(b[4] == ':');
    }
}

/// Law: a session is kept under its host's name, in which only what cannot stand
/// in a file's name is changed.
pub proof fn law_session_file_is_named_after_the_host(host: Seq<char>, i: int)
    requires
        0 <= i < host.len(),
    ensures
        host_file(host).len() == host.len(),
        is_alphanumeric(host[i]) || host[i] == '.' || host[i] == '-' ==> host_file(host)[i]
            == host[i],
        !(is_alphanumeric(host[i]) || host[i] == '.' || host[i] == '-') ==> host_file(host)[i]
            == '_',
{
}

/// Law: how long ago, in short: in the largest unit that fits.
pub proof fn law_short_ago_counts_in_the_largest_unit(seconds: nat)
    ensures
        seconds < 60 ==> short_ago(seconds) == "just now"@,
        60 <= seconds < 3600 ==> short_ago(seconds) == decimal(seconds / 60) + "m ago"@,
        3600 <= seconds < 86400 ==> short_ago(seconds) == decimal(seconds / 3600) + "h ago"@,
        86400 <= seconds ==> short_ago(seconds) == decimal(seconds / 86400) + "d ago"@,
{
}

} // verus!
