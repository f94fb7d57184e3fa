//! Signing in through the browser: one-time challenges, sessions, and the
//! cookies and tokens that stand for them.
//!
//! Signing in never surrenders a private key. The server issues a one-time
//! challenge; the member signs it locally and sends back the signature and their
//! public key. A session keeps only the public key: enough to authorize an edit
//! against a repository's live member list, and nothing secret.

use vstd::prelude::*;

use crate::forms::{field_or_empty, trimmed_field};
use crate::keyed::{as_map, key_index, lemma_as_map_entry, TextMap, TextSet};
use crate::random::{hex_of, random_hex};
use crate::seqs::{first_where, lemma_first_where_is};
use crate::sign::GIT_SIGN_NAMESPACE;
use crate::text::{
    fields, fields_of, halves, is_white, is_word, joined, law_fields_undo_join, lemma_index_of_is,
    lemma_split_concat, lemma_split_front, opt_text, same, split, split_on, split_once, texts, trim,
    trimmed,
};

verus! {

/// The cookie that carries a session token.
pub const COOKIE: &'static str = "ents_session";

/// The SSHSIG namespace a sign-in signature is made under, by the server and by
/// the command line alike. It is not git's own `git` namespace, so a login
/// signature can never double as a push and vice versa.
pub const LOGIN_NAMESPACE: &'static str = "git-ents-login";

/// How long an issued sign-in challenge stays valid, in nanoseconds.
pub const CHALLENGE_TTL_NANOS: u128 = 600_000_000_000;

/// One browser session. It holds only the member's *public* key, plus a display
/// label and a CSRF token.
#[derive(Debug, PartialEq, Eq)]
pub struct Session {
    /// The member's public key line (`type base64`), matched against members.
    pub public_key: String,
    /// A human label for the key: its comment, or its type.
    pub label: String,
    /// A per-session token that state-changing form posts must echo back, so a
    /// cross-site request (which cannot read it) cannot act as the user.
    pub csrf: String,
}

/// The sessions that are open, by their tokens.
pub type Sessions = TextMap<Session>;

/// Outstanding sign-in challenges and when each was issued; consumed once.
pub type Challenges = TextMap<u128>;

/// Creates an empty session table.
pub fn new_sessions() -> (r: Sessions)
    ensures
        r@ == Map::<Seq<char>, Session>::empty(),
{
    TextMap::new()
}

/// Creates an empty challenge table.
pub fn new_challenges() -> (r: Challenges)
    ensures
        r@ == Map::<Seq<char>, u128>::empty(),
{
    TextMap::new()
}

/// Whether a challenge issued at one moment is still valid at another.
pub open spec fn live(issued: u128, now: u128) -> bool {
    now < issued + CHALLENGE_TTL_NANOS
}

/// Whether a challenge issued at one moment is still valid at another.
fn is_live(issued: u128, now: u128) -> (r: bool)
    ensures
        r == live(issued, now),
{
    if now <= issued {
        true
    } else {
        now - issued < CHALLENGE_TTL_NANOS
    }
}

/// The challenges that are still valid, with one more issued now.
pub open spec fn challenged(
    challenges: Map<Seq<char>, u128>,
    nonce: Seq<char>,
    now: u128,
) -> Map<Seq<char>, u128> {
    Map::new(
        |n: Seq<char>| challenges.contains_key(n) && live(challenges[n], now),
        |n: Seq<char>| challenges[n],
    ).insert(nonce, now)
}

/// Issues `nonce` as a challenge, and forgets those that have lapsed.
pub fn issue_nonce(challenges: &mut Challenges, nonce: &str, now: u128)
    ensures
        final(challenges)@ == challenged(old(challenges)@, nonce@, now),
{
    let mut lapsed = TextSet::new();
    let entries = challenges.entries();
    let ghost seen = entries@;
    let mut i: usize = 0;
    proof {
        assert(lapsed@ =~= Set::new(
            |n: Seq<char>|
                exists|j: int| 0 <= j < 0 && (#[trigger] seen[j]).0@ == n && !live(seen[j].1, now),
        ));
    }
    while i < entries.len()
        invariant
            i <= entries@.len(),
            seen == entries@,
            lapsed@ == Set::new(
                |n: Seq<char>|
                    exists|j: int|
                        0 <= j < i && (#[trigger] seen[j]).0@ == n && !live(seen[j].1, now),
            ),
        decreases entries@.len() - i,
    {
        let ghost prior = lapsed@;
        if !is_live(entries[i].1, now) {
            lapsed.insert(entries[i].0.clone());
        }
        proof {
            assert forall|n: Seq<char>| lapsed@.contains(n) <==> (exists|j: int|
                0 <= j < i + 1 && (#[trigger] seen[j]).0@ == n && !live(seen[j].1, now)) by {
                if prior.contains(n) {
                    let j = choose|j: int|
                        0 <= j < i && (#[trigger] seen[j]).0@ == n && !live(seen[j].1, now);
                    assert(seen[j].0@ == n);
                }
                if n == seen[i as int].0@ && !live(seen[i as int].1, now) {
                    assert(lapsed@.contains(n));
                }
            }
            assert(lapsed@ =~= Set::new(
                |n: Seq<char>|
                    exists|j: int|
                        0 <= j < i + 1 && (#[trigger] seen[j]).0@ == n && !live(seen[j].1, now),
            ));
        }
        i += 1;
    }
    let mut table: Challenges = TextMap::new();
    std::mem::swap(&mut table, challenges);
    let mut kept_table = table.without(&lapsed);
    let ghost left = kept_table@;
    kept_table.insert(nonce.to_owned(), now);
    proof {
        let before = old(challenges)@;
        let want = Map::new(
            |n: Seq<char>| before.contains_key(n) && live(before[n], now),
            |n: Seq<char>| before[n],
        );
        assert(as_map(seen) == before);
        assert forall|n: Seq<char>| left.contains_key(n) <==> want.contains_key(n) by {
            if before.contains_key(n) {
                let j = key_index(seen, n);
                lemma_as_map_entry(seen, j);
                if !live(before[n], now) {
                    assert(seen[j].0@ == n);
                    assert(lapsed@.contains(n));
                } else if lapsed@.contains(n) {
                    let k = choose|k: int|
                        0 <= k < seen.len() && (#[trigger] seen[k]).0@ == n && !live(
                            seen[k].1,
                            now,
                        );
                    lemma_as_map_entry(seen, k);
                }
            }
        }
        assert(left =~= want);
    }
    *challenges = kept_table;
}

/// Issues a fresh one-time sign-in challenge, returning the nonce to sign, or
/// an error where the system has no randomness to give.
pub fn issue_challenge(challenges: &mut Challenges, now: u128) -> (r: Result<String, String>)
    ensures
        match r {
            Ok(nonce) => {
                &&& final(challenges)@ == challenged(old(challenges)@, nonce@, now)
                &&& exists|bytes: Seq<u8>|
                    bytes.len() == 32 && nonce@ == #[trigger] hex_of(bytes)
            },
            Err(message) => final(challenges)@ == old(challenges)@ && message@
                == "could not read randomness"@,
        },
{
    match random_hex() {
        Some(nonce) => {
            issue_nonce(challenges, nonce.as_str(), now);
            Ok(nonce)
        },
        None => Err("could not read randomness".to_owned()),
    }
}

/// Consumes `nonce`, returning whether it was a live, unexpired challenge.
pub fn take_challenge(challenges: &mut Challenges, nonce: &str, now: u128) -> (r: bool)
    ensures
        r == (old(challenges)@.contains_key(nonce@) && live(old(challenges)@[nonce@], now)),
        final(challenges)@ == old(challenges)@.remove(nonce@),
{
    match challenges.remove(nonce) {
        Some(issued) => is_live(issued, now),
        None => false,
    }
}

/// A challenge is one-time: once taken it is not there to be taken again, and
/// until then it is valid for as long as it was issued for.
pub proof fn law_challenge_is_one_time(
    challenges: Map<Seq<char>, u128>,
    nonce: Seq<char>,
    issued: u128,
    now: u128,
)
    ensures
        challenged(challenges, nonce, issued).contains_key(nonce),
        live(challenged(challenges, nonce, issued)[nonce], now) == (now < issued
            + CHALLENGE_TTL_NANOS),
        !challenged(challenges, nonce, issued).remove(nonce).contains_key(nonce),
{
}

/// The session token that one cookie of a header carries.
pub open spec fn cookie_token(pair: Seq<char>) -> Option<Seq<char>> {
    match halves(trimmed(pair), '=') {
        Some((name, value)) => if name == COOKIE@ {
            Some(value)
        } else {
            None
        },
        None => None,
    }
}

/// The session token in a `Cookie` header: that of the first cookie of the
/// name.
pub open spec fn token_of(cookie: Seq<char>) -> Option<Seq<char>> {
    let parts = split_on(cookie, ';');
    let i = first_where(parts, |p: Seq<char>| cookie_token(p) is Some);
    if i < parts.len() {
        cookie_token(parts[i])
    } else {
        None
    }
}

/// The session token in a `Cookie` header value, if present.
pub fn token(cookie: &str) -> (r: Option<String>)
    ensures
        opt_text(r) == token_of(cookie@),
{
    let parts = split(cookie, ';');
    let ghost all = texts(parts@);
    let ghost p = |p: Seq<char>| cookie_token(p) is Some;
    let mut i: usize = 0;
    while i < parts.len()
        invariant
            i <= parts@.len(),
            all == texts(parts@),
            all == split_on(cookie@, ';'),
            p == (|p: Seq<char>| cookie_token(p) is Some),
            forall|j: int| 0 <= j < i ==> !p(#[trigger] all[j]),
        decreases parts@.len() - i,
    {
        proof {
            assert(all[i as int] == parts@[i as int]@);
        }
        let pair = trim(parts[i].as_str());
        if let Some((name, value)) = split_once(pair.as_str(), '=') {
            if same(name.as_str(), COOKIE) {
                proof {
                    lemma_first_where_is(all, p, i as int);
                }
                return Some(value);
            }
        }
        i += 1;
    }
    proof {
        lemma_first_where_is(all, p, i as int);
    }
    None
}

/// The token of a header that may be absent.
pub open spec fn header_token(cookie: Option<Seq<char>>) -> Option<Seq<char>> {
    match cookie {
        Some(cookie) => token_of(cookie),
        None => None,
    }
}

/// The text of a borrowed string that may be absent.
pub open spec fn opt_str(s: Option<&str>) -> Option<Seq<char>> {
    match s {
        Some(s) => Some(s@),
        None => None,
    }
}

fn read_token(cookie: Option<&str>) -> (r: Option<String>)
    ensures
        opt_text(r) == header_token(opt_str(cookie)),
{
    match cookie {
        Some(cookie) => token(cookie),
        None => None,
    }
}

/// The session that a header points at.
pub open spec fn session_of(
    sessions: Map<Seq<char>, Session>,
    cookie: Option<Seq<char>>,
) -> Option<Session> {
    match header_token(cookie) {
        Some(token) => if sessions.contains_key(token) {
            Some(sessions[token])
        } else {
            None
        },
        None => None,
    }
}

/// The session a `Cookie` header points at, if any.
pub fn snapshot<'a>(sessions: &'a Sessions, cookie: Option<&str>) -> (r: Option<&'a Session>)
    ensures
        match r {
            Some(session) => session_of(sessions@, opt_str(cookie)) == Some(*session),
            None => session_of(sessions@, opt_str(cookie)) is None,
        },
{
    match read_token(cookie) {
        Some(token) => sessions.get(token.as_str()),
        None => None,
    }
}

/// Whether `cookie`'s session exists and its CSRF token matches `token`.
pub fn csrf_ok(sessions: &Sessions, cookie: Option<&str>, token: &str) -> (r: bool)
    ensures
        r == (session_of(sessions@, opt_str(cookie)) matches Some(session) && session.csrf@
            == token@),
{
    match snapshot(sessions, cookie) {
        Some(session) => same(session.csrf.as_str(), token),
        None => false,
    }
}

/// Drops the session a `Cookie` header points at, if any.
pub fn logout(sessions: &mut Sessions, cookie: Option<&str>)
    ensures
        final(sessions)@ == (match header_token(opt_str(cookie)) {
            Some(token) => old(sessions)@.remove(token),
            None => old(sessions)@,
        }),
{
    if let Some(token) = read_token(cookie) {
        let _session = sessions.remove(token.as_str());
    }
}

/// A public key reduced to its type and body.
pub open spec fn key_identity(line: Seq<char>) -> Seq<char> {
    let parts = fields_of(line);
    let kind = if parts.len() > 0 {
        parts[0]
    } else {
        seq![]
    };
    let body = if parts.len() > 1 {
        parts[1]
    } else {
        seq![]
    };
    kind + " "@ + body
}

/// A public key reduced to its type and body, dropping the comment so two lines
/// for the same key compare equal.
pub fn normalize_key(line: &str) -> (r: String)
    ensures
        r@ == key_identity(line@),
{
    let parts = fields(line);
    let ghost all = texts(parts@);
    proof {
        assert(all.len() == parts@.len());
    }
    let mut r = String::new();
    if parts.len() > 0 {
        proof {
            assert(all[0] == parts@[0]@);
        }
        r.append(parts[0].as_str());
    }
    r.append(" ");
    if parts.len() > 1 {
        proof {
            assert(all[1] == parts@[1]@);
        }
        r.append(parts[1].as_str());
    }
    proof {
        assert(r@ =~= key_identity(line@));
    }
    r
}

/// The key's type word, or `key` where there is none.
pub fn key_type(public_key: &str) -> (r: String)
    ensures
        r@ == (if fields_of(public_key@).len() > 0 {
            fields_of(public_key@)[0]
        } else {
            "key"@
        }),
{
    let parts = fields(public_key);
    proof {
        assert(texts(parts@).len() == parts@.len());
    }
    if parts.len() > 0 {
        proof {
            assert(texts(parts@)[0] == parts@[0]@);
        }
        parts[0].clone()
    } else {
        "key".to_owned()
    }
}

/// The key's trailing comment, if it carries one.
pub fn key_comment(public_key: &str) -> (r: Option<String>)
    ensures
        opt_text(r) == (if fields_of(public_key@).len() > 2 {
            Some(fields_of(public_key@)[2])
        } else {
            None
        }),
{
    let parts = fields(public_key);
    proof {
        assert(texts(parts@).len() == parts@.len());
    }
    if parts.len() > 2 {
        proof {
            assert(texts(parts@)[2] == parts@[2]@);
        }
        Some(parts[2].clone())
    } else {
        None
    }
}

/// What a session calls a key: its comment, or its type.
pub open spec fn key_label(public_key: Seq<char>) -> Seq<char> {
    let parts = fields_of(public_key);
    if parts.len() > 2 {
        parts[2]
    } else if parts.len() > 0 {
        parts[0]
    } else {
        "key"@
    }
}

/// A sign-in that awaits the verdict on its signature.
#[derive(Debug, PartialEq, Eq)]
pub struct LoginAttempt {
    /// The public key that was sent.
    pub public_key: String,
    /// The signature that was sent.
    pub signature: String,
    /// The challenge that it is a signature of.
    pub nonce: String,
}

/// Begins a sign-in: reads what was sent, and takes the challenge. A key and a
/// signature must be there, and the challenge must be live; the challenge is
/// spent either way, once both are.
pub fn login_begin(challenges: &mut Challenges, body: &[u8], now: u128) -> (r: Result<
    LoginAttempt,
    String,
>)
    ensures
        ({
            let public_key = trimmed(field_or_empty(body@, "public_key"@));
            let signature = trimmed(field_or_empty(body@, "signature"@));
            let nonce = trimmed(field_or_empty(body@, "nonce"@));
            let prior = old(challenges)@;
            if public_key.len() == 0 || signature.len() == 0 {
                &&& r matches Err(message) && message@ == "paste your public key and the signature"@
                &&& final(challenges)@ == prior
            } else {
                &&& final(challenges)@ == prior.remove(nonce)
                &&& if prior.contains_key(nonce) && live(prior[nonce], now) {
                    r matches Ok(attempt) && attempt.public_key@ == public_key
                        && attempt.signature@ == signature && attempt.nonce@ == nonce
                } else {
                    r matches Err(message) && message@
                        == "your sign-in challenge expired; reload and try again"@
                }
            }
        }),
{
    let public_key = trimmed_field(body, "public_key");
    let signature = trimmed_field(body, "signature");
    let nonce = trimmed_field(body, "nonce");
    if public_key.as_str().is_empty() || signature.as_str().is_empty() {
        return Err("paste your public key and the signature".to_owned());
    }
    if !take_challenge(challenges, nonce.as_str(), now) {
        return Err("your sign-in challenge expired; reload and try again".to_owned());
    }
    Ok(LoginAttempt { public_key, signature, nonce })
}

/// The one-key `allowed_signers` file that a sign-in is verified against.
pub fn login_signers(public_key: &str) -> (r: String)
    ensures
        r@ == "* namespaces=\""@ + LOGIN_NAMESPACE@ + "\" "@ + key_identity(public_key@) + "\n"@,
{
    let mut r = "* namespaces=\"".to_owned();
    r.append(LOGIN_NAMESPACE);
    r.append("\" ");
    r.append(normalize_key(public_key).as_str());
    r.append("\n");
    r
}

/// Ends a sign-in: a signature that was found good opens a session under
/// `token`, and any other opens none. Holding a session grants nothing on its
/// own.
pub fn login_finish(
    sessions: &mut Sessions,
    attempt: &LoginAttempt,
    verified: bool,
    token: &str,
    csrf: &str,
) -> (r: Result<(), String>)
    ensures
        r is Ok <==> verified,
        r matches Err(message) ==> message@ == "the signature did not match that public key"@,
        !verified ==> final(sessions)@ == old(sessions)@,
        verified ==> {
            &&& final(sessions)@.dom() == old(sessions)@.dom().insert(token@)
            &&& final(sessions)@[token@].public_key@ == key_identity(attempt.public_key@)
            &&& final(sessions)@[token@].label@ == key_label(attempt.public_key@)
            &&& final(sessions)@[token@].csrf@ == csrf@
            &&& forall|other: Seq<char>|
                other != token@ && old(sessions)@.contains_key(other) ==> #[trigger] final(sessions)@[other] == old(sessions)@[other]
        },
{
    if !verified {
        return Err("the signature did not match that public key".to_owned());
    }
    let public_key = attempt.public_key.as_str();
    let label = match key_comment(public_key) {
        Some(comment) => comment,
        None => key_type(public_key),
    };
    sessions.insert(
        token.to_owned(),
        Session { public_key: normalize_key(public_key), label, csrf: csrf.to_owned() },
    );
    proof {
        assert(sessions@.dom() =~= old(sessions)@.dom().insert(token@));
    }
    Ok(())
}

/// The `Set-Cookie` value that opens a session.
pub open spec fn cookie_text(token: Seq<char>, secure: bool) -> Seq<char> {
    let base = COOKIE@ + "="@ + token + "; Path=/; HttpOnly; SameSite=Lax"@;
    if secure {
        base + "; Secure"@
    } else {
        base
    }
}

/// The `Set-Cookie` value that opens a session, marked `Secure` over HTTPS.
pub fn session_cookie(token: &str, secure: bool) -> (r: String)
    ensures
        r@ == cookie_text(token@, secure),
{
    let mut r = COOKIE.to_owned();
    r.append("=");
    r.append(token);
    r.append("; Path=/; HttpOnly; SameSite=Lax");
    if secure {
        r.append("; Secure");
    }
    r
}

/// The `Set-Cookie` value that clears a session.
pub fn cleared_cookie(secure: bool) -> (r: String)
    ensures
        r@ == (if secure {
            COOKIE@ + "=; Path=/; Max-Age=0; HttpOnly; SameSite=Lax"@ + "; Secure"@
        } else {
            COOKIE@ + "=; Path=/; Max-Age=0; HttpOnly; SameSite=Lax"@
        }),
{
    let mut r = COOKIE.to_owned();
    r.append("=; Path=/; Max-Age=0; HttpOnly; SameSite=Lax");
    if secure {
        r.append("; Secure");
    }
    r
}

/// Whether the request reached us over HTTPS, as its `X-Forwarded-Proto` header
/// says.
pub fn is_secure_request(forwarded_proto: Option<&str>) -> (r: bool)
    ensures
        r == (forwarded_proto matches Some(proto) && crate::text::lowered(proto@)
            == crate::text::lowered("https"@)),
{
    match forwarded_proto {
        Some(proto) => crate::text::same_ignoring_case(proto, "https"),
        None => false,
    }
}

/// Trimming leaves a text alone that neither begins nor ends with white space.
pub proof fn lemma_trimmed_plain(s: Seq<char>)
    requires
        s.len() > 0,
        !is_white(s[0]),
        !is_white(s.last()),
    ensures
        trimmed(s) == s,
{
}

/// Whether a token may stand in a cookie: letters and digits.
pub open spec fn plain_token(token: Seq<char>) -> bool {
    &&& token.len() > 0
    &&& forall|i: int| 0 <= i < token.len() ==> crate::text::is_alphanumeric(#[trigger] token[i])
}

/// The token that a session's cookie carries is read back from a header that
/// sends the cookie alone.
pub proof fn law_cookie_carries_its_token(token: Seq<char>)
    requires
        plain_token(token),
    ensures
        token_of(COOKIE@ + "="@ + token) == Some(token),
{
    reveal_strlit("ents_session");
    reveal_strlit("=");
    let name = COOKIE@;
    let pair = name + "="@ + token;
    assert forall|j: int| 0 <= j < pair.len() implies pair[j] != ';' by {
        if j > name.len() {
            assert(pair[j] == token[j - name.len() - 1]);
            assert(crate::text::is_alphanumeric(token[j - name.len() - 1]));
        }
    }
    lemma_index_of_is(pair, ';', pair.len() as int);
    let parts = split_on(pair, ';');
    assert(parts =~= seq![pair]);
    assert(pair.last() == token.last());
    assert(crate::text::is_alphanumeric(token[token.len() - 1]));
    assert(!is_white(pair[0]));
    lemma_trimmed_plain(pair);
    assert forall|j: int| 0 <= j < name.len() implies pair[j] != '=' by {
        assert(pair[j] == name[j]);
    }
    lemma_index_of_is(pair, '=', name.len() as int);
    assert(pair.take(name.len() as int) =~= name);
    assert(pair.skip(1 + name.len() as int) =~= token);
    let p = |p: Seq<char>| cookie_token(p) is Some;
    lemma_first_where_is(parts, p, 0);
}

/// Only a request that holds the session's own CSRF token is taken to come from
/// the session's owner; without a session none is.
pub proof fn law_no_session_no_csrf(sessions: Map<Seq<char>, Session>, cookie: Option<Seq<char>>)
    requires
        session_of(sessions, cookie) is Some,
    ensures
        header_token(cookie) is Some,
        session_of(sessions.remove(header_token(cookie)->0), cookie) is None,
{
}

/// A key is the same key whatever comment it carries.
pub proof fn law_comment_is_no_part_of_a_key(kind: Seq<char>, body: Seq<char>, comment: Seq<char>)
    requires
        plain_word(kind),
        plain_word(body),
        plain_word(comment),
    ensures
        key_identity(kind + " "@ + body + " "@ + comment) == kind + " "@ + body,
        key_identity(kind + " "@ + body) == kind + " "@ + body,
{
    reveal_strlit(" ");
    let tail = body + seq![' '] + comment;
    lemma_first_field(kind, tail);
    lemma_first_field(body, comment);
    lemma_last_field(comment);
    lemma_last_field(body);
    lemma_first_field(kind, body);
    assert(kind + " "@ + body + " "@ + comment =~= kind + seq![' '] + tail);
    assert(kind + " "@ + body =~= kind + seq![' '] + body);
    assert(fields_of(kind + seq![' '] + tail) =~= seq![kind, body, comment]);
    assert(fields_of(kind + seq![' '] + body) =~= seq![kind, body]);
}

/// A word: not empty, and without white space.
pub open spec fn plain_word(s: Seq<char>) -> bool {
    &&& s.len() > 0
    &&& forall|i: int| 0 <= i < s.len() ==> !is_white(#[trigger] s[i])
}

proof fn lemma_white_at_is(s: Seq<char>, i: int)
    requires
        0 <= i <= s.len(),
        forall|j: int| 0 <= j < i ==> !is_white(#[trigger] s[j]),
        i < s.len() ==> is_white(s[i]),
    ensures
        crate::text::white_at(s) == i,
{
    crate::text::lemma_white_at(s);
    let k = crate::text::white_at(s);
    if k < i {
        assert(!is_white(s[k]));
    }
}

/// The first word of a line is its first field.
pub proof fn lemma_first_field(word: Seq<char>, rest: Seq<char>)
    requires
        plain_word(word),
    ensures
        fields_of(word + seq![' '] + rest) == seq![word] + fields_of(rest),
{
    let s = word + seq![' '] + rest;
    assert(!is_white(word[0]));
    assert(s[0] == word[0]);
    assert forall|j: int| 0 <= j < word.len() implies !is_white(#[trigger] s[j]) by {
        assert(s[j] == word[j]);
    }
    lemma_white_at_is(s, word.len() as int);
    assert(s.take(word.len() as int) =~= word);
    let after = s.skip(word.len() as int);
    assert(after =~= seq![' '] + rest);
    assert(after.skip(1) =~= rest);
    assert(crate::text::trimmed_start(after) == crate::text::trimmed_start(rest));
    lemma_fields_of_trimmed(after, rest);
}

/// Fields depend on what is left after the leading white space alone.
proof fn lemma_fields_of_trimmed(a: Seq<char>, b: Seq<char>)
    requires
        crate::text::trimmed_start(a) == crate::text::trimmed_start(b),
    ensures
        fields_of(a) == fields_of(b),
{
    crate::text::lemma_trimmed_start(a);
    crate::text::lemma_trimmed_start(b);
}

/// A word alone is its only field.
pub proof fn lemma_last_field(word: Seq<char>)
    requires
        plain_word(word),
    ensures
        fields_of(word) == seq![word],
{
    assert(!is_white(word[0]));
    lemma_white_at_is(word, word.len() as int);
    assert(word.take(word.len() as int) =~= word);
    assert(word.skip(word.len() as int) =~= seq![]);
    assert(fields_of(Seq::<char>::empty()) =~= seq![]);
    assert(fields_of(word) =~= seq![word]);
}

/// Law: a sign-in is signed under a namespace of its own, so its signature is
/// never one that a push is signed with, nor the other way round.
pub proof fn law_sign_in_is_no_push()
    ensures
        LOGIN_NAMESPACE@ != GIT_SIGN_NAMESPACE@,
{
    reveal_strlit("git-ents-login");
    reveal_strlit("git");
    assert("git-ents-login"@.len() != "git"@.len());
}

/// Law: a challenge can be answered for ten minutes after it was issued.
pub proof fn law_challenge_lives_ten_minutes(issued: u128, now: u128)
    ensures
        live(issued, now) <==> now < issued + 600_000_000_000,
{
}

/// Law: issuing a challenge forgets those that have run out, and no others.
pub proof fn law_only_stale_challenges_are_dropped(
    challenges: Map<Seq<char>, u128>,
    nonce: Seq<char>,
    other: Seq<char>,
    now: u128,
)
    requires
        other != nonce,
    ensures
        challenged(challenges, nonce, now)[nonce] == now,
        challenged(challenges, nonce, now).contains_key(other) <==> challenges.contains_key(other)
            && now < challenges[other] + 600_000_000_000,
        challenged(challenges, nonce, now).contains_key(other) ==> challenged(
            challenges,
            nonce,
            now,
        )[other] == challenges[other],
{
}

/// Law: the session's cookie is found whatever cookies stand before and after it,
/// as long as none before it is one.
pub proof fn law_session_cookie_is_found(before: Seq<char>, token: Seq<char>, after: Seq<char>)
    requires
        token_of(before) is None,
        plain_token(token),
    ensures
        token_of(before + "; ents_session="@ + token) == Some(token),
        token_of(before + "; ents_session="@ + token + ";"@ + after) == Some(token),
        token_of("ents_session="@ + token + ";"@ + after) == Some(token),
{
    reveal_strlit("; ents_session=");
    reveal_strlit(" ents_session=");
    reveal_strlit("ents_session=");
    reveal_strlit("ents_session");
    reveal_strlit("=");
    reveal_strlit(";");
    let p = |p: Seq<char>| cookie_token(p) is Some;
    let bare = "ents_session="@ + token;
    let led = " ents_session="@ + token;
    law_cookie_carries_its_token(token);
    assert(bare =~= COOKIE@ + "="@ + token);
    assert forall|j: int| 0 <= j < bare.len() implies bare[j] != ';' by {
        if j >= 13 {
            assert(bare[j] == token[j - 13]);
            assert(crate::text::is_alphanumeric(token[j - 13]));
        }
    }
    assert forall|j: int| 0 <= j < led.len() implies led[j] != ';' by {
        if j >= 14 {
            assert(led[j] == token[j - 14]);
            assert(crate::text::is_alphanumeric(token[j - 14]));
        }
    }
    lemma_split_front(bare, ';', seq![]);
    lemma_split_front(led, ';', seq![]);
    assert(split_on(bare, ';') == seq![bare]);
    crate::seqs::lemma_first_where(seq![bare], p);
    assert(cookie_token(bare) == Some(token));
    assert(led.skip(1) =~= bare);
    assert(trimmed(led) == trimmed(bare)) by {
        assert(led[0] == ' ');
        assert(crate::text::trimmed_start(led) == crate::text::trimmed_start(led.skip(1)));
    }
    assert(cookie_token(led) == Some(token));
    let parts = split_on(before, ';');
    crate::seqs::lemma_first_where(parts, p);
    assert(before + "; ents_session="@ + token =~= before + seq![';'] + led);
    lemma_split_concat(before, ';', led);
    let whole = parts + seq![led];
    assert forall|j: int| 0 <= j < parts.len() implies !p(#[trigger] whole[j]) by {
        assert(whole[j] == parts[j]);
        assert(!p(parts[j]));
    }
    lemma_first_where_is(whole, p, parts.len() as int);
    assert(before + "; ents_session="@ + token + ";"@ + after =~= before + seq![';'] + (led + seq![
        ';',
    ] + after));
    lemma_split_front(led, ';', after);
    lemma_split_concat(before, ';', led + seq![';'] + after);
    let longer = parts + (seq![led] + split_on(after, ';'));
    assert forall|j: int| 0 <= j < parts.len() implies !p(#[trigger] longer[j]) by {
        assert(longer[j] == parts[j]);
        assert(!p(parts[j]));
    }
    assert(longer[parts.len() as int] == led);
    lemma_first_where_is(longer, p, parts.len() as int);
    assert("ents_session="@ + token + ";"@ + after =~= bare + seq![';'] + after);
    lemma_split_front(bare, ';', after);
    lemma_first_where_is(seq![bare] + split_on(after, ';'), p, 0);
}

/// Law: what a browser is told to keep is the session's token, and it is told to
/// keep it from scripts and from other sites, and from plain connections where
/// this one is secure.
pub proof fn law_cookie_is_kept_close(token: Seq<char>, secure: bool)
    requires
        plain_token(token),
    ensures
        split_on(cookie_text(token, secure), ';') == seq![
            "ents_session="@ + token,
            " Path=/"@,
            " HttpOnly"@,
            " SameSite=Lax"@,
        ] + (if secure {
            seq![" Secure"@]
        } else {
            seq![]
        }),
        token_of(cookie_text(token, secure)) == Some(token),
{
    reveal_strlit("ents_session=");
    reveal_strlit("ents_session");
    reveal_strlit("=");
    reveal_strlit(" Path=/");
    reveal_strlit(" HttpOnly");
    reveal_strlit(" SameSite=Lax");
    reveal_strlit(" Secure");
    reveal_strlit("; Path=/; HttpOnly; SameSite=Lax");
    reveal_strlit("; Secure");
    let bare = "ents_session="@ + token;
    assert forall|j: int| 0 <= j < bare.len() implies bare[j] != ';' by {
        if j >= 13 {
            assert(bare[j] == token[j - 13]);
            assert(crate::text::is_alphanumeric(token[j - 13]));
        }
    }
    let lax = if secure {
        " SameSite=Lax"@ + seq![';'] + " Secure"@
    } else {
        " SameSite=Lax"@
    };
    let after = " Path=/"@ + seq![';'] + (" HttpOnly"@ + seq![';'] + lax);
    assert(cookie_text(token, secure) =~= bare + seq![';'] + after);
    lemma_split_front(bare, ';', after);
    lemma_split_front(" Path=/"@, ';', " HttpOnly"@ + seq![';'] + lax);
    lemma_split_front(" HttpOnly"@, ';', lax);
    lemma_split_front(" SameSite=Lax"@, ';', " Secure"@);
    lemma_split_front(" Secure"@, ';', seq![]);
    let all = split_on(cookie_text(token, secure), ';');
    assert(all =~= seq![bare, " Path=/"@, " HttpOnly"@, " SameSite=Lax"@] + (if secure {
        seq![" Secure"@]
    } else {
        seq![]
    }));
    reveal_strlit(";");
    let none: Seq<char> = seq![];
    assert(token_of(none) is None) by {
        let p = |p: Seq<char>| cookie_token(p) is Some;
        lemma_split_front(none, ';', none);
        assert(trimmed(none) =~= none);
        lemma_index_of_is(none, '=', 0);
        assert(cookie_token(none) is None);
        lemma_first_where_is(seq![none], p, 1);
    }
    law_session_cookie_is_found(none, token, after);
    assert(bare + ";"@ + after =~= cookie_text(token, secure));
}

/// Law: a key is shown by its comment, or by its type where it has none.
pub proof fn law_key_is_labelled(kind: Seq<char>, body: Seq<char>, comment: Seq<char>)
    requires
        plain_word(kind),
        plain_word(body),
        plain_word(comment),
    ensures
        key_label(kind + " "@ + body + " "@ + comment) == comment,
        key_label(kind + " "@ + body) == kind,
        key_label(seq![]) == "key"@,
{
    let three = seq![kind, body, comment];
    let two = seq![kind, body];
    assert forall|i: int| 0 <= i < three.len() implies is_word(#[trigger] three[i]) by {}
    assert forall|i: int| 0 <= i < two.len() implies is_word(#[trigger] two[i]) by {}
    law_fields_undo_join(three);
    law_fields_undo_join(two);
    reveal_with_fuel(joined, 4);
    assert(three.drop_last() =~= two);
    assert(two.drop_last() =~= seq![kind]);
    assert(seq![kind].drop_last() =~= seq![]);
    assert(joined(two, " "@) =~= kind + " "@ + body);
    assert(joined(three, " "@) =~= kind + " "@ + body + " "@ + comment);
}

/// Law: a session belongs to the cookie that names it, and to no other.
pub proof fn law_session_is_by_its_token(sessions: Map<Seq<char>, Session>, token: Seq<char>)
    requires
        plain_token(token),
    ensures
        session_of(sessions, Some("ents_session="@ + token)) == (if sessions.contains_key(token) {
            Some(sessions[token])
        } else {
            None
        }),
        session_of(sessions, None) is None,
{
    reveal_strlit("ents_session=");
    reveal_strlit("ents_session");
    reveal_strlit("=");
    law_cookie_carries_its_token(token);
    assert("ents_session="@ + token =~= COOKIE@ + "="@ + token);
}

} // verus!
