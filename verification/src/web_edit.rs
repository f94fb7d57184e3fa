//! Browser edits: who may make one, what a form asks for, and how it is landed
//! as a signed push that the `pre-receive` gate judges like any other.

use vstd::prelude::*;

use crate::bytes::{decoded, from_utf8_lossy};
use crate::config::ConfigEdit;
use crate::forms::{field_or_default, field_or_empty, trimmed_field};
use crate::members::{debug_form, debug_text, Member, Provenance, Trust};
use crate::seqs::{first_where, lemma_first_where, lemma_first_where_is};
use crate::server::AppState;
use crate::sessions::{
    csrf_ok, key_identity, normalize_key, opt_str, session_of, snapshot, Session, Sessions,
};
use crate::text::{
    after_prefix, decimal, halves, is_digit, is_white, lemma_decimal_round_trip, lemma_index_of_is,
    lines, lines_of, opt_text, parse_decimal, parsed_decimal, push_decimal, same, split, split_on,
    split_once, starts, strip_prefix, texts, trim, trim_nonempty, trimmed, trimmed_nonempty,
};

verus! {

/// Whether a member holds a key, whatever comment it carries.
pub open spec fn holds_key(member: Member, wanted: Seq<char>) -> bool {
    exists|i: int|
        0 <= i < member.leaf_keys().len() && key_identity((#[trigger] member.leaf_keys()[i]).1@)
            == wanted
}

fn member_holds(member: &Member, wanted: &str) -> (r: bool)
    ensures
        r == holds_key(*member, wanted@),
{
    let keys = member.keys();
    let ghost view = |p: (&String, &String)| (p.0@, *p.1);
    let mut i: usize = 0;
    while i < keys.len()
        invariant
            i <= keys@.len(),
            view == (|p: (&String, &String)| (p.0@, *p.1)),
            keys@.map_values(view) == member.leaf_keys(),
            forall|j: int|
                0 <= j < i ==> key_identity((#[trigger] member.leaf_keys()[j]).1@) != wanted@,
        decreases keys@.len() - i,
    {
        proof {
            assert(keys@.map_values(view)[i as int] == (keys@[i as int].0@, *keys@[i as int].1));
        }
        let theirs = normalize_key(keys[i].1.as_str());
        if same(theirs.as_str(), wanted) {
            proof {
                assert(key_identity(member.leaf_keys()[i as int].1@) == wanted@);
            }
            return true;
        }
        i += 1;
    }
    proof {
        assert(keys@.map_values(view).len() == keys@.len());
    }
    false
}

/// The first member that holds a key.
pub open spec fn key_owner(members: Seq<Member>, public_key: Seq<char>) -> Option<Member> {
    let i = first_where(members, |m: Member| holds_key(m, key_identity(public_key)));
    if i < members.len() {
        Some(members[i])
    } else {
        None
    }
}

/// The first member that holds a key.
fn find_owner<'a>(members: &'a [Member], public_key: &str) -> (r: Option<&'a Member>)
    ensures
        match r {
            Some(member) => key_owner(members@, public_key@) == Some(*member),
            None => key_owner(members@, public_key@) is None,
        },
{
    let wanted = normalize_key(public_key);
    let ghost p = |m: Member| holds_key(m, key_identity(public_key@));
    let mut i: usize = 0;
    while i < members.len()
        invariant
            i <= members@.len(),
            wanted@ == key_identity(public_key@),
            p == (|m: Member| holds_key(m, key_identity(public_key@))),
            forall|j: int| 0 <= j < i ==> !p(#[trigger] members@[j]),
        decreases members@.len() - i,
    {
        if member_holds(&members[i], wanted.as_str()) {
            proof {
                lemma_first_where_is(members@, p, i as int);
            }
            return Some(&members[i]);
        }
        i += 1;
    }
    proof {
        lemma_first_where_is(members@, p, i as int);
    }
    None
}

/// The username of the member whose key matches `public_key`, if any. The match
/// is on the key type and body, ignoring any trailing comment.
pub fn member_for_public_key(members: &[Member], public_key: &str) -> (r: Option<String>)
    ensures
        opt_text(r) == (match key_owner(members@, public_key@) {
            Some(member) => Some(member.principal@),
            None => None,
        }),
{
    match find_owner(members, public_key) {
        Some(member) => Some(member.principal.clone()),
        None => None,
    }
}

/// Who a repository's edit is by: the member whose key the session proved, or
/// why there is none. A member who only attested themselves through the web is
/// trusted with no edit until an admin promotes them.
pub fn edit_author(sessions: &Sessions, cookie: Option<&str>, members: &[Member]) -> (r: Result<
    String,
    &'static str,
>)
    ensures
        match session_of(sessions@, opt_str(cookie)) {
            None => r matches Err(message) && message@ == "sign in to edit settings"@,
            Some(session) => match key_owner(members@, session.public_key@) {
                None => r matches Err(message) && message@
                    == "your web key is not a member of this repository"@,
                Some(member) => if member.provenance is SelfAttestedWeb {
                    r matches Err(message) && message@
                        == "a self-attested member cannot edit until an admin promotes them"@
                } else {
                    r matches Ok(name) && name@ == member.principal@
                },
            },
        },
{
    match snapshot(sessions, cookie) {
        None => Err("sign in to edit settings"),
        Some(session) => match find_owner(members, session.public_key.as_str()) {
            None => Err("your web key is not a member of this repository"),
            Some(member) => match member.provenance {
                Provenance::SelfAttestedWeb => Err(
                    "a self-attested member cannot edit until an admin promotes them",
                ),
                Provenance::AdminRegistered => Ok(member.principal.clone()),
            },
        },
    }
}

/// A key's owner is a member that holds it, and no member with another kind of
/// trust than pinned keys ever owns one.
pub proof fn law_owner_holds_the_key(members: Seq<Member>, public_key: Seq<char>)
    requires
        key_owner(members, public_key) is Some,
    ensures
        members.contains(key_owner(members, public_key)->0),
        holds_key(key_owner(members, public_key)->0, key_identity(public_key)),
        key_owner(members, public_key)->0.trust is Keys,
{
    let p = |m: Member| holds_key(m, key_identity(public_key));
    lemma_first_where(members, p);
    assert(p(key_owner(members, public_key)->0));
}

/// Two texts of one key, whatever comments they carry, have the same owner.
pub proof fn law_owner_ignores_the_comment(
    members: Seq<Member>,
    one: Seq<char>,
    other: Seq<char>,
)
    requires
        key_identity(one) == key_identity(other),
    ensures
        key_owner(members, one) == key_owner(members, other),
{
    assert((|m: Member| holds_key(m, key_identity(one))) =~= (|m: Member|
        holds_key(m, key_identity(other))));
}

/// The value of the first line that, trimmed, begins with `prefix`.
pub open spec fn first_after(text: Seq<char>, prefix: Seq<char>) -> Option<Seq<char>> {
    let all = lines_of(text);
    let i = first_where(all, |line: Seq<char>| after_prefix(trimmed(line), prefix) is Some);
    if i < all.len() {
        after_prefix(trimmed(all[i]), prefix)
    } else {
        None
    }
}

fn find_after(text: &str, prefix: &str) -> (r: Option<String>)
    ensures
        opt_text(r) == first_after(text@, prefix@),
{
    let all = lines(text);
    let ghost seen = texts(all@);
    let ghost p = |line: Seq<char>| after_prefix(trimmed(line), prefix@) is Some;
    let mut i: usize = 0;
    while i < all.len()
        invariant
            i <= all@.len(),
            seen == texts(all@),
            seen == lines_of(text@),
            p == (|line: Seq<char>| after_prefix(trimmed(line), prefix@) is Some),
            forall|j: int| 0 <= j < i ==> !p(#[trigger] seen[j]),
        decreases all@.len() - i,
    {
        proof {
            assert(seen[i as int] == all@[i as int]@);
        }
        let line = trim(all[i].as_str());
        if let Some(rest) = strip_prefix(line.as_str(), prefix) {
            proof {
                lemma_first_where_is(seen, p, i as int);
            }
            return Some(rest.to_owned());
        }
        i += 1;
    }
    proof {
        lemma_first_where_is(seen, p, i as int);
    }
    None
}

/// Why a push was refused, as git's standard error tells.
pub open spec fn refusal_reason(text: Seq<char>) -> Seq<char> {
    match first_after(text, "remote: error: "@) {
        Some(reason) => reason,
        None => match first_after(text, "remote: "@) {
            Some(reason) => if reason.len() > 0 {
                reason
            } else {
                "the push was rejected"@
            },
            None => "the push was rejected"@,
        },
    }
}

/// The pre-receive rejection reason from git's stderr, or a generic message.
pub fn push_error(stderr: &[u8]) -> (r: String)
    ensures
        r@ == refusal_reason(decoded(stderr@)),
{
    let text = from_utf8_lossy(stderr);
    if let Some(reason) = find_after(text.as_str(), "remote: error: ") {
        return reason;
    }
    if let Some(reason) = find_after(text.as_str(), "remote: ") {
        if !reason.as_str().is_empty() {
            return reason;
        }
    }
    "the push was rejected".to_owned()
}

/// Whether this server can actually land browser edits: it needs the
/// signed-push gate (nonce seed and hooks) and its own signing key. When any is
/// unset, edit controls are not offered.
pub fn editing_enabled(state: &AppState) -> (r: bool)
    ensures
        r == (state.cert_nonce_seed is Some && state.hooks_dir is Some && state.web_signing_key
            is Some),
{
    state.cert_nonce_seed.is_some() && state.hooks_dir.is_some() && state.web_signing_key.is_some()
}

/// The names that a comma-separated list holds.
pub open spec fn listed_names(list: Seq<char>) -> Seq<Seq<char>> {
    trimmed_nonempty(split_on(list, ','))
}

/// The names in a comma-separated list, trimmed, those left out that are empty.
pub fn split_names(list: &str) -> (r: Vec<String>)
    ensures
        texts(r@) == listed_names(list@),
{
    trim_nonempty(&split(list, ','))
}

/// Whether a form post comes from the owner of its session.
pub open spec fn own_post(
    sessions: Map<Seq<char>, Session>,
    cookie: Option<Seq<char>>,
    body: Seq<u8>,
) -> bool {
    session_of(sessions, cookie) matches Some(session) && session.csrf@ == field_or_empty(
        body,
        "csrf"@,
    )
}

/// Whether a form post comes from the owner of its session.
pub fn is_own_post(sessions: &Sessions, cookie: Option<&str>, body: &[u8]) -> (r: bool)
    ensures
        r == own_post(sessions@, opt_str(cookie), body@),
{
    let given = field_or_default(body, "csrf");
    csrf_ok(sessions, cookie, given.as_str())
}

/// Reads a settings edit from a form post, or says why it is refused: editing
/// must be on, and the post must come from the session's own page.
pub fn save_settings(
    state: &AppState,
    sessions: &Sessions,
    cookie: Option<&str>,
    body: &[u8],
) -> (r: Result<ConfigEdit, &'static str>)
    ensures
        if !(state.cert_nonce_seed is Some && state.hooks_dir is Some && state.web_signing_key
            is Some) {
            r matches Err(message) && message@
                == "Editing is disabled: this server has no web signing key or signed-push gate."@
        } else if !own_post(sessions@, opt_str(cookie), body@) {
            r matches Err(message) && message@
                == "the edit could not be verified; reload and try again"@
        } else {
            r matches Ok(edit) && edit.description@ == field_or_empty(body@, "description"@)
                && edit.homepage@ == field_or_empty(body@, "homepage"@) && texts(edit.topics@)
                == listed_names(field_or_empty(body@, "topics"@))
        },
{
    if !editing_enabled(state) {
        return Err(
            "Editing is disabled: this server has no web signing key or signed-push gate.",
        );
    }
    if !is_own_post(sessions, cookie, body) {
        return Err("the edit could not be verified; reload and try again");
    }
    let topics = field_or_default(body, "topics");
    Ok(
        ConfigEdit {
            description: field_or_default(body, "description"),
            homepage: field_or_default(body, "homepage"),
            topics: split_names(topics.as_str()),
        },
    )
}

/// A range of lines, 1-based and inclusive.
#[derive(Debug, Clone, Copy, PartialEq, Eq, Structural)]
pub struct LineRange {
    /// The first line.
    pub start: u64,
    /// The last line.
    pub end: u64,
}

/// What a line range may be read from: `<start>[:<end>]`.
pub open spec fn range_parts(lines: Seq<char>) -> (Seq<char>, Seq<char>) {
    match halves(lines, ':') {
        Some((start, end)) => (start, end),
        None => (lines, lines),
    }
}

/// The number that a line is given by.
pub open spec fn line_number(number: Seq<char>) -> Option<nat> {
    parsed_decimal(trimmed(number), u64::MAX as nat)
}

/// The message for a line number that is none.
pub open spec fn bad_number(number: Seq<char>) -> Seq<char> {
    "invalid line number "@ + debug_form(number) + " in --lines"@
}

/// The message for a range that ends before it begins.
pub open spec fn bad_range(start: nat, end: nat) -> Seq<char> {
    "--lines "@ + decimal(start) + ":"@ + decimal(end)
        + " is inverted (start must not come after end)"@
}

/// Why a text is no range of lines, or `None` where it is one.
pub open spec fn range_refusal(text: Seq<char>) -> Option<Seq<char>> {
    let (start, end) = range_parts(text);
    match (line_number(start), line_number(end)) {
        (None, _) => Some(bad_number(start)),
        (Some(_), None) => Some(bad_number(end)),
        (Some(a), Some(b)) => if a > b {
            Some(bad_range(a, b))
        } else {
            None
        },
    }
}

/// Whether a range is the one that a text names.
pub open spec fn is_range_of(range: LineRange, text: Seq<char>) -> bool {
    Some(range.start as nat) == line_number(range_parts(text).0) && Some(range.end as nat)
        == line_number(range_parts(text).1)
}

fn parse_number(number: &str) -> (r: Result<u64, String>)
    ensures
        match r {
            Ok(n) => line_number(number@) == Some(n as nat),
            Err(message) => line_number(number@) is None && message@ == bad_number(number@),
        },
{
    let text = trim(number);
    match parse_decimal(text.as_str(), u64::MAX) {
        Some(n) => Ok(n),
        None => {
            let mut message = "invalid line number ".to_owned();
            message.append(debug_text(number).as_str());
            message.append(" in --lines");
            Err(message)
        },
    }
}

/// Reads a range of lines as `<start>[:<end>]`, 1-based inclusive; a bare
/// `<start>` is that single line.
pub fn parse_lines(lines: Option<&str>) -> (r: Result<Option<LineRange>, String>)
    ensures
        match lines {
            None => r == Ok::<Option<LineRange>, String>(None),
            Some(text) => match range_refusal(text@) {
                Some(reason) => r matches Err(message) && message@ == reason,
                None => r matches Ok(Some(range)) && is_range_of(range, text@),
            },
        },
{
    let text = match lines {
        Some(text) => text,
        None => {
            return Ok(None);
        },
    };
    let (first, last) = match split_once(text, ':') {
        Some((first, last)) => (first, last),
        None => (text.to_owned(), text.to_owned()),
    };
    let start: u64 = match parse_number(first.as_str()) {
        Ok(n) => n,
        Err(message) => {
            return Err(message);
        },
    };
    let end: u64 = match parse_number(last.as_str()) {
        Ok(n) => n,
        Err(message) => {
            return Err(message);
        },
    };
    if start > end {
        let mut message = "--lines ".to_owned();
        push_decimal(&mut message, start);
        message.append(":");
        push_decimal(&mut message, end);
        message.append(" is inverted (start must not come after end)");
        return Err(message);
    }
    Ok(Some(LineRange { start, end }))
}

/// A comment posted from a file view.
#[derive(Debug, PartialEq, Eq)]
pub struct CommentEdit {
    /// The file.
    pub path: String,
    /// The lines, or the whole file.
    pub lines: Option<LineRange>,
    /// The comment's text.
    pub body: String,
}

/// The page that a comment was posted from.
pub fn comment_back(rel: &str, body: &[u8]) -> (r: String)
    ensures
        r@ == "/"@ + rel@ + "/blob/"@ + field_or_empty(body@, "path"@),
{
    let mut back = "/".to_owned();
    back.append(rel);
    back.append("/blob/");
    back.append(field_or_default(body, "path").as_str());
    back
}

/// The lines that a form post names: none where the field is empty.
pub open spec fn posted_lines(body: Seq<u8>) -> Option<Seq<char>> {
    let text = field_or_empty(body, "lines"@);
    if trimmed(text).len() == 0 {
        None
    } else {
        Some(text)
    }
}

/// Reads a comment from a form post, or says why it is refused: editing must be
/// on, the post must come from the session's own page, the lines must be a
/// range, and there must be a file and a text.
pub fn save_comment(
    state: &AppState,
    sessions: &Sessions,
    cookie: Option<&str>,
    body: &[u8],
) -> (r: Result<CommentEdit, String>)
    ensures
        ({
            let path = field_or_empty(body@, "path"@);
            let text = trimmed(field_or_empty(body@, "body"@));
            let lines = posted_lines(body@);
            if !(state.cert_nonce_seed is Some && state.hooks_dir is Some && state.web_signing_key
                is Some) {
                r matches Err(message) && message@
                    == "Editing is disabled: this server has no web signing key or signed-push gate."@
            } else if !own_post(sessions@, opt_str(cookie), body@) {
                r matches Err(message) && message@
                    == "the comment could not be verified; reload and try again"@
            } else if lines is Some && range_refusal(lines->0) is Some {
                r matches Err(message) && message@ == range_refusal(lines->0)->0
            } else if path.len() == 0 || text.len() == 0 {
                r matches Err(message) && message@ == "a comment needs a file path and a body"@
            } else {
                r matches Ok(edit) && edit.path@ == path && edit.body@ == text && match lines {
                    None => edit.lines is None,
                    Some(text) => edit.lines matches Some(range) && is_range_of(range, text),
                }
            }
        }),
{
    if !editing_enabled(state) {
        return Err(
            "Editing is disabled: this server has no web signing key or signed-push gate.".to_owned(),
        );
    }
    if !is_own_post(sessions, cookie, body) {
        return Err("the comment could not be verified; reload and try again".to_owned());
    }
    let lines_text = field_or_default(body, "lines");
    let blank = trim(lines_text.as_str());
    let given = if blank.as_str().is_empty() {
        None
    } else {
        Some(lines_text.as_str())
    };
    let lines = match parse_lines(given) {
        Ok(lines) => lines,
        Err(message) => {
            return Err(message);
        },
    };
    let path = field_or_default(body, "path");
    let text = trimmed_field(body, "body");
    if path.as_str().is_empty() || text.as_str().is_empty() {
        return Err("a comment needs a file path and a body".to_owned());
    }
    Ok(CommentEdit { path, lines, body: text })
}

/// The throwaway ref that an edit is staged on.
pub fn staging_ref(token: &str) -> (r: String)
    ensures
        r@ == "refs/web-staging/"@ + token@,
{
    let mut r = "refs/web-staging/".to_owned();
    r.append(token);
    r
}

/// The address that an edit's author is given.
pub fn author_email(username: &str) -> (r: String)
    ensures
        r@ == username@ + "@web"@,
{
    let mut r = username.to_owned();
    r.append("@web");
    r
}

/// The receive-pack command that an edit is pushed through: the server's nonce
/// seed, its slop and its hooks are all in force.
pub open spec fn receive_pack_command(seed: Seq<char>, hooks: Seq<char>) -> Seq<char> {
    "git -c receive.certNonceSeed="@ + seed
        + " -c receive.certNonceSlop=60 -c core.hooksPath="@ + hooks + " receive-pack"@
}

/// The arguments of the signed push that lands an edit staged on `staging` onto
/// `target`, signed with the server's own key.
pub fn push_args(
    repo: &str,
    staging: &str,
    target: &str,
    signing_key: &str,
    seed: &str,
    hooks: &str,
) -> (r: Vec<String>)
    ensures
        texts(r@) == seq![
            "-C"@,
            repo@,
            "-c"@,
            "gpg.format=ssh"@,
            "-c"@,
            "user.signingkey="@ + signing_key@,
            "-c"@,
            "user.name=git-ents-web"@,
            "-c"@,
            "user.email=web@git-ents"@,
            "push"@,
            "--signed"@,
            "--receive-pack="@ + receive_pack_command(seed@, hooks@),
            "file://"@ + repo@,
            staging@ + ":"@ + target@,
        ],
{
    let mut key = "user.signingkey=".to_owned();
    key.append(signing_key);
    let mut command = "git -c receive.certNonceSeed=".to_owned();
    command.append(seed);
    command.append(" -c receive.certNonceSlop=60 -c core.hooksPath=");
    command.append(hooks);
    command.append(" receive-pack");
    let mut receive_pack = "--receive-pack=".to_owned();
    receive_pack.append(command.as_str());
    let mut url = "file://".to_owned();
    url.append(repo);
    let mut refspec = staging.to_owned();
    refspec.append(":");
    refspec.append(target);
    let mut r: Vec<String> = Vec::new();
    r.push("-C".to_owned());
    r.push(repo.to_owned());
    r.push("-c".to_owned());
    r.push("gpg.format=ssh".to_owned());
    r.push("-c".to_owned());
    r.push(key);
    r.push("-c".to_owned());
    r.push("user.name=git-ents-web".to_owned());
    r.push("-c".to_owned());
    r.push("user.email=web@git-ents".to_owned());
    r.push("push".to_owned());
    r.push("--signed".to_owned());
    r.push(receive_pack);
    r.push(url);
    r.push(refspec);
    proof {
        assert(texts(r@) =~= seq![
            "-C"@,
            repo@,
            "-c"@,
            "gpg.format=ssh"@,
            "-c"@,
            "user.signingkey="@ + signing_key@,
            "-c"@,
            "user.name=git-ents-web"@,
            "-c"@,
            "user.email=web@git-ents"@,
            "push"@,
            "--signed"@,
            "--receive-pack="@ + receive_pack_command(seed@, hooks@),
            "file://"@ + repo@,
            staging@ + ":"@ + target@,
        ]);
    }
    r
}

/// Law: a range of lines is read as the two numbers it writes, or the one number
/// for both, and is refused exactly where it ends before it begins.
pub proof fn law_line_range_is_read(a: u64, b: u64)
    ensures
        range_parts(decimal(a as nat) + ":"@ + decimal(b as nat)) == (
            decimal(a as nat),
            decimal(b as nat),
        ),
        range_parts(decimal(a as nat)) == (decimal(a as nat), decimal(a as nat)),
        line_number(decimal(a as nat)) == Some(a as nat),
        range_refusal(decimal(a as nat) + ":"@ + decimal(b as nat)) is Some <==> a > b,
        range_refusal(decimal(a as nat)) is None,
        forall|range: LineRange| #[trigger]
            is_range_of(range, decimal(a as nat) + ":"@ + decimal(b as nat)) <==> range.start == a
                && range.end == b,
        forall|range: LineRange| #[trigger]
            is_range_of(range, decimal(a as nat)) <==> range.start == a && range.end == a,
{
    reveal_strlit(":");
    lemma_decimal_round_trip(a as nat, u64::MAX as nat);
    lemma_decimal_round_trip(b as nat, u64::MAX as nat);
    let x = decimal(a as nat);
    let y = decimal(b as nat);
    let text = x + ":"@ + y;
    assert forall|i: int| 0 <= i < x.len() implies #[trigger] x[i] != ':' && !is_white(x[i]) by {
        assert(is_digit(x[i]));
    }
    assert forall|i: int| 0 <= i < y.len() implies #[trigger] y[i] != ':' && !is_white(y[i]) by {
        assert(is_digit(y[i]));
    }
    assert forall|i: int| 0 <= i < x.len() implies text[i] != ':' by {
        assert(text[i] == x[i]);
    }
    lemma_index_of_is(text, ':', x.len() as int);
    lemma_index_of_is(x, ':', x.len() as int);
    assert(text.take(x.len() as int) =~= x);
    assert(text.skip(1 + x.len() as int) =~= y);
    assert(!is_white(x[0]) && !is_white(x[x.len() - 1]));
    assert(!is_white(y[0]) && !is_white(y[y.len() - 1]));
    crate::sessions::lemma_trimmed_plain(x);
    crate::sessions::lemma_trimmed_plain(y);
}

/// Law: what a remote says of an error comes before anything else that it says.
pub proof fn law_errors_are_told_first(text: Seq<char>)
    ensures
        first_after(text, "remote: error: "@) matches Some(reason) ==> refusal_reason(text)
            == reason,
        first_after(text, "remote: error: "@) is None && first_after(text, "remote: "@)
            is None ==> refusal_reason(text) == "the push was rejected"@,
        first_after(text, "remote: error: "@) is None && (first_after(
            text,
            "remote: "@,
        ) matches Some(reason) && reason.len() > 0) ==> Some(refusal_reason(text)) == first_after(
            text,
            "remote: "@,
        ),
{
}

/// Law: what follows a prefix is read from the first line that begins with it,
/// blanks aside.
pub proof fn law_first_line_after_a_prefix(text: Seq<char>, prefix: Seq<char>, i: int)
    requires
        0 <= i < lines_of(text).len(),
        starts(trimmed(lines_of(text)[i]), prefix),
        forall|j: int| 0 <= j < i ==> !starts(trimmed(#[trigger] lines_of(text)[j]), prefix),
    ensures
        first_after(text, prefix) == Some(
            trimmed(lines_of(text)[i]).skip(prefix.len() as int),
        ),
{
    let p = |line: Seq<char>| after_prefix(trimmed(line), prefix) is Some;
    lemma_first_where_is(lines_of(text), p, i);
}

/// Law: a form is taken as one's own only from who is signed in and with the
/// token that their session was given.
pub proof fn law_only_own_forms_are_taken(
    sessions: Map<Seq<char>, Session>,
    cookie: Option<Seq<char>>,
    body: Seq<u8>,
)
    ensures
        own_post(sessions, cookie, body) <==> (session_of(sessions, cookie) matches Some(session)
            && session.csrf@ == field_or_empty(body, "csrf"@)),
        session_of(sessions, cookie) is None ==> !own_post(sessions, cookie, body),
{
}

/// Law: a key has an owner exactly where some member holds it, and the owner is
/// the first who does.
pub proof fn law_owner_is_found_if_any(members: Seq<Member>, public_key: Seq<char>)
    ensures
        key_owner(members, public_key) is None <==> forall|i: int|
            0 <= i < members.len() ==> !holds_key(#[trigger] members[i], key_identity(public_key)),
        forall|i: int|
            0 <= i < members.len() && holds_key(#[trigger] members[i], key_identity(public_key)) && (
            forall|j: int|
                0 <= j < i ==> !holds_key(#[trigger] members[j], key_identity(public_key)))
                ==> key_owner(members, public_key) == Some(members[i]),
{
    let p = |m: Member| holds_key(m, key_identity(public_key));
    crate::seqs::lemma_first_where(members, p);
    let at = first_where(members, p);
    assert forall|j: int| 0 <= j < at implies !holds_key(
        #[trigger] members[j],
        key_identity(public_key),
    ) by {
        assert(!p(members[j]));
    }
    if at < members.len() {
        assert(p(members[at]));
        assert(holds_key(members[at], key_identity(public_key)));
    }
}

/// Law: a member holds a key where one of the keys in their table is the same but
/// for the comment.
pub proof fn law_held_keys_are_in_the_table(member: Member, wanted: Seq<char>)
    requires
        member.trust matches Trust::Keys(keys) ==> keys@.dom().finite(),
    ensures
        holds_key(member, wanted) <==> (member.trust matches Trust::Keys(keys) && exists|
            fingerprint: Seq<char>,
        | #[trigger] keys@.contains_key(fingerprint) && key_identity(keys@[fingerprint]@)
            == wanted),
{
    if let Trust::Keys(keys) = member.trust {
        let list = member.leaf_keys();
        if holds_key(member, wanted) {
            let i = choose|i: int|
                0 <= i < list.len() && key_identity((#[trigger] list[i]).1@) == wanted;
            crate::members::law_leaf_keys_are_the_members(member, list[i].0, list[i].1);
            assert(list.contains(list[i]));
            assert(keys@.contains_key(list[i].0));
        }
        if exists|fingerprint: Seq<char>| #[trigger]
            keys@.contains_key(fingerprint) && key_identity(keys@[fingerprint]@) == wanted {
            let fingerprint = choose|fingerprint: Seq<char>| #[trigger]
                keys@.contains_key(fingerprint) && key_identity(keys@[fingerprint]@) == wanted;
            let key = keys@[fingerprint];
            crate::members::law_leaf_keys_are_the_members(member, fingerprint, key);
            let i = choose|i: int| 0 <= i < list.len() && list[i] == (fingerprint, key);
            assert(key_identity(list[i].1@) == wanted);
        }
    }
}

/// Law: an edit is pushed through the same door as any push: nonces are demanded,
/// with the server's seed, and its hooks are run.
pub proof fn law_edits_are_gated(seed: Seq<char>, hooks: Seq<char>)
    ensures
        receive_pack_command(seed, hooks) == "git -c receive.certNonceSeed="@ + seed
            + " -c receive.certNonceSlop=60 -c core.hooksPath="@ + hooks + " receive-pack"@,
{
}

} // verus!
