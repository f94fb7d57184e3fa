//! The keys a client signs with: where they are, how they read, and what sets a
//! machine up to sign its pushes.

use vstd::prelude::*;

use crate::routes::tail_of;
use crate::runner::{extension, file_name, has_extension, path_names};
use crate::text::{
    after_prefix, chars_of, digit_value, fields, fields_of, index_of, is_word, join, join_path,
    joined, last_index_of, law_fields_undo_join, lemma_index_of, lemma_index_of_is,
    lemma_last_index_of, nonempty, opt_text, pairs, same, split, split_on, starts, starts_with,
    strip_prefix, text_of, texts, trim, trim_start, trimmed, trimmed_start, under, value_of,
};

verus! {

/// A path without the slashes and dots at its end that name nothing.
pub open spec fn without_tail(path: Seq<char>) -> Seq<char>
    decreases path.len(),
{
    if path.len() >= 1 && path.last() == '/' {
        without_tail(path.drop_last())
    } else if path.len() >= 2 && path.last() == '.' && path[path.len() - 2] == '/' {
        without_tail(path.drop_last().drop_last())
    } else {
        path
    }
}

/// The private half of a key, given its path: a path ending in `.pub` without
/// that.
pub open spec fn private_path(path: Seq<char>) -> Seq<char> {
    if extension(path) == Some("pub"@) {
        let core = without_tail(path);
        if core.len() >= 4 {
            core.take(core.len() - 4)
        } else {
            core
        }
    } else {
        path
    }
}

/// The public half of a key, given its path.
pub open spec fn public_path(path: Seq<char>) -> Seq<char> {
    if extension(path) == Some("pub"@) {
        path
    } else {
        path + ".pub"@
    }
}

/// Splits a key path into its private and `.pub` halves.
pub fn key_paths(path: &str) -> (r: (String, String))
    ensures
        r.0@ == private_path(path@),
        r.1@ == public_path(path@),
{
    if has_extension(path, "pub") {
        let v = chars_of(path);
        let mut n: usize = v.len();
        proof {
            assert(v@.take(v@.len() as int) =~= v@);
        }
        loop
            invariant
                n <= v@.len(),
                v@ == path@,
                without_tail(v@.take(n as int)) == without_tail(path@),
            ensures
                n <= v@.len(),
                v@ == path@,
                v@.take(n as int) == without_tail(path@),
            decreases n,
        {
            let ghost here = v@.take(n as int);
            proof {
                if n >= 1 {
                    assert(here.drop_last() =~= v@.take(n - 1));
                    assert(here.last() == v@[n - 1]);
                }
                if n >= 2 {
                    assert(here.drop_last().drop_last() =~= v@.take(n - 2));
                    assert(here[n - 2] == v@[n - 2]);
                }
            }
            if n >= 1 && v[n - 1] == '/' {
                n -= 1;
            } else if n >= 2 && v[n - 1] == '.' && v[n - 2] == '/' {
                n -= 2;
            } else {
                break;
            }
        }
        let cut: usize = if n >= 4 {
            n - 4
        } else {
            n
        };
        let private = text_of(v.as_slice(), 0, cut);
        proof {
            assert(private@ =~= private_path(path@));
        }
        (private, path.to_owned())
    } else {
        let mut public = path.to_owned();
        public.append(".pub");
        (path.to_owned(), public)
    }
}

/// A path with its leading `~/` expanded, where the home directory is known.
pub open spec fn expanded(value: Seq<char>, home: Option<Seq<char>>) -> Seq<char> {
    match (after_prefix(value, "~/"@), home) {
        (Some(rest), Some(home)) => under(home, rest),
        _ => value,
    }
}

/// A string that may be absent, as a sequence.
pub open spec fn opt_view(o: Option<&str>) -> Option<Seq<char>> {
    match o {
        Some(s) => Some(s@),
        None => None,
    }
}

/// Expands a leading `~/` against the home directory.
pub fn expand_tilde(value: &str, home: Option<&str>) -> (r: String)
    ensures
        r@ == expanded(value@, opt_view(home)),
{
    if let Some(rest) = strip_prefix(value, "~/") {
        if let Some(home) = home {
            return join_path(home, rest);
        }
    }
    value.to_owned()
}

/// The default signing key path under a home directory.
pub open spec fn default_key(home: Seq<char>) -> Seq<char> {
    under(under(home, ".ssh"@), "id_ed25519"@)
}

/// The default signing key path, `~/.ssh/id_ed25519`.
pub fn default_key_path(home: Option<&str>) -> (r: Result<String, &'static str>)
    ensures
        match home {
            None => r matches Err(message) && message@ == "HOME is not set"@,
            Some(home) => r matches Ok(path) && path@ == default_key(home@),
        },
{
    match home {
        None => Err("HOME is not set"),
        Some(home) => {
            let dir = join_path(home, ".ssh");
            Ok(join_path(dir.as_str(), "id_ed25519"))
        },
    }
}

/// The path to ensure for a configured `user.signingkey`, given whether either
/// half of the key it names is there.
pub open spec fn signing_key(configured: Seq<char>, home: Option<Seq<char>>, present: bool) -> Seq<
    char,
> {
    if present || configured.contains('/') {
        expanded(configured, home)
    } else {
        match home {
            Some(home) => default_key(home),
            None => expanded(configured, home),
        }
    }
}

/// Resolves the path to ensure for a configured `user.signingkey`. A real key
/// path, or one a `.pub` can be derived from, is used as it is; a bare key id,
/// such as an openpgp fingerprint left from another signing format, is no path,
/// so the default key location takes its place.
pub fn signing_key_path(configured: &str, home: Option<&str>, present: bool) -> (r: String)
    ensures
        r@ == signing_key(configured@, opt_view(home), present),
{
    if present || has_slash(configured) {
        return expand_tilde(configured, home);
    }
    match default_key_path(home) {
        Ok(path) => path,
        Err(_) => expand_tilde(configured, home),
    }
}

fn has_slash(s: &str) -> (r: bool)
    ensures
        r == s@.contains('/'),
{
    let v = chars_of(s);
    let mut i: usize = 0;
    while i < v.len()
        invariant
            i <= v@.len(),
            v@ == s@,
            forall|j: int| 0 <= j < i ==> #[trigger] v@[j] != '/',
        decreases v@.len() - i,
    {
        if v[i] == '/' {
            proof {
                assert(s@[i as int] == '/');
            }
            return true;
        }
        i += 1;
    }
    false
}

/// Whether a reply to a question accepts: an empty one does, one that starts
/// with `n` does not.
pub fn accepts(reply: &str) -> (r: bool)
    ensures
        ({
            let said = trimmed(reply@);
            r == (said.len() == 0 || (said[0] != 'n' && said[0] != 'N'))
        }),
{
    let said = trim(reply);
    let v = chars_of(said.as_str());
    v.len() == 0 || (v[0] != 'n' && v[0] != 'N')
}

/// A `<user>@<host>` comment for a freshly generated key, given the user and
/// what `hostname` printed, as far as they are known.
pub fn host_comment(user: Option<&str>, hostname: Option<&str>) -> (r: String)
    ensures
        ({
            let user = match user {
                Some(user) => user@,
                None => "git-ents"@,
            };
            r@ == match hostname {
                Some(printed) if trimmed(printed@).len() > 0 => user + "@"@ + trimmed(printed@),
                _ => user,
            }
        }),
{
    let mut r = match user {
        Some(user) => user.to_owned(),
        None => "git-ents".to_owned(),
    };
    if let Some(printed) = hostname {
        let host = trim(printed);
        if !host.as_str().is_empty() {
            r.append("@");
            r.append(host.as_str());
        }
    }
    r
}

/// What is done to have a key at a path.
#[derive(Debug, PartialEq, Eq)]
pub enum KeyPlan {
    /// The public half is there.
    Use(String),
    /// Derive the public half from the private one.
    Derive {
        /// The private half.
        private: String,
        /// The public half.
        public: String,
    },
    /// Ask whether to generate both.
    Generate {
        /// The private half.
        private: String,
        /// The public half.
        public: String,
        /// The question.
        question: String,
    },
}

/// Plans how a usable key comes to be at a path, given which of its halves are
/// there.
pub fn ensure_key(path: &str, private_present: bool, public_present: bool) -> (r: KeyPlan)
    ensures
        if public_present {
            r matches KeyPlan::Use(public) && public@ == public_path(path@)
        } else if private_present {
            r matches KeyPlan::Derive { private, public } && private@ == private_path(path@)
                && public@ == public_path(path@)
        } else {
            r matches KeyPlan::Generate { private, public, question } && private@ == private_path(
                path@,
            ) && public@ == public_path(path@) && question@ == "no SSH key at "@ + private_path(
                path@,
            ) + "; generate a new ed25519 keypair there?"@
        },
{
    let (private, public) = key_paths(path);
    if public_present {
        KeyPlan::Use(public)
    } else if private_present {
        KeyPlan::Derive { private, public }
    } else {
        let mut question = "no SSH key at ".to_owned();
        question.append(private.as_str());
        question.append("; generate a new ed25519 keypair there?");
        KeyPlan::Generate { private, public, question }
    }
}

/// Whether a text opens with an OpenSSH public key type.
pub open spec fn opens_like_key(text: Seq<char>) -> bool {
    let head = trimmed_start(text);
    starts(head, "ssh-"@) || starts(head, "ecdsa-"@) || starts(head, "sk-"@)
}

/// Whether `text` opens with an OpenSSH public key type token.
pub fn looks_like_public_key(text: &str) -> (r: bool)
    ensures
        r == opens_like_key(text@),
{
    let head = trim_start(text);
    starts_with(head.as_str(), "ssh-") || starts_with(head.as_str(), "ecdsa-") || starts_with(
        head.as_str(),
        "sk-",
    )
}

/// A public key from what could be read at a path and at that with `.pub`: the
/// first that looks like one, trimmed. There is none where the key has to be
/// derived.
pub fn read_public_key(contents: Option<&str>, dotpub: Option<&str>) -> (r: Option<String>)
    ensures
        opt_text(r) == (match (contents, dotpub) {
            (Some(text), _) if opens_like_key(text@) => Some(trimmed(text@)),
            (_, Some(text)) if opens_like_key(text@) => Some(trimmed(text@)),
            _ => None,
        }),
{
    if let Some(text) = contents {
        if looks_like_public_key(text) {
            return Some(trim(text));
        }
    }
    if let Some(text) = dotpub {
        if looks_like_public_key(text) {
            return Some(trim(text));
        }
    }
    None
}

/// Where a public key comes from.
#[derive(Debug, PartialEq, Eq)]
pub enum KeySource {
    /// The key itself.
    Inline(String),
    /// A file.
    File(String),
}

/// Resolves where the public key to operate on comes from: the path given, or
/// what `user.signingkey` is set to.
pub fn public_key(key: Option<&str>, configured: Option<&str>, home: Option<&str>) -> (r: Result<
    KeySource,
    &'static str,
>)
    ensures
        match (key, configured) {
            (Some(path), _) => r matches Ok(KeySource::File(file)) && file@ == path@,
            (None, None) => r matches Err(message) && message@
                == "no --key given and user.signingkey is unset"@,
            (None, Some(value)) => match after_prefix(value@, "key::"@) {
                Some(inline) => r matches Ok(KeySource::Inline(text)) && text@ == trimmed(inline),
                None => r matches Ok(KeySource::File(file)) && file@ == expanded(
                    value@,
                    opt_view(home),
                ),
            },
        },
{
    if let Some(path) = key {
        return Ok(KeySource::File(path.to_owned()));
    }
    match configured {
        None => Err("no --key given and user.signingkey is unset"),
        Some(value) => match strip_prefix(value, "key::") {
            Some(inline) => Ok(KeySource::Inline(trim(inline))),
            None => Ok(KeySource::File(expand_tilde(value, home))),
        },
    }
}

/// The private half of the signing key to use: that of the path given, or of
/// the path behind `user.signingkey`, resolved as for setting up.
pub fn signing_key_file(
    key: Option<&str>,
    configured: Option<&str>,
    home: Option<&str>,
    present: bool,
) -> (r: Result<String, &'static str>)
    ensures
        match (key, configured) {
            (Some(path), _) => r matches Ok(file) && file@ == private_path(path@),
            (None, None) => r matches Err(message) && message@
                == "no --key given and user.signingkey is unset"@,
            (None, Some(value)) => r matches Ok(file) && file@ == private_path(
                signing_key(value@, opt_view(home), present),
            ),
        },
{
    if let Some(path) = key {
        return Ok(key_paths(path).0);
    }
    match configured {
        None => Err("no --key given and user.signingkey is unset"),
        Some(value) => {
            let path = signing_key_path(value, home, present);
            Ok(key_paths(path.as_str()).0)
        },
    }
}

/// The fingerprint on a line that `ssh-keygen -l` printed: its second word,
/// without the name of the hash.
pub open spec fn fingerprint_on(text: Seq<char>) -> Option<Seq<char>> {
    let words = fields_of(text);
    if words.len() > 1 {
        match after_prefix(words[1], "MD5:"@) {
            Some(rest) => Some(rest),
            None => Some(words[1]),
        }
    } else {
        None
    }
}

/// Reads a key's MD5 fingerprint in colon form from what `ssh-keygen -l`
/// printed.
pub fn fingerprint(text: &str) -> (r: Result<String, &'static str>)
    ensures
        match fingerprint_on(text@) {
            Some(found) => r matches Ok(print) && print@ == found,
            None => r matches Err(message) && message@
                == "ssh-keygen returned an unexpected fingerprint line"@,
        },
{
    let words = fields(text);
    proof {
        assert(texts(words@).len() == words@.len());
    }
    if words.len() > 1 {
        proof {
            assert(texts(words@)[1] == words@[1]@);
        }
        match strip_prefix(words[1].as_str(), "MD5:") {
            Some(rest) => Ok(rest.to_owned()),
            None => Ok(words[1].clone()),
        }
    } else {
        Err("ssh-keygen returned an unexpected fingerprint line")
    }
}

/// Whether a group is two hexadecimal digits.
pub open spec fn hex_pair(group: Seq<char>) -> bool {
    group.len() == 2 && digit_value(group[0]) is Some && digit_value(group[1]) is Some
}

/// Whether a text is a fingerprint in colon form: at least two groups of two
/// hexadecimal digits.
pub open spec fn colon_hex(text: Seq<char>) -> bool {
    let groups = split_on(text, ':');
    groups.len() > 1 && forall|i: int| 0 <= i < groups.len() ==> hex_pair(#[trigger] groups[i])
}

/// Whether `text` looks like an MD5 key fingerprint (`aa:bb:...`), as the member
/// list prints it.
pub fn looks_like_fingerprint(text: &str) -> (r: bool)
    ensures
        r == colon_hex(text@),
{
    let groups = split(text, ':');
    let ghost all = texts(groups@);
    proof {
        assert(all.len() == groups@.len());
    }
    if groups.len() < 2 {
        return false;
    }
    let mut i: usize = 0;
    while i < groups.len()
        invariant
            i <= groups@.len(),
            all == texts(groups@),
            all == split_on(text@, ':'),
            forall|j: int| 0 <= j < i ==> hex_pair(#[trigger] all[j]),
        decreases groups@.len() - i,
    {
        proof {
            assert(all[i as int] == groups@[i as int]@);
        }
        let v = chars_of(groups[i].as_str());
        if v.len() != 2 || value_of(v[0]).is_none() || value_of(v[1]).is_none() {
            return false;
        }
        i += 1;
    }
    true
}

/// The part that identifies a key: its type and its body.
pub open spec fn key_body(key: Seq<char>) -> (Option<Seq<char>>, Option<Seq<char>>) {
    let words = fields_of(key);
    (
        if words.len() > 0 {
            Some(words[0])
        } else {
            None
        },
        if words.len() > 1 {
            Some(words[1])
        } else {
            None
        },
    )
}

fn word_at(words: &Vec<String>, i: usize) -> (r: Option<&str>)
    ensures
        match r {
            Some(word) => i < words@.len() && word@ == words@[i as int]@,
            None => i >= words@.len(),
        },
{
    if i < words.len() {
        Some(words[i].as_str())
    } else {
        None
    }
}

fn same_word(a: Option<&str>, b: Option<&str>) -> (r: bool)
    ensures
        r == (opt_view(a) == opt_view(b)),
{
    match (a, b) {
        (Some(a), Some(b)) => same(a, b),
        (None, None) => true,
        _ => false,
    }
}

/// Whether two OpenSSH public keys share a type and body, ignoring the comment.
pub fn same_key(a: &str, b: &str) -> (r: bool)
    ensures
        r == (key_body(a@) == key_body(b@)),
{
    let x = fields(a);
    let y = fields(b);
    proof {
        assert(texts(x@).len() == x@.len());
        assert(texts(y@).len() == y@.len());
        assert(forall|i: int| 0 <= i < x@.len() ==> texts(x@)[i] == #[trigger] x@[i]@);
        assert(forall|i: int| 0 <= i < y@.len() ==> texts(y@)[i] == #[trigger] y@[i]@);
    }
    same_word(word_at(&x, 0), word_at(&y, 0)) && same_word(word_at(&x, 1), word_at(&y, 1))
}

/// A key's trailing comment: what follows its type and body.
pub open spec fn comment_on(key: Seq<char>) -> Seq<char> {
    let words = fields_of(key);
    if words.len() > 2 {
        joined(words.skip(2), " "@)
    } else {
        Seq::empty()
    }
}

/// A key's trailing comment, or an empty string when it has none.
pub fn key_comment(key: &str) -> (r: String)
    ensures
        r@ == comment_on(key@),
{
    let words = fields(key);
    proof {
        assert(texts(words@).len() == words@.len());
    }
    if words.len() > 2 {
        let rest = tail_of(words.as_slice(), 2);
        join(rest.as_slice(), " ")
    } else {
        String::new()
    }
}

/// What sets a machine up to sign its pushes.
#[derive(Debug, PartialEq, Eq)]
pub struct Setup {
    /// The scope that the settings are written to.
    pub scope: &'static str,
    /// The settings.
    pub settings: Vec<(String, String)>,
}

/// The settings under which a client signs its pushes with a key: SSH-format
/// signatures, the key, and signing when the server asks, so that pushes
/// elsewhere are untouched.
pub fn setup(signing_key: &str, local: bool) -> (r: Setup)
    ensures
        r.scope@ == (if local {
            "--local"@
        } else {
            "--global"@
        }),
        pairs(r.settings@) == seq![
            ("gpg.format"@, "ssh"@),
            ("user.signingkey"@, signing_key@),
            ("push.gpgSign"@, "if-asked"@),
        ],
{
    let mut settings: Vec<(String, String)> = Vec::new();
    settings.push(("gpg.format".to_owned(), "ssh".to_owned()));
    settings.push(("user.signingkey".to_owned(), signing_key.to_owned()));
    settings.push(("push.gpgSign".to_owned(), "if-asked".to_owned()));
    proof {
        assert(pairs(settings@) =~= seq![
            ("gpg.format"@, "ssh"@),
            ("user.signingkey"@, signing_key@),
            ("push.gpgSign"@, "if-asked"@),
        ]);
    }
    Setup {
        scope: if local {
            "--local"
        } else {
            "--global"
        },
        settings,
    }
}

/// What a setup reports: where the settings went, the key, and what to do next.
pub fn setup_report(local: bool, signing_key: &str, fingerprint: &str) -> (r: Vec<String>)
    ensures
        texts(r@) == seq![
            if local {
                "configured signed pushes (local git config)"@
            } else {
                "configured signed pushes (global git config)"@
            },
            "signing key: "@ + signing_key@ + " ("@ + fingerprint@ + ")"@,
            "authorize it on a server with `git ents members add <remote>`"@,
        ],
{
    let mut key = "signing key: ".to_owned();
    key.append(signing_key);
    key.append(" (");
    key.append(fingerprint);
    key.append(")");
    let mut r: Vec<String> = Vec::new();
    r.push(
        if local {
            "configured signed pushes (local git config)".to_owned()
        } else {
            "configured signed pushes (global git config)".to_owned()
        },
    );
    r.push(key);
    r.push("authorize it on a server with `git ents members add <remote>`".to_owned());
    proof {
        assert(texts(r@) =~= seq![
            if local {
                "configured signed pushes (local git config)"@
            } else {
                "configured signed pushes (global git config)"@
            },
            "signing key: "@ + signing_key@ + " ("@ + fingerprint@ + ")"@,
            "authorize it on a server with `git ents members add <remote>`"@,
        ]);
    }
    r
}

/// Adding to a text without the separator adds to its last piece.
proof fn lemma_split_extends(s: Seq<char>, c: char, t: Seq<char>)
    requires
        !t.contains(c),
    ensures
        split_on(s, c).len() > 0,
        split_on(s + t, c) == split_on(s, c).drop_last().push(split_on(s, c).last() + t),
    decreases s.len(),
{
    let i = index_of(s, c);
    lemma_index_of(s, c);
    if i < s.len() {
        let rest = s.skip(i + 1);
        lemma_split_extends(rest, c, t);
        assert forall|j: int| 0 <= j < i implies (s + t)[j] != c by {
            assert((s + t)[j] == s[j]);
        }
        lemma_index_of_is(s + t, c, i);
        assert((s + t).take(i) =~= s.take(i));
        assert((s + t).skip(i + 1) =~= rest + t);
        assert((seq![s.take(i)] + split_on(rest, c)).drop_last() =~= seq![s.take(i)] + split_on(
            rest,
            c,
        ).drop_last());
        assert(split_on(s + t, c) =~= split_on(s, c).drop_last().push(
            split_on(s, c).last() + t,
        ));
    } else {
        assert forall|j: int| 0 <= j < (s + t).len() implies (s + t)[j] != c by {
            if j >= s.len() {
                assert(t.contains(t[j - s.len()]));
            }
        }
        lemma_index_of_is(s + t, c, (s + t).len() as int);
        assert(split_on(s, c) =~= seq![s]);
        assert(split_on(s + t, c) =~= seq![s + t]);
        assert(split_on(s, c).drop_last() =~= Seq::empty());
    }
}

/// A text ends with its last piece.
proof fn lemma_last_piece(s: Seq<char>, c: char)
    requires
        s.len() > 0,
        s.last() != c,
    ensures
        split_on(s, c).len() > 0,
        split_on(s, c).last().len() > 0,
    decreases s.len(),
{
    let i = index_of(s, c);
    lemma_index_of(s, c);
    if i < s.len() {
        let rest = s.skip(i + 1);
        assert(rest.last() == s.last());
        lemma_last_piece(rest, c);
        assert(split_on(s, c).last() == split_on(rest, c).last());
    } else {
        assert(split_on(s, c) =~= seq![s]);
    }
}

/// The public half of a key names its private half back.
pub proof fn law_halves_of_a_key_agree(path: Seq<char>)
    requires
        path.len() > 0,
        path.last() != '/',
        extension(path) != Some("pub"@),
    ensures
        private_path(public_path(path)) == path,
        public_path(public_path(path)) == public_path(path),
{
    reveal_strlit(".pub");
    reveal_strlit("pub");
    reveal_strlit(".");
    reveal_strlit("..");
    let tail = ".pub"@;
    let public = path + tail;
    assert(!tail.contains('/'));
    lemma_split_extends(path, '/', tail);
    lemma_last_piece(path, '/');
    let pieces = split_on(public, '/');
    let name = split_on(path, '/').last() + tail;
    let n = split_on(path, '/').last().len() as int;
    assert(pieces.last() == name);
    let named = nonempty(pieces);
    assert(named == nonempty(pieces.drop_last()).push(name));
    assert(named.drop_last() =~= nonempty(pieces.drop_last()));
    assert(name.len() == n + 4);
    assert("."@.len() == 1);
    assert(name[n + 1] == 'p');
    assert(name != "."@);
    assert(name != ".."@) by {
        if name.len() == 2 {
            assert(false);
        }
    }
    let names = path_names(public);
    assert(names.last() == name);
    assert(file_name(public) == Some(name));
    assert(last_index_of(name, '.') == n) by {
        lemma_last_index_of(name, '.');
        assert(name[n] == '.');
        assert(name[n + 1] == 'p');
        assert(name[n + 2] == 'u');
        assert(name[n + 3] == 'b');
    }
    assert(name.skip(n + 1) =~= "pub"@);
    assert(extension(public) == Some("pub"@));
    assert(public.last() == 'b');
    assert(without_tail(public) == public);
    assert(public.take(public.len() - 4) =~= path);
}

/// Law: a public key is its type and its body; what follows is its comment, word
/// by word, and no part of which key it is.
pub proof fn law_key_is_type_and_body(words: Seq<Seq<char>>)
    requires
        words.len() >= 2,
        forall|i: int| 0 <= i < words.len() ==> is_word(#[trigger] words[i]),
    ensures
        key_body(joined(words, " "@)) == (Some(words[0]), Some(words[1])),
        words.len() == 2 ==> comment_on(joined(words, " "@)).len() == 0,
        words.len() > 2 ==> comment_on(joined(words, " "@)) == joined(words.skip(2), " "@),
{
    law_fields_undo_join(words);
}

/// Law: keys are the same exactly where their types and bodies are.
pub proof fn law_keys_differ_by_type_or_body(a: Seq<Seq<char>>, b: Seq<Seq<char>>)
    requires
        a.len() >= 2,
        b.len() >= 2,
        forall|i: int| 0 <= i < a.len() ==> is_word(#[trigger] a[i]),
        forall|i: int| 0 <= i < b.len() ==> is_word(#[trigger] b[i]),
    ensures
        key_body(joined(a, " "@)) == key_body(joined(b, " "@)) <==> a[0] == b[0] && a[1] == b[1],
{
    law_key_is_type_and_body(a);
    law_key_is_type_and_body(b);
}

/// Law: the fingerprint is the second word that `ssh-keygen` prints, without the
/// name of the hash.
pub proof fn law_fingerprint_is_read(words: Seq<Seq<char>>, print: Seq<char>)
    requires
        words.len() >= 2,
        forall|i: int| 0 <= i < words.len() ==> is_word(#[trigger] words[i]),
    ensures
        words[1] == "MD5:"@ + print ==> fingerprint_on(joined(words, " "@)) == Some(print),
        !starts(words[1], "MD5:"@) ==> fingerprint_on(joined(words, " "@)) == Some(words[1]),
{
    reveal_strlit("MD5:");
    law_fields_undo_join(words);
    let said = "MD5:"@ + print;
    assert(said.take(4) =~= "MD5:"@);
    assert(said.skip(4) =~= print);
}

/// Law: a fingerprint is two or more pairs of hexadecimal digits with colons
/// between them, and nothing else is.
pub proof fn law_fingerprint_is_pairs(groups: Seq<Seq<char>>)
    requires
        groups.len() > 0,
        forall|i: int| 0 <= i < groups.len() ==> !(#[trigger] groups[i]).contains(':'),
    ensures
        colon_hex(joined(groups, ":"@)) <==> groups.len() >= 2 && forall|i: int|
            0 <= i < groups.len() ==> (#[trigger] groups[i]).len() == 2 && digit_value(groups[i][0])
                is Some && digit_value(groups[i][1]) is Some,
{
    reveal_strlit(":");
    assert(":"@ =~= seq![':']);
    crate::text::law_split_undoes_join(groups, ':');
    if groups.len() >= 2 && forall|i: int|
        0 <= i < groups.len() ==> (#[trigger] groups[i]).len() == 2 && digit_value(groups[i][0])
            is Some && digit_value(groups[i][1]) is Some {
        assert forall|i: int| 0 <= i < groups.len() implies hex_pair(#[trigger] groups[i]) by {}
    }
    if colon_hex(joined(groups, ":"@)) {
        assert forall|i: int| 0 <= i < groups.len() implies (#[trigger] groups[i]).len() == 2
            && digit_value(groups[i][0]) is Some && digit_value(groups[i][1]) is Some by {
            assert(hex_pair(groups[i]));
        }
    }
}

/// Law: a path that begins in the home directory is looked for there, and any
/// other stands for itself.
pub proof fn law_tilde_is_home(home: Seq<char>, rest: Seq<char>, other: Seq<char>)
    requires
        home.len() > 0,
        home.last() != '/',
        rest.len() == 0 || rest[0] != '/',
        !starts(other, "~/"@),
    ensures
        expanded("~/"@ + rest, Some(home)) == home + "/"@ + rest,
        expanded("~/"@ + rest, None) == "~/"@ + rest,
        expanded(other, Some(home)) == other,
        default_key(home) == home + "/.ssh/id_ed25519"@,
{
    reveal_strlit("~/");
    reveal_strlit("/");
    reveal_strlit(".ssh");
    reveal_strlit("id_ed25519");
    reveal_strlit("/.ssh/id_ed25519");
    let said = "~/"@ + rest;
    assert(said.take(2) =~= "~/"@);
    assert(said.skip(2) =~= rest);
    assert(home.push('/') + rest =~= home + "/"@ + rest);
    let dir = home.push('/') + ".ssh"@;
    assert(dir.last() == 'h');
    assert(default_key(home) =~= home + "/.ssh/id_ed25519"@);
}

/// Law: a configured key that is a path, or a file that is there, is that file;
/// any other is the key that `ssh` itself would take.
pub proof fn law_configured_key_is_found(configured: Seq<char>, home: Seq<char>, present: bool)
    ensures
        present || configured.contains('/') ==> signing_key(configured, Some(home), present)
            == expanded(configured, Some(home)),
        !present && !configured.contains('/') ==> signing_key(configured, Some(home), present)
            == default_key(home),
{
}

/// Law: what begins like a public key, blanks aside, is one: the words of the
/// key types that `ssh` has.
pub proof fn law_public_keys_are_known(rest: Seq<char>)
    ensures
        opens_like_key("ssh-"@ + rest),
        opens_like_key("ecdsa-"@ + rest),
        opens_like_key("sk-"@ + rest),
        !opens_like_key("-----BEGIN"@ + rest),
{
    reveal_strlit("ssh-");
    reveal_strlit("ecdsa-");
    reveal_strlit("sk-");
    reveal_strlit("-----BEGIN");
    let a = "ssh-"@ + rest;
    let b = "ecdsa-"@ + rest;
    let c = "sk-"@ + rest;
    let d = "-----BEGIN"@ + rest;
    assert(a.take(4) =~= "ssh-"@);
    assert(b.take(6) =~= "ecdsa-"@);
    assert(c.take(3) =~= "sk-"@);
    assert(a[0] == 's' && b[0] == 'e' && c[0] == 's' && d[0] == '-');
    assert(trimmed_start(d) == d);
    if starts(d, "ssh-"@) {
        assert(d.take(4)[0] == 's');
    }
    if starts(d, "ecdsa-"@) {
        assert(d.take(6)[0] == 'e');
    }
    if starts(d, "sk-"@) {
        assert(d.take(3)[0] == 's');
    }
}

/// Law: the public half of a key lies beside it, under the same name with `.pub`.
pub proof fn law_public_half_lies_beside(path: Seq<char>)
    requires
        extension(path) != Some("pub"@),
    ensures
        public_path(path) == path + ".pub"@,
        private_path(path) == path,
{
}

} // verus!
