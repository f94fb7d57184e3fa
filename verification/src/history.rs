//! Commits, diffs and releases as the web UI shows them.

use vstd::prelude::*;
use vstd::utf8::encode_utf8;

use crate::object_id::{hex_id, is_id, law_id_reads_as_itself, ObjectId};
use crate::seqs::{kept, lemma_kept_step};
use crate::shell::{ago_seconds, ago_text, elapsed};
use crate::text::{
    chars_of, digit_value, lemma_split_front, lines, lines_of, opt_text, same, short_of, shorten,
    split, split_on, starts, starts_with, texts, trim, trim_end, trimmed, trimmed_end, value_of,
};
use crate::tree::{
    date_of, nul_field, nul_field_or_empty, nul_part, nul_part_or_empty, parse_iso, Release,
};

verus! {

/// Whether a text may name a commit: one to sixty-four hexadecimal digits.
pub open spec fn commit_name(sha: Seq<char>) -> bool {
    &&& 0 < sha.len() <= 64
    &&& forall|i: int| 0 <= i < sha.len() ==> digit_value(#[trigger] sha[i]) is Some
}

/// Whether a text may name a commit.
pub fn is_commit_name(sha: &str) -> (r: bool)
    ensures
        r == commit_name(sha@),
{
    let v = chars_of(sha);
    if v.len() == 0 || v.len() > 64 {
        return false;
    }
    let mut i: usize = 0;
    while i < v.len()
        invariant
            i <= v@.len(),
            v@ == sha@,
            forall|j: int| 0 <= j < i ==> digit_value(#[trigger] v@[j]) is Some,
        decreases v@.len() - i,
    {
        if value_of(v[i]).is_none() {
            return false;
        }
        i += 1;
    }
    true
}

/// The digits that an object id is shown by.
pub open spec fn short_digits(oid: Seq<char>) -> Seq<char> {
    short_of(oid, 7)
}

/// A commit id shortened to seven hex characters for display.
pub fn short_oid(oid: &ObjectId) -> (r: String)
    ensures
        r@ == short_digits(oid@),
{
    shorten(oid.as_str(), 7)
}

/// A single commit's metadata.
#[derive(Debug, PartialEq, Eq)]
pub struct CommitInfo {
    /// Its id, shortened.
    pub short: String,
    /// Its author.
    pub author: String,
    /// How long ago it was made, where its date could be read.
    pub when: Option<String>,
    /// Its subject.
    pub subject: String,
    /// The rest of its message.
    pub body: String,
}

/// How long before `now` the date was that a text names.
pub open spec fn when_of(text: Option<Seq<char>>, now: i64) -> Option<Seq<char>> {
    match text {
        None => None,
        Some(text) => match date_of(text) {
            None => None,
            Some(date) => Some(ago_text(elapsed(now, date.0))),
        },
    }
}

/// Whether a commit's metadata is what `git show -s` printed of it, its fields
/// divided by NULs: none where it does not begin with an object id.
pub open spec fn is_info(shown: Option<CommitInfo>, info: Seq<char>, now: i64) -> bool {
    match hex_id(encode_utf8(trimmed(nul_part_or_empty(info, 0)))) {
        None => shown is None,
        Some(oid) => shown matches Some(c) && c.short@ == short_digits(oid) && c.author@
            == nul_part_or_empty(info, 1) && opt_text(c.when) == when_of(nul_part(info, 2), now)
            && c.subject@ == nul_part_or_empty(info, 3) && c.body@ == trimmed_end(
            nul_part_or_empty(info, 4),
        ),
    }
}

/// Reads a commit from what `git show -s` printed of it.
pub fn commit_info(info: &str, now: i64) -> (r: Option<CommitInfo>)
    ensures
        is_info(r, info@, now),
{
    let parts = split(info, '\0');
    proof {
        assert(texts(parts@).len() == parts@.len());
        assert(forall|i: int| 0 <= i < parts@.len() ==> texts(parts@)[i] == #[trigger] parts@[i]@);
    }
    let first = nul_field_or_empty(&parts, 0);
    let hash = trim(first.as_str());
    let oid = match ObjectId::from_hex(hash.as_str().as_bytes()) {
        None => {
            return None;
        },
        Some(oid) => oid,
    };
    let when = match nul_field(&parts, 2) {
        None => None,
        Some(text) => match parse_iso(text.as_str()) {
            None => None,
            Some(date) => Some(ago_seconds(now, date.seconds)),
        },
    };
    let body = nul_field_or_empty(&parts, 4);
    Some(
        CommitInfo {
            short: short_oid(&oid),
            author: nul_field_or_empty(&parts, 1),
            when,
            subject: nul_field_or_empty(&parts, 3),
            body: trim_end(body.as_str()),
        },
    )
}

/// The CSS class for a diff line, chosen from its leading marker.
pub open spec fn line_class(line: Seq<char>) -> Seq<char> {
    if starts(line, "@@"@) {
        "hunk"@
    } else if starts(line, "+++"@) || starts(line, "---"@) || starts(line, "diff "@) {
        "file"@
    } else if starts(line, "index "@) || starts(line, "new file"@) || starts(
        line,
        "deleted file"@,
    ) || starts(line, "old mode"@) || starts(line, "new mode"@) || starts(line, "rename "@)
        || starts(line, "similarity "@) || starts(line, "Binary files"@) {
        "meta"@
    } else if starts(line, "+"@) {
        "add"@
    } else if starts(line, "-"@) {
        "del"@
    } else {
        "ctx"@
    }
}

/// The CSS class for a diff line, chosen from its leading marker.
pub fn diff_class(line: &str) -> (r: &'static str)
    ensures
        r@ == line_class(line@),
{
    if starts_with(line, "@@") {
        "hunk"
    } else if starts_with(line, "+++") || starts_with(line, "---") || starts_with(line, "diff ") {
        "file"
    } else if starts_with(line, "index ") || starts_with(line, "new file") || starts_with(
        line,
        "deleted file",
    ) || starts_with(line, "old mode") || starts_with(line, "new mode") || starts_with(
        line,
        "rename ",
    ) || starts_with(line, "similarity ") || starts_with(line, "Binary files") {
        "meta"
    } else if starts_with(line, "+") {
        "add"
    } else if starts_with(line, "-") {
        "del"
    } else {
        "ctx"
    }
}

/// A diff's lines with their classes, as plain values.
pub open spec fn diff_views(v: Seq<(&'static str, String)>) -> Seq<(Seq<char>, Seq<char>)> {
    v.map_values(|line: (&'static str, String)| (line.0@, line.1@))
}

/// The lines of a unified diff, each with its class; none of a blank one.
pub open spec fn diff_lines(patch: Seq<char>) -> Seq<(Seq<char>, Seq<char>)> {
    if trimmed(patch).len() == 0 {
        Seq::empty()
    } else {
        lines_of(patch).map_values(|line: Seq<char>| (line_class(line), line))
    }
}

/// The lines of a unified diff, each with its class; none of a blank one.
pub fn diff_view(patch: &str) -> (r: Vec<(&'static str, String)>)
    ensures
        diff_views(r@) == diff_lines(patch@),
{
    let mut r: Vec<(&'static str, String)> = Vec::new();
    let blank = trim(patch);
    if blank.as_str().is_empty() {
        proof {
            assert(diff_views(r@) =~= diff_lines(patch@));
        }
        return r;
    }
    let all = lines(patch);
    let mut i: usize = 0;
    while i < all.len()
        invariant
            i <= all@.len(),
            r@.len() == i,
            forall|j: int|
                0 <= j < i ==> (#[trigger] r@[j]).0@ == line_class(all@[j]@) && r@[j].1@
                    == all@[j]@,
        decreases all@.len() - i,
    {
        let class = diff_class(all[i].as_str());
        r.push((class, all[i].clone()));
        i += 1;
    }
    proof {
        let seen = texts(all@);
        assert forall|j: int| 0 <= j < seen.len() implies diff_views(r@)[j] == diff_lines(
            patch@,
        )[j] by {
            assert(seen[j] == all@[j]@);
            assert(diff_views(r@)[j] == (r@[j].0@, r@[j].1@));
        }
        assert(diff_views(r@) =~= diff_lines(patch@));
    }
    r
}

/// A release of the timeline.
#[derive(Debug, PartialEq, Eq)]
pub struct ReleaseRow {
    /// The tag.
    pub tag: String,
    /// The release's name, where it says more than the tag.
    pub name: Option<String>,
    /// Whether it is the newest.
    pub latest: bool,
    /// How long ago it was made.
    pub when: String,
    /// The release's notes, where there are any.
    pub notes: Option<String>,
    /// Its commit, shortened.
    pub short: String,
}

/// Whether a row shows a release.
pub open spec fn shows_release(row: ReleaseRow, release: Release, i: int, now: i64) -> bool {
    &&& row.tag@ == release.tag@
    &&& opt_text(row.name) == (if release.title@.len() > 0 && release.title@ != release.tag@ {
        Some(release.title@)
    } else {
        None
    })
    &&& row.latest == (i == 0)
    &&& row.when@ == ago_text(elapsed(now, release.date.seconds))
    &&& opt_text(row.notes) == (if release.body@.len() > 0 {
        Some(release.body@)
    } else {
        None
    })
    &&& row.short@ == short_digits(release.oid@)
}

/// The releases tab: tags presented as a changelog timeline, newest first.
pub fn releases_page(releases: &[Release], now: i64) -> (r: Vec<ReleaseRow>)
    ensures
        r@.len() == releases@.len(),
        forall|i: int|
            0 <= i < r@.len() ==> shows_release(#[trigger] r@[i], releases@[i], i, now),
{
    let mut r: Vec<ReleaseRow> = Vec::new();
    let mut i: usize = 0;
    while i < releases.len()
        invariant
            i <= releases@.len(),
            r@.len() == i,
            forall|j: int| 0 <= j < i ==> shows_release(#[trigger] r@[j], releases@[j], j, now),
        decreases releases@.len() - i,
    {
        let release = &releases[i];
        let name = if release.title.as_str().is_empty() || same(
            release.title.as_str(),
            release.tag.as_str(),
        ) {
            None
        } else {
            Some(release.title.clone())
        };
        let notes = if release.body.as_str().is_empty() {
            None
        } else {
            Some(release.body.clone())
        };
        r.push(
            ReleaseRow {
                tag: release.tag.clone(),
                name,
                latest: i == 0,
                when: ago_seconds(now, release.date.seconds),
                notes,
                short: short_oid(&release.oid),
            },
        );
        i += 1;
    }
    r
}

/// A parsed `git log` entry.
#[derive(Debug, PartialEq, Eq)]
pub struct Commit {
    /// The commit's id, shortened.
    pub short: String,
    /// Its author.
    pub author: String,
    /// When it was made, in git's words.
    pub when: String,
    /// Its subject.
    pub subject: String,
}

/// The commits as plain values.
pub open spec fn log_views(v: Seq<Commit>) -> Seq<(Seq<char>, Seq<char>, Seq<char>, Seq<char>)> {
    v.map_values(|c: Commit| (c.short@, c.author@, c.when@, c.subject@))
}

/// The commit that a line of `git log` stands for, its fields divided by NULs.
pub open spec fn logged(line: Seq<char>) -> Option<
    (Seq<char>, Seq<char>, Seq<char>, Seq<char>),
> {
    let hash = nul_part_or_empty(line, 0);
    if hash.len() == 0 {
        None
    } else {
        Some(
            (
                short_digits(hash),
                nul_part_or_empty(line, 1),
                nul_part_or_empty(line, 2),
                nul_part_or_empty(line, 3),
            ),
        )
    }
}

fn parse_logged(line: &str) -> (r: Option<Commit>)
    ensures
        match r {
            Some(c) => logged(line@) == Some((c.short@, c.author@, c.when@, c.subject@)),
            None => logged(line@) is None,
        },
{
    let parts = split(line, '\0');
    proof {
        assert(texts(parts@).len() == parts@.len());
        assert(forall|i: int| 0 <= i < parts@.len() ==> texts(parts@)[i] == #[trigger] parts@[i]@);
    }
    let hash = nul_field_or_empty(&parts, 0);
    if hash.as_str().is_empty() {
        return None;
    }
    Some(
        Commit {
            short: shorten(hash.as_str(), 7),
            author: nul_field_or_empty(&parts, 1),
            when: nul_field_or_empty(&parts, 2),
            subject: nul_field_or_empty(&parts, 3),
        },
    )
}

/// The most recent commits, newest first, given what `git log` printed; none
/// where it failed.
pub fn recent_commits(log: Option<&str>) -> (r: Vec<Commit>)
    ensures
        log_views(r@) == (match log {
            None => Seq::empty(),
            Some(text) => kept(lines_of(text@), |line: Seq<char>| logged(line)),
        }),
{
    let mut r: Vec<Commit> = Vec::new();
    let text = match log {
        None => {
            proof {
                assert(log_views(r@) =~= Seq::empty());
            }
            return r;
        },
        Some(text) => text,
    };
    let all = lines(text);
    let ghost seen = texts(all@);
    let ghost f = |line: Seq<char>| logged(line);
    let mut i: usize = 0;
    proof {
        assert(log_views(r@) =~= kept(seen.take(0), f));
    }
    while i < all.len()
        invariant
            i <= all@.len(),
            seen == texts(all@),
            f == (|line: Seq<char>| logged(line)),
            log_views(r@) == kept(seen.take(i as int), f),
        decreases all@.len() - i,
    {
        proof {
            lemma_kept_step(seen, f, i as int);
            assert(seen[i as int] == all@[i as int]@);
        }
        if let Some(commit) = parse_logged(all[i].as_str()) {
            let ghost prior = r@;
            r.push(commit);
            proof {
                assert(log_views(r@) =~= log_views(prior).push(
                    (commit.short@, commit.author@, commit.when@, commit.subject@),
                ));
            }
        }
        i += 1;
    }
    proof {
        assert(seen.take(seen.len() as int) =~= seen);
    }
    r
}

/// Law: a line of the log is a commit: its hash in short, its author, when, and
/// its subject, as they stand between the NULs.
pub proof fn law_log_line_is_its_commit(
    hash: Seq<char>,
    author: Seq<char>,
    when: Seq<char>,
    subject: Seq<char>,
)
    requires
        is_id(hash),
        !author.contains('\0'),
        !when.contains('\0'),
        !subject.contains('\0'),
    ensures
        logged(hash + "\0"@ + author + "\0"@ + when + "\0"@ + subject) == Some(
            (hash.take(7), author, when, subject),
        ),
{
    reveal_strlit("\0");
    let line = hash + "\0"@ + author + "\0"@ + when + "\0"@ + subject;
    lemma_four_parts(hash, author, when, subject);
    assert(line =~= hash + seq!['\0'] + (author + seq!['\0'] + (when + seq!['\0'] + subject)));
    lemma_short_id(hash);
}

/// An id has no NUL, and its short form is its first seven digits.
proof fn lemma_short_id(id: Seq<char>)
    requires
        is_id(id),
    ensures
        short_digits(id) == id.take(7),
        !id.contains('\0'),
{
    assert forall|i: int| 0 <= i < id.len() implies ((#[trigger] id[i]) as u32) < 0x80 && id[i]
        != '\0' by {
        assert('0' <= id[i] <= '9' || 'a' <= id[i] <= 'f');
    }
    crate::text::law_short_form_is_the_beginning(id, 7);
}

proof fn lemma_four_parts(a: Seq<char>, b: Seq<char>, c: Seq<char>, d: Seq<char>)
    requires
        is_id(a),
        !b.contains('\0'),
        !c.contains('\0'),
        !d.contains('\0'),
    ensures
        split_on(a + seq!['\0'] + (b + seq!['\0'] + (c + seq!['\0'] + d)), '\0') == seq![
            a,
            b,
            c,
            d,
        ],
{
    lemma_short_id(a);
    lemma_split_front(a, '\0', b + seq!['\0'] + (c + seq!['\0'] + d));
    lemma_split_front(b, '\0', c + seq!['\0'] + d);
    lemma_split_front(c, '\0', d);
    lemma_split_front(d, '\0', seq![]);
    assert(seq![a] + (seq![b] + (seq![c] + seq![d])) =~= seq![a, b, c, d]);
}

/// Law: what is shown of a commit is its own: its short id, author, subject and
/// message.
pub proof fn law_commit_is_shown(
    shown: Option<CommitInfo>,
    id: Seq<char>,
    author: Seq<char>,
    date: Seq<char>,
    subject: Seq<char>,
    body: Seq<char>,
    now: i64,
)
    requires
        is_id(id),
        !author.contains('\0'),
        !date.contains('\0'),
        !subject.contains('\0'),
        !body.contains('\0'),
        is_info(
            shown,
            id + "\0"@ + author + "\0"@ + date + "\0"@ + subject + "\0"@ + body,
            now,
        ),
    ensures
        shown matches Some(info) && info.short@ == id.take(7) && info.author@ == author
            && info.subject@ == subject && info.body@ == trimmed_end(body) && (date_of(
            date,
        ) is None <==> info.when is None),
{
    reveal_strlit("\0");
    let text = id + "\0"@ + author + "\0"@ + date + "\0"@ + subject + "\0"@ + body;
    let rest = author + seq!['\0'] + (date + seq!['\0'] + (subject + seq!['\0'] + body));
    assert(text =~= id + seq!['\0'] + rest);
    lemma_short_id(id);
    lemma_split_front(id, '\0', rest);
    lemma_split_front(author, '\0', date + seq!['\0'] + (subject + seq!['\0'] + body));
    lemma_split_front(date, '\0', subject + seq!['\0'] + body);
    lemma_split_front(subject, '\0', body);
    lemma_split_front(body, '\0', seq![]);
    assert(split_on(text, '\0') =~= seq![id, author, date, subject, body]);
    assert('0' <= id[0] <= '9' || 'a' <= id[0] <= 'f');
    assert('0' <= id[39] <= '9' || 'a' <= id[39] <= 'f');
    crate::sessions::lemma_trimmed_plain(id);
    law_id_reads_as_itself(id);
}

/// Law: a line of a patch that adds or removes text is marked so, and one that
/// leaves it is not; the lines that name the files and the hunks are marked as
/// what they are.
pub proof fn law_patch_lines_are_marked(text: Seq<char>)
    ensures
        text.len() == 0 || text[0] != '+' ==> line_class("+"@ + text) == "add"@,
        text.len() == 0 || text[0] != '-' ==> line_class("-"@ + text) == "del"@,
        line_class(" "@ + text) == "ctx"@,
        line_class("@@"@ + text) == "hunk"@,
        line_class("diff "@ + text) == "file"@,
        line_class("+++"@ + text) == "file"@,
        line_class("---"@ + text) == "file"@,
{
    reveal_strlit("+");
    reveal_strlit("-");
    reveal_strlit(" ");
    reveal_strlit("@@");
    reveal_strlit("+++");
    reveal_strlit("---");
    reveal_strlit("diff ");
    reveal_strlit("index ");
    reveal_strlit("new file");
    reveal_strlit("deleted file");
    reveal_strlit("old mode");
    reveal_strlit("new mode");
    reveal_strlit("rename ");
    reveal_strlit("similarity ");
    reveal_strlit("Binary files");
    lemma_marked("+"@ + text, '+');
    lemma_marked("-"@ + text, '-');
    lemma_marked(" "@ + text, ' ');
    lemma_marked("@@"@ + text, '@');
    lemma_marked("diff "@ + text, 'd');
    lemma_marked("+++"@ + text, '+');
    lemma_marked("---"@ + text, '-');
    assert(("+"@ + text).take(1) =~= "+"@);
    assert(("-"@ + text).take(1) =~= "-"@);
    assert(("@@"@ + text).take(2) =~= "@@"@);
    assert(("diff "@ + text).take(5) =~= "diff "@);
    assert(("+++"@ + text).take(3) =~= "+++"@);
    assert(("---"@ + text).take(3) =~= "---"@);
    if starts("+"@ + text, "+++"@) {
        assert(("+"@ + text).take(3)[1] == "+++"@[1]);
    }
    if starts("-"@ + text, "---"@) {
        assert(("-"@ + text).take(3)[1] == "---"@[1]);
    }
}

/// A line begins with a prefix only where its first character does.
proof fn lemma_marked(line: Seq<char>, c: char)
    requires
        line.len() > 0,
        line[0] == c,
    ensures
        forall|prefix: Seq<char>| #[trigger]
            starts(line, prefix) && prefix.len() > 0 ==> prefix[0] == c,
{
    assert forall|prefix: Seq<char>| #[trigger]
        starts(line, prefix) && prefix.len() > 0 implies prefix[0] == c by {
        assert(line.take(prefix.len() as int)[0] == prefix[0]);
    }
}

/// Law: every line of a patch is shown, as it is and in order.
pub proof fn law_patch_is_shown_whole(patch: Seq<char>)
    requires
        trimmed(patch).len() > 0,
    ensures
        diff_lines(patch).len() == lines_of(patch).len(),
        forall|i: int|
            0 <= i < lines_of(patch).len() ==> (#[trigger] diff_lines(patch)[i]).1 == lines_of(
                patch,
            )[i],
{
}

} // verus!
