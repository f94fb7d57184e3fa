//! The comment, check, account, redaction and toolchain commands: what they
//! print, what they store, and what they refuse.

use vstd::prelude::*;
use vstd::utf8::encode_utf8;

use crate::account::Account;
use crate::check_pages::{all_runs, status_word, word_of, CommitRecord, RecordedRun};
use crate::comments::COMMENTS_NS;
use crate::error::Error;
use crate::files::Projection;
use crate::object_id::{hex_id, ObjectId};
use crate::keyed::{before, lemma_before_irreflexive, lemma_before_total};
use crate::order::{as_ints, earlier, is_arranged, is_order, key_views, order_of, Key};
use crate::porcelain::{ago, short_ago};
use crate::random::{lower_hexadecimal, random_simple_uuid};
use crate::runner::{CheckDef, CheckRun};
use crate::schedule::{is_dangling, is_schedule, lacks, names_a_schedule, order, Disorder};
use crate::seqs::{
    first_where, kept, lemma_first_where, lemma_first_where_is, lemma_kept_from, lemma_kept_step,
};
use crate::text::{
    decimal, join, joined, lines, lines_of, pairs, parse_decimal, parsed_decimal, push_decimal,
    push_pair, same, short_of, shorten, split_once, starts, starts_with, texts,
};
use crate::tree::{entry_views, Entry, EntryKind, EntryView};
use crate::web_edit::{listed_names, range_parts, split_names, LineRange};

verus! {

/// The ids that begin with a prefix.
pub open spec fn ids_with(ids: Seq<Seq<char>>, prefix: Seq<char>) -> Seq<Seq<char>> {
    ids.filter(|id: Seq<char>| starts(id, prefix))
}

/// Resolves a comment's id, or a unique prefix of one, among the ids there are.
pub fn resolve_comment_id(ids: &[String], id: &str, remote: &str) -> (r: Result<String, String>)
    ensures
        ({
            let found = ids_with(texts(ids@), id@);
            if found.len() == 0 {
                r matches Err(message) && message@ == "no comment "@ + id@ + " on "@ + remote@
            } else if found.len() > 1 {
                r matches Err(message) && message@ == "comment id "@ + id@ + " is ambiguous on "@
                    + remote@
            } else {
                r matches Ok(full) && full@ == found[0]
            }
        }),
{
    let ghost all = texts(ids@);
    let ghost p = |id2: Seq<char>| starts(id2, id@);
    let mut found: Vec<String> = Vec::new();
    let mut i: usize = 0;
    proof {
        reveal(Seq::filter);
        assert(texts(found@) =~= all.take(0).filter(p));
    }
    while i < ids.len()
        invariant
            i <= ids@.len(),
            all == texts(ids@),
            p == (|id2: Seq<char>| starts(id2, id@)),
            texts(found@) == all.take(i as int).filter(p),
        decreases ids@.len() - i,
    {
        proof {
            reveal(Seq::filter);
            assert(all[i as int] == ids@[i as int]@);
            assert(all.take(i + 1).drop_last() =~= all.take(i as int));
            assert(all.take(i + 1).last() == all[i as int]);
        }
        if starts_with(ids[i].as_str(), id) {
            let ghost prior = texts(found@);
            found.push(ids[i].clone());
            proof {
                assert(texts(found@) =~= prior.push(all[i as int]));
            }
        }
        i += 1;
    }
    proof {
        assert(all.take(all.len() as int) =~= all);
        assert(texts(found@).len() == found@.len());
        assert(ids_with(all, id@) == all.filter(p));
    }
    if found.len() == 0 {
        let mut message = "no comment ".to_owned();
        message.append(id);
        message.append(" on ");
        message.append(remote);
        Err(message)
    } else if found.len() > 1 {
        let mut message = "comment id ".to_owned();
        message.append(id);
        message.append(" is ambiguous on ");
        message.append(remote);
        Err(message)
    } else {
        proof {
            assert(texts(found@)[0] == found@[0]@);
        }
        Ok(found[0].clone())
    }
}

/// Where a comment is, as it is printed: `path`, `path:line` or
/// `path:start-end`.
pub open spec fn place(path: Seq<char>, lines: Option<LineRange>) -> Seq<char> {
    match lines {
        None => path,
        Some(range) => if range.start == range.end {
            path + ":"@ + decimal(range.start as nat)
        } else {
            path + ":"@ + decimal(range.start as nat) + "-"@ + decimal(range.end as nat)
        },
    }
}

/// `path:lines` as an anchored location is printed.
pub fn location(path: &str, lines: Option<LineRange>) -> (r: String)
    ensures
        r@ == place(path@, lines),
{
    let mut r = path.to_owned();
    if let Some(range) = lines {
        r.append(":");
        push_decimal(&mut r, range.start);
        if range.start != range.end {
            r.append("-");
            push_decimal(&mut r, range.end);
        }
    }
    r
}

/// Where a comment sits on a revision, given its anchor and where that was
/// projected to, if it could be.
pub open spec fn projected_place(
    path: Seq<char>,
    lines: Option<LineRange>,
    projection: Option<Projection>,
) -> Seq<char> {
    match projection {
        Some(Projection::Current) => place(path, lines),
        Some(Projection::Relocated { path, lines }) => place(path@, lines),
        Some(Projection::Outdated { path }) => path@ + " [outdated]"@,
        Some(Projection::FileDeleted) => path + " [deleted]"@,
        None => path + " [unresolved]"@,
    }
}

/// One-line description of where a comment sits on a revision.
pub fn describe_projection(
    path: &str,
    lines: Option<LineRange>,
    projection: &Option<Projection>,
) -> (r: String)
    ensures
        r@ == projected_place(path@, lines, *projection),
{
    match projection {
        Some(Projection::Current) => location(path, lines),
        Some(Projection::Relocated { path, lines }) => location(path.as_str(), *lines),
        Some(Projection::Outdated { path }) => {
            let mut r = path.clone();
            r.append(" [outdated]");
            r
        },
        Some(Projection::FileDeleted) => {
            let mut r = path.to_owned();
            r.append(" [deleted]");
            r
        },
        None => {
            let mut r = path.to_owned();
            r.append(" [unresolved]");
            r
        },
    }
}

/// The first line of a text.
pub open spec fn first_line(text: Seq<char>) -> Seq<char> {
    if lines_of(text).len() > 0 {
        lines_of(text)[0]
    } else {
        Seq::empty()
    }
}

/// The line of a comment in a listing: its id, author, place and first line.
pub fn comment_line(id: &str, author: Option<&str>, place: &str, body: &str) -> (r: String)
    ensures
        r@ == short_of(id@, 12) + "  "@ + (match author {
            Some(author) => author@,
            None => "?"@,
        }) + "  "@ + place@ + "  "@ + first_line(body@),
{
    let all = lines(body);
    let mut r = shorten(id, 12);
    r.append("  ");
    match author {
        Some(author) => {
            r.append(author);
        },
        None => {
            r.append("?");
        },
    }
    r.append("  ");
    r.append(place);
    r.append("  ");
    proof {
        assert(texts(all@).len() == all@.len());
    }
    if all.len() > 0 {
        proof {
            assert(texts(all@)[0] == all@[0]@);
        }
        r.append(all[0].as_str());
    }
    proof {
        assert(r@ =~= short_of(id@, 12) + "  "@ + (match author {
            Some(author) => author@,
            None => "?"@,
        }) + "  "@ + place@ + "  "@ + first_line(body@));
    }
    r
}

/// Who did something, as git records it.
#[derive(Debug, PartialEq, Eq)]
pub struct Person {
    /// Their name.
    pub name: String,
    /// Their address.
    pub email: String,
    /// When, in seconds since the epoch.
    pub seconds: u64,
}

/// Whether two records are the same.
pub open spec fn same_person(a: Person, b: Person) -> bool {
    a.name@ == b.name@ && a.email@ == b.email@ && a.seconds == b.seconds
}

/// A comment as it is shown.
#[derive(Debug)]
pub struct ShownComment {
    /// Its id.
    pub id: String,
    /// Who wrote it and who edited it last, where that is known.
    pub provenance: Option<(Person, Person)>,
    /// The file it is anchored to.
    pub path: String,
    /// The lines it is anchored to.
    pub lines: Option<LineRange>,
    /// The commit it is anchored at.
    pub commit: String,
    /// The issue it belongs to.
    pub issue: Option<String>,
    /// The anchored text, where it could be read.
    pub snippet: Option<String>,
    /// Its text.
    pub body: String,
}

/// A name and an address.
pub open spec fn name_and_address(label: Seq<char>, person: Person) -> Seq<char> {
    label + person.name@ + " <"@ + person.email@ + ">"@
}

fn person_line(label: &str, person: &Person) -> (r: String)
    ensures
        r@ == name_and_address(label@, *person),
{
    let mut r = label.to_owned();
    r.append(person.name.as_str());
    r.append(" <");
    r.append(person.email.as_str());
    r.append(">");
    r
}

/// The lines that say who wrote a comment, and who edited it if anybody did.
pub open spec fn provenance_lines(provenance: Option<(Person, Person)>) -> Seq<Seq<char>> {
    match provenance {
        None => Seq::empty(),
        Some((created, updated)) => if same_person(created, updated) {
            seq![name_and_address("author  "@, created)]
        } else {
            seq![name_and_address("author  "@, created), name_and_address("edited  "@, updated)]
        },
    }
}

/// The lines of a text, each behind a mark.
pub open spec fn marked(text: Seq<char>, mark: Seq<char>) -> Seq<Seq<char>> {
    lines_of(text).map_values(|line: Seq<char>| mark + line)
}

/// The line that names a comment's issue.
pub open spec fn issue_lines(issue: Option<String>) -> Seq<Seq<char>> {
    match issue {
        Some(issue) => seq!["issue   "@ + issue@],
        None => Seq::empty(),
    }
}

/// The lines that show the text a comment is anchored to, where it is anchored
/// to lines and they could be read.
pub open spec fn snippet_lines(lines: Option<LineRange>, snippet: Option<String>) -> Seq<Seq<char>> {
    match (lines, snippet) {
        (Some(_), Some(snippet)) => seq![Seq::<char>::empty()] + marked(snippet@, "  | "@),
        _ => Seq::empty(),
    }
}

/// The lines that show a comment.
pub open spec fn comment_lines(c: ShownComment, rev: Seq<char>, place_on: Seq<char>) -> Seq<
    Seq<char>,
> {
    seq!["comment "@ + c.id@] + provenance_lines(c.provenance) + seq![
        "anchor  "@ + place(c.path@, c.lines) + " @ "@ + short_of(c.commit@, 12),
        "on "@ + rev + ": "@ + place_on,
    ] + issue_lines(c.issue) + snippet_lines(c.lines, c.snippet) + seq![Seq::<char>::empty()] + marked(c.body@, "  "@)
}

fn push_marked(out: &mut Vec<String>, text: &str, mark: &str)
    ensures
        texts(final(out)@) == texts(old(out)@) + marked(text@, mark@),
{
    let ghost start = texts(out@);
    let all = lines(text);
    let ghost wanted = marked(text@, mark@);
    let mut i: usize = 0;
    proof {
        assert(texts(all@).len() == all@.len());
        assert(start + wanted.take(0) =~= start);
    }
    while i < all.len()
        invariant
            i <= all@.len(),
            texts(all@) == lines_of(text@),
            wanted == marked(text@, mark@),
            wanted.len() == all@.len(),
            texts(out@) == start + wanted.take(i as int),
        decreases all@.len() - i,
    {
        let mut line = mark.to_owned();
        line.append(all[i].as_str());
        proof {
            assert(texts(all@)[i as int] == all@[i as int]@);
            assert(wanted[i as int] == line@);
        }
        let ghost prior = texts(out@);
        out.push(line);
        proof {
            assert(texts(out@) =~= prior.push(line@));
            assert(texts(out@) =~= start + wanted.take(i + 1));
        }
        i += 1;
    }
    proof {
        assert(wanted.take(wanted.len() as int) =~= wanted);
    }
}

fn push_line(out: &mut Vec<String>, line: String)
    ensures
        texts(final(out)@) == texts(old(out)@) + seq![line@],
{
    let ghost prior = texts(out@);
    out.push(line);
    proof {
        assert(texts(out@) =~= prior + seq![line@]);
    }
}

/// Shows a comment: who wrote and last edited it, where it was anchored, where
/// that sits on a revision, the anchored text, and the body.
pub fn comment_show(c: &ShownComment, rev: &str, place_on: &str) -> (r: Vec<String>)
    ensures
        texts(r@) == comment_lines(*c, rev@, place_on@),
{
    let mut r: Vec<String> = Vec::new();
    proof {
        assert(texts(r@) =~= Seq::<Seq<char>>::empty());
    }
    let mut title = "comment ".to_owned();
    title.append(c.id.as_str());
    push_line(&mut r, title);
    let ghost one = seq!["comment "@ + c.id@];
    proof {
        assert(texts(r@) =~= one);
    }
    if let Some((created, updated)) = &c.provenance {
        push_line(&mut r, person_line("author  ", created));
        if !(same(created.name.as_str(), updated.name.as_str()) && same(
            created.email.as_str(),
            updated.email.as_str(),
        ) && created.seconds == updated.seconds) {
            push_line(&mut r, person_line("edited  ", updated));
        }
    }
    let ghost two = one + provenance_lines(c.provenance);
    proof {
        assert(texts(r@) =~= two);
    }
    let mut anchor = "anchor  ".to_owned();
    anchor.append(location(c.path.as_str(), c.lines).as_str());
    anchor.append(" @ ");
    anchor.append(shorten(c.commit.as_str(), 12).as_str());
    push_line(&mut r, anchor);
    let mut on = "on ".to_owned();
    on.append(rev);
    on.append(": ");
    on.append(place_on);
    push_line(&mut r, on);
    let ghost three = two + seq![anchor@, on@];
    proof {
        assert(texts(r@) =~= three);
    }
    if let Some(issue) = &c.issue {
        let mut line = "issue   ".to_owned();
        line.append(issue.as_str());
        push_line(&mut r, line);
    }
    let ghost four = three + issue_lines(c.issue);
    proof {
        assert(texts(r@) =~= four);
    }
    if c.lines.is_some() {
        if let Some(snippet) = &c.snippet {
            push_line(&mut r, String::new());
            push_marked(&mut r, snippet.as_str(), "  | ");
        }
    }
    let ghost five = four + snippet_lines(c.lines, c.snippet);
    proof {
        assert(texts(r@) =~= five);
    }
    push_line(&mut r, String::new());
    push_marked(&mut r, c.body.as_str(), "  ");
    proof {
        assert(texts(r@) =~= five + seq![Seq::<char>::empty()] + marked(c.body@, "  "@));
    }
    r
}

/// What is said of a check beside its name.
pub open spec fn check_text(check: CheckDef) -> Seq<char> {
    (match check.command {
        Some(command) => command@,
        None => "(composite)"@,
    }) + (match check.image {
        Some(image) => "  [image: "@ + image@ + "]"@,
        None => Seq::empty(),
    }) + (if check.depends@.len() > 0 {
        "  [needs: "@ + joined(texts(check.depends@), ", "@) + "]"@
    } else {
        Seq::empty()
    })
}

/// What is said of a check beside its name.
pub fn check_value(check: &CheckDef) -> (r: String)
    ensures
        r@ == check_text(*check),
{
    let mut value = match &check.command {
        Some(command) => command.clone(),
        None => "(composite)".to_owned(),
    };
    let ghost one = value@;
    let mut image_note = String::new();
    if let Some(image) = &check.image {
        image_note.append("  [image: ");
        image_note.append(image.as_str());
        image_note.append("]");
    }
    let mut needs_note = String::new();
    if check.depends.len() > 0 {
        needs_note.append("  [needs: ");
        needs_note.append(join(check.depends.as_slice(), ", ").as_str());
        needs_note.append("]");
    }
    value.append(image_note.as_str());
    value.append(needs_note.as_str());
    proof {
        assert(value@ =~= check_text(*check));
    }
    value
}

/// The line of a check in a listing.
pub open spec fn check_row(check: CheckDef) -> Seq<char> {
    check.name@ + "  "@ + check_text(check)
}

/// Lists the checks configured on a remote.
pub fn checks_list(remote: &str, checks: &[CheckDef]) -> (r: Vec<String>)
    ensures
        texts(r@) == (if checks@.len() == 0 {
            seq!["no checks configured on "@ + remote@]
        } else {
            checks@.map_values(|check: CheckDef| check_row(check))
        }),
{
    let mut r: Vec<String> = Vec::new();
    if checks.len() == 0 {
        let mut line = "no checks configured on ".to_owned();
        line.append(remote);
        r.push(line);
        proof {
            assert(texts(r@) =~= seq!["no checks configured on "@ + remote@]);
        }
        return r;
    }
    let mut i: usize = 0;
    while i < checks.len()
        invariant
            i <= checks@.len(),
            r@.len() == i,
            forall|j: int| 0 <= j < i ==> (#[trigger] r@[j])@ == check_row(checks@[j]),
        decreases checks@.len() - i,
    {
        let mut line = checks[i].name.clone();
        line.append("  ");
        line.append(check_value(&checks[i]).as_str());
        r.push(line);
        i += 1;
    }
    proof {
        assert(texts(r@) =~= checks@.map_values(|check: CheckDef| check_row(check)));
    }
    r
}

/// A check, unless it is of a name.
pub open spec fn unless_named(check: CheckDef, name: Seq<char>) -> Option<CheckDef> {
    if check.name@ == name {
        None
    } else {
        Some(check)
    }
}

/// The checks of other names.
pub open spec fn other_checks(checks: Seq<CheckDef>, name: Seq<char>) -> Seq<CheckDef> {
    kept(checks, |check: CheckDef| unless_named(check, name))
}

fn drop_named(checks: Vec<CheckDef>, name: &str) -> (r: Vec<CheckDef>)
    ensures
        r@ == other_checks(checks@, name@),
{
    let ghost all = checks@;
    let ghost f = |check: CheckDef| unless_named(check, name@);
    let mut r: Vec<CheckDef> = Vec::new();
    proof {
        assert(r@ =~= kept(all.take(0), f));
    }
    for check in it: checks
        invariant
            it.seq() == all,
            f == (|check: CheckDef| unless_named(check, name@)),
            r@ == kept(all.take(it.index()), f),
    {
        proof {
            lemma_kept_step(all, f, it.index());
        }
        if !same(check.name.as_str(), name) {
            r.push(check);
        }
    }
    proof {
        assert(all.take(all.len() as int) =~= all);
    }
    r
}

/// Drops a check from the set, or says that there is none of that name.
pub fn checks_remove(checks: Vec<CheckDef>, name: &str, remote: &str) -> (r: Result<
    Vec<CheckDef>,
    String,
>)
    ensures
        ({
            let left = other_checks(checks@, name@);
            if left.len() == checks@.len() {
                r matches Err(message) && message@ == "no check named "@ + name@ + " on "@
                    + remote@
            } else {
                r matches Ok(kept) && kept@ == left
            }
        }),
{
    let count: usize = checks.len();
    let left = drop_named(checks, name);
    if left.len() == count {
        let mut message = "no check named ".to_owned();
        message.append(name);
        message.append(" on ");
        message.append(remote);
        return Err(message);
    }
    Ok(left)
}

/// The set with a check added, in the place of any of its name.
pub open spec fn with_check(checks: Seq<CheckDef>, check: CheckDef) -> Seq<CheckDef> {
    other_checks(checks, check.name@).push(check)
}

/// Adds a check to the set, replacing any already recorded under its name. The
/// whole set is tested as a dependency graph, so a cycle or a dangling
/// dependency never lands on a remote.
pub fn checks_add(checks: Vec<CheckDef>, check: CheckDef) -> (r: Result<Vec<CheckDef>, Disorder>)
    ensures
        r matches Ok(set) ==> set@ == with_check(checks@, check) && exists|places: Seq<int>|
            #[trigger] is_schedule(set@, places),
        r matches Err(Disorder::Unknown { check: name, dependency }) ==> lacks(
            with_check(checks@, check),
            name@,
            dependency@,
        ),
        r matches Err(Disorder::Cycle) ==> (forall|i: int, name: Seq<char>|
            !#[trigger] is_dangling(with_check(checks@, check), i, name)) && forall|
            places: Seq<int>,
        |
            !#[trigger] is_schedule(with_check(checks@, check), places),
{
    let mut set = drop_named(checks, check.name.as_str());
    set.push(check);
    match order(set.as_slice()) {
        Ok(names) => {
            proof {
                assert(names_a_schedule(set@, texts(names@)));
                let places = choose|places: Seq<int>| #[trigger]
                    is_schedule(set@, places) && texts(names@) == Seq::new(
                        places.len(),
                        |i: int| set@[places[i]].name@,
                    );
                assert(is_schedule(set@, places));
            }
            Ok(set)
        },
        Err(disorder) => Err(disorder),
    }
}

/// After a check was added there is one of its name, and it is that.
pub proof fn law_added_check_is_the_only_one(checks: Seq<CheckDef>, check: CheckDef, i: int)
    requires
        0 <= i < with_check(checks, check).len(),
        with_check(checks, check)[i].name@ == check.name@,
    ensures
        with_check(checks, check)[i] == check,
{
    let others = other_checks(checks, check.name@);
    if i < others.len() {
        let f = |c: CheckDef| unless_named(c, check.name@);
        let k = lemma_kept_from(checks, f, i);
    }
}

/// The names in a reply to the question for dependencies; none where there was
/// no reply.
pub fn parse_depends(reply: Option<&str>) -> (r: Vec<String>)
    ensures
        texts(r@) == (match reply {
            Some(text) => listed_names(text@),
            None => Seq::empty(),
        }),
{
    match reply {
        Some(text) => split_names(text),
        None => {
            let r: Vec<String> = Vec::new();
            proof {
                assert(texts(r@) =~= Seq::empty());
            }
            r
        },
    }
}

/// An outcome in a listing of runs.
pub open spec fn outcome_word(run: CheckRun) -> Seq<char> {
    run.name@ + "="@ + word_of(run.status)
}

/// The line of a run.
pub open spec fn run_line(commit: Seq<char>, run: RecordedRun, now: u64) -> Seq<char> {
    short_of(commit, 12) + "  "@ + short_ago(
        if now > run.at {
            (now - run.at) as nat
        } else {
            0
        },
    ) + "  "@ + joined(
        run.results@.map_values(|outcome: CheckRun| outcome_word(outcome)),
        "  "@,
    )
}

fn format_run(commit: &str, run: &RecordedRun, now: u64) -> (r: String)
    ensures
        r@ == run_line(commit@, *run, now),
{
    let mut words: Vec<String> = Vec::new();
    let mut i: usize = 0;
    while i < run.results.len()
        invariant
            i <= run.results@.len(),
            words@.len() == i,
            forall|j: int| 0 <= j < i ==> (#[trigger] words@[j])@ == outcome_word(run.results@[j]),
        decreases run.results@.len() - i,
    {
        let mut word = run.results[i].name.clone();
        word.append("=");
        word.append(status_word(run.results[i].status));
        words.push(word);
        i += 1;
    }
    proof {
        assert(texts(words@) =~= run.results@.map_values(
            |outcome: CheckRun| outcome_word(outcome),
        ));
    }
    let mut r = shorten(commit, 12);
    r.append("  ");
    r.append(ago(now, run.at).as_str());
    r.append("  ");
    r.append(join(words.as_slice(), "  ").as_str());
    r
}

/// The lines of the runs of commits, one after the other.
pub open spec fn run_lines(commits: Seq<CommitRecord>, now: u64) -> Seq<Seq<char>> {
    all_runs(commits).map_values(|run: (Seq<char>, RecordedRun)| run_line(run.0, run.1, now))
}

/// Lists every recorded check run on a remote, newest first.
pub fn checks_runs(remote: &str, commits: &[CommitRecord], now: u64) -> (r: Vec<String>)
    ensures
        texts(r@) == (if commits@.len() == 0 {
            seq!["no check runs on "@ + remote@]
        } else {
            run_lines(commits@, now)
        }),
{
    let mut r: Vec<String> = Vec::new();
    if commits.len() == 0 {
        let mut line = "no check runs on ".to_owned();
        line.append(remote);
        r.push(line);
        proof {
            assert(texts(r@) =~= seq!["no check runs on "@ + remote@]);
        }
        return r;
    }
    let mut i: usize = 0;
    proof {
        assert(texts(r@) =~= run_lines(commits@.take(0), now));
    }
    while i < commits.len()
        invariant
            i <= commits@.len(),
            texts(r@) == run_lines(commits@.take(i as int), now),
        decreases commits@.len() - i,
    {
        let record = &commits[i];
        let ghost before = all_runs(commits@.take(i as int));
        let ghost after = all_runs(commits@.take(i + 1));
        let ghost own = record.runs@.map_values(|run: RecordedRun| (record.commit@, run));
        let ghost start = texts(r@);
        proof {
            assert(commits@.take(i + 1).drop_last() =~= commits@.take(i as int));
            assert(commits@.take(i + 1).last() == *record);
            assert(after == before + own);
        }
        let mut k: usize = 0;
        while k < record.runs.len()
            invariant
                k <= record.runs@.len(),
                r@.len() == start.len() + k,
                forall|j: int| 0 <= j < start.len() ==> (#[trigger] r@[j])@ == start[j],
                forall|j: int|
                    start.len() <= j < r@.len() ==> (#[trigger] r@[j])@ == run_line(
                        record.commit@,
                        record.runs@[j - start.len()],
                        now,
                    ),
            decreases record.runs@.len() - k,
        {
            r.push(format_run(record.commit.as_str(), &record.runs[k], now));
            k += 1;
        }
        proof {
            let wanted = run_lines(commits@.take(i + 1), now);
            assert(start.len() == before.len());
            assert forall|j: int| 0 <= j < wanted.len() implies texts(r@)[j] == wanted[j] by {
                if j < before.len() {
                    assert(after[j] == before[j]);
                    assert(start[j] == run_line(before[j].0, before[j].1, now));
                    assert(texts(r@)[j] == r@[j]@);
                } else {
                    assert(after[j] == own[j - before.len()]);
                    assert(texts(r@)[j] == r@[j]@);
                }
            }
            assert(texts(r@) =~= wanted);
        }
        i += 1;
    }
    proof {
        assert(commits@.take(commits@.len() as int) =~= commits@);
    }
    r
}

/// The account that is stored: an update keeps when the account was created.
pub fn account_create(
    existing: Option<&Account>,
    username: &str,
    display_name: Option<String>,
    bio: Option<String>,
    now: u64,
) -> (r: Account)
    ensures
        r.username@ == username@,
        r.display_name@ == (match display_name {
            Some(name) => name@,
            None => username@,
        }),
        r.bio@ == (match bio {
            Some(bio) => bio@,
            None => Seq::empty(),
        }),
        r.created_at == (match existing {
            Some(account) => account.created_at,
            None => now,
        }),
{
    Account {
        username: username.to_owned(),
        display_name: match display_name {
            Some(name) => name,
            None => username.to_owned(),
        },
        bio: match bio {
            Some(bio) => bio,
            None => String::new(),
        },
        created_at: match existing {
            Some(account) => account.created_at,
            None => now,
        },
    }
}

/// What is said once an account is stored.
pub fn account_report(username: &str, updated: bool, genesis: Option<&str>) -> (r: Vec<String>)
    ensures
        texts(r@) == seq![
            (if updated {
                "updated account "@
            } else {
                "created account "@
            }) + username@,
        ] + (match genesis {
            Some(genesis) => seq![
                "genesis: "@ + genesis@ + " (pass to `members add --account` to link a member)"@,
            ],
            None => Seq::empty(),
        }),
{
    let mut line = if updated {
        "updated account ".to_owned()
    } else {
        "created account ".to_owned()
    };
    line.append(username);
    let mut r: Vec<String> = Vec::new();
    r.push(line);
    if let Some(genesis) = genesis {
        let mut line = "genesis: ".to_owned();
        line.append(genesis);
        line.append(" (pass to `members add --account` to link a member)");
        r.push(line);
    }
    proof {
        assert(texts(r@) =~= seq![
            (if updated {
                "updated account "@
            } else {
                "created account "@
            }) + username@,
        ] + (match genesis {
            Some(genesis) => seq![
                "genesis: "@ + genesis@ + " (pass to `members add --account` to link a member)"@,
            ],
            None => Seq::empty(),
        }));
    }
    r
}

/// The member an account belongs to: the one named, else the one that the
/// signing key is.
pub fn account_member(member: Option<String>, own: Option<String>) -> (r: Result<String, Error>)
    ensures
        match (member, own) {
            (Some(name), _) => r == Ok::<String, Error>(name),
            (None, Some(name)) => r == Ok::<String, Error>(name),
            (None, None) => r matches Err(Error::NotFound { what }) && what@
                == "member for the current signing key"@,
        },
{
    match member {
        Some(name) => Ok(name),
        None => match own {
            Some(name) => Ok(name),
            None => Err(
                Error::NotFound { what: "member for the current signing key".to_owned() },
            ),
        },
    }
}

/// The object that is to be redacted, or that it is none.
pub fn redact_target(oid: &str) -> (r: Result<ObjectId, Error>)
    ensures
        match hex_id(encode_utf8(oid@)) {
            Some(digits) => r matches Ok(id) && id@ == digits,
            None => r matches Err(Error::InvalidArgument(what)) && what@ == "not an object id: "@
                + oid@,
        },
{
    match ObjectId::from_hex(oid.as_bytes()) {
        Some(id) => Ok(id),
        None => {
            let mut what = "not an object id: ".to_owned();
            what.append(oid);
            Err(Error::InvalidArgument(what))
        },
    }
}

/// The namespace under which redactions are recorded.
pub const REDACTIONS_NS: &'static str = "refs/meta/redactions";

/// The namespace under which toolchains are recorded.
pub const TOOLCHAINS_NS: &'static str = "refs/meta/toolchains";

/// Reads `<start>[:<end>]`, or refuses it.
pub fn parse_line_range(text: &str) -> (r: Result<LineRange, Error>)
    ensures
        ({
            let (start, end) = range_parts(text@);
            match (
                parsed_decimal(start, u64::MAX as nat),
                parsed_decimal(end, u64::MAX as nat),
            ) {
                (Some(a), Some(b)) => r matches Ok(range) && range.start == a && range.end == b,
                _ => r matches Err(Error::InvalidArgument(what)) && what@ == "bad line range: "@
                    + text@,
            }
        }),
{
    let (start, end) = match split_once(text, ':') {
        Some((start, end)) => (start, end),
        None => (text.to_owned(), text.to_owned()),
    };
    match (parse_decimal(start.as_str(), u64::MAX), parse_decimal(end.as_str(), u64::MAX)) {
        (Some(start), Some(end)) => Ok(LineRange { start, end }),
        _ => {
            let mut what = "bad line range: ".to_owned();
            what.append(text);
            Err(Error::InvalidArgument(what))
        },
    }
}

/// What a directory that is imported holds.
#[derive(Debug, Clone, Copy, PartialEq, Eq, Structural)]
pub enum ItemKind {
    /// A directory.
    Dir,
    /// A file, which may be executable.
    File(bool),
    /// A symbolic link or a special file.
    Other,
}

/// One thing that a directory holds: its name, its path, what it is, and the
/// object it was stored as.
#[derive(Debug)]
pub struct DirItem {
    /// Its name.
    pub name: String,
    /// Its path.
    pub path: String,
    /// What it is.
    pub kind: ItemKind,
    /// The object it was stored as.
    pub oid: ObjectId,
}

/// The tree entry of a thing: none of what a tree cannot hold.
pub open spec fn item_entry(item: DirItem) -> Option<EntryView> {
    match item.kind {
        ItemKind::Dir => Some(
            EntryView { kind: EntryKind::Tree, filename: item.name@, oid: item.oid@ },
        ),
        ItemKind::File(executable) => Some(
            EntryView {
                kind: if executable {
                    EntryKind::BlobExecutable
                } else {
                    EntryKind::Blob
                },
                filename: item.name@,
                oid: item.oid@,
            },
        ),
        ItemKind::Other => None,
    }
}

/// What git orders the entries of a tree by: their names, a directory's as if a
/// slash followed it.
pub open spec fn tree_keys(entries: Seq<EntryView>) -> Seq<(u64, Seq<char>)> {
    entries.map_values(
        |e: EntryView|
            (
                0u64,
                if e.kind is Tree {
                    e.filename + "/"@
                } else {
                    e.filename
                },
            ),
    )
}

/// The first thing that a tree cannot hold.
pub open spec fn first_unsupported(items: Seq<DirItem>) -> int {
    first_where(items, |item: DirItem| item_entry(item) is None)
}

fn plain_entries(items: &[DirItem]) -> (r: Result<Vec<Entry>, Error>)
    ensures
        ({
            let at = first_unsupported(items@);
            if at < items@.len() {
                r matches Err(Error::Io { path, source }) && path@ == items@[at].path@ && source@
                    == "unsupported entry (symlink or special file)"@
            } else {
                r matches Ok(entries) && entry_views(entries@) == items@.map_values(
                    |item: DirItem| item_entry(item)->0,
                )
            }
        }),
{
    let ghost p = |item: DirItem| item_entry(item) is None;
    let mut r: Vec<Entry> = Vec::new();
    let mut i: usize = 0;
    while i < items.len()
        invariant
            i <= items@.len(),
            p == (|item: DirItem| item_entry(item) is None),
            forall|j: int| 0 <= j < i ==> !p(#[trigger] items@[j]),
            r@.len() == i,
            forall|j: int| 0 <= j < i ==> Some((#[trigger] r@[j])@) == item_entry(items@[j]),
        decreases items@.len() - i,
    {
        let item = &items[i];
        let kind = match item.kind {
            ItemKind::Dir => EntryKind::Tree,
            ItemKind::File(executable) => if executable {
                EntryKind::BlobExecutable
            } else {
                EntryKind::Blob
            },
            ItemKind::Other => {
                proof {
                    lemma_first_where_is(items@, p, i as int);
                }
                return Err(
                    Error::Io {
                        path: item.path.clone(),
                        source: "unsupported entry (symlink or special file)".to_owned(),
                    },
                );
            },
        };
        r.push(Entry { kind, filename: item.name.clone(), oid: item.oid.copy() });
        i += 1;
    }
    proof {
        lemma_first_where_is(items@, p, i as int);
        assert(entry_views(r@) =~= items@.map_values(|item: DirItem| item_entry(item)->0));
    }
    Ok(r)
}

/// Whether `tree` holds the entries of a directory's items in git's order.
pub open spec fn is_tree_of(tree: Seq<EntryView>, items: Seq<DirItem>) -> bool {
    let entries = items.map_values(|item: DirItem| item_entry(item)->0);
    is_arranged(tree, entries, tree_keys(entries))
}

/// The entries of a directory as git stores them in a tree, in git's order.
/// Symbolic links and anything that is not a plain file or directory are
/// refused.
pub fn tree_entries(items: &[DirItem]) -> (r: Result<Vec<Entry>, Error>)
    ensures
        ({
            let at = first_unsupported(items@);
            if at < items@.len() {
                r matches Err(Error::Io { path, source }) && path@ == items@[at].path@ && source@
                    == "unsupported entry (symlink or special file)"@
            } else {
                r matches Ok(tree) && is_tree_of(entry_views(tree@), items@)
            }
        }),
{
    let entries = match plain_entries(items) {
        Ok(entries) => entries,
        Err(error) => {
            return Err(error);
        },
    };
    let ghost all = entry_views(entries@);
    let mut keys: Vec<Key> = Vec::new();
    let mut i: usize = 0;
    while i < entries.len()
        invariant
            i <= entries@.len(),
            all == entry_views(entries@),
            keys@.len() == i,
            forall|j: int|
                0 <= j < i ==> (#[trigger] keys@[j]).0 == 0 && keys@[j].1@ == tree_keys(all)[j].1,
        decreases entries@.len() - i,
    {
        proof {
            assert(all[i as int] == entries@[i as int]@);
        }
        let mut name = entries[i].filename.clone();
        match entries[i].kind {
            EntryKind::Tree => {
                name.append("/");
            },
            _ => {},
        }
        keys.push((0, name));
        i += 1;
    }
    let places = order_of(keys.as_slice());
    let ghost ints = as_ints(places@);
    proof {
        assert(key_views(keys@) =~= tree_keys(all));
    }
    let mut r: Vec<Entry> = Vec::new();
    let mut k: usize = 0;
    while k < places.len()
        invariant
            k <= places@.len(),
            r@.len() == k,
            all == entry_views(entries@),
            ints == as_ints(places@),
            is_order(ints, tree_keys(all)),
            forall|j: int| 0 <= j < k ==> (#[trigger] r@[j])@ == all[ints[j]],
        decreases places@.len() - k,
    {
        proof {
            assert(ints[k as int] == places@[k as int] as int);
            assert(all[ints[k as int]] == entries@[ints[k as int]]@);
        }
        let entry = &entries[places[k]];
        r.push(Entry { kind: entry.kind, filename: entry.filename.clone(), oid: entry.oid.copy() });
        k += 1;
    }
    proof {
        assert(entry_views(r@) =~= Seq::new(ints.len(), |i: int| all[ints[i]]));
    }
    Ok(r)
}

/// An entity to be stored: its id, its ref, and the subject of its commit.
#[derive(Debug, PartialEq, Eq)]
pub struct Entity {
    /// Its id.
    pub id: String,
    /// Its ref.
    pub refname: String,
    /// The subject of its commit.
    pub subject: String,
}

/// Whether an entity is stored under a namespace by its id.
pub open spec fn is_entity(e: Entity, id: Seq<char>, namespace: Seq<char>, subject: Seq<char>) -> bool {
    e.id@ == id && e.refname@ == namespace + "/"@ + id && e.subject@ == subject
}

fn entity(id: &str, namespace: &str, verb: &str, what: &str) -> (r: Entity)
    ensures
        is_entity(r, id@, namespace@, verb@ + what@),
{
    let mut refname = namespace.to_owned();
    refname.append("/");
    refname.append(id);
    let mut subject = verb.to_owned();
    subject.append(what);
    Entity { id: id.to_owned(), refname, subject }
}

/// A comment on a file under an id.
pub fn comment_entity(id: &str, path: &str) -> (r: Entity)
    ensures
        is_entity(r, id@, COMMENTS_NS@, "Comment on "@ + path@),
{
    entity(id, COMMENTS_NS, "Comment on ", path)
}

/// A new comment on a file, under a fresh id.
pub fn new_comment(path: &str) -> (r: Entity)
    ensures
        is_entity(r, r.id@, COMMENTS_NS@, "Comment on "@ + path@),
        r.id@.len() == 32,
        forall|i: int| 0 <= i < 32 ==> lower_hexadecimal(#[trigger] r.id@[i]),
{
    let id = random_simple_uuid();
    comment_entity(id.as_str(), path)
}

/// The record that an object was redacted, or that it is no object.
pub fn redaction_entity(oid: &str) -> (r: Result<Entity, Error>)
    ensures
        match hex_id(encode_utf8(oid@)) {
            Some(digits) => r matches Ok(e) && is_entity(
                e,
                digits,
                REDACTIONS_NS@,
                "Redact "@ + digits,
            ),
            None => r matches Err(Error::InvalidArgument(what)) && what@ == "not an object id: "@
                + oid@,
        },
{
    match redact_target(oid) {
        Ok(id) => Ok(entity(id.as_str(), REDACTIONS_NS, "Redact ", id.as_str())),
        Err(error) => Err(error),
    }
}

/// A toolchain to be imported under a name.
pub fn toolchain_entity(name: &str) -> (r: Entity)
    ensures
        is_entity(r, name@, TOOLCHAINS_NS@, "Import toolchain "@ + name@),
{
    entity(name, TOOLCHAINS_NS, "Import toolchain ", name)
}

/// The settings that a repository is set up with for signed local writes: the
/// key, SSH-format signatures, and pushes into the checked-out branch that
/// update the working tree.
pub fn local_settings(key: &str) -> (r: Vec<(String, String)>)
    ensures
        pairs(r@) == seq![
            ("user.signingkey"@, key@),
            ("gpg.format"@, "ssh"@),
            ("receive.denyCurrentBranch"@, "updateInstead"@),
        ],
{
    let mut r: Vec<(String, String)> = Vec::new();
    push_pair(&mut r, "user.signingkey", key);
    push_pair(&mut r, "gpg.format", "ssh");
    push_pair(&mut r, "receive.denyCurrentBranch", "updateInstead");
    proof {
        assert(pairs(r@) =~= seq![
            ("user.signingkey"@, key@),
            ("gpg.format"@, "ssh"@),
            ("receive.denyCurrentBranch"@, "updateInstead"@),
        ]);
    }
    r
}

/// Whether `entry` is what a tree holds of `item`: its name, its object, and
/// whether it is a directory, a file that runs, or a plain file.
pub open spec fn keeps_item(entry: EntryView, item: DirItem) -> bool {
    &&& entry.filename == item.name@
    &&& entry.oid == item.oid@
    &&& entry.kind is Tree <==> item.kind is Dir
    &&& entry.kind is BlobExecutable <==> item.kind == ItemKind::File(true)
    &&& entry.kind is Blob <==> item.kind == ItemKind::File(false)
}

/// The name that git orders an item by.
pub open spec fn git_name(item: DirItem) -> Seq<char> {
    if item.kind is Dir {
        item.name@.push('/')
    } else {
        item.name@
    }
}

/// Law: the tree of an imported directory holds each of its items once, as what
/// it is, and is in git's order: by name, a directory's as if a slash followed it.
pub proof fn law_tree_keeps_every_item(tree: Seq<EntryView>, items: Seq<DirItem>)
    requires
        forall|i: int| 0 <= i < items.len() ==> !((#[trigger] items[i]).kind is Other),
        is_tree_of(tree, items),
    ensures
        exists|places: Seq<int>|
            {
                &&& #[trigger] places.no_duplicates()
                &&& places.len() == items.len()
                &&& tree.len() == items.len()
                &&& forall|k: int|
                    0 <= k < places.len() ==> 0 <= #[trigger] places[k] < items.len()
                        && keeps_item(tree[k], items[places[k]])
                &&& forall|j: int, k: int|
                    0 <= j < k < places.len() ==> !before(
                        git_name(items[#[trigger] places[k]]),
                        git_name(items[#[trigger] places[j]]),
                    )
            },
{
    let entries = items.map_values(|item: DirItem| item_entry(item)->0);
    let keys = tree_keys(entries);
    let places = choose|places: Seq<int>| #[trigger]
        is_order(places, keys) && tree == Seq::new(places.len(), |i: int| entries[places[i]]);
    assert(places.no_duplicates()) by {
        assert forall|i: int, j: int| 0 <= i < j < places.len() implies places[i] != places[j] by {
            assert(earlier(keys, places[i], places[j]));
            lemma_before_irreflexive(keys[places[i]].1);
        }
    }
    reveal_strlit("/");
    assert("/"@ =~= seq!['/']);
    assert forall|k: int| 0 <= k < places.len() implies 0 <= #[trigger] places[k] < items.len()
        && keeps_item(tree[k], items[places[k]]) && keys[places[k]] == (
        0u64,
        git_name(items[places[k]]),
    ) by {
        let item = items[places[k]];
        assert(tree[k] == item_entry(item)->0);
        match item.kind {
            ItemKind::Dir => {
                assert(item.name@ + "/"@ =~= item.name@.push('/'));
            },
            ItemKind::File(runs) => {},
            ItemKind::Other => {},
        }
    }
    assert forall|j: int, k: int| 0 <= j < k < places.len() implies !before(
        git_name(items[#[trigger] places[k]]),
        git_name(items[#[trigger] places[j]]),
    ) by {
        assert(earlier(keys, places[j], places[k]));
        lemma_before_total(git_name(items[places[j]]), git_name(items[places[k]]));
        lemma_before_irreflexive(git_name(items[places[j]]));
    }
}

/// Law: what stops an import is the first thing that is neither a file nor a
/// directory, and nothing else does.
pub proof fn law_only_links_stop_an_import(items: Seq<DirItem>)
    ensures
        0 <= first_unsupported(items) <= items.len(),
        forall|i: int|
            0 <= i < first_unsupported(items) ==> !((#[trigger] items[i]).kind is Other),
        first_unsupported(items) < items.len() ==> items[first_unsupported(items)].kind is Other,
{
    let p = |item: DirItem| item_entry(item) is None;
    lemma_first_where(items, p);
    assert forall|i: int| 0 <= i < first_unsupported(items) implies !((
    #[trigger] items[i]).kind is Other) by {
        assert(!p(items[i]));
    }
}

/// Law: removing a check leaves all others, in their order; adding one puts it in
/// place of any of its name and leaves all others.
pub proof fn law_other_checks_stay(checks: Seq<CheckDef>, check: CheckDef, name: Seq<char>)
    ensures
        other_checks(checks, name) == checks.filter(|other: CheckDef| other.name@ != name),
        check.name@ == name ==> with_check(checks, check).last() == check,
        check.name@ == name ==> with_check(checks, check).drop_last() == checks.filter(
            |other: CheckDef| other.name@ != name,
        ),
{
    lemma_others_are_filtered(checks, name);
    assert(with_check(checks, check).drop_last() =~= other_checks(checks, check.name@));
}

proof fn lemma_others_are_filtered(checks: Seq<CheckDef>, name: Seq<char>)
    ensures
        other_checks(checks, name) == checks.filter(|other: CheckDef| other.name@ != name),
    decreases checks.len(),
{
    reveal(Seq::filter);
    if checks.len() > 0 {
        lemma_others_are_filtered(checks.drop_last(), name);
    }
}

/// Law: where a comment stands is told by its path, and by its line or lines
/// where it is on some.
pub proof fn law_place_is_told(path: Seq<char>, range: LineRange)
    ensures
        place(path, None) == path,
        range.start == range.end ==> place(path, Some(range)) == path + ":"@ + decimal(
            range.start as nat,
        ),
        range.start != range.end ==> place(path, Some(range)) == path + ":"@ + decimal(
            range.start as nat,
        ) + "-"@ + decimal(range.end as nat),
        projected_place(path, Some(range), Some(Projection::Current)) == place(path, Some(range)),
        projected_place(path, Some(range), Some(Projection::FileDeleted)) == path + " [deleted]"@,
        projected_place(path, Some(range), None) == path + " [unresolved]"@,
{
}

/// Law: an id is resolved by its beginning: what is found are exactly the ids
/// that begin with it.
pub proof fn law_ids_are_found_by_their_beginning(
    ids: Seq<Seq<char>>,
    prefix: Seq<char>,
    id: Seq<char>,
)
    ensures
        ids_with(ids, prefix).contains(id) <==> ids.contains(id) && id.len() >= prefix.len()
            && id.take(prefix.len() as int) == prefix,
{
    let p = |id: Seq<char>| starts(id, prefix);
    if ids_with(ids, prefix).contains(id) {
        ids.lemma_filter_contains_rev(p, id);
        let i = choose|i: int| 0 <= i < ids.filter(p).len() && ids.filter(p)[i] == id;
        ids.lemma_filter_pred(p, i);
    }
    if ids.contains(id) && p(id) {
        let i = choose|i: int| 0 <= i < ids.len() && ids[i] == id;
        ids.lemma_filter_contains(p, i);
    }
}

/// Law: a comment is shown with its id first and its text last, every line of it.
pub proof fn law_comment_is_shown_whole(c: ShownComment, rev: Seq<char>, place_on: Seq<char>)
    ensures
        ({
            let shown = comment_lines(c, rev, place_on);
            let body = lines_of(c.body@);
            &&& shown[0] == "comment "@ + c.id@
            &&& shown.contains(
                "anchor  "@ + place(c.path@, c.lines) + " @ "@ + short_of(c.commit@, 12),
            )
            &&& shown.contains("on "@ + rev + ": "@ + place_on)
            &&& shown.len() >= body.len()
            &&& forall|i: int|
                0 <= i < body.len() ==> shown[shown.len() - body.len() + i] == "  "@ + (
                #[trigger] body[i])
        }),
{
    let shown = comment_lines(c, rev, place_on);
    let body = lines_of(c.body@);
    let head = seq!["comment "@ + c.id@] + provenance_lines(c.provenance);
    let anchor = "anchor  "@ + place(c.path@, c.lines) + " @ "@ + short_of(c.commit@, 12);
    assert(shown[head.len() as int] == anchor);
    assert(shown[1 + head.len() as int] == "on "@ + rev + ": "@ + place_on);
    assert(marked(c.body@, "  "@).len() == body.len());
    assert forall|i: int| 0 <= i < body.len() implies shown[shown.len() - body.len() + i] == "  "@
        + (#[trigger] body[i]) by {
        assert(shown[shown.len() - body.len() + i] == marked(c.body@, "  "@)[i]);
    }
}

/// Law: a run is listed by its commit in short, how long ago it was, and every
/// result by its check's name and its word.
pub proof fn law_run_is_listed(commit: Seq<char>, run: RecordedRun, now: u64)
    requires
        now >= run.at,
    ensures
        run_line(commit, run, now) == short_of(commit, 12) + "  "@ + short_ago(
            (now - run.at) as nat,
        ) + "  "@ + joined(
            Seq::new(
                run.results@.len(),
                |i: int| run.results@[i].name@ + "="@ + word_of(run.results@[i].status),
            ),
            "  "@,
        ),
{
    assert(run.results@.map_values(|outcome: CheckRun| outcome_word(outcome)) =~= Seq::new(
        run.results@.len(),
        |i: int| run.results@[i].name@ + "="@ + word_of(run.results@[i].status),
    ));
}

} // verus!
