//! The checks tab: the latest status of each check, the recent runs, and the
//! terminal session behind a status.

use vstd::prelude::*;
use vstd::utf8::encode_utf8;

use crate::asciicast::{output_of, recording_has_no_output};
use crate::history::{short_digits, short_oid};
use crate::keys::opt_view;
use crate::object_id::{hex_id, ObjectId};
use crate::render::{live_source, recording_source};
use crate::runner::{CheckDef, CheckRun, Status};
use crate::seqs::{first_where, lemma_first_where_is};
use crate::shell::{printed, read_printed};
use crate::text::{
    alphanumeric, chars_of, is_alphanumeric, join, joined, opt_clone, opt_text, same, short_of,
    shorten, texts, trimmed,
};

verus! {

/// One recorded execution of the check set against a commit.
#[derive(Debug, PartialEq, Eq)]
pub struct RecordedRun {
    /// When the run was recorded, as seconds since the Unix epoch.
    pub at: u64,
    /// Each check's state.
    pub results: Vec<CheckRun>,
}

/// The runs recorded for one commit, newest first.
#[derive(Debug, PartialEq, Eq)]
pub struct CommitRecord {
    /// The commit.
    pub commit: ObjectId,
    /// Every run against it.
    pub runs: Vec<RecordedRun>,
}

/// Whether `status` is still on its way to a final one: the check has no
/// recording yet, but its run page has a live view worth linking to.
pub fn is_in_progress(status: Status) -> (r: bool)
    ensures
        r == !status.settled(),
{
    match status {
        Status::Queued | Status::Running => true,
        _ => false,
    }
}

/// The word a status is shown by.
pub open spec fn word_of(status: Status) -> Seq<char> {
    match status {
        Status::Queued => "queued"@,
        Status::Running => "running"@,
        Status::Pass => "pass"@,
        Status::Fail => "fail"@,
        Status::Error => "error"@,
        Status::Skipped => "skipped"@,
    }
}

/// The word a status is shown by.
pub fn status_word(status: Status) -> (r: &'static str)
    ensures
        r@ == word_of(status),
{
    match status {
        Status::Queued => "queued",
        Status::Running => "running",
        Status::Pass => "pass",
        Status::Fail => "fail",
        Status::Error => "error",
        Status::Skipped => "skipped",
    }
}

/// The CSS class of a status: one for a pass, one for a failure, one for what
/// is running, one for anything still waiting or skipped.
pub fn status_class(status: Status) -> (r: &'static str)
    ensures
        r@ == (match status {
            Status::Pass => "status-pass"@,
            Status::Fail | Status::Error => "status-fail"@,
            Status::Running => "status-running"@,
            Status::Queued | Status::Skipped => "status-pending"@,
        }),
{
    match status {
        Status::Pass => "status-pass",
        Status::Fail | Status::Error => "status-fail",
        Status::Running => "status-running",
        Status::Queued | Status::Skipped => "status-pending",
    }
}

/// How a check's outcome is shown in a list.
#[derive(Debug, PartialEq, Eq)]
pub enum CheckRow {
    /// There is none yet.
    NoRun,
    /// Its status, with nothing behind it.
    Plain(Status),
    /// Its status, and the page behind it.
    Linked(Status, String),
}

/// Whether a row shows an outcome: linked where there is a live view or a
/// recording behind it.
pub open spec fn shows_outcome(row: CheckRow, outcome: Option<CheckRun>, href: Seq<char>) -> bool {
    match outcome {
        None => row is NoRun,
        Some(run) => if run.recording is Some || !run.status.settled() {
            row matches CheckRow::Linked(status, link) && status == run.status && link@ == href
        } else {
            row == CheckRow::Plain(run.status)
        },
    }
}

/// How a check's outcome is shown in a list, given the page behind it.
pub fn check_list_row(outcome: Option<&CheckRun>, href: String) -> (r: CheckRow)
    ensures
        shows_outcome(
            r,
            match outcome {
                Some(run) => Some(*run),
                None => None,
            },
            href@,
        ),
{
    match outcome {
        None => CheckRow::NoRun,
        Some(run) => if run.recording.is_some() || is_in_progress(run.status) {
            CheckRow::Linked(run.status, href)
        } else {
            CheckRow::Plain(run.status)
        },
    }
}

/// Where a check's page on a commit is.
pub open spec fn check_link(rel: Seq<char>, commit: Seq<char>, name: Seq<char>) -> Seq<char> {
    "/"@ + rel + "/checks/"@ + commit + "/"@ + name
}

/// Where a check's page on a commit is.
pub fn check_href(rel: &str, commit: &str, name: &str) -> (r: String)
    ensures
        r@ == check_link(rel@, commit@, name@),
{
    let mut href = "/".to_owned();
    href.append(rel);
    href.append("/checks/");
    href.append(commit);
    href.append("/");
    href.append(name);
    href
}

/// Whether a result is that of a check.
pub open spec fn is_result_for(result: CheckRun, name: Seq<char>) -> bool {
    result.name@ == name
}

/// Whether runs are recorded for a commit.
pub open spec fn is_record_of(record: CommitRecord, commit: Seq<char>) -> bool {
    record.commit@ == commit
}

/// The first outcome of a check in a run.
pub open spec fn outcome_in(run: RecordedRun, name: Seq<char>) -> Option<CheckRun> {
    let i = first_where(run.results@, |result: CheckRun| is_result_for(result, name));
    if i < run.results@.len() {
        Some(run.results@[i])
    } else {
        None
    }
}

fn find_outcome<'a>(run: &'a RecordedRun, name: &str) -> (r: Option<&'a CheckRun>)
    ensures
        match r {
            Some(found) => outcome_in(*run, name@) == Some(*found),
            None => outcome_in(*run, name@) is None,
        },
{
    let ghost p = |result: CheckRun| is_result_for(result, name@);
    let mut i: usize = 0;
    while i < run.results.len()
        invariant
            i <= run.results@.len(),
            p == (|result: CheckRun| is_result_for(result, name@)),
            forall|j: int| 0 <= j < i ==> !p(#[trigger] run.results@[j]),
        decreases run.results@.len() - i,
    {
        if same(run.results[i].name.as_str(), name) {
            proof {
                lemma_first_where_is(run.results@, p, i as int);
            }
            return Some(&run.results[i]);
        }
        i += 1;
    }
    proof {
        lemma_first_where_is(run.results@, p, i as int);
    }
    None
}

/// The latest run against a commit.
pub open spec fn latest_run(commits: Seq<CommitRecord>, commit: Seq<char>) -> Option<RecordedRun> {
    let i = first_where(commits, |record: CommitRecord| is_record_of(record, commit));
    if i < commits.len() && commits[i].runs@.len() > 0 {
        Some(commits[i].runs@[0])
    } else {
        None
    }
}

/// The latest run against a commit, if there is one.
pub fn find_run<'a>(commits: &'a [CommitRecord], commit: &ObjectId) -> (r: Option<&'a RecordedRun>)
    ensures
        match r {
            Some(run) => latest_run(commits@, commit@) == Some(*run),
            None => latest_run(commits@, commit@) is None,
        },
{
    let ghost p = |record: CommitRecord| is_record_of(record, commit@);
    let mut i: usize = 0;
    while i < commits.len()
        invariant
            i <= commits@.len(),
            p == (|record: CommitRecord| is_record_of(record, commit@)),
            forall|j: int| 0 <= j < i ==> !p(#[trigger] commits@[j]),
        decreases commits@.len() - i,
    {
        if commits[i].commit.same_as(commit) {
            proof {
                lemma_first_where_is(commits@, p, i as int);
            }
            if commits[i].runs.len() > 0 {
                return Some(&commits[i].runs[0]);
            }
            return None;
        }
        i += 1;
    }
    proof {
        lemma_first_where_is(commits@, p, i as int);
    }
    None
}

/// A check's outcome in the latest run recorded against a commit.
pub open spec fn outcome_on(commits: Seq<CommitRecord>, commit: Seq<char>, name: Seq<char>) -> Option<
    CheckRun,
> {
    match latest_run(commits, commit) {
        Some(run) => outcome_in(run, name),
        None => None,
    }
}

/// Finds `name`'s outcome in `commit`'s latest recorded run, or nothing when the
/// commit has no run, or no result under that name.
pub fn latest_outcome<'a>(commits: &'a [CommitRecord], commit: &ObjectId, name: &str) -> (r: Option<
    &'a CheckRun,
>)
    ensures
        match r {
            Some(found) => outcome_on(commits@, commit@, name@) == Some(*found),
            None => outcome_on(commits@, commit@, name@) is None,
        },
{
    match find_run(commits, commit) {
        Some(run) => find_outcome(run, name),
        None => None,
    }
}

/// The "Checks on HEAD" card.
#[derive(Debug, PartialEq, Eq)]
pub enum HeadChecks {
    /// The checks could not be read.
    Unreadable(String),
    /// There are no checks.
    NoChecks,
    /// There are no commits.
    NoCommits,
    /// One row per check: its name, and its latest outcome.
    Rows(Vec<(String, CheckRow)>),
}

/// The run that is recorded against `HEAD`, given what `git rev-parse HEAD`
/// printed and the runs where they could be read.
pub open spec fn head_run(head: Option<Seq<char>>, runs: Result<Vec<CommitRecord>, String>) -> Option<
    RecordedRun,
> {
    match (head, runs) {
        (Some(head), Ok(commits)) => match hex_id(encode_utf8(head)) {
            Some(oid) => latest_run(commits@, oid),
            None => None,
        },
        _ => None,
    }
}

/// Whether a row shows a check on `HEAD`.
pub open spec fn shows_check(
    row: (String, CheckRow),
    rel: Seq<char>,
    head: Seq<char>,
    check: CheckDef,
    run: Option<RecordedRun>,
) -> bool {
    row.0@ == check.name@ && shows_outcome(
        row.1,
        match run {
            Some(run) => outcome_in(run, check.name@),
            None => None,
        },
        check_link(rel, head, check.name@),
    )
}

fn find_head_run<'a>(
    head: &Option<String>,
    runs: &'a Result<Vec<CommitRecord>, String>,
) -> (r: Option<&'a RecordedRun>)
    ensures
        match r {
            Some(run) => head_run(opt_text(*head), *runs) == Some(*run),
            None => head_run(opt_text(*head), *runs) is None,
        },
{
    match (head, runs) {
        (Some(head), Ok(commits)) => match ObjectId::from_hex(head.as_str().as_bytes()) {
            Some(oid) => find_run(commits.as_slice(), &oid),
            None => None,
        },
        _ => None,
    }
}

/// Whether the "Checks on HEAD" card shows the checks.
pub open spec fn shows_head_checks(
    card: HeadChecks,
    rel: Seq<char>,
    head: Option<Seq<char>>,
    checks: Result<&[CheckDef], String>,
    runs: Result<Vec<CommitRecord>, String>,
) -> bool {
    match checks {
        Err(error) => card == HeadChecks::Unreadable(error),
        Ok(checks) => if checks@.len() == 0 {
            card is NoChecks
        } else {
            match printed(head) {
                None => card is NoCommits,
                Some(head) => card matches HeadChecks::Rows(rows) && rows@.len() == checks@.len()
                    && forall|i: int|
                    0 <= i < rows@.len() ==> shows_check(
                        #[trigger] rows@[i],
                        rel,
                        head,
                        checks@[i],
                        head_run(Some(head), runs),
                    ),
            }
        },
    }
}

/// The "Checks on HEAD" card: one row per configured check with its latest
/// status against the current commit.
pub fn head_checks(
    rel: &str,
    head: Option<&str>,
    checks: Result<&[CheckDef], String>,
    runs: &Result<Vec<CommitRecord>, String>,
) -> (r: HeadChecks)
    ensures
        shows_head_checks(r, rel@, opt_view(head), checks, *runs),
{
    let head = read_printed(head);
    let checks = match checks {
        Err(error) => {
            return HeadChecks::Unreadable(error);
        },
        Ok(checks) => checks,
    };
    if checks.len() == 0 {
        return HeadChecks::NoChecks;
    }
    let run = find_head_run(&head, runs);
    let head = match head {
        None => {
            return HeadChecks::NoCommits;
        },
        Some(head) => head,
    };
    let mut rows: Vec<(String, CheckRow)> = Vec::new();
    let mut i: usize = 0;
    while i < checks.len()
        invariant
            i <= checks@.len(),
            rows@.len() == i,
            match run {
                Some(run) => head_run(Some(head@), *runs) == Some(*run),
                None => head_run(Some(head@), *runs) is None,
            },
            forall|j: int|
                0 <= j < i ==> shows_check(
                    #[trigger] rows@[j],
                    rel@,
                    head@,
                    checks@[j],
                    head_run(Some(head@), *runs),
                ),
        decreases checks@.len() - i,
    {
        let name = checks[i].name.as_str();
        let outcome = match run {
            Some(run) => find_outcome(run, name),
            None => None,
        };
        let row = check_list_row(outcome, check_href(rel, head.as_str(), name));
        rows.push((checks[i].name.clone(), row));
        i += 1;
    }
    HeadChecks::Rows(rows)
}

/// A row of the "Recent runs" card: the commit, shortened, and each check's
/// outcome.
#[derive(Debug, PartialEq, Eq)]
pub struct RunRow {
    /// The commit.
    pub short: String,
    /// Each check's name, its outcome, and how long it took.
    pub results: Vec<(String, CheckRow, Option<u64>)>,
}

/// Whether a row shows a run.
pub open spec fn shows_run(row: RunRow, rel: Seq<char>, commit: Seq<char>, run: RecordedRun) -> bool {
    &&& row.short@ == short_digits(commit)
    &&& row.results@.len() == run.results@.len()
    &&& forall|i: int|
        0 <= i < row.results@.len() ==> {
            let shown = #[trigger] row.results@[i];
            let result = run.results@[i];
            shown.0@ == result.name@ && shows_outcome(
                shown.1,
                Some(result),
                check_link(rel, commit, result.name@),
            ) && shown.2 == result.duration_secs
        }
}

/// The row of a run.
pub fn run_row(rel: &str, commit: &ObjectId, run: &RecordedRun) -> (r: RunRow)
    ensures
        shows_run(r, rel@, commit@, *run),
{
    let mut results: Vec<(String, CheckRow, Option<u64>)> = Vec::new();
    let mut i: usize = 0;
    while i < run.results.len()
        invariant
            i <= run.results@.len(),
            results@.len() == i,
            forall|j: int|
                0 <= j < i ==> {
                    let shown = #[trigger] results@[j];
                    let result = run.results@[j];
                    shown.0@ == result.name@ && shows_outcome(
                        shown.1,
                        Some(result),
                        check_link(rel@, commit@, result.name@),
                    ) && shown.2 == result.duration_secs
                },
        decreases run.results@.len() - i,
    {
        let result = &run.results[i];
        let row = check_list_row(
            Some(result),
            check_href(rel, commit.as_str(), result.name.as_str()),
        );
        results.push((result.name.clone(), row, result.duration_secs));
        i += 1;
    }
    RunRow { short: short_oid(commit), results }
}

/// How many commits the "Recent runs" card goes back at most.
pub const MAX_RECENT: usize = 25;

/// The commits that the card shows.
pub open spec fn recent(commits: Seq<CommitRecord>) -> Seq<CommitRecord> {
    if commits.len() > MAX_RECENT {
        commits.take(MAX_RECENT as int)
    } else {
        commits
    }
}

/// The runs of commits, one after the other, each with its commit.
pub open spec fn all_runs(commits: Seq<CommitRecord>) -> Seq<(Seq<char>, RecordedRun)>
    decreases commits.len(),
{
    if commits.len() == 0 {
        Seq::empty()
    } else {
        all_runs(commits.drop_last()) + commits.last().runs@.map_values(
            |run: RecordedRun| (commits.last().commit@, run),
        )
    }
}

/// The rows of the "Recent runs" card: every run of the first commits.
pub fn recent_runs(rel: &str, commits: &[CommitRecord]) -> (r: Vec<RunRow>)
    ensures
        r@.len() == all_runs(recent(commits@)).len(),
        forall|i: int|
            0 <= i < r@.len() ==> shows_run(
                #[trigger] r@[i],
                rel@,
                all_runs(recent(commits@))[i].0,
                all_runs(recent(commits@))[i].1,
            ),
{
    let n: usize = if commits.len() > MAX_RECENT {
        MAX_RECENT
    } else {
        commits.len()
    };
    let ghost shown = recent(commits@);
    let mut r: Vec<RunRow> = Vec::new();
    let mut i: usize = 0;
    while i < n
        invariant
            i <= n,
            n == shown.len(),
            n <= commits@.len(),
            shown == recent(commits@),
            r@.len() == all_runs(shown.take(i as int)).len(),
            forall|j: int|
                0 <= j < r@.len() ==> shows_run(
                    #[trigger] r@[j],
                    rel@,
                    all_runs(shown.take(i as int))[j].0,
                    all_runs(shown.take(i as int))[j].1,
                ),
        decreases n - i,
    {
        let record = &commits[i];
        let ghost before = all_runs(shown.take(i as int));
        let ghost after = all_runs(shown.take(i + 1));
        let ghost own = record.runs@.map_values(|run: RecordedRun| (record.commit@, run));
        proof {
            assert(shown.take(i + 1).drop_last() =~= shown.take(i as int));
            assert(shown.take(i + 1).last() == *record);
            assert(after == before + own);
        }
        let mut k: usize = 0;
        while k < record.runs.len()
            invariant
                k <= record.runs@.len(),
                own == record.runs@.map_values(|run: RecordedRun| (record.commit@, run)),
                after == before + own,
                r@.len() == before.len() + k,
                forall|j: int|
                    0 <= j < r@.len() ==> shows_run(#[trigger] r@[j], rel@, after[j].0, after[j].1),
            decreases record.runs@.len() - k,
        {
            proof {
                assert(after[before.len() + k] == own[k as int]);
            }
            r.push(run_row(rel, &record.commit, &record.runs[k]));
            k += 1;
        }
        i += 1;
    }
    proof {
        assert(shown.take(n as int) =~= shown);
    }
    r
}

/// One check's terminal session on a commit.
#[derive(Debug, PartialEq, Eq)]
pub struct RecordingPage {
    /// The page's title.
    pub title: String,
    /// The commit, shortened.
    pub short_commit: String,
    /// What is shown.
    pub body: RecordingBody,
}

/// What is shown of a check's terminal session.
#[derive(Debug, PartialEq, Eq)]
pub enum RecordingBody {
    /// The check is not settled: its status, and where its output is polled.
    Live(Status, String),
    /// The check is settled, with where its recording is downloaded.
    Settled(CheckRun, String),
}

/// The page of one check's terminal session: a live view while it is under way,
/// and what it came to afterwards. There is none where the commit is no object
/// id, has no run recorded, or none of this check.
pub fn check_recording_page(
    rel: &str,
    commit: &str,
    name: &str,
    commits: &[CommitRecord],
) -> (r: Option<RecordingPage>)
    ensures
        ({
            let outcome = match hex_id(encode_utf8(commit@)) {
                Some(oid) => outcome_on(commits@, oid, name@),
                None => None,
            };
            match outcome {
                None => r is None,
                Some(run) => r matches Some(page) && page.short_commit@ == short_of(commit@, 8)
                    && page.title@ == name@ + " @ "@ + short_of(commit@, 8) && (if run.status.settled() {
                    page.body matches RecordingBody::Settled(shown, href) && same_run(shown, run)
                        && href@ == check_link(rel@, commit@, name@) + "/download"@
                } else {
                    page.body matches RecordingBody::Live(status, href) && status == run.status
                        && href@ == check_link(rel@, commit@, name@) + "/live"@
                }),
            }
        }),
{
    let oid = match ObjectId::from_hex(commit.as_bytes()) {
        None => {
            return None;
        },
        Some(oid) => oid,
    };
    let run = match latest_outcome(commits, &oid, name) {
        None => {
            return None;
        },
        Some(run) => run,
    };
    let short_commit = shorten(commit, 8);
    let mut title = name.to_owned();
    title.append(" @ ");
    title.append(short_commit.as_str());
    let mut href = check_href(rel, commit, name);
    let body = if is_in_progress(run.status) {
        href.append("/live");
        RecordingBody::Live(run.status, href)
    } else {
        href.append("/download");
        RecordingBody::Settled(copy_run(run), href)
    };
    Some(RecordingPage { title, short_commit, body })
}

/// Whether two outcomes are the same.
pub open spec fn same_run(a: CheckRun, b: CheckRun) -> bool {
    a.name@ == b.name@ && a.status == b.status && a.duration_secs == b.duration_secs && opt_text(
        a.recording,
    ) == opt_text(b.recording) && a.exit_code == b.exit_code
}

fn copy_run(run: &CheckRun) -> (r: CheckRun)
    ensures
        same_run(r, *run),
{
    CheckRun {
        name: run.name.clone(),
        status: run.status,
        duration_secs: run.duration_secs,
        recording: opt_clone(&run.recording),
        exit_code: run.exit_code,
    }
}

/// Whether a recording shows anything.
pub open spec fn has_output(recording: Option<Seq<char>>) -> bool {
    recording matches Some(text) && trimmed(output_of(text)).len() > 0
}

/// The AsciiDoc source of the replay player for a settled check, where its
/// recording has anything to show.
pub fn settled_source(run: &CheckRun) -> (r: Option<String>)
    ensures
        opt_text(r) == (if has_output(opt_text(run.recording)) {
            Some(
                "[terminal%replay,format=asciicast]\n----\n"@ + run.recording->0@ + "\n----\n"@,
            )
        } else {
            None
        }),
{
    match &run.recording {
        None => None,
        Some(recording) => if recording_has_no_output(recording.as_str()) {
            None
        } else {
            Some(recording_source(recording.as_str()))
        },
    }
}

/// One poll of a running check's output.
#[derive(Debug, PartialEq, Eq)]
pub struct LiveFragment {
    /// The value of the `x-check-live` header: `done` where the check has no
    /// live buffer, `running` otherwise.
    pub state: &'static str,
    /// The AsciiDoc source of the current screen, where there is anything on it.
    pub source: Option<String>,
}

/// One poll of a running check's output, given its live buffer.
pub fn live_fragment(recording: Option<&str>) -> (r: LiveFragment)
    ensures
        r.state@ == (if recording is None {
            "done"@
        } else {
            "running"@
        }),
        opt_text(r.source) == (match recording {
            None => None,
            Some(text) => if has_output(Some(text@)) {
                Some("[terminal]\n----\n"@ + output_of(text@) + "\n----\n"@)
            } else {
                None
            },
        }),
{
    match recording {
        None => LiveFragment { state: "done", source: None },
        Some(text) => LiveFragment {
            state: "running",
            source: if recording_has_no_output(text) {
                None
            } else {
                Some(live_source(text))
            },
        },
    }
}

/// A name with every character replaced that is not safe in a header.
pub open spec fn safe_name(s: Seq<char>) -> Seq<char> {
    s.map_values(
        |c: char|
            if is_alphanumeric(c) || c == '-' || c == '_' {
                c
            } else {
                '_'
            },
    )
}

/// Keeps only characters safe for a `Content-Disposition` filename, so a check
/// name cannot inject header syntax into the download response.
pub fn sanitize_filename(s: &str) -> (r: String)
    ensures
        r@ == safe_name(s@),
{
    let v = chars_of(s);
    let mut r = String::new();
    let mut i: usize = 0;
    while i < v.len()
        invariant
            i <= v@.len(),
            v@ == s@,
            r@ == safe_name(v@.take(i as int)),
        decreases v@.len() - i,
    {
        proof {
            assert(v@.take(i + 1) =~= v@.take(i as int).push(v@[i as int]));
        }
        let c = v[i];
        if alphanumeric(c) || c == '-' || c == '_' {
            r.push(c);
        } else {
            r.push('_');
        }
        proof {
            assert(r@ =~= safe_name(v@.take(i + 1)));
        }
        i += 1;
    }
    proof {
        assert(v@.take(v@.len() as int) =~= v@);
    }
    r
}

/// A recording to be downloaded: the `Content-Disposition` header, and the
/// recording.
#[derive(Debug, PartialEq, Eq)]
pub struct Download {
    /// The header's value.
    pub disposition: String,
    /// The recording.
    pub recording: String,
}

/// The download of a check's raw recording: none where there is no page of it,
/// and none where it has no recording.
pub fn check_recording_download(commit: &str, name: &str, commits: &[CommitRecord]) -> (r: Option<
    Download,
>)
    ensures
        ({
            let outcome = match hex_id(encode_utf8(commit@)) {
                Some(oid) => outcome_on(commits@, oid, name@),
                None => None,
            };
            match outcome {
                Some(run) if run.recording is Some => r matches Some(download)
                    && download.recording@ == run.recording->0@ && download.disposition@
                    == "attachment; filename=\""@ + safe_name(name@) + "-"@ + safe_name(
                    short_of(commit@, 8),
                ) + ".cast\""@,
                _ => r is None,
            }
        }),
{
    let oid = match ObjectId::from_hex(commit.as_bytes()) {
        None => {
            return None;
        },
        Some(oid) => oid,
    };
    let run = match latest_outcome(commits, &oid, name) {
        None => {
            return None;
        },
        Some(run) => run,
    };
    match &run.recording {
        None => None,
        Some(recording) => {
            let short = shorten(commit, 8);
            let mut disposition = "attachment; filename=\"".to_owned();
            disposition.append(sanitize_filename(name).as_str());
            disposition.append("-");
            disposition.append(sanitize_filename(short.as_str()).as_str());
            disposition.append(".cast\"");
            Some(Download { disposition, recording: recording.clone() })
        },
    }
}

/// A sanitized name holds nothing that ends a quoted filename or a header.
pub proof fn law_sanitized_name_is_safe(s: Seq<char>)
    ensures
        safe_name(s).len() == s.len(),
        forall|i: int|
            0 <= i < safe_name(s).len() ==> is_alphanumeric(#[trigger] safe_name(s)[i]) || safe_name(
                s,
            )[i] == '-' || safe_name(s)[i] == '_',
        safe_name(safe_name(s)) == safe_name(s),
{
    assert(safe_name(safe_name(s)) =~= safe_name(s));
}

/// What is said of an effect beside its name.
pub open spec fn effect_text(
    command: Option<Seq<char>>,
    image: Option<Seq<char>>,
    depends: Seq<Seq<char>>,
    toolchains: Seq<Seq<char>>,
) -> Seq<char> {
    (match command {
        Some(command) => command,
        None => "(composite)"@,
    }) + (match image {
        Some(image) => " \u{b7} image "@ + image,
        None => Seq::empty(),
    }) + (if depends.len() > 0 {
        " \u{b7} needs "@ + joined(depends, ", "@)
    } else {
        Seq::empty()
    }) + (if toolchains.len() > 0 {
        " \u{b7} toolchains "@ + joined(toolchains, ", "@)
    } else {
        Seq::empty()
    })
}

/// What is said of a check beside its name: its command, or that it is a
/// composite, with its image, dependencies, and toolchains appended.
pub fn effect_value(check: &CheckDef) -> (r: String)
    ensures
        r@ == effect_text(
            opt_text(check.command),
            opt_text(check.image),
            texts(check.depends@),
            texts(check.toolchains@),
        ),
{
    let mut value = match &check.command {
        Some(command) => command.clone(),
        None => "(composite)".to_owned(),
    };
    let ghost one = value@;
    let ghost image_text = match opt_text(check.image) {
        Some(image) => " \u{b7} image "@ + image,
        None => Seq::empty(),
    };
    if let Some(image) = &check.image {
        value.append(" \u{b7} image ");
        value.append(image.as_str());
    }
    proof {
        assert(value@ =~= one + image_text);
        assert(texts(check.depends@).len() == check.depends@.len());
        assert(texts(check.toolchains@).len() == check.toolchains@.len());
    }
    let ghost two = value@;
    let ghost needs = if check.depends@.len() > 0 {
        " \u{b7} needs "@ + joined(texts(check.depends@), ", "@)
    } else {
        Seq::empty()
    };
    if check.depends.len() > 0 {
        value.append(" \u{b7} needs ");
        value.append(join(check.depends.as_slice(), ", ").as_str());
    }
    proof {
        assert(value@ =~= two + needs);
    }
    let ghost three = value@;
    let ghost tools = if check.toolchains@.len() > 0 {
        " \u{b7} toolchains "@ + joined(texts(check.toolchains@), ", "@)
    } else {
        Seq::empty()
    };
    if check.toolchains.len() > 0 {
        value.append(" \u{b7} toolchains ");
        value.append(join(check.toolchains.as_slice(), ", ").as_str());
    }
    proof {
        assert(value@ =~= three + tools);
    }
    value
}

/// Law: the word for a status tells it from every other, and a check that passed
/// is the only one that is said to pass.
pub proof fn law_status_words_differ(a: Status, b: Status)
    ensures
        word_of(a) == word_of(b) ==> a == b,
        word_of(a) == "pass"@ <==> a == Status::Pass,
        word_of(a) == "fail"@ <==> a == Status::Fail,
        word_of(a) == "error"@ <==> a == Status::Error,
        word_of(a) == "skipped"@ <==> a == Status::Skipped,
        word_of(a) == "running"@ <==> a == Status::Running,
        word_of(a) == "queued"@ <==> a == Status::Queued,
{
    reveal_strlit("pass");
    reveal_strlit("fail");
    reveal_strlit("error");
    reveal_strlit("skipped");
    reveal_strlit("running");
    reveal_strlit("queued");
    assert("pass"@.len() == 4 && "fail"@.len() == 4 && "error"@.len() == 5);
    assert("skipped"@.len() == 7 && "running"@.len() == 7 && "queued"@.len() == 6);
    assert("pass"@[0] != "fail"@[0]);
    assert("skipped"@[0] != "running"@[0]);
}

/// Law: a row shows its run's own status, with a link exactly where there is
/// something to look at, a live view or a recording.
pub proof fn law_row_shows_its_run(row: CheckRow, run: CheckRun, href: Seq<char>)
    ensures
        shows_outcome(row, Some(run), href) <==> (if run.recording is Some || run.status
            == Status::Queued || run.status == Status::Running {
            row matches CheckRow::Linked(status, link) && status == run.status && link@ == href
        } else {
            row matches CheckRow::Plain(status) && status == run.status
        }),
        shows_outcome(row, None, href) <==> row is NoRun,
{
}

/// Law: a commit's latest run is the first of those recorded for it, and of no
/// other commit.
pub proof fn law_latest_run_is_the_commits_own(commits: Seq<CommitRecord>, i: int)
    requires
        0 <= i < commits.len(),
        forall|j: int| 0 <= j < i ==> (#[trigger] commits[j]).commit@ != commits[i].commit@,
    ensures
        latest_run(commits, commits[i].commit@) == (if commits[i].runs@.len() > 0 {
            Some(commits[i].runs@[0])
        } else {
            None
        }),
{
    let commit = commits[i].commit@;
    let p = |record: CommitRecord| is_record_of(record, commit);
    lemma_first_where_is(commits, p, i);
}

/// Law: a commit that nothing is recorded for has no latest run.
pub proof fn law_unknown_commit_has_no_run(commits: Seq<CommitRecord>, commit: Seq<char>)
    requires
        forall|j: int| 0 <= j < commits.len() ==> (#[trigger] commits[j]).commit@ != commit,
    ensures
        latest_run(commits, commit) is None,
{
    let p = |record: CommitRecord| is_record_of(record, commit);
    lemma_first_where_is(commits, p, commits.len() as int);
}

/// Law: a check's outcome is the first result of its name in the commit's latest
/// run.
pub proof fn law_outcome_is_the_checks_own(run: RecordedRun, i: int)
    requires
        0 <= i < run.results@.len(),
        forall|j: int| 0 <= j < i ==> (#[trigger] run.results@[j]).name@ != run.results@[i].name@,
    ensures
        outcome_in(run, run.results@[i].name@) == Some(run.results@[i]),
{
    let name = run.results@[i].name@;
    let p = |result: CheckRun| is_result_for(result, name);
    lemma_first_where_is(run.results@, p, i);
}

/// Law: a check that a run has no result of has no outcome in it.
pub proof fn law_unknown_check_has_no_outcome(run: RecordedRun, name: Seq<char>)
    requires
        forall|j: int| 0 <= j < run.results@.len() ==> (#[trigger] run.results@[j]).name@ != name,
    ensures
        outcome_in(run, name) is None,
{
    let p = |result: CheckRun| is_result_for(result, name);
    lemma_first_where_is(run.results@, p, run.results@.len() as int);
}

/// Law: the runs that are shown are those of the first twenty-five commits, each
/// with its own commit, commit by commit and in each commit's order.
pub proof fn law_recent_runs_are_each_commits_own(
    commits: Seq<CommitRecord>,
    more: Seq<CommitRecord>,
    record: CommitRecord,
)
    ensures
        recent(commits).len() <= 25,
        commits.len() <= 25 ==> recent(commits) == commits,
        commits.len() > 25 ==> recent(commits) == commits.take(25),
        all_runs(commits + more) == all_runs(commits) + all_runs(more),
        all_runs(seq![record]).len() == record.runs@.len(),
        forall|i: int|
            0 <= i < record.runs@.len() ==> #[trigger] all_runs(seq![record])[i] == (
                record.commit@,
                record.runs@[i],
            ),
    decreases more.len(),
{
    assert(seq![record].drop_last() =~= Seq::empty());
    assert(all_runs(seq![record].drop_last()) =~= Seq::empty());
    if more.len() == 0 {
        assert(commits + more =~= commits);
        assert(all_runs(commits) + all_runs(more) =~= all_runs(commits));
    } else {
        law_recent_runs_are_each_commits_own(commits, more.drop_last(), record);
        assert((commits + more).drop_last() =~= commits + more.drop_last());
        assert((commits + more).last() == more.last());
        assert(all_runs(commits + more) =~= all_runs(commits) + all_runs(more));
    }
}

/// Law: a name that is safe already is kept as it is, and any other changes in
/// the characters that are not.
pub proof fn law_safe_characters_stay(s: Seq<char>, i: int)
    requires
        0 <= i < s.len(),
    ensures
        is_alphanumeric(s[i]) || s[i] == '-' || s[i] == '_' ==> safe_name(s)[i] == s[i],
        !(is_alphanumeric(s[i]) || s[i] == '-' || s[i] == '_') ==> safe_name(s)[i] == '_',
{
}

/// Law: where a check's page is, and what a row of the checks at `HEAD` shows: the
/// check's own name and its own result in the latest run.
pub proof fn law_check_row_is_the_checks_own(
    row: (String, CheckRow),
    rel: Seq<char>,
    head: Seq<char>,
    check: CheckDef,
    run: RecordedRun,
)
    requires
        shows_check(row, rel, head, check, Some(run)),
    ensures
        row.0@ == check.name@,
        outcome_in(run, check.name@) is None ==> row.1 is NoRun,
        outcome_in(run, check.name@) matches Some(result) ==> (match row.1 {
            CheckRow::NoRun => false,
            CheckRow::Plain(status) => status == result.status,
            CheckRow::Linked(status, link) => status == result.status && link@ == "/"@ + rel
                + "/checks/"@ + head + "/"@ + check.name@,
        }),
{
}

/// Law: a run's row shows every result of the run, by its name and with its own
/// status and time.
pub proof fn law_run_row_shows_every_result(
    row: RunRow,
    rel: Seq<char>,
    commit: Seq<char>,
    run: RecordedRun,
    i: int,
)
    requires
        shows_run(row, rel, commit, run),
        0 <= i < run.results@.len(),
    ensures
        row.results@.len() == run.results@.len(),
        row.results@[i].0@ == run.results@[i].name@,
        row.results@[i].2 == run.results@[i].duration_secs,
        match row.results@[i].1 {
            CheckRow::NoRun => false,
            CheckRow::Plain(status) => status == run.results@[i].status,
            CheckRow::Linked(status, link) => status == run.results@[i].status && link@ == "/"@
                + rel + "/checks/"@ + commit + "/"@ + run.results@[i].name@,
        },
{
    let shown = row.results@[i];
    assert(shown.0@ == run.results@[i].name@);
}

/// Law: the run at `HEAD` is the latest of the commit that `HEAD` is.
pub proof fn law_head_run_is_heads(head: Seq<char>, commits: Vec<CommitRecord>)
    requires
        crate::object_id::is_id(head),
    ensures
        head_run(Some(head), Ok(commits)) == latest_run(commits@, head),
        head_run(None, Ok(commits)) is None,
{
    crate::object_id::law_id_reads_as_itself(head);
}

} // verus!
