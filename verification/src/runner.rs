//! Running the configured checks against a push: which updates are queued and
//! how a queued job is written down, what becomes of each check in dependency
//! order, and what a finished check is recorded as.

use vstd::prelude::*;
use vstd::utf8::encode_utf8;

use crate::asciicast::{event_line, push_event};
use crate::bytes::{decoded, from_utf8_lossy};
use crate::keyed::TextMap;
use crate::object_id::{
    all_zeros, hex_id, is_id, law_id_reads_as_itself, null_digits, ObjectId,
};
use crate::random::{hyphenated, random_uuid};
use crate::seqs::{
    first_where, kept, lemma_first_where_is, lemma_kept_all, lemma_kept_from, lemma_kept_has,
    lemma_kept_step,
};
use crate::text::{
    alphanumeric, chars_of, fields, fields_of, is_alphanumeric, is_white, is_word, join, joined,
    last_index_of, law_lines_undo_ending, lemma_fields_front, lemma_last_index_of,
    lemma_last_index_of_is, lemma_lines_front, lemma_split_back, lemma_split_front, lines, lines_of,
    lower, nonempty, opt_clone, opt_text, same, split_nonempty, split_on, starts, starts_with,
    stripped_end, stripped_start, tail_after, texts, to_lower, trim_end_of, trim_start_of,
};

verus! {

/// Where the pushed tree is unpacked inside the sandbox.
pub const WORKDIR: &'static str = "/work";

/// Where resolved toolchains are extracted inside the sandbox, one directory
/// per tree hash.
pub const TOOLCHAINS_DIR: &'static str = "/toolchains";

/// The environment variable that hands the hook the queue directory.
pub const QUEUE_ENV: &'static str = "GIT_ENTS_CHECKS_QUEUE";

/// How often the worker scans the queue directory, in seconds.
pub const POLL_SECS: u64 = 2;

/// How long a single check may run before it is abandoned, in nanoseconds.
pub const CHECK_TIMEOUT_NANOS: u128 = 1_800_000_000_000;

/// The state of a check within a run.
#[derive(Debug, Clone, Copy, PartialEq, Eq, Structural)]
pub enum Status {
    /// Waiting for the worker.
    Queued,
    /// Being run, or about to be.
    Running,
    /// Done, and it passed.
    Pass,
    /// Done, and it failed.
    Fail,
    /// It could not be carried out.
    Error,
    /// Not run, since a dependency did not pass.
    Skipped,
}

impl Status {
    /// Whether this is a final state.
    pub open spec fn settled(&self) -> bool {
        !(self is Queued) && !(self is Running)
    }
}

/// One check to run. A check without a command is a composite of the checks it
/// depends on.
#[derive(Debug, Clone, PartialEq, Eq)]
pub struct CheckDef {
    /// The check's name.
    pub name: String,
    /// The shell command to run.
    pub command: Option<String>,
    /// The sandbox image the command is to run in.
    pub image: Option<String>,
    /// The checks that have to pass before this one is run.
    pub depends: Vec<String>,
    /// The toolchains to put on the path first.
    pub toolchains: Vec<String>,
}

/// One check's state within a run.
#[derive(Debug, Clone, PartialEq, Eq)]
pub struct CheckRun {
    /// The check's name.
    pub name: String,
    /// Its state.
    pub status: Status,
    /// How long it took, when it was run.
    pub duration_secs: Option<u64>,
    /// Its terminal session, when it was run.
    pub recording: Option<String>,
    /// Its exit code, when it ran to completion.
    pub exit_code: Option<i32>,
}

/// Whether `runs` are the states of `checks` at one shared status, before any
/// result is in.
pub open spec fn all_at(checks: Seq<CheckDef>, runs: Seq<CheckRun>, status: Status) -> bool {
    &&& runs.len() == checks.len()
    &&& forall|i: int|
        0 <= i < runs.len() ==> {
            &&& (#[trigger] runs[i]).name@ == checks[i].name@
            &&& runs[i].status == status
            &&& runs[i].duration_secs is None
            &&& runs[i].recording is None
            &&& runs[i].exit_code is None
        }
}

/// Every check at one shared status: the snapshot a run starts from before
/// per-check results land.
pub fn statuses(checks: &[CheckDef], status: Status) -> (r: Vec<CheckRun>)
    ensures
        all_at(checks@, r@, status),
{
    let mut r: Vec<CheckRun> = Vec::new();
    let mut i: usize = 0;
    while i < checks.len()
        invariant
            i <= checks@.len(),
            all_at(checks@.take(i as int), r@, status),
        decreases checks@.len() - i,
    {
        r.push(
            CheckRun {
                name: checks[i].name.clone(),
                status,
                duration_secs: None,
                recording: None,
                exit_code: None,
            },
        );
        i += 1;
    }
    proof {
        assert(checks@.take(checks@.len() as int) =~= checks@);
    }
    r
}

/// Whether every status is a pass.
pub open spec fn all_pass(deps: Seq<Status>) -> bool {
    forall|i: int| 0 <= i < deps.len() ==> (#[trigger] deps[i]) == Status::Pass
}

/// Whether any status is a failure or an error.
pub open spec fn any_failed(deps: Seq<Status>) -> bool {
    exists|i: int|
        0 <= i < deps.len() && ((#[trigger] deps[i]) == Status::Fail || deps[i] == Status::Error)
}

/// A composite's status: a pass where everything passed, a failure where
/// anything failed, and skipped otherwise.
pub open spec fn composite(deps: Seq<Status>) -> Status {
    if all_pass(deps) {
        Status::Pass
    } else if any_failed(deps) {
        Status::Fail
    } else {
        Status::Skipped
    }
}

fn passed(deps: &[Status]) -> (r: bool)
    ensures
        r == all_pass(deps@),
{
    let mut i: usize = 0;
    while i < deps.len()
        invariant
            i <= deps@.len(),
            forall|j: int| 0 <= j < i ==> (#[trigger] deps@[j]) == Status::Pass,
        decreases deps@.len() - i,
    {
        if deps[i] != Status::Pass {
            return false;
        }
        i += 1;
    }
    true
}

/// A composite check's status, derived from its dependencies' settled statuses.
pub fn derive_composite(deps: &[Status]) -> (r: Status)
    ensures
        r == composite(deps@),
{
    if passed(deps) {
        return Status::Pass;
    }
    let mut i: usize = 0;
    while i < deps.len()
        invariant
            i <= deps@.len(),
            !all_pass(deps@),
            forall|j: int|
                0 <= j < i ==> (#[trigger] deps@[j]) != Status::Fail && deps@[j] != Status::Error,
        decreases deps@.len() - i,
    {
        if deps[i] == Status::Fail || deps[i] == Status::Error {
            proof {
                assert(any_failed(deps@));
            }
            return Status::Fail;
        }
        i += 1;
    }
    Status::Skipped
}

/// Whether a run is of the check of a name.
pub open spec fn run_named(run: CheckRun, name: Seq<char>) -> bool {
    run.name@ == name
}

/// Whether a check has a name.
pub open spec fn check_named(check: CheckDef, name: Seq<char>) -> bool {
    check.name@ == name
}

/// The status of the first check named `name`.
pub open spec fn status_of(runs: Seq<CheckRun>, name: Seq<char>) -> Option<Status> {
    let i = first_where(runs, |run: CheckRun| run_named(run, name));
    if i < runs.len() {
        Some(runs[i].status)
    } else {
        None
    }
}

/// The statuses of the checks that a check depends on; one that is not in the
/// run counts for nothing.
pub open spec fn dep_statuses(check: CheckDef, runs: Seq<CheckRun>) -> Seq<Status> {
    kept(check.depends@, |dep: String| status_of(runs, dep@))
}

fn find_status(runs: &[CheckRun], name: &str) -> (r: Option<Status>)
    ensures
        r == status_of(runs@, name@),
{
    let ghost p = |run: CheckRun| run_named(run, name@);
    let mut i: usize = 0;
    while i < runs.len() && !same(runs[i].name.as_str(), name)
        invariant
            i <= runs@.len(),
            p == (|run: CheckRun| run_named(run, name@)),
            forall|j: int| 0 <= j < i ==> !p(#[trigger] runs@[j]),
        decreases runs@.len() - i,
    {
        i += 1;
    }
    proof {
        lemma_first_where_is(runs@, p, i as int);
    }
    if i < runs.len() {
        Some(runs[i].status)
    } else {
        None
    }
}

fn find_deps(check: &CheckDef, runs: &[CheckRun]) -> (r: Vec<Status>)
    ensures
        r@ == dep_statuses(*check, runs@),
{
    let ghost f = |dep: String| status_of(runs@, dep@);
    let mut r: Vec<Status> = Vec::new();
    let mut i: usize = 0;
    proof {
        assert(kept(check.depends@.take(0), f) =~= seq![]);
    }
    while i < check.depends.len()
        invariant
            i <= check.depends@.len(),
            f == (|dep: String| status_of(runs@, dep@)),
            r@ == kept(check.depends@.take(i as int), f),
        decreases check.depends@.len() - i,
    {
        proof {
            lemma_kept_step(check.depends@, f, i as int);
        }
        if let Some(status) = find_status(runs, check.depends[i].as_str()) {
            r.push(status);
        }
        i += 1;
    }
    proof {
        assert(check.depends@.take(check.depends@.len() as int) =~= check.depends@);
    }
    r
}

/// The directories of the toolchains that are there, in declared order.
pub open spec fn activated(toolchains: Seq<String>, dirs: Map<Seq<char>, String>) -> Seq<
    Seq<char>,
> {
    kept(
        toolchains,
        |name: String|
            if dirs.contains_key(name@) {
                Some(dirs[name@]@)
            } else {
                None
            },
    )
}

/// A command with its toolchains put on the path.
pub open spec fn activated_command(
    command: Seq<char>,
    toolchains: Seq<String>,
    dirs: Map<Seq<char>, String>,
) -> Seq<char> {
    if toolchains.len() == 0 {
        command
    } else {
        "export PATH="@ + joined(activated(toolchains, dirs), ":"@) + ":$PATH; "@ + command
    }
}

/// Prefixes `command` with a `PATH` export activating `toolchains`' extracted
/// directories, declared order first; a check with no toolchains is returned
/// unchanged.
pub fn activate(command: &str, toolchains: &[String], dirs: &TextMap<String>) -> (r: String)
    ensures
        r@ == activated_command(command@, toolchains@, dirs@),
{
    if toolchains.len() == 0 {
        return command.to_owned();
    }
    let ghost f = |name: String|
        if dirs@.contains_key(name@) {
            Some(dirs@[name@]@)
        } else {
            None
        };
    let mut path: Vec<String> = Vec::new();
    let mut i: usize = 0;
    proof {
        assert(texts(path@) =~= kept(toolchains@.take(0), f));
    }
    while i < toolchains.len()
        invariant
            i <= toolchains@.len(),
            f == |name: String|
                if dirs@.contains_key(name@) {
                    Some(dirs@[name@]@)
                } else {
                    None
                },
            texts(path@) == kept(toolchains@.take(i as int), f),
        decreases toolchains@.len() - i,
    {
        proof {
            lemma_kept_step(toolchains@, f, i as int);
        }
        let ghost prior = texts(path@);
        if let Some(dir) = dirs.get(toolchains[i].as_str()) {
            let copy = dir.clone();
            path.push(copy);
            proof {
                assert(texts(path@) =~= prior.push(copy@));
            }
        }
        i += 1;
    }
    proof {
        assert(toolchains@.take(toolchains@.len() as int) =~= toolchains@);
    }
    let mut r = "export PATH=".to_owned();
    r.append(join(&path, ":").as_str());
    r.append(":$PATH; ");
    r.append(command);
    r
}

/// What is done about one check.
#[derive(Debug, PartialEq, Eq)]
pub enum Step {
    /// Run this command for the check at the index.
    Run(usize, String),
    /// The check at the index is skipped: a dependency did not pass.
    Skip(usize),
    /// The check at the index is a composite, with this status.
    Composite(usize, Status),
    /// Every check is done.
    Done,
}

/// A step in mathematical terms.
pub enum StepView {
    /// Run this command for the check at the index.
    Run(int, Seq<char>),
    /// The check at the index is skipped.
    Skip(int),
    /// The check at the index is a composite, with this status.
    Composite(int, Status),
    /// Every check is done.
    Done,
}

impl View for Step {
    type V = StepView;

    open spec fn view(&self) -> StepView {
        match self {
            Step::Run(index, command) => StepView::Run(*index as int, command@),
            Step::Skip(index) => StepView::Skip(*index as int),
            Step::Composite(index, status) => StepView::Composite(*index as int, *status),
            Step::Done => StepView::Done,
        }
    }
}

/// What is done about the check at `index`: its command is run only where
/// every dependency passed, and a composite derives its status.
pub open spec fn step_for(
    checks: Seq<CheckDef>,
    runs: Seq<CheckRun>,
    dirs: Map<Seq<char>, String>,
    index: int,
) -> StepView {
    let check = checks[index];
    let deps = dep_statuses(check, runs);
    match check.command {
        Some(command) => if all_pass(deps) {
            StepView::Run(index, activated_command(command@, check.toolchains@, dirs))
        } else {
            StepView::Skip(index)
        },
        None => StepView::Composite(index, composite(deps)),
    }
}

/// A finished check: its outcome, how long it took, its exit code when it ran to
/// completion, and its terminal session.
#[derive(Debug, PartialEq, Eq)]
pub struct RunResult {
    /// The outcome.
    pub status: Status,
    /// How long it took.
    pub duration_secs: u64,
    /// The terminal session.
    pub recording: String,
    /// The exit code.
    pub exit_code: Option<i32>,
}

/// A job under way: the checks in the order they settle in, and what has become
/// of each.
#[derive(Debug)]
pub struct JobRun {
    /// The checks.
    pub checks: Vec<CheckDef>,
    /// What has become of each, in the same order.
    pub runs: Vec<CheckRun>,
    /// The indices of the checks, in the order they settle in.
    pub order: Vec<usize>,
    /// Where each toolchain was extracted to.
    pub dirs: TextMap<String>,
    /// How many of `order` have settled.
    pub done: usize,
}

/// Whether `runs` are still named as `checks` are.
pub open spec fn same_names(checks: Seq<CheckDef>, runs: Seq<CheckRun>) -> bool {
    &&& runs.len() == checks.len()
    &&& forall|i: int| 0 <= i < runs.len() ==> (#[trigger] runs[i]).name@ == checks[i].name@
}

impl JobRun {
    /// Whether a job is well-formed: every check has its state, the order only
    /// names checks that there are, and what has settled in it is settled.
    pub open spec fn wf(&self) -> bool {
        &&& same_names(self.checks@, self.runs@)
        &&& self.done <= self.order@.len()
        &&& forall|k: int|
            0 <= k < self.order@.len() ==> (#[trigger] self.order@[k]) < self.checks@.len()
        &&& forall|k: int|
            0 <= k < self.done ==> self.runs@[(#[trigger] self.order@[k]) as int].status.settled()
    }

    /// What is to be done next.
    pub open spec fn next_step(&self) -> StepView {
        if self.done < self.order@.len() {
            step_for(self.checks@, self.runs@, self.dirs@, self.order@[self.done as int] as int)
        } else {
            StepView::Done
        }
    }

    /// Starts a job: every check is running, and none has an order yet.
    pub fn start(checks: Vec<CheckDef>) -> (r: JobRun)
        ensures
            r.wf(),
            r.checks@ == checks@,
            all_at(checks@, r.runs@, Status::Running),
            r.order@.len() == 0,
            r.done == 0,
            r.dirs@ == Map::<Seq<char>, String>::empty(),
    {
        let runs = statuses(&checks, Status::Running);
        JobRun { checks, runs, order: Vec::new(), dirs: TextMap::new(), done: 0 }
    }

    /// Fixes the order that the checks settle in, by their names; a name that
    /// is no check's is passed over.
    pub fn set_order(&mut self, names: &[String])
        requires
            old(self).wf(),
            old(self).done == 0,
        ensures
            final(self).wf(),
            final(self).checks == old(self).checks,
            final(self).runs == old(self).runs,
            final(self).dirs == old(self).dirs,
            final(self).done == 0,
            final(self).order@.map_values(|i: usize| i as int) == kept(
                names@,
                |name: String| position_of(old(self).checks@, name@),
            ),
    {
        let ghost checks = self.checks@;
        let ghost f = |name: String| position_of(checks, name@);
        let ghost view = |i: usize| i as int;
        let mut order: Vec<usize> = Vec::new();
        let mut i: usize = 0;
        proof {
            assert(order@.map_values(view) =~= kept(names@.take(0), f));
        }
        while i < names.len()
            invariant
                i <= names@.len(),
                checks == self.checks@,
                f == (|name: String| position_of(checks, name@)),
                view == (|i: usize| i as int),
                order@.map_values(view) == kept(names@.take(i as int), f),
                forall|k: int| 0 <= k < order@.len() ==> (#[trigger] order@[k]) < checks.len(),
            decreases names@.len() - i,
        {
            proof {
                lemma_kept_step(names@, f, i as int);
            }
            let ghost prior = order@.map_values(view);
            if let Some(index) = position(&self.checks, names[i].as_str()) {
                order.push(index);
                proof {
                    assert(order@.map_values(view) =~= prior.push(index as int));
                }
            }
            i += 1;
        }
        proof {
            assert(names@.take(names@.len() as int) =~= names@);
        }
        self.order = order;
    }

    /// What is to be done next.
    pub fn decide(&self) -> (r: Step)
        requires
            self.wf(),
        ensures
            r@ == self.next_step(),
    {
        if self.done >= self.order.len() {
            return Step::Done;
        }
        let index: usize = self.order[self.done];
        let check = &self.checks[index];
        let deps = find_deps(check, &self.runs);
        match &check.command {
            Some(command) => if passed(&deps) {
                Step::Run(index, activate(command.as_str(), &check.toolchains, &self.dirs))
            } else {
                Step::Skip(index)
            },
            None => Step::Composite(index, derive_composite(&deps)),
        }
    }

    /// Puts a new state in for the check that is next, and goes on to the one
    /// after it.
    fn put(&mut self, run: CheckRun)
        requires
            old(self).wf(),
            old(self).done < old(self).order@.len(),
            run.status.settled(),
            run.name@ == old(self).runs@[old(self).order@[old(self).done as int] as int].name@,
        ensures
            final(self).wf(),
            final(self).checks == old(self).checks,
            final(self).order == old(self).order,
            final(self).dirs == old(self).dirs,
            final(self).done == old(self).done + 1,
            final(self).runs@ == old(self).runs@.update(
                old(self).order@[old(self).done as int] as int,
                run,
            ),
    {
        let _size: usize = self.order.len();
        let index: usize = self.order[self.done];
        let ghost before_runs = self.runs@;
        let ghost at = self.done as int;
        self.runs.set(index, run);
        self.done = self.done + 1;
        proof {
            assert forall|k: int| 0 <= k < self.done implies self.runs@[(
            #[trigger] self.order@[k]) as int].status.settled() by {
                if self.order@[k] != index {
                    assert(k < at);
                    assert(self.runs@[self.order@[k] as int] == before_runs[self.order@[k] as int]);
                }
            }
        }
    }

    /// Settles the check that was run with its result.
    pub fn settle_run(&mut self, result: RunResult)
        requires
            old(self).wf(),
            old(self).next_step() is Run,
            result.status.settled(),
        ensures
            final(self).wf(),
            final(self).checks == old(self).checks,
            final(self).order == old(self).order,
            final(self).dirs == old(self).dirs,
            final(self).done == old(self).done + 1,
            ({
                let index = old(self).order@[old(self).done as int] as int;
                &&& final(self).runs@.len() == old(self).runs@.len()
                &&& final(self).runs@[index].status == result.status
                &&& final(self).runs@[index].duration_secs == Some(result.duration_secs)
                &&& opt_text(final(self).runs@[index].recording) == Some(result.recording@)
                &&& final(self).runs@[index].exit_code == result.exit_code
                &&& forall|k: int|
                    0 <= k < final(self).runs@.len() && k != index ==> (#[trigger] final(self).runs@[k]) == old(self).runs@[k]
            }),
    {
        let index: usize = self.order[self.done];
        let run = CheckRun {
            name: self.runs[index].name.clone(),
            status: result.status,
            duration_secs: Some(result.duration_secs),
            recording: Some(result.recording),
            exit_code: result.exit_code,
        };
        self.put(run);
    }

    /// Settles the check that is skipped, or the composite, with its status.
    pub fn settle(&mut self)
        requires
            old(self).wf(),
            old(self).next_step() is Skip || old(self).next_step() is Composite,
        ensures
            final(self).wf(),
            final(self).checks == old(self).checks,
            final(self).order == old(self).order,
            final(self).dirs == old(self).dirs,
            final(self).done == old(self).done + 1,
            ({
                let index = old(self).order@[old(self).done as int] as int;
                &&& final(self).runs@.len() == old(self).runs@.len()
                &&& final(self).runs@[index].status == (match old(self).next_step() {
                    StepView::Composite(_, status) => status,
                    _ => Status::Skipped,
                })
                &&& final(self).runs@[index].duration_secs == old(self).runs@[index].duration_secs
                &&& opt_text(final(self).runs@[index].recording) == opt_text(
                    old(self).runs@[index].recording,
                )
                &&& final(self).runs@[index].exit_code == old(self).runs@[index].exit_code
                &&& forall|k: int|
                    0 <= k < final(self).runs@.len() && k != index ==> (#[trigger] final(self).runs@[k]) == old(self).runs@[k]
            }),
    {
        let step = self.decide();
        let index: usize = self.order[self.done];
        let status = match step {
            Step::Composite(_, status) => status,
            _ => Status::Skipped,
        };
        let held = &self.runs[index];
        let run = CheckRun {
            name: held.name.clone(),
            status,
            duration_secs: held.duration_secs,
            recording: opt_clone(&held.recording),
            exit_code: held.exit_code,
        };
        self.put(run);
    }

    /// Gives the job up: every check is an error, the terminal state for a run
    /// that could not be carried out.
    pub fn finalize_error(&mut self)
        requires
            old(self).wf(),
        ensures
            final(self).wf(),
            final(self).checks == old(self).checks,
            final(self).order == old(self).order,
            final(self).done == old(self).done,
            final(self).runs@.len() == old(self).runs@.len(),
            forall|i: int|
                0 <= i < final(self).runs@.len() ==> {
                    &&& (#[trigger] final(self).runs@[i]).status == Status::Error
                    &&& final(self).runs@[i].name == old(self).runs@[i].name
                    &&& final(self).runs@[i].duration_secs == old(self).runs@[i].duration_secs
                    &&& opt_text(final(self).runs@[i].recording) == opt_text(
                        old(self).runs@[i].recording,
                    )
                    &&& final(self).runs@[i].exit_code == old(self).runs@[i].exit_code
                },
    {
        let ghost prior = self.runs@;
        let mut runs: Vec<CheckRun> = Vec::new();
        let mut i: usize = 0;
        while i < self.runs.len()
            invariant
                i <= self.runs@.len(),
                self.runs@ == prior,
                runs@.len() == i,
                forall|j: int|
                    0 <= j < i ==> {
                        &&& (#[trigger] runs@[j]).status == Status::Error
                        &&& runs@[j].name == prior[j].name
                        &&& runs@[j].duration_secs == prior[j].duration_secs
                        &&& opt_text(runs@[j].recording) == opt_text(prior[j].recording)
                        &&& runs@[j].exit_code == prior[j].exit_code
                    },
            decreases self.runs@.len() - i,
        {
            let held = &self.runs[i];
            runs.push(
                CheckRun {
                    name: held.name.clone(),
                    status: Status::Error,
                    duration_secs: held.duration_secs,
                    recording: opt_clone(&held.recording),
                    exit_code: held.exit_code,
                },
            );
            i += 1;
        }
        self.runs = runs;
    }
}

/// Where the first check named `name` is.
pub open spec fn position_of(checks: Seq<CheckDef>, name: Seq<char>) -> Option<int> {
    let i = first_where(checks, |check: CheckDef| check_named(check, name));
    if i < checks.len() {
        Some(i)
    } else {
        None
    }
}

fn position(checks: &Vec<CheckDef>, name: &str) -> (r: Option<usize>)
    ensures
        match r {
            Some(i) => i < checks@.len() && position_of(checks@, name@) == Some(i as int),
            None => position_of(checks@, name@) is None,
        },
{
    let ghost p = |check: CheckDef| check_named(check, name@);
    let mut i: usize = 0;
    while i < checks.len() && !same(checks[i].name.as_str(), name)
        invariant
            i <= checks@.len(),
            p == (|check: CheckDef| check_named(check, name@)),
            forall|j: int| 0 <= j < i ==> !p(#[trigger] checks@[j]),
        decreases checks@.len() - i,
    {
        i += 1;
    }
    proof {
        lemma_first_where_is(checks@, p, i as int);
    }
    if i < checks.len() {
        Some(i)
    } else {
        None
    }
}

/// A check whose dependency did not pass is never run.
pub proof fn law_failed_dependency_is_never_run(
    checks: Seq<CheckDef>,
    runs: Seq<CheckRun>,
    dirs: Map<Seq<char>, String>,
    index: int,
    k: int,
)
    requires
        0 <= k < checks[index].depends@.len(),
        status_of(runs, checks[index].depends@[k]@) is Some,
        status_of(runs, checks[index].depends@[k]@) != Some(Status::Pass),
    ensures
        !(step_for(checks, runs, dirs, index) is Run),
        checks[index].command is Some ==> step_for(checks, runs, dirs, index) == StepView::Skip(
            index,
        ),
{
    let f = |dep: String| status_of(runs, dep@);
    let j = lemma_kept_has(checks[index].depends@, f, k);
    assert(dep_statuses(checks[index], runs)[j] != Status::Pass);
}

/// A composite passes only where everything that it depends on passed.
pub proof fn law_composite_passes_only_if_all_pass(deps: Seq<Status>)
    ensures
        composite(deps) == Status::Pass <==> all_pass(deps),
        any_failed(deps) ==> composite(deps) == Status::Fail,
        composite(deps).settled(),
{
    if any_failed(deps) {
        let i = choose|i: int|
            0 <= i < deps.len() && ((#[trigger] deps[i]) == Status::Fail || deps[i]
                == Status::Error);
        assert(deps[i] != Status::Pass);
    }
}

/// One ref that a push updated.
#[derive(Debug, Clone, PartialEq, Eq)]
pub struct Update {
    /// The new tip.
    pub new: ObjectId,
    /// The ref.
    pub ref_name: String,
}

/// The update that a hook's input line reports, if it is worth checking: a new
/// tip that is a real object, on a ref that is not one of the control refs.
pub open spec fn checked_update(line: Seq<char>) -> Option<(Seq<char>, Seq<char>)> {
    let parts = fields_of(line);
    if parts.len() < 3 {
        None
    } else {
        match hex_id(encode_utf8(parts[1])) {
            Some(id) => if id == null_digits() || starts(parts[2], "refs/meta/"@) {
                None
            } else {
                Some((id, parts[2]))
            },
            None => None,
        }
    }
}

/// The views of a sequence of updates.
pub open spec fn update_views(v: Seq<Update>) -> Seq<(Seq<char>, Seq<char>)> {
    v.map_values(|u: Update| (u.new@, u.ref_name@))
}

/// The updates worth checking among what git tells a hook.
pub open spec fn checked_updates(input: Seq<char>) -> Seq<(Seq<char>, Seq<char>)> {
    kept(lines_of(input), |line: Seq<char>| checked_update(line))
}

/// Parses git's `<old-oid> <new-oid> <ref>` lines into the updates worth
/// checking. Deletions and the `refs/meta/*` control refs are left out: the
/// checks gate ordinary content, not the trust plumbing.
pub fn parse_updates(input: &str) -> (r: Vec<Update>)
    ensures
        update_views(r@) == checked_updates(input@),
{
    let all = lines(input);
    let ghost seen = texts(all@);
    let ghost f = |line: Seq<char>| checked_update(line);
    let mut r: Vec<Update> = Vec::new();
    let mut i: usize = 0;
    proof {
        assert(update_views(r@) =~= kept(seen.take(0), f));
    }
    while i < all.len()
        invariant
            i <= all@.len(),
            seen == texts(all@),
            f == (|line: Seq<char>| checked_update(line)),
            update_views(r@) == kept(seen.take(i as int), f),
        decreases all@.len() - i,
    {
        proof {
            lemma_kept_step(seen, f, i as int);
            assert(seen[i as int] == all@[i as int]@);
        }
        let ghost prior = update_views(r@);
        if let Some(update) = parse_update(all[i].as_str()) {
            let ghost pair = (update.new@, update.ref_name@);
            r.push(update);
            proof {
                assert(update_views(r@) =~= prior.push(pair));
            }
        }
        i += 1;
    }
    proof {
        assert(seen.take(seen.len() as int) =~= seen);
    }
    r
}

fn parse_update(line: &str) -> (r: Option<Update>)
    ensures
        match r {
            Some(update) => checked_update(line@) == Some((update.new@, update.ref_name@)),
            None => checked_update(line@) is None,
        },
{
    let parts = fields(line);
    proof {
        assert(texts(parts@).len() == parts@.len());
    }
    if parts.len() < 3 {
        return None;
    }
    proof {
        assert(texts(parts@)[1] == parts@[1]@);
        assert(texts(parts@)[2] == parts@[2]@);
    }
    match ObjectId::from_hex(parts[1].as_str().as_bytes()) {
        Some(new) => if new.is_null() || starts_with(parts[2].as_str(), "refs/meta/") {
            None
        } else {
            Some(Update { new, ref_name: parts[2].clone() })
        },
        None => None,
    }
}

/// No control ref is ever queued for checking, and neither is a deletion.
pub proof fn law_only_content_is_checked(lines: Seq<Seq<char>>, k: int)
    requires
        0 <= k < kept(lines, |line: Seq<char>| checked_update(line)).len(),
    ensures
        kept(lines, |line: Seq<char>| checked_update(line))[k].0 != null_digits(),
        !starts(kept(lines, |line: Seq<char>| checked_update(line))[k].1, "refs/meta/"@),
{
    let f = |line: Seq<char>| checked_update(line);
    let i = lemma_kept_from(lines, f, k);
}

/// What a `post-receive` hook does.
#[derive(Debug, PartialEq, Eq)]
pub enum HookPlan {
    /// Nothing: there is nothing to check, or nothing to check it with.
    Nothing,
    /// Nothing, but the queue is not configured.
    NoQueue,
    /// Queue these updates.
    Queue(Vec<Update>),
}

/// What a `post-receive` hook does: an update is queued only where there are
/// checks to run and a queue to put it in.
pub fn post_receive(input: &str, checks: usize, queue_set: bool) -> (r: HookPlan)
    ensures
        ({
            let updates = checked_updates(input@);
            if updates.len() == 0 || checks == 0 {
                r is Nothing
            } else if !queue_set {
                r is NoQueue
            } else {
                r matches HookPlan::Queue(queued) && update_views(queued@) == updates
            }
        }),
{
    let updates = parse_updates(input);
    proof {
        assert(update_views(updates@).len() == updates@.len());
    }
    if updates.len() == 0 || checks == 0 {
        HookPlan::Nothing
    } else if !queue_set {
        HookPlan::NoQueue
    } else {
        HookPlan::Queue(updates)
    }
}

/// One queued push: the repository to check, the new tip to check, and the ref
/// it updated.
#[derive(Debug, Clone, PartialEq, Eq)]
pub struct Job {
    /// The repository.
    pub repo: String,
    /// The new tip.
    pub new: ObjectId,
    /// The ref.
    pub ref_name: String,
}

/// What a job file holds: the repository, the new tip and the ref, one to a
/// line.
pub open spec fn job_text(repo: Seq<char>, new: Seq<char>, ref_name: Seq<char>) -> Seq<char> {
    repo + "\n"@ + new + "\n"@ + ref_name + "\n"@
}

/// The body of the job file that queues `update`.
pub fn job_body(repo: &str, update: &Update) -> (r: String)
    ensures
        r@ == job_text(repo@, update.new@, update.ref_name@),
{
    let mut r = repo.to_owned();
    r.append("\n");
    r.append(update.new.as_str());
    r.append("\n");
    r.append(update.ref_name.as_str());
    r.append("\n");
    r
}

/// The file names that a job with this stem is written under, and then
/// renamed to, so that the worker never observes half a job.
pub open spec fn is_job_names(names: (String, String), stem: Seq<char>) -> bool {
    names.0@ == stem + ".tmp"@ && names.1@ == stem + ".job"@
}

/// The file names for a job with this stem.
pub fn names_for(stem: &str) -> (r: (String, String))
    ensures
        is_job_names(r, stem@),
{
    let mut tmp = stem.to_owned();
    tmp.append(".tmp");
    let mut job = stem.to_owned();
    job.append(".job");
    (tmp, job)
}

/// Unique file names for a job, so that concurrent pushes never collide in the
/// queue.
pub fn job_names() -> (r: (String, String))
    ensures
        exists|stem: Seq<char>| #[trigger] hyphenated(stem) && is_job_names(r, stem),
{
    let stem = random_uuid();
    let names = names_for(stem.as_str());
    proof {
        assert(hyphenated(stem@));
    }
    names
}

/// What a job file says, or nothing where it is malformed.
pub open spec fn job_of(contents: Seq<char>) -> Option<(Seq<char>, Seq<char>, Seq<char>)> {
    let parts = lines_of(contents);
    if parts.len() < 3 {
        None
    } else {
        match hex_id(encode_utf8(parts[1])) {
            Some(id) => Some((parts[0], id, parts[2])),
            None => None,
        }
    }
}

/// Reads a queued job file (`repo`, new oid, ref, one per line), or nothing
/// when it is malformed.
pub fn read_job(contents: &str) -> (r: Option<Job>)
    ensures
        match r {
            Some(job) => job_of(contents@) == Some((job.repo@, job.new@, job.ref_name@)),
            None => job_of(contents@) is None,
        },
{
    let parts = lines(contents);
    proof {
        assert(texts(parts@).len() == parts@.len());
    }
    if parts.len() < 3 {
        return None;
    }
    proof {
        assert(texts(parts@)[0] == parts@[0]@);
        assert(texts(parts@)[1] == parts@[1]@);
        assert(texts(parts@)[2] == parts@[2]@);
    }
    match ObjectId::from_hex(parts[1].as_str().as_bytes()) {
        Some(new) => Some(Job { repo: parts[0].clone(), new, ref_name: parts[2].clone() }),
        None => None,
    }
}

/// A text without the end of a line.
pub open spec fn one_line(s: Seq<char>) -> bool {
    forall|i: int| 0 <= i < s.len() ==> (#[trigger] s[i]) != '\n' && s[i] != '\r'
}

proof fn lemma_first_line(line: Seq<char>, rest: Seq<char>)
    requires
        one_line(line),
    ensures
        lines_of(line + "\n"@ + rest) == seq![line] + lines_of(rest),
{
    reveal_strlit("\n");
    let s = line + "\n"@ + rest;
    assert forall|j: int| 0 <= j < line.len() implies s[j] != '\n' by {
        assert(s[j] == line[j]);
    }
    crate::text::lemma_index_of_is(s, '\n', line.len() as int);
    assert(s.take(line.len() as int) =~= line);
    assert(s.skip(1 + line.len() as int) =~= rest);
    if line.len() > 0 {
        assert(line[line.len() - 1] != '\r');
    }
}

/// A job that is queued is the job that is read back. A path or a ref that
/// holds the end of a line cannot be written down this way.
pub proof fn law_job_round_trip(repo: Seq<char>, new: Seq<char>, ref_name: Seq<char>)
    requires
        one_line(repo),
        one_line(ref_name),
        hex_id(encode_utf8(new)) == Some(new),
    ensures
        job_of(job_text(repo, new, ref_name)) == Some((repo, new, ref_name)),
{
    reveal_strlit("\n");
    lemma_id_is_one_line(new);
    let third = ref_name + "\n"@ + Seq::<char>::empty();
    let second = new + "\n"@ + third;
    let whole = repo + "\n"@ + second;
    assert(whole =~= job_text(repo, new, ref_name));
    lemma_first_line(repo, second);
    lemma_first_line(new, third);
    lemma_first_line(ref_name, seq![]);
    assert(lines_of(Seq::<char>::empty()) =~= seq![]);
    assert(lines_of(whole) =~= seq![repo, new, ref_name]);
}

/// The digits of an id hold no end of a line.
proof fn lemma_id_is_one_line(id: Seq<char>)
    requires
        hex_id(encode_utf8(id)) == Some(id),
    ensures
        one_line(id),
{
    let bytes = encode_utf8(id);
    assert forall|i: int| 0 <= i < id.len() implies (#[trigger] id[i]) != '\n' && id[i]
        != '\r' by {
        assert(id[i] == lower(bytes[i] as char));
        assert(crate::text::digit_value(bytes[i] as char) is Some);
        lemma_digit_is_visible(bytes[i]);
    }
}

proof fn lemma_digit_is_visible(b: u8)
    requires
        crate::text::digit_value(b as char) is Some,
    ensures
        lower(b as char) != '\n',
        lower(b as char) != '\r',
{
}

/// The pieces of a path that name something: neither empty nor `.`.
pub open spec fn path_names(path: Seq<char>) -> Seq<Seq<char>> {
    kept(
        nonempty(split_on(path, '/')),
        |p: Seq<char>|
            if p == "."@ {
                None
            } else {
                Some(p)
            },
    )
}

/// The last name of a path, unless the path ends by climbing.
pub open spec fn file_name(path: Seq<char>) -> Option<Seq<char>> {
    let names = path_names(path);
    if names.len() == 0 || names.last() == ".."@ {
        None
    } else {
        Some(names.last())
    }
}

/// The last name of a path, unless the path ends by climbing.
pub fn path_file_name(path: &str) -> (r: Option<String>)
    ensures
        opt_text(r) == file_name(path@),
{
    let parts = split_nonempty(path, '/');
    let ghost all = texts(parts@);
    let ghost f = |p: Seq<char>|
        if p == "."@ {
            None
        } else {
            Some(p)
        };
    let mut n: usize = parts.len();
    proof {
        assert(all.take(all.len() as int) =~= all);
    }
    while n > 0 && same(parts[n - 1].as_str(), ".")
        invariant
            n <= parts@.len(),
            all == texts(parts@),
            f == |p: Seq<char>|
                if p == "."@ {
                    None
                } else {
                    Some(p)
                },
            kept(all.take(n as int), f) == kept(all, f),
        decreases n,
    {
        proof {
            lemma_kept_step(all, f, n - 1);
            assert(all[n - 1] == parts@[n - 1]@);
        }
        n -= 1;
    }
    if n == 0 {
        proof {
            assert(kept(all.take(0), f) =~= seq![]);
        }
        return None;
    }
    proof {
        lemma_kept_step(all, f, n - 1);
        assert(all[n - 1] == parts@[n - 1]@);
    }
    if same(parts[n - 1].as_str(), "..") {
        None
    } else {
        Some(parts[n - 1].clone())
    }
}

/// The extension of a path's last name: what follows its last dot, unless the
/// name begins with that dot.
pub open spec fn extension(path: Seq<char>) -> Option<Seq<char>> {
    match file_name(path) {
        Some(name) => if last_index_of(name, '.') > 0 {
            Some(name.skip(last_index_of(name, '.') + 1))
        } else {
            None
        },
        None => None,
    }
}

/// Whether a path has an extension.
pub fn has_extension(path: &str, wanted: &str) -> (r: bool)
    ensures
        r == (extension(path@) == Some(wanted@)),
{
    match path_file_name(path) {
        Some(name) => {
            proof {
                lemma_last_index_of(name@, '.');
            }
            match tail_after(name.as_str(), '.') {
                Some(ext) => {
                    let size: usize = name.as_str().unicode_len();
                    let tail: usize = ext.as_str().unicode_len();
                    size - tail > 1 && same(ext.as_str(), wanted)
                },
                None => false,
            }
        },
        None => false,
    }
}

/// Whether a path is a job file's.
pub fn is_job_file(path: &str) -> (r: bool)
    ensures
        r == (extension(path@) == Some("job"@)),
{
    has_extension(path, "job")
}

/// A file of the queue: its path, and its contents where they can be read.
#[derive(Debug)]
pub struct QueueFile {
    /// The path.
    pub path: String,
    /// The contents.
    pub contents: Option<String>,
}

/// The job that a queue file holds: its path and its parts.
pub open spec fn queued(file: QueueFile) -> Option<
    (Seq<char>, (Seq<char>, Seq<char>, Seq<char>)),
> {
    if extension(file.path@) == Some("job"@) {
        match file.contents {
            Some(contents) => match job_of(contents@) {
                Some(job) => Some((file.path@, job)),
                None => None,
            },
            None => None,
        }
    } else {
        None
    }
}

/// A job file that holds no job, by its path.
pub open spec fn poisoned(file: QueueFile) -> Option<Seq<char>> {
    if extension(file.path@) == Some("job"@) && queued(file) is None {
        Some(file.path@)
    } else {
        None
    }
}

/// The job that a queue file holds for one repository.
pub open spec fn queued_for(repo: Seq<char>) -> spec_fn(QueueFile) -> Option<
    (Seq<char>, (Seq<char>, Seq<char>, Seq<char>)),
> {
    |file: QueueFile|
        match queued(file) {
            Some((path, job)) => if job.0 == repo {
                Some((path, job))
            } else {
                None
            },
            None => None,
        }
}

/// The jobs that are queued for one repository, in the order of the files.
pub open spec fn group_of(files: Seq<QueueFile>, repo: Seq<char>) -> Seq<
    (Seq<char>, (Seq<char>, Seq<char>, Seq<char>)),
> {
    kept(files, queued_for(repo))
}

/// The views of a sequence of queued jobs.
pub open spec fn job_views(v: Seq<(String, Job)>) -> Seq<
    (Seq<char>, (Seq<char>, Seq<char>, Seq<char>)),
> {
    v.map_values(|j: (String, Job)| (j.0@, (j.1.repo@, j.1.new@, j.1.ref_name@)))
}

/// Whether `groups` hold exactly the jobs of `files`, by repository.
pub open spec fn grouped(
    groups: Map<Seq<char>, Vec<(String, Job)>>,
    files: Seq<QueueFile>,
) -> bool {
    forall|repo: Seq<char>| #[trigger]
        groups.contains_key(repo) == (group_of(files, repo).len() > 0) && (groups.contains_key(repo)
            ==> job_views(groups[repo]@) == group_of(files, repo))
}

/// The pending jobs of a queue grouped by repository, so that each repository
/// can be drained independently and in order, and the job files that are
/// malformed: a poison job is dropped, never retried. Other files are passed
/// over.
pub fn pending_jobs(files: Vec<QueueFile>) -> (r: (TextMap<Vec<(String, Job)>>, Vec<String>))
    ensures
        grouped(r.0@, files@),
        texts(r.1@) == kept(files@, |file: QueueFile| poisoned(file)),
{
    let ghost all = files@;
    let ghost bad = |file: QueueFile| poisoned(file);
    let mut groups: TextMap<Vec<(String, Job)>> = TextMap::new();
    let mut poison: Vec<String> = Vec::new();
    proof {
        assert(texts(poison@) =~= kept(all.take(0), bad));
        assert(all.take(0) =~= seq![]);
    }
    for file in it: files
        invariant
            it.seq() == all,
            bad == (|file: QueueFile| poisoned(file)),
            grouped(groups@, all.take(it.index())),
            texts(poison@) == kept(all.take(it.index()), bad),
    {
        let ghost i = it.index();
        let ghost prior = groups@;
        proof {
            lemma_kept_step(all, bad, i);
            assert(all[i] == file);
            assert forall|repo: Seq<char>| #[trigger] group_of(all.take(i + 1), repo) == (
            match queued_for(repo)(all[i]) {
                Some(job) => group_of(all.take(i), repo).push(job),
                None => group_of(all.take(i), repo),
            }) by {
                lemma_kept_step(all, queued_for(repo), i);
            }
        }
        if is_job_file(file.path.as_str()) {
            let job = match &file.contents {
                Some(contents) => read_job(contents.as_str()),
                None => None,
            };
            match job {
                Some(job) => {
                    let ghost repo = job.repo@;
                    let repo_name = job.repo.clone();
                    let mut jobs = match groups.remove(repo_name.as_str()) {
                        Some(jobs) => jobs,
                        None => Vec::new(),
                    };
                    let ghost held = job_views(jobs@);
                    let ghost added = (file.path@, (job.repo@, job.new@, job.ref_name@));
                    proof {
                        assert(prior.contains_key(repo) == (group_of(all.take(i), repo).len() > 0));
                        assert(held =~= group_of(all.take(i), repo));
                    }
                    jobs.push((file.path.clone(), job));
                    let ghost after = jobs;
                    proof {
                        assert(job_views(jobs@) =~= held.push(added));
                    }
                    groups.insert(repo_name, jobs);
                    proof {
                        assert(groups@ =~= prior.insert(repo, after));
                        assert forall|other: Seq<char>| #[trigger]
                            groups@.contains_key(other) == (group_of(all.take(i + 1), other).len()
                                > 0) && (groups@.contains_key(other) ==> job_views(
                                groups@[other]@,
                            ) == group_of(all.take(i + 1), other)) by {
                            assert(prior.contains_key(other) == (group_of(
                                all.take(i),
                                other,
                            ).len() > 0));
                            if other == repo {
                                assert(queued_for(repo)(all[i]) == Some(added));
                            } else {
                                assert(queued_for(other)(all[i]) is None);
                            }
                        }
                    }
                },
                None => {
                    let ghost prior_poison = texts(poison@);
                    let path = file.path.clone();
                    poison.push(path);
                    proof {
                        assert(texts(poison@) =~= prior_poison.push(path@));
                        assert(queued(file) is None);
                        assert forall|other: Seq<char>| #[trigger]
                            groups@.contains_key(other) == (group_of(all.take(i + 1), other).len()
                                > 0) && (groups@.contains_key(other) ==> job_views(
                                groups@[other]@,
                            ) == group_of(all.take(i + 1), other)) by {
                            assert(queued_for(other)(all[i]) is None);
                        }
                    }
                },
            }
        } else {
            proof {
                assert(queued(file) is None);
                assert forall|other: Seq<char>| #[trigger]
                    groups@.contains_key(other) == (group_of(all.take(i + 1), other).len() > 0)
                        && (groups@.contains_key(other) ==> job_views(groups@[other]@) == group_of(
                        all.take(i + 1),
                        other,
                    )) by {
                    assert(queued_for(other)(all[i]) is None);
                }
            }
        }
    }
    proof {
        assert(all.take(all.len() as int) =~= all);
    }
    (groups, poison)
}

/// A character of a sandbox's name.
pub open spec fn sprite_char(c: char) -> char {
    if is_alphanumeric(c) {
        lower(c)
    } else {
        '-'
    }
}

/// The stem of a sandbox's name, for a directory of this name.
pub open spec fn sprite_stem(stem: Seq<char>) -> Seq<char> {
    let trimmed = stripped_end(
        stripped_start(stem.map_values(|c: char| sprite_char(c)), '-'),
        '-',
    );
    if trimmed.len() == 0 {
        "repo"@
    } else {
        trimmed
    }
}

/// The name of a repository's sandbox.
pub open spec fn sprite_of(repo: Seq<char>) -> Seq<char> {
    "checks-"@ + sprite_stem(
        match file_name(repo) {
            Some(name) => name,
            None => "repo"@,
        },
    )
}

/// A sandbox name derived from the repository directory, kept to the
/// `[a-z0-9-]` that such a name allows, so that the same repository reuses the
/// same sandbox.
pub fn sprite_name(repo: &str) -> (r: String)
    ensures
        r@ == sprite_of(repo@),
{
    let stem = match path_file_name(repo) {
        Some(name) => name,
        None => "repo".to_owned(),
    };
    let v = chars_of(stem.as_str());
    let mut sanitized = String::new();
    let mut i: usize = 0;
    let ghost f = |c: char| sprite_char(c);
    while i < v.len()
        invariant
            i <= v@.len(),
            f == (|c: char| sprite_char(c)),
            sanitized@ == v@.take(i as int).map_values(f),
        decreases v@.len() - i,
    {
        if alphanumeric(v[i]) {
            sanitized.push(to_lower(v[i]));
        } else {
            sanitized.push('-');
        }
        proof {
            assert(v@.take(i + 1).map_values(f) =~= v@.take(i as int).map_values(f).push(
                sprite_char(v@[i as int]),
            ));
        }
        i += 1;
    }
    proof {
        assert(v@.take(v@.len() as int) =~= v@);
    }
    let start = trim_start_of(sanitized.as_str(), '-');
    let trimmed = trim_end_of(start.as_str(), '-');
    let mut r = "checks-".to_owned();
    if trimmed.as_str().is_empty() {
        r.append("repo");
    } else {
        r.append(trimmed.as_str());
    }
    r
}

/// Whether `c` may stand in a sandbox's name.
pub open spec fn in_sprite_name(c: char) -> bool {
    'a' <= c <= 'z' || '0' <= c <= '9' || c == '-'
}

/// A sandbox's name is made of lower-case letters, digits and dashes, whatever
/// the repository is called.
pub proof fn law_sprite_name_is_plain(repo: Seq<char>)
    ensures
        forall|i: int| 0 <= i < sprite_of(repo).len() ==> in_sprite_name(#[trigger] sprite_of(repo)[i]),
{
    reveal_strlit("checks-");
    reveal_strlit("repo");
    let stem = match file_name(repo) {
        Some(name) => name,
        None => "repo"@,
    };
    let mapped = stem.map_values(|c: char| sprite_char(c));
    assert forall|i: int| 0 <= i < mapped.len() implies in_sprite_name(#[trigger] mapped[i]) by {
        lemma_sprite_char(stem[i]);
    }
    lemma_stripped_start_from(mapped, '-');
    lemma_stripped_end_from(stripped_start(mapped, '-'), '-');
    let trimmed = stripped_end(stripped_start(mapped, '-'), '-');
    let name = sprite_of(repo);
    let prefix = "checks-"@;
    assert forall|i: int| 0 <= i < name.len() implies in_sprite_name(#[trigger] name[i]) by {
        if i < prefix.len() {
            assert(name[i] == prefix[i]);
        } else if trimmed.len() == 0 {
            assert(name[i] == "repo"@[i - prefix.len()]);
        } else {
            assert(name[i] == trimmed[i - prefix.len()]);
        }
    }
}

proof fn lemma_sprite_char(c: char)
    ensures
        in_sprite_name(sprite_char(c)),
{
}

/// Stripping leaves a part of what was there.
pub proof fn lemma_stripped_start_from(s: Seq<char>, c: char)
    ensures
        stripped_start(s, c).len() <= s.len(),
        forall|i: int|
            0 <= i < stripped_start(s, c).len() ==> s.contains(#[trigger] stripped_start(s, c)[i]),
    decreases s.len(),
{
    if s.len() > 0 && s[0] == c {
        lemma_stripped_start_from(s.skip(1), c);
        let t = stripped_start(s, c);
        assert forall|i: int| 0 <= i < t.len() implies s.contains(#[trigger] t[i]) by {
            assert(s.skip(1).contains(t[i]));
            let j = choose|j: int| 0 <= j < s.skip(1).len() && s.skip(1)[j] == t[i];
            assert(s[j + 1] == t[i]);
        }
    }
}

/// Stripping leaves a part of what was there.
pub proof fn lemma_stripped_end_from(s: Seq<char>, c: char)
    ensures
        stripped_end(s, c).len() <= s.len(),
        forall|i: int|
            0 <= i < stripped_end(s, c).len() ==> s.contains(#[trigger] stripped_end(s, c)[i]),
    decreases s.len(),
{
    if s.len() > 0 && s.last() == c {
        lemma_stripped_end_from(s.drop_last(), c);
        let t = stripped_end(s, c);
        assert forall|i: int| 0 <= i < t.len() implies s.contains(#[trigger] t[i]) by {
            assert(s.drop_last().contains(t[i]));
            let j = choose|j: int| 0 <= j < s.drop_last().len() && s.drop_last()[j] == t[i];
            assert(s[j] == t[i]);
        }
    }
}

/// Whether any check names the toolchain `name`.
pub open spec fn needs(checks: Seq<CheckDef>, name: Seq<char>) -> bool {
    exists|i: int, k: int|
        0 <= i < checks.len() && 0 <= k < checks[i].toolchains@.len() && (
        #[trigger] checks[i].toolchains@[k])@ == name
}

/// Every distinct toolchain named across the checks, in the order of the names.
pub fn toolchain_names(checks: &[CheckDef]) -> (r: TextMap<()>)
    ensures
        forall|name: Seq<char>| #[trigger] r@.contains_key(name) == needs(checks@, name),
{
    let mut r: TextMap<()> = TextMap::new();
    let mut i: usize = 0;
    while i < checks.len()
        invariant
            i <= checks@.len(),
            forall|name: Seq<char>| #[trigger]
                r@.contains_key(name) == needs(checks@.take(i as int), name),
        decreases checks@.len() - i,
    {
        let ghost prior = r@;
        let mut k: usize = 0;
        while k < checks[i].toolchains.len()
            invariant
                i < checks@.len(),
                k <= checks@[i as int].toolchains@.len(),
                forall|name: Seq<char>| #[trigger]
                    r@.contains_key(name) == (prior.contains_key(name) || exists|j: int|
                        0 <= j < k && (#[trigger] checks@[i as int].toolchains@[j])@ == name),
            decreases checks@[i as int].toolchains@.len() - k,
        {
            let ghost held = r@;
            r.insert(checks[i].toolchains[k].clone(), ());
            proof {
                let added = checks@[i as int].toolchains@[k as int]@;
                assert forall|name: Seq<char>| #[trigger]
                    r@.contains_key(name) == (prior.contains_key(name) || exists|j: int|
                        0 <= j < k + 1 && (#[trigger] checks@[i as int].toolchains@[j])@ == name) by {
                    assert(held.contains_key(name) == (prior.contains_key(name) || exists|j: int|
                        0 <= j < k && (#[trigger] checks@[i as int].toolchains@[j])@ == name));
                    if name == added {
                        assert(checks@[i as int].toolchains@[k as int]@ == name);
                    }
                }
            }
            k += 1;
        }
        proof {
            let now = checks@.take(i + 1);
            let earlier = checks@.take(i as int);
            assert forall|name: Seq<char>| #[trigger] r@.contains_key(name) == needs(now, name) by {
                assert(prior.contains_key(name) == needs(earlier, name));
                if needs(now, name) {
                    let (a, b) = choose|a: int, b: int|
                        0 <= a < now.len() && 0 <= b < now[a].toolchains@.len() && (
                        #[trigger] now[a].toolchains@[b])@ == name;
                    if a < i {
                        assert(earlier[a].toolchains@[b]@ == name);
                    } else {
                        assert(checks@[i as int].toolchains@[b]@ == name);
                    }
                }
                if needs(earlier, name) {
                    let (a, b) = choose|a: int, b: int|
                        0 <= a < earlier.len() && 0 <= b < earlier[a].toolchains@.len() && (
                        #[trigger] earlier[a].toolchains@[b])@ == name;
                    assert(now[a].toolchains@[b]@ == name);
                }
                if exists|j: int|
                    0 <= j < checks@[i as int].toolchains@.len() && (
                    #[trigger] checks@[i as int].toolchains@[j])@ == name {
                    let j = choose|j: int|
                        0 <= j < checks@[i as int].toolchains@.len() && (
                        #[trigger] checks@[i as int].toolchains@[j])@ == name;
                    assert(now[i as int].toolchains@[j]@ == name);
                }
            }
        }
        i += 1;
    }
    proof {
        assert(checks@.take(checks@.len() as int) =~= checks@);
    }
    r
}

/// The directory that a toolchain's tree is extracted into.
pub fn toolchain_dir(tree: &ObjectId) -> (r: String)
    ensures
        r@ == TOOLCHAINS_DIR@ + "/"@ + tree@,
{
    let mut r = TOOLCHAINS_DIR.to_owned();
    r.append("/");
    r.append(tree.as_str());
    r
}

/// The script that tells whether a toolchain is already extracted.
pub fn cached_script(dir: &str) -> (r: String)
    ensures
        r@ == "[ -d "@ + dir@ + " ]"@,
{
    let mut r = "[ -d ".to_owned();
    r.append(dir);
    r.append(" ]");
    r
}

/// The script that extracts a toolchain's tree.
pub fn extract_script(dir: &str) -> (r: String)
    ensures
        r@ == "mkdir -p "@ + dir@ + " && tar -x -C "@ + dir@,
{
    let mut r = "mkdir -p ".to_owned();
    r.append(dir);
    r.append(" && tar -x -C ");
    r.append(dir);
    r
}

/// The script that replaces the work tree with the pushed one.
pub fn sync_script() -> (r: String)
    ensures
        r@ == "rm -rf "@ + WORKDIR@ + " && mkdir -p "@ + WORKDIR@ + " && tar -x -C "@ + WORKDIR@,
{
    let mut r = "rm -rf ".to_owned();
    r.append(WORKDIR);
    r.append(" && mkdir -p ");
    r.append(WORKDIR);
    r.append(" && tar -x -C ");
    r.append(WORKDIR);
    r
}

/// How a check's process came to its end.
#[derive(Debug, Clone, Copy, PartialEq, Eq, Structural)]
pub enum End {
    /// It was never started: there was no terminal, or the command could not
    /// be run, or its output not read.
    NotStarted,
    /// It was still running when its time was up.
    TimedOut,
    /// Nobody could tell how it ended.
    Lost,
    /// It ended by itself.
    Exited {
        /// Whether it reported success.
        success: bool,
        /// Its exit code.
        code: u32,
    },
}

/// What a check is recorded as, by how its process ended.
pub open spec fn status_after(end: End) -> Status {
    match end {
        End::Exited { success, code } => if success {
            Status::Pass
        } else {
            Status::Fail
        },
        _ => Status::Error,
    }
}

/// The exit code that is recorded: that of a process that ended by itself, as
/// far as it fits.
pub open spec fn exit_code_after(end: End) -> Option<int> {
    match end {
        End::Exited { success, code } => Some(
            if code <= 0x7fff_ffff {
                code as int
            } else {
                0x7fff_ffff
            },
        ),
        _ => None,
    }
}

/// A check's result, from how its process ended and the terminal session so
/// far. A check that ran into an error still keeps whatever output it produced
/// before that.
pub fn finish(end: End, duration_secs: u64, recording: String) -> (r: RunResult)
    ensures
        r.status == status_after(end),
        r.status.settled(),
        r.duration_secs == duration_secs,
        r.recording == recording,
        match r.exit_code {
            Some(code) => exit_code_after(end) == Some(code as int),
            None => exit_code_after(end) is None,
        },
{
    let (status, exit_code) = match end {
        End::Exited { success, code } => {
            let exit_code: i32 = if code <= 0x7fff_ffff {
                code as i32
            } else {
                0x7fff_ffff
            };
            if success {
                (Status::Pass, Some(exit_code))
            } else {
                (Status::Fail, Some(exit_code))
            }
        },
        _ => (Status::Error, None),
    };
    RunResult { status, duration_secs, recording, exit_code }
}

/// How much longer a check may run, given how long it has; nothing where its
/// time is up.
pub fn time_left(elapsed: u128) -> (r: Option<u128>)
    ensures
        match r {
            Some(left) => elapsed + left == CHECK_TIMEOUT_NANOS,
            None => elapsed > CHECK_TIMEOUT_NANOS,
        },
{
    if elapsed <= CHECK_TIMEOUT_NANOS {
        Some(CHECK_TIMEOUT_NANOS - elapsed)
    } else {
        None
    }
}

/// What is heard of a check that is running.
#[derive(Debug, PartialEq, Eq)]
pub enum Heard {
    /// It printed something.
    Chunk(Vec<u8>),
    /// Its time was up before it printed anything more.
    Silence,
    /// Its terminal was closed.
    Ended,
}

/// What is done about what was heard.
#[derive(Debug, PartialEq, Eq)]
pub enum Next {
    /// Add the output to the recording, and listen on.
    Record(Vec<u8>),
    /// Kill the check: it timed out.
    Kill,
    /// Wait for the check's exit.
    Wait,
}

/// One step of watching a check: its output is recorded, a check that outlives
/// its time is killed, and one that closed its terminal is waited for.
pub fn watch(heard: Heard) -> (r: Next)
    ensures
        match heard {
            Heard::Chunk(data) => r == Next::Record(data),
            Heard::Silence => r is Kill,
            Heard::Ended => r is Wait,
        },
{
    match heard {
        Heard::Chunk(data) => Next::Record(data),
        Heard::Silence => Next::Kill,
        Heard::Ended => Next::Wait,
    }
}

/// Adds a chunk of a check's output to its terminal session. `time` is the
/// number of seconds into the run, with six places after the point.
pub fn record_chunk(live: &mut String, time: &str, chunk: &[u8])
    ensures
        final(live)@ == old(live)@ + event_line(time@, decoded(chunk@)),
{
    let data = from_utf8_lossy(chunk);
    push_event(live, time, data.as_str());
}

/// The arguments that run a check's command in its sandbox, on a terminal of
/// its own.
pub fn run_args(sprite: &str, command: &str) -> (r: Vec<String>)
    ensures
        texts(r@) == seq![
            "exec"@,
            "--tty"@,
            "-s"@,
            sprite@,
            "--dir"@,
            WORKDIR@,
            "--"@,
            "sh"@,
            "-c"@,
            command@,
        ],
{
    let mut r: Vec<String> = Vec::new();
    r.push("exec".to_owned());
    r.push("--tty".to_owned());
    r.push("-s".to_owned());
    r.push(sprite.to_owned());
    r.push("--dir".to_owned());
    r.push(WORKDIR.to_owned());
    r.push("--".to_owned());
    r.push("sh".to_owned());
    r.push("-c".to_owned());
    r.push(command.to_owned());
    proof {
        assert(texts(r@) =~= seq![
            "exec"@,
            "--tty"@,
            "-s"@,
            sprite@,
            "--dir"@,
            WORKDIR@,
            "--"@,
            "sh"@,
            "-c"@,
            command@,
        ]);
    }
    r
}

/// Only a process that ended by itself, with success, is recorded as a pass,
/// and a failure that could not be carried out is never one of the check.
pub proof fn law_pass_means_success(end: End)
    ensures
        status_after(end) == Status::Pass <==> (end matches End::Exited { success, code }
            && success),
        exit_code_after(end) is Some <==> status_after(end) != Status::Error,
{
}

/// What git tells a hook of one ref: where it was, where it is, and its name.
pub open spec fn hook_line(old_id: Seq<char>, new_id: Seq<char>, name: Seq<char>) -> Seq<char> {
    old_id + " "@ + new_id + " "@ + name
}

proof fn lemma_hook_fields(old_id: Seq<char>, new_id: Seq<char>, name: Seq<char>)
    requires
        is_id(old_id),
        is_id(new_id),
        is_word(name),
    ensures
        fields_of(hook_line(old_id, new_id, name)) == seq![old_id, new_id, name],
{
    reveal_strlit(" ");
    assert(" "@ =~= seq![' ']);
    assert(is_word(old_id)) by {
        assert forall|i: int| 0 <= i < old_id.len() implies !is_white(#[trigger] old_id[i]) by {}
    }
    assert(is_word(new_id)) by {
        assert forall|i: int| 0 <= i < new_id.len() implies !is_white(#[trigger] new_id[i]) by {}
    }
    assert(hook_line(old_id, new_id, name) =~= old_id + seq![' '] + (new_id + seq![' '] + name));
    lemma_fields_front(old_id, ' ', new_id + seq![' '] + name);
    lemma_fields_front(new_id, ' ', name);
    lemma_fields_front(name, ' ', seq![]);
    assert(seq![old_id] + (seq![new_id] + seq![name]) =~= seq![old_id, new_id, name]);
}

/// Law: an update is checked at the object that was pushed, whatever the ref was
/// at before; nothing is checked where the ref was deleted, and nothing on a
/// control ref.
pub proof fn law_pushed_object_is_checked(old_id: Seq<char>, new_id: Seq<char>, name: Seq<char>)
    requires
        is_id(old_id),
        is_id(new_id),
        is_word(name),
    ensures
        checked_update(old_id + " "@ + new_id + " "@ + name) == (if all_zeros(new_id) || starts(
            name,
            "refs/meta/"@,
        ) {
            None
        } else {
            Some((new_id, name))
        }),
{
    lemma_hook_fields(old_id, new_id, name);
    law_id_reads_as_itself(new_id);
}

/// Law: of what git tells a hook, line by line, the updates to check are the
/// pushed objects with their refs, in order, and no others: not a deletion, and
/// not a control ref.
pub proof fn law_hook_input_is_checked(pushes: Seq<(Seq<char>, Seq<char>, Seq<char>)>)
    requires
        forall|i: int|
            0 <= i < pushes.len() ==> is_id((#[trigger] pushes[i]).0) && is_id(pushes[i].1)
                && is_word(pushes[i].2),
    ensures
        checked_updates(
            pushes.map_values(
                |push: (Seq<char>, Seq<char>, Seq<char>)|
                    push.0 + " "@ + push.1 + " "@ + push.2 + "\n"@,
            ).flatten(),
        ) == pushes.filter(
            |push: (Seq<char>, Seq<char>, Seq<char>)|
                !all_zeros(push.1) && !starts(push.2, "refs/meta/"@),
        ).map_values(|push: (Seq<char>, Seq<char>, Seq<char>)| (push.1, push.2)),
{
    let written = |push: (Seq<char>, Seq<char>, Seq<char>)|
        push.0 + " "@ + push.1 + " "@ + push.2 + "\n"@;
    let lines = pushes.map_values(
        |push: (Seq<char>, Seq<char>, Seq<char>)| hook_line(push.0, push.1, push.2),
    );
    assert forall|i: int| 0 <= i < lines.len() implies !(#[trigger] lines[i]).contains('\n') && (
    lines[i].len() == 0 || lines[i].last() != '\r') by {
        let push = pushes[i];
        let line = lines[i];
        reveal_strlit(" ");
        assert(is_id(push.0));
        assert forall|j: int| 0 <= j < line.len() implies #[trigger] line[j] != '\n' by {
            if j < 40 {
                assert(line[j] == push.0[j]);
            } else if 41 <= j < 81 {
                assert(line[j] == push.1[j - 41]);
            } else if 82 <= j {
                assert(line[j] == push.2[j - 82]);
                assert(!is_white(push.2[j - 82]));
            }
        }
        assert(line.last() == push.2[push.2.len() - 1]);
        assert(!is_white(push.2[push.2.len() - 1]));
    }
    law_lines_undo_ending(lines);
    reveal_strlit("\n");
    assert("\n"@ =~= seq!['\n']);
    let ended = lines.map_values(|line: Seq<char>| line.push('\n'));
    assert forall|i: int| 0 <= i < pushes.len() implies ended[i] == written(pushes[i]) by {
        assert(ended[i] =~= written(pushes[i]));
    }
    assert(ended =~= pushes.map_values(written));
    lemma_checked_lines(pushes);
}

/// The updates among lines are those of the pushes that count.
proof fn lemma_checked_lines(pushes: Seq<(Seq<char>, Seq<char>, Seq<char>)>)
    requires
        forall|i: int|
            0 <= i < pushes.len() ==> is_id((#[trigger] pushes[i]).0) && is_id(pushes[i].1)
                && is_word(pushes[i].2),
    ensures
        kept(
            pushes.map_values(
                |push: (Seq<char>, Seq<char>, Seq<char>)| hook_line(push.0, push.1, push.2),
            ),
            |line: Seq<char>| checked_update(line),
        ) == pushes.filter(
            |push: (Seq<char>, Seq<char>, Seq<char>)|
                !all_zeros(push.1) && !starts(push.2, "refs/meta/"@),
        ).map_values(|push: (Seq<char>, Seq<char>, Seq<char>)| (push.1, push.2)),
    decreases pushes.len(),
{
    reveal(Seq::filter);
    let f = |line: Seq<char>| checked_update(line);
    let counts = |push: (Seq<char>, Seq<char>, Seq<char>)|
        !all_zeros(push.1) && !starts(push.2, "refs/meta/"@);
    let pair = |push: (Seq<char>, Seq<char>, Seq<char>)| (push.1, push.2);
    let write = |push: (Seq<char>, Seq<char>, Seq<char>)| hook_line(push.0, push.1, push.2);
    let lines = pushes.map_values(write);
    if pushes.len() == 0 {
        assert(kept(lines, f) =~= pushes.filter(counts).map_values(pair));
    } else {
        let less = pushes.drop_last();
        let push = pushes[pushes.len() - 1];
        assert forall|i: int| 0 <= i < less.len() implies is_id((#[trigger] less[i]).0) && is_id(
            less[i].1,
        ) && is_word(less[i].2) by {
            assert(less[i] == pushes[i]);
        }
        lemma_checked_lines(less);
        law_pushed_object_is_checked(push.0, push.1, push.2);
        assert(lines.drop_last() =~= less.map_values(write));
        assert(lines.last() == hook_line(push.0, push.1, push.2));
        let prior = less.filter(counts).map_values(pair);
        if counts(push) {
            assert(pushes.filter(counts) =~= less.filter(counts).push(push));
            assert(pushes.filter(counts).map_values(pair) =~= prior.push(pair(push)));
        } else {
            assert(pushes.filter(counts) =~= less.filter(counts));
        }
        assert(kept(lines, f) =~= pushes.filter(counts).map_values(pair));
    }
}

/// Law: a check whose dependencies have all passed is run, with its own command;
/// its toolchains come before everything else on the path, in the order in which
/// it names them.
pub proof fn law_ready_check_is_run(
    checks: Seq<CheckDef>,
    runs: Seq<CheckRun>,
    dirs: Map<Seq<char>, String>,
    index: int,
)
    requires
        checks[index].command is Some,
        forall|k: int|
            0 <= k < checks[index].depends@.len() ==> status_of(
                runs,
                (#[trigger] checks[index].depends@[k])@,
            ) == Some(Status::Pass),
        forall|k: int|
            0 <= k < checks[index].toolchains@.len() ==> dirs.contains_key(
                (#[trigger] checks[index].toolchains@[k])@,
            ),
    ensures
        step_for(checks, runs, dirs, index) matches StepView::Run(at, line) && at == index && line
            == (if checks[index].toolchains@.len() == 0 {
            checks[index].command->0@
        } else {
            "export PATH="@ + joined(
                checks[index].toolchains@.map_values(|name: String| dirs[name@]@),
                ":"@,
            ) + ":$PATH; "@ + checks[index].command->0@
        }),
{
    let check = checks[index];
    let deps = dep_statuses(check, runs);
    let f = |dep: String| status_of(runs, dep@);
    assert forall|j: int| 0 <= j < deps.len() implies (#[trigger] deps[j]) == Status::Pass by {
        let k = lemma_kept_from(check.depends@, f, j);
        assert(status_of(runs, check.depends@[k]@) == Some(Status::Pass));
    }
    let g = |name: String|
        if dirs.contains_key(name@) {
            Some(dirs[name@]@)
        } else {
            None
        };
    lemma_kept_all(
        check.toolchains@,
        g,
        check.toolchains@.map_values(|name: String| dirs[name@]@),
    );
}

/// Law: a check without a command passes where all that it depends on passed,
/// fails where any of that failed or could not be run, and is skipped otherwise.
pub proof fn law_composite_tells_of_its_dependencies(deps: Seq<Status>)
    ensures
        composite(deps) == Status::Pass <==> forall|i: int|
            0 <= i < deps.len() ==> (#[trigger] deps[i]) == Status::Pass,
        composite(deps) == Status::Fail <==> exists|i: int|
            0 <= i < deps.len() && ((#[trigger] deps[i]) == Status::Fail || deps[i]
                == Status::Error),
        composite(deps) == Status::Pass || composite(deps) == Status::Fail || composite(deps)
            == Status::Skipped,
{
    if exists|i: int|
        0 <= i < deps.len() && ((#[trigger] deps[i]) == Status::Fail || deps[i] == Status::Error) {
        let i = choose|i: int|
            0 <= i < deps.len() && ((#[trigger] deps[i]) == Status::Fail || deps[i]
                == Status::Error);
        assert(deps[i] != Status::Pass);
    }
}

/// Law: where no two runs have one name, each run tells of its own check.
pub proof fn law_status_is_the_runs_own(runs: Seq<CheckRun>, i: int)
    requires
        0 <= i < runs.len(),
        forall|j: int| 0 <= j < i ==> (#[trigger] runs[j]).name@ != runs[i].name@,
    ensures
        status_of(runs, runs[i].name@) == Some(runs[i].status),
{
    let name = runs[i].name@;
    let p = |run: CheckRun| run_named(run, name);
    lemma_first_where_is(runs, p, i);
}

/// Law: a name that no run has, has no status.
pub proof fn law_unknown_check_has_no_status(runs: Seq<CheckRun>, name: Seq<char>)
    requires
        forall|j: int| 0 <= j < runs.len() ==> (#[trigger] runs[j]).name@ != name,
    ensures
        status_of(runs, name) is None,
{
    let p = |run: CheckRun| run_named(run, name);
    lemma_first_where_is(runs, p, runs.len() as int);
}

/// Law: a check is found by its name, at the first place where that stands.
pub proof fn law_check_is_found_by_name(checks: Seq<CheckDef>, i: int)
    requires
        0 <= i < checks.len(),
        forall|j: int| 0 <= j < i ==> (#[trigger] checks[j]).name@ != checks[i].name@,
    ensures
        position_of(checks, checks[i].name@) == Some(i),
{
    let name = checks[i].name@;
    let p = |check: CheckDef| check_named(check, name);
    lemma_first_where_is(checks, p, i);
}

/// Whether a text can be the name of a file: something, without a slash, and not
/// one of the two names that stand for directories.
pub open spec fn plain_name(name: Seq<char>) -> bool {
    name.len() > 0 && !name.contains('/') && name != "."@ && name != ".."@
}

/// Law: the name of a file is what follows the last slash of its path.
pub proof fn law_file_name_follows_the_slash(dir: Seq<char>, name: Seq<char>)
    requires
        plain_name(name),
    ensures
        file_name(dir + "/"@ + name) == Some(name),
        file_name(name) == Some(name),
{
    reveal_strlit("/");
    assert("/"@ =~= seq!['/']);
    lemma_split_back(dir, '/', name);
    lemma_split_front(name, '/', seq![]);
    let whole = split_on(dir + seq!['/'] + name, '/');
    lemma_last_name(whole, name);
    lemma_last_name(seq![name], name);
}

proof fn lemma_last_name(parts: Seq<Seq<char>>, name: Seq<char>)
    requires
        parts.len() > 0,
        parts.last() == name,
        plain_name(name),
    ensures
        ({
            let names = kept(
                nonempty(parts),
                |p: Seq<char>|
                    if p == "."@ {
                        None
                    } else {
                        Some(p)
                    },
            );
            names.len() > 0 && names.last() == name
        }),
{
    let f = |p: Seq<char>|
        if p == "."@ {
            None
        } else {
            Some(p)
        };
    let all = nonempty(parts);
    assert(all.last() == name);
    assert(kept(all, f).last() == name);
}

/// Law: a file is a job exactly where its name ends in `.job` after something,
/// so a job that is still being written, under its other name, is none.
pub proof fn law_only_job_files_are_jobs(dir: Seq<char>, stem: Seq<char>)
    requires
        stem.len() > 0,
        !stem.contains('/'),
    ensures
        extension(dir + "/"@ + stem + ".job"@) == Some("job"@),
        extension(dir + "/"@ + stem + ".tmp"@) == Some("tmp"@),
        "tmp"@ != "job"@,
{
    reveal_strlit(".job");
    reveal_strlit(".tmp");
    reveal_strlit("job");
    reveal_strlit("tmp");
    reveal_strlit(".");
    reveal_strlit("..");
    assert("tmp"@[0] != "job"@[0]);
    let job = stem + ".job"@;
    let tmp = stem + ".tmp"@;
    assert forall|i: int| 0 <= i < job.len() implies job[i] != '/' && tmp[i] != '/' by {
        if i < stem.len() {
            assert(job[i] == stem[i] && tmp[i] == stem[i]);
            assert(stem.contains(stem[i]));
        }
    }
    assert(dir + "/"@ + stem + ".job"@ =~= dir + "/"@ + job);
    assert(dir + "/"@ + stem + ".tmp"@ =~= dir + "/"@ + tmp);
    assert(job.len() > 2 && tmp.len() > 2);
    law_file_name_follows_the_slash(dir, job);
    law_file_name_follows_the_slash(dir, tmp);
    lemma_last_index_of_is(job, '.', stem.len() as int);
    lemma_last_index_of_is(tmp, '.', stem.len() as int);
    assert(job.skip(1 + stem.len() as int) =~= "job"@);
    assert(tmp.skip(1 + stem.len() as int) =~= "tmp"@);
}

/// Law: every job file that can be read waits with its repository, under its
/// path, and every other job file is set aside; nothing is both, and what is no
/// job file is neither.
pub proof fn law_every_job_waits_or_is_set_aside(files: Seq<QueueFile>, i: int)
    requires
        0 <= i < files.len(),
        extension(files[i].path@) == Some("job"@),
    ensures
        ({
            let read = files[i].contents is Some && job_of(files[i].contents->0@) is Some;
            let job = job_of(files[i].contents->0@)->0;
            let aside = kept(files, |file: QueueFile| poisoned(file));
            &&& read ==> group_of(files, job.0).contains((files[i].path@, job))
            &&& !read ==> aside.contains(files[i].path@)
        }),
{
    let read = files[i].contents is Some && job_of(files[i].contents->0@) is Some;
    if read {
        let job = job_of(files[i].contents->0@)->0;
        let k = lemma_kept_has(files, queued_for(job.0), i);
        assert(group_of(files, job.0)[k] == (files[i].path@, job));
    } else {
        let f = |file: QueueFile| poisoned(file);
        let k = lemma_kept_has(files, f, i);
        assert(kept(files, f)[k] == files[i].path@);
    }
}

/// Law: what waits with a repository came from a job file that names it, and
/// what is set aside is a job file that cannot be read.
pub proof fn law_waiting_jobs_were_queued(files: Seq<QueueFile>, repo: Seq<char>, k: int)
    ensures
        0 <= k < group_of(files, repo).len() ==> exists|i: int|
            0 <= i < files.len() && extension((#[trigger] files[i]).path@) == Some("job"@)
                && files[i].contents is Some && job_of(files[i].contents->0@) == Some(
                group_of(files, repo)[k].1,
            ) && files[i].path@ == group_of(files, repo)[k].0 && group_of(files, repo)[k].1.0
                == repo,
        0 <= k < kept(files, |file: QueueFile| poisoned(file)).len() ==> exists|i: int|
            0 <= i < files.len() && extension((#[trigger] files[i]).path@) == Some("job"@) && (
            files[i].contents is None || job_of(files[i].contents->0@) is None) && files[i].path@
                == kept(files, |file: QueueFile| poisoned(file))[k],
{
    if 0 <= k < group_of(files, repo).len() {
        let i = lemma_kept_from(files, queued_for(repo), k);
        assert(queued(files[i]) is Some);
    }
    let f = |file: QueueFile| poisoned(file);
    if 0 <= k < kept(files, f).len() {
        let i = lemma_kept_from(files, f, k);
        assert(poisoned(files[i]) is Some);
    }
}

/// Law: a repository whose name is plain already has a Sprite of that name, and
/// the directory that it is in makes no difference.
pub proof fn law_sprite_is_named_after_the_repository(dir: Seq<char>, name: Seq<char>)
    requires
        name.len() > 0,
        name[0] != '-',
        name.last() != '-',
        forall|i: int| 0 <= i < name.len() ==> in_sprite_name(#[trigger] name[i]),
    ensures
        sprite_of(dir + "/"@ + name) == "checks-"@ + name,
{
    reveal_strlit(".");
    reveal_strlit("..");
    assert forall|i: int| 0 <= i < name.len() implies name[i] != '/' by {
        assert(in_sprite_name(name[i]));
    }
    assert(in_sprite_name(name[0]));
    assert("."@[0] == '.' && ".."@[0] == '.');
    law_file_name_follows_the_slash(dir, name);
    let plain = name.map_values(|c: char| sprite_char(c));
    assert forall|i: int| 0 <= i < name.len() implies plain[i] == name[i] by {
        assert(in_sprite_name(name[i]));
    }
    assert(plain =~= name);
}

/// Law: a Sprite's name takes no notice of case, and every character that it
/// cannot hold counts as a dash.
pub proof fn law_sprite_name_is_by_letters_and_digits(dir: Seq<char>, a: Seq<char>, b: Seq<char>)
    requires
        plain_name(a),
        plain_name(b),
        a.len() == b.len(),
        forall|i: int|
            0 <= i < a.len() ==> lower(#[trigger] a[i]) == lower(b[i]) || (!is_alphanumeric(a[i])
                && !is_alphanumeric(b[i])),
    ensures
        sprite_of(dir + "/"@ + a) == sprite_of(dir + "/"@ + b),
{
    law_file_name_follows_the_slash(dir, a);
    law_file_name_follows_the_slash(dir, b);
    let x = a.map_values(|c: char| sprite_char(c));
    let y = b.map_values(|c: char| sprite_char(c));
    assert forall|i: int| 0 <= i < a.len() implies x[i] == y[i] by {
        assert(lower(a[i]) == lower(b[i]) || (!is_alphanumeric(a[i]) && !is_alphanumeric(b[i])));
    }
    assert(x =~= y);
}

/// Law: a command that exited is recorded with its own exit code, as far as that
/// can be recorded.
pub proof fn law_exit_code_is_recorded(success: bool, code: u32)
    ensures
        code <= 0x7fff_ffff ==> exit_code_after(End::Exited { success, code }) == Some(code as int),
        exit_code_after(End::Exited { success, code }) is Some,
        status_after(End::Exited { success, code }) == (if success {
            Status::Pass
        } else {
            Status::Fail
        }),
{
}

/// Law: a job's file is three lines: the repository, the object to check, and the
/// ref.
pub proof fn law_job_file_is_three_lines(repo: Seq<char>, new: Seq<char>, ref_name: Seq<char>)
    requires
        one_line(repo),
        one_line(new),
        one_line(ref_name),
    ensures
        lines_of(job_text(repo, new, ref_name)) == seq![repo, new, ref_name],
{
    reveal_strlit("\n");
    let none: Seq<char> = seq![];
    let c = ref_name + seq!['\n'] + none;
    let b = new + seq!['\n'] + c;
    assert(job_text(repo, new, ref_name) =~= repo + seq!['\n'] + b);
    lemma_one_line(repo);
    lemma_one_line(new);
    lemma_one_line(ref_name);
    lemma_lines_front(repo, b);
    lemma_lines_front(new, c);
    lemma_lines_front(ref_name, none);
    assert(lines_of(none) =~= seq![]);
    assert(lines_of(job_text(repo, new, ref_name)) =~= seq![repo, new, ref_name]);
}

proof fn lemma_one_line(s: Seq<char>)
    requires
        one_line(s),
    ensures
        !s.contains('\n'),
        s.len() == 0 || s.last() != '\r',
{
    if s.len() > 0 {
        assert(s[s.len() - 1] != '\r');
    }
}

} // verus!
