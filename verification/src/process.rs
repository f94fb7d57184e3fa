//! Carrying out a queued job: what the worker does next, given what came of the
//! last thing it did.
//!
//! The checks are put in order, the sandbox is readied, the pushed tree and the
//! toolchains are brought into it, and then one check after another settles. What
//! fails on the way to the checks ends the job with every check an error; a check
//! that fails is a result like any other.

use vstd::prelude::*;

use crate::keyed::TextMap;
use crate::runner::{
    all_at, check_named, position_of, run_named, same_names, status_of, step_for, CheckDef,
    CheckRun, JobRun, RunResult, Status, Step, StepView,
};
use crate::schedule::{
    ints, is_dangling, is_named_among, is_ready, is_schedule, lacks, lemma_schedule_covers,
    names_a_schedule, order, Disorder,
};
use crate::seqs::{kept, lemma_first_where_is, lemma_kept_all, lemma_kept_same};
use crate::text::{opt_text, texts};

verus! {

/// How far a job has come.
#[derive(Debug, Clone, Copy, PartialEq, Eq, Structural)]
pub enum Stage {
    /// The sandbox is being readied.
    Preparing,
    /// The tree is being brought in.
    Syncing,
    /// The toolchains are being brought in.
    Resolving,
    /// The checks are settling.
    Checking,
    /// There is nothing left to do.
    Finished,
}

/// What the worker does next.
#[derive(Debug, PartialEq, Eq)]
pub enum Task {
    /// Ready the sandbox.
    Prepare,
    /// Bring the pushed tree in.
    Sync,
    /// Bring the toolchains in.
    Resolve,
    /// Run the check at the index with this command.
    Check(usize, String),
    /// Nothing outside: the next check is skipped or derived.
    Settle,
    /// Stop, with what is reported.
    Finish(Result<(), String>),
}

/// What the worker does next: record how the checks stand where that changed,
/// and then the task.
#[derive(Debug, PartialEq, Eq)]
pub struct Turn {
    /// Whether the run is recorded first.
    pub record: bool,
    /// The task.
    pub task: Task,
}

/// A job being carried out.
#[derive(Debug)]
pub struct Process {
    /// How the checks stand.
    pub run: JobRun,
    /// How far the job has come.
    pub stage: Stage,
}

/// Whether `now` is `prior` given up: every check an error, and all else as it
/// was.
pub open spec fn given_up(prior: JobRun, now: JobRun) -> bool {
    &&& now.wf()
    &&& now.checks == prior.checks
    &&& now.order == prior.order
    &&& now.runs@.len() == prior.runs@.len()
    &&& forall|i: int|
        0 <= i < now.runs@.len() ==> {
            &&& (#[trigger] now.runs@[i]).status == Status::Error
            &&& now.runs@[i].name == prior.runs@[i].name
            &&& now.runs@[i].duration_secs == prior.runs@[i].duration_secs
            &&& opt_text(now.runs@[i].recording) == opt_text(prior.runs@[i].recording)
            &&& now.runs@[i].exit_code == prior.runs@[i].exit_code
        }
}

/// Whether `turn` ends the job with the failure `message`, recorded.
pub open spec fn fails(turn: Turn, message: Seq<char>) -> bool {
    turn.record && (turn.task matches Task::Finish(Err(said)) && said@ == message)
}

/// Whether `task` is what the checks call for next.
pub open spec fn is_next_task(task: Task, step: StepView) -> bool {
    match step {
        StepView::Run(index, command) => task matches Task::Check(at, line) && at == index && line@
            == command,
        StepView::Skip(_) => task is Settle,
        StepView::Composite(_, _) => task is Settle,
        StepView::Done => task matches Task::Finish(Ok(_)),
    }
}

/// The stage that the checks are at, given what they call for next.
pub open spec fn next_stage(step: StepView) -> Stage {
    if step is Done {
        Stage::Finished
    } else {
        Stage::Checking
    }
}

/// The order that a job's checks settle in, given their names.
pub open spec fn is_order_of(run: JobRun, names: Seq<String>) -> bool {
    ints(run.order@) == kept(names, |name: String| position_of(run.checks@, name@))
}

/// Whether `run` is a job that has just been ordered: every check running, and
/// the order a schedule's.
pub open spec fn is_ordered(run: JobRun, checks: Seq<CheckDef>) -> bool {
    &&& run.wf()
    &&& run.checks@ == checks
    &&& all_at(checks, run.runs@, Status::Running)
    &&& run.done == 0
    &&& exists|names: Seq<String>| #[trigger]
        is_order_of(run, names) && names_a_schedule(checks, texts(names))
}

/// Whether checks can be put in an order in which each comes after those it
/// depends on.
pub open spec fn can_be_ordered(checks: Seq<CheckDef>) -> bool {
    exists|places: Seq<int>| #[trigger] is_schedule(checks, places)
}

/// What is reported of checks that cannot be ordered.
pub open spec fn disorder_text(disorder: Disorder) -> Seq<char> {
    "invalid check set: "@ + (match disorder {
        Disorder::Unknown { check, dependency } => "check "@ + check@
            + " depends on unknown check "@ + dependency@,
        Disorder::Cycle => "the checks depend on each other in a cycle"@,
    })
}

impl Process {
    /// Begins a job; there is nothing to do where no check is configured. Checks
    /// that cannot be ordered end it.
    pub fn begin(checks: Vec<CheckDef>) -> (r: Option<(Process, Turn)>)
        ensures
            r is None <==> checks@.len() == 0,
            r matches Some((process, turn)) ==> process.run.wf() && process.run.checks@ == checks@,
            r matches Some((process, turn)) ==> (if can_be_ordered(checks@) {
                process.stage == Stage::Preparing && !turn.record && turn.task is Prepare
                    && is_ordered(process.run, checks@)
            } else {
                process.stage == Stage::Finished && all_at(
                    checks@,
                    process.run.runs@,
                    Status::Error,
                ) && exists|disorder: Disorder| #[trigger]
                    explains(checks@, disorder) && fails(turn, disorder_text(disorder))
            }),
    {
        if checks.len() == 0 {
            return None;
        }
        let ordered = order(&checks);
        let mut run = JobRun::start(checks);
        let ghost started = run;
        match ordered {
            Ok(names) => {
                run.set_order(&names);
                proof {
                    let places = choose|places: Seq<int>| #[trigger]
                        is_schedule(checks@, places) && texts(names@) == Seq::new(
                            places.len(),
                            |i: int| checks@[places[i]].name@,
                        );
                    assert(is_schedule(checks@, places));
                    assert(run.order@.map_values(|i: usize| i as int) =~= ints(run.order@));
                    assert(is_order_of(run, names@));
                    assert(is_ordered(run, checks@));
                }
                Some(
                    (
                        Process { run, stage: Stage::Preparing },
                        Turn { record: false, task: Task::Prepare },
                    ),
                )
            },
            Err(disorder) => {
                run.finalize_error();
                let mut message = "invalid check set: ".to_owned();
                message.append(disorder.message().as_str());
                proof {
                    lemma_no_schedule(checks@, disorder);
                    assert(fails(
                        Turn { record: true, task: Task::Finish(Err(message)) },
                        disorder_text(disorder),
                    ));
                    assert forall|i: int| 0 <= i < run.runs@.len() implies {
                        &&& (#[trigger] run.runs@[i]).name@ == checks@[i].name@
                        &&& run.runs@[i].status == Status::Error
                        &&& run.runs@[i].duration_secs is None
                        &&& run.runs@[i].recording is None
                        &&& run.runs@[i].exit_code is None
                    } by {
                        assert(started.runs@[i].recording is None);
                    }
                    assert(all_at(checks@, run.runs@, Status::Error));
                    assert(explains(checks@, disorder));
                }
                Some(
                    (
                        Process { run, stage: Stage::Finished },
                        Turn { record: true, task: Task::Finish(Err(message)) },
                    ),
                )
            },
        }
    }

    fn give_up(&mut self, message: String) -> (r: Turn)
        requires
            old(self).run.wf(),
        ensures
            given_up(old(self).run, final(self).run),
            final(self).stage == Stage::Finished,
            fails(r, message@),
    {
        self.run.finalize_error();
        self.stage = Stage::Finished;
        Turn { record: true, task: Task::Finish(Err(message)) }
    }

    /// Goes on once the sandbox is ready, or gives up. How the checks stand is
    /// recorded before the tree is brought in.
    pub fn prepared(&mut self, outcome: Result<(), String>) -> (r: Turn)
        requires
            old(self).run.wf(),
            old(self).stage == Stage::Preparing,
        ensures
            match outcome {
                Ok(_) => final(self).run == old(self).run && final(self).stage == Stage::Syncing
                    && r.record && r.task is Sync,
                Err(message) => given_up(old(self).run, final(self).run) && final(self).stage
                    == Stage::Finished && fails(r, message@),
            },
    {
        match outcome {
            Ok(_) => {
                self.stage = Stage::Syncing;
                Turn { record: true, task: Task::Sync }
            },
            Err(message) => self.give_up(message),
        }
    }

    /// Goes on once the tree is in, or gives up.
    pub fn synced(&mut self, outcome: Result<(), String>) -> (r: Turn)
        requires
            old(self).run.wf(),
            old(self).stage == Stage::Syncing,
        ensures
            match outcome {
                Ok(_) => final(self).run == old(self).run && final(self).stage == Stage::Resolving
                    && !r.record && r.task is Resolve,
                Err(message) => given_up(old(self).run, final(self).run) && final(self).stage
                    == Stage::Finished && fails(r, message@),
            },
    {
        match outcome {
            Ok(_) => {
                self.stage = Stage::Resolving;
                Turn { record: false, task: Task::Resolve }
            },
            Err(message) => self.give_up(message),
        }
    }

    fn next_turn(&mut self, record: bool) -> (r: Turn)
        requires
            old(self).run.wf(),
        ensures
            final(self).run == old(self).run,
            final(self).stage == next_stage(old(self).run.next_step()),
            r.record == record,
            is_next_task(r.task, old(self).run.next_step()),
    {
        match self.run.decide() {
            Step::Run(index, command) => {
                self.stage = Stage::Checking;
                Turn { record, task: Task::Check(index, command) }
            },
            Step::Skip(_) => {
                self.stage = Stage::Checking;
                Turn { record, task: Task::Settle }
            },
            Step::Composite(_, _) => {
                self.stage = Stage::Checking;
                Turn { record, task: Task::Settle }
            },
            Step::Done => {
                self.stage = Stage::Finished;
                Turn { record, task: Task::Finish(Ok(())) }
            },
        }
    }

    /// Goes on to the checks once the toolchains are in, or gives up.
    pub fn resolved(&mut self, outcome: Result<TextMap<String>, String>) -> (r: Turn)
        requires
            old(self).run.wf(),
            old(self).stage == Stage::Resolving,
        ensures
            match outcome {
                Ok(dirs) => {
                    &&& final(self).run == (JobRun { dirs, ..old(self).run })
                    &&& final(self).run.wf()
                    &&& final(self).stage == next_stage(final(self).run.next_step())
                    &&& !r.record
                    &&& is_next_task(r.task, final(self).run.next_step())
                },
                Err(message) => given_up(old(self).run, final(self).run) && final(self).stage
                    == Stage::Finished && fails(r, message@),
            },
    {
        match outcome {
            Ok(dirs) => {
                self.run.dirs = dirs;
                self.next_turn(false)
            },
            Err(message) => self.give_up(message),
        }
    }

    /// Takes a check's result in, and goes on.
    pub fn checked(&mut self, result: RunResult) -> (r: Turn)
        requires
            old(self).run.wf(),
            old(self).stage == Stage::Checking,
            old(self).run.next_step() is Run,
            result.status.settled(),
        ensures
            is_result_of(old(self).run, final(self).run, result),
            final(self).stage == next_stage(final(self).run.next_step()),
            r.record,
            is_next_task(r.task, final(self).run.next_step()),
    {
        self.run.settle_run(result);
        self.next_turn(true)
    }

    /// Settles the check that is skipped or derived, and goes on.
    pub fn settled(&mut self) -> (r: Turn)
        requires
            old(self).run.wf(),
            old(self).stage == Stage::Checking,
            old(self).run.next_step() is Skip || old(self).run.next_step() is Composite,
        ensures
            is_settled_step(old(self).run, final(self).run),
            final(self).stage == next_stage(final(self).run.next_step()),
            r.record,
            is_next_task(r.task, final(self).run.next_step()),
    {
        self.run.settle();
        self.next_turn(true)
    }
}

/// Whether only the check that was next has changed between two jobs, and is
/// done now.
pub open spec fn is_one_further(prior: JobRun, now: JobRun) -> bool {
    let index = prior.order@[prior.done as int] as int;
    &&& now.wf()
    &&& now.checks == prior.checks
    &&& now.order == prior.order
    &&& now.dirs == prior.dirs
    &&& now.done == prior.done + 1
    &&& now.runs@.len() == prior.runs@.len()
    &&& forall|k: int|
        0 <= k < now.runs@.len() && k != index ==> (#[trigger] now.runs@[k]) == prior.runs@[k]
}

/// Whether `now` is `prior` with the result of the check that was next.
pub open spec fn is_result_of(prior: JobRun, now: JobRun, result: RunResult) -> bool {
    let index = prior.order@[prior.done as int] as int;
    &&& is_one_further(prior, now)
    &&& now.runs@[index].status == result.status
    &&& now.runs@[index].duration_secs == Some(result.duration_secs)
    &&& opt_text(now.runs@[index].recording) == Some(result.recording@)
    &&& now.runs@[index].exit_code == result.exit_code
}

/// Whether `now` is `prior` with the check that was next skipped or derived.
pub open spec fn is_settled_step(prior: JobRun, now: JobRun) -> bool {
    let index = prior.order@[prior.done as int] as int;
    &&& is_one_further(prior, now)
    &&& now.runs@[index].status == (match prior.next_step() {
        StepView::Composite(_, status) => status,
        _ => Status::Skipped,
    })
    &&& now.runs@[index].duration_secs == prior.runs@[index].duration_secs
    &&& opt_text(now.runs@[index].recording) == opt_text(prior.runs@[index].recording)
    &&& now.runs@[index].exit_code == prior.runs@[index].exit_code
}

/// Whether `disorder` is why the checks cannot be ordered.
pub open spec fn explains(checks: Seq<CheckDef>, disorder: Disorder) -> bool {
    match disorder {
        Disorder::Unknown { check, dependency } => lacks(
            checks,
            check@,
            dependency@,
        ),
        Disorder::Cycle => (forall|i: int, name: Seq<char>|
            !#[trigger] is_dangling(checks, i, name)) && forall|places: Seq<int>|
            !#[trigger] is_schedule(checks, places),
    }
}

/// Checks that cannot be ordered have no schedule.
proof fn lemma_no_schedule(checks: Seq<CheckDef>, disorder: Disorder)
    requires
        explains(checks, disorder),
    ensures
        forall|places: Seq<int>| !#[trigger] is_schedule(checks, places),
{
    if let Disorder::Unknown { check, dependency } = disorder {
        let i = choose|i: int| #[trigger]
            is_dangling(checks, i, dependency@) && checks[i].name@ == check@;
        let d = choose|d: int|
            0 <= d < texts(checks[i].depends@).len() && texts(checks[i].depends@)[d] == dependency@;
        assert forall|places: Seq<int>| !#[trigger] is_schedule(checks, places) by {
            if is_schedule(checks, places) {
                lemma_schedule_covers(checks, places, i);
                let k = choose|k: int| 0 <= k < places.len() && places[k] == i;
                assert(is_ready(checks, places.take(k), places[k]));
                assert(checks[i].depends@[d]@ == dependency@);
                assert(is_named_among(checks, places.take(k), dependency@));
                let j = choose|j: int|
                    0 <= j < places.take(k).len() && checks[#[trigger] places.take(k)[j]].name@
                        == dependency@;
                assert(places.take(k)[j] == places[j]);
                assert(0 <= places[j] < checks.len());
            }
        }
    }
}

/// Whether no two checks have the same name.
pub open spec fn distinct_names(checks: Seq<CheckDef>) -> bool {
    forall|i: int, j: int|
        0 <= i < checks.len() && 0 <= j < checks.len() && (#[trigger] checks[i]).name@ == (
        #[trigger] checks[j]).name@ ==> i == j
}

proof fn lemma_position(checks: Seq<CheckDef>, i: int)
    requires
        distinct_names(checks),
        0 <= i < checks.len(),
    ensures
        position_of(checks, checks[i].name@) == Some(i),
{
    let name = checks[i].name@;
    lemma_first_where_is(checks, |check: CheckDef| check_named(check, name), i);
}

/// Law: a job whose checks have names of their own settles them in an order in
/// which each comes after those it depends on, and leaves none out.
pub proof fn law_job_runs_a_schedule(run: JobRun, checks: Seq<CheckDef>)
    requires
        distinct_names(checks),
        is_ordered(run, checks),
    ensures
        is_schedule(checks, ints(run.order@)),
{
    let names = choose|names: Seq<String>| #[trigger]
        is_order_of(run, names) && names_a_schedule(checks, texts(names));
    let places = choose|places: Seq<int>| #[trigger]
        is_schedule(checks, places) && texts(names) == Seq::new(
            places.len(),
            |i: int| checks[places[i]].name@,
        );
    let f = |name: String| position_of(checks, name@);
    assert(texts(names).len() == names.len());
    assert forall|i: int| 0 <= i < names.len() implies f(#[trigger] names[i]) == Some(
        places[i],
    ) by {
        assert(texts(names)[i] == names[i]@);
        assert(0 <= places[i] < checks.len());
        lemma_position(checks, places[i]);
    }
    lemma_kept_all(names, f, places);
    assert(ints(run.order@) == kept(names, |name: String| position_of(run.checks@, name@)));
}

/// Law: when a check's turn comes, everything that it depends on has settled.
pub proof fn law_dependencies_settle_first(job: JobRun, d: int)
    requires
        job.wf(),
        distinct_names(job.checks@),
        is_schedule(job.checks@, ints(job.order@)),
        job.done < job.order@.len(),
        0 <= d < job.checks@[job.order@[job.done as int] as int].depends@.len(),
    ensures
        status_of(
            job.runs@,
            job.checks@[job.order@[job.done as int] as int].depends@[d]@,
        ) matches Some(status) && status.settled(),
{
    let checks = job.checks@;
    let places = ints(job.order@);
    let at = job.done as int;
    let name = checks[places[at]].depends@[d]@;
    assert(is_ready(checks, places.take(at), places[at]));
    assert(is_named_among(checks, places.take(at), name));
    let j = choose|j: int|
        0 <= j < places.take(at).len() && checks[#[trigger] places.take(at)[j]].name@ == name;
    let p = job.order@[j] as int;
    assert(places.take(at)[j] == p);
    assert(job.runs@[p].name@ == name);
    assert forall|k: int| 0 <= k < p implies !run_named(#[trigger] job.runs@[k], name) by {
        assert(job.runs@[k].name@ == checks[k].name@);
    }
    lemma_first_where_is(job.runs@, |run: CheckRun| run_named(run, name), p);
}

/// Law: a job that ran to its end leaves no check unsettled.
pub proof fn law_finished_job_is_settled(job: JobRun, i: int)
    requires
        job.wf(),
        is_schedule(job.checks@, ints(job.order@)),
        job.next_step() is Done,
        0 <= i < job.checks@.len(),
    ensures
        job.runs@[i].status.settled(),
{
    let places = ints(job.order@);
    lemma_schedule_covers(job.checks@, places, i);
    let k = choose|k: int| 0 <= k < places.len() && places[k] == i;
    if job.done < job.order@.len() {
        assert(0 <= places[job.done as int] < job.checks@.len());
        assert(!(job.next_step() is Done));
    }
    assert(job.runs@[job.order@[k] as int].status.settled());
}

/// Whether one turn of the checks leads from `prior` to `now`: the check that was
/// next was run and has its result, or was skipped or derived.
pub open spec fn is_turn(prior: JobRun, now: JobRun) -> bool {
    ||| (prior.next_step() is Run && exists|result: RunResult|
        result.status.settled() && #[trigger] is_result_of(prior, now, result))
    ||| ((prior.next_step() is Skip || prior.next_step() is Composite) && is_settled_step(
        prior,
        now,
    ))
}

/// Whether `jobs` are what a job's checks went through, turn by turn.
pub open spec fn is_course(jobs: Seq<JobRun>) -> bool {
    &&& jobs.len() > 0
    &&& jobs[0].wf()
    &&& forall|i: int| 0 <= i < jobs.len() - 1 ==> is_turn(#[trigger] jobs[i], jobs[i + 1])
}

/// Whether what is recorded of the check at `index` is what the recorded
/// statuses of its dependencies call for: run and settled where all of them
/// passed, skipped where not, and a composite as it derives; nothing but a check
/// that was run has a duration.
pub open spec fn told_truly(job: JobRun, index: int) -> bool {
    let run = job.runs@[index];
    match step_for(job.checks@, job.runs@, job.dirs@, index) {
        StepView::Run(_, _) => run.status.settled() && run.duration_secs is Some,
        StepView::Skip(_) => run.status == Status::Skipped && run.duration_secs is None,
        StepView::Composite(_, status) => run.status == status && run.duration_secs is None,
        StepView::Done => false,
    }
}

/// A turn takes one check further and leaves the others as they are.
proof fn lemma_turn(prior: JobRun, now: JobRun)
    requires
        prior.wf(),
        is_turn(prior, now),
    ensures
        is_one_further(prior, now),
        prior.done < prior.order@.len(),
        now.runs@[prior.order@[prior.done as int] as int].status.settled(),
{
    assert(prior.done < prior.order@.len());
    assert(now.order@[prior.done as int] == prior.order@[prior.done as int]);
    assert(now.runs@[now.order@[prior.done as int] as int].status.settled());
}

/// Every state of a course is the first one with more of its checks done.
proof fn lemma_course(jobs: Seq<JobRun>, i: int)
    requires
        is_course(jobs),
        0 <= i < jobs.len(),
    ensures
        jobs[i].wf(),
        jobs[i].checks == jobs[0].checks,
        jobs[i].order == jobs[0].order,
        jobs[i].dirs == jobs[0].dirs,
        jobs[i].done == jobs[0].done + i,
        jobs[i].runs@.len() == jobs[0].runs@.len(),
    decreases i,
{
    if i > 0 {
        lemma_course(jobs, i - 1);
        assert(is_turn(jobs[i - 1], jobs[i - 1 + 1]));
        lemma_turn(jobs[i - 1], jobs[i]);
    }
}

/// Law: once a check has settled, what is recorded of it stays as it is to the
/// end, where no check stands twice in the order.
pub proof fn law_settled_stays(jobs: Seq<JobRun>, a: int, b: int, k: int)
    requires
        is_course(jobs),
        ints(jobs[0].order@).no_duplicates(),
        0 <= a <= b < jobs.len(),
        0 <= k < jobs[a].done,
    ensures
        jobs[b].runs@[jobs[0].order@[k] as int] == jobs[a].runs@[jobs[0].order@[k] as int],
    decreases b - a,
{
    lemma_course(jobs, a);
    if a < b {
        law_settled_stays(jobs, a, b - 1, k);
        lemma_course(jobs, b - 1);
        let prior = jobs[b - 1];
        assert(is_turn(jobs[b - 1], jobs[b - 1 + 1]));
        lemma_turn(prior, jobs[b]);
        let places = ints(jobs[0].order@);
        let at = prior.done as int;
        assert(places[k] != places[at]);
        let p = jobs[0].order@[k] as int;
        assert(p < prior.runs@.len());
        assert(jobs[b].runs@[p] == prior.runs@[p]);
    }
}

/// The status of a check is that of its run.
proof fn lemma_status_at(checks: Seq<CheckDef>, runs: Seq<CheckRun>, p: int)
    requires
        distinct_names(checks),
        same_names(checks, runs),
        0 <= p < checks.len(),
    ensures
        status_of(runs, checks[p].name@) == Some(runs[p].status),
{
    let name = checks[p].name@;
    assert(runs[p].name@ == name);
    assert forall|k: int| 0 <= k < p implies !run_named(#[trigger] runs[k], name) by {
        assert(runs[k].name@ == checks[k].name@);
    }
    lemma_first_where_is(runs, |run: CheckRun| run_named(run, name), p);
}

/// What a turn changes is nothing that a check done or next depends on.
proof fn lemma_step_stays(prior: JobRun, now: JobRun, k: int)
    requires
        prior.wf(),
        prior.done < prior.order@.len(),
        is_one_further(prior, now),
        distinct_names(prior.checks@),
        is_schedule(prior.checks@, ints(prior.order@)),
        0 <= k <= prior.done,
    ensures
        step_for(now.checks@, now.runs@, now.dirs@, prior.order@[k] as int) == step_for(
            prior.checks@,
            prior.runs@,
            prior.dirs@,
            prior.order@[k] as int,
        ),
{
    let checks = prior.checks@;
    let places = ints(prior.order@);
    let at = prior.done as int;
    let check = checks[places[k]];
    let f = |dep: String| status_of(now.runs@, dep@);
    let g = |dep: String| status_of(prior.runs@, dep@);
    assert forall|d: int| 0 <= d < check.depends@.len() implies f(#[trigger] check.depends@[d])
        == g(check.depends@[d]) by {
        let name = check.depends@[d]@;
        assert(is_ready(checks, places.take(k), places[k]));
        assert(is_named_among(checks, places.take(k), name));
        let j = choose|j: int|
            0 <= j < places.take(k).len() && checks[#[trigger] places.take(k)[j]].name@ == name;
        let p = places[j];
        assert(places.take(k)[j] == p);
        assert(0 <= p < checks.len());
        assert(places[j] != places[at]);
        lemma_status_at(checks, now.runs@, p);
        lemma_status_at(checks, prior.runs@, p);
        assert(now.runs@[p] == prior.runs@[p]);
    }
    lemma_kept_same(check.depends@, f, g);
}

/// Law: when a job whose checks have names of their own has run to its end, the
/// last record tells of each check what the last statuses of its dependencies
/// call for.
pub proof fn law_last_record_tells_truly(jobs: Seq<JobRun>, i: int)
    requires
        is_course(jobs),
        distinct_names(jobs[0].checks@),
        is_schedule(jobs[0].checks@, ints(jobs[0].order@)),
        all_at(jobs[0].checks@, jobs[0].runs@, Status::Running),
        jobs[0].done == 0,
        jobs.last().next_step() is Done,
        0 <= i < jobs[0].checks@.len(),
    ensures
        told_truly(jobs.last(), i),
{
    let last = jobs.len() - 1;
    let places = ints(jobs[0].order@);
    lemma_course(jobs, last);
    lemma_schedule_covers(jobs[0].checks@, places, i);
    let k = choose|k: int| 0 <= k < places.len() && places[k] == i;
    if jobs.last().done < jobs.last().order@.len() {
        assert(0 <= places[jobs.last().done as int] < jobs[0].checks@.len());
        assert(!(jobs.last().next_step() is Done));
    }
    lemma_told_so_far(jobs, last, k);
}

/// Up to every turn, the checks done are told of truly and the others have not
/// been run.
proof fn lemma_told_so_far(jobs: Seq<JobRun>, b: int, k: int)
    requires
        is_course(jobs),
        distinct_names(jobs[0].checks@),
        is_schedule(jobs[0].checks@, ints(jobs[0].order@)),
        all_at(jobs[0].checks@, jobs[0].runs@, Status::Running),
        jobs[0].done == 0,
        0 <= b < jobs.len(),
        0 <= k < jobs[0].order@.len(),
    ensures
        k < jobs[b].done ==> told_truly(jobs[b], jobs[0].order@[k] as int),
        k >= jobs[b].done ==> jobs[b].runs@[jobs[0].order@[k] as int].duration_secs is None,
    decreases b,
{
    lemma_course(jobs, b);
    let places = ints(jobs[0].order@);
    let p = jobs[0].order@[k] as int;
    assert(places[k] == p);
    if b > 0 {
        lemma_told_so_far(jobs, b - 1, k);
        lemma_course(jobs, b - 1);
        let prior = jobs[b - 1];
        let now = jobs[b];
        assert(is_turn(jobs[b - 1], jobs[b - 1 + 1]));
        lemma_turn(prior, now);
        let at = prior.done as int;
        if k <= at {
            lemma_step_stays(prior, now, k);
        }
        if k != at {
            assert(places[k] != places[at]);
            assert(now.runs@[p] == prior.runs@[p]);
        }
    }
}

/// Law: a job that is given up records every one of its checks as an error, under
/// its own name, and says why.
pub proof fn law_given_up_job_is_all_errors(prior: JobRun, now: JobRun, i: int)
    requires
        given_up(prior, now),
        0 <= i < prior.runs@.len(),
    ensures
        now.runs@.len() == prior.runs@.len(),
        now.runs@[i].status == Status::Error,
        now.runs@[i].name@ == prior.runs@[i].name@,
{
    assert(now.runs@[i].status == Status::Error);
}

/// Law: a check that is to be run is run, at its own place and with its own
/// command; one that is skipped or derived is settled; and when there is none
/// left, the job is finished.
pub proof fn law_each_step_has_its_task(task: Task, index: int, command: Seq<char>, status: Status)
    ensures
        is_next_task(task, StepView::Run(index, command)) <==> (task matches Task::Check(at, line)
            && at == index && line@ == command),
        is_next_task(task, StepView::Skip(index)) <==> task is Settle,
        is_next_task(task, StepView::Composite(index, status)) <==> task is Settle,
        is_next_task(task, StepView::Done) <==> (task matches Task::Finish(Ok(_))),
        next_stage(StepView::Done) == Stage::Finished,
        next_stage(StepView::Run(index, command)) == Stage::Checking,
        next_stage(StepView::Skip(index)) == Stage::Checking,
        next_stage(StepView::Composite(index, status)) == Stage::Checking,
{
}

/// Law: the result of a check is recorded on that check and on no other, as it
/// came: status, time taken, session and exit code.
pub proof fn law_result_is_recorded_on_its_check(
    prior: JobRun,
    now: JobRun,
    result: RunResult,
    k: int,
)
    requires
        prior.wf(),
        prior.done < prior.order@.len(),
        is_result_of(prior, now, result),
        0 <= k < now.runs@.len(),
    ensures
        now.done == prior.done + 1,
        ({
            let index = prior.order@[prior.done as int] as int;
            &&& k != index ==> now.runs@[k] == prior.runs@[k]
            &&& k == index ==> now.runs@[k].status == result.status && now.runs@[k].duration_secs
                == Some(result.duration_secs) && opt_text(now.runs@[k].recording) == Some(
                result.recording@,
            ) && now.runs@[k].exit_code == result.exit_code
        }),
{
}

} // verus!
