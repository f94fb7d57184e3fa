//! The configured checks, sourced from the `refs/meta/checks` ref, and the runs
//! of them that are recorded for each commit.
//!
//! A check is anything a server runs against a push. Keeping the definitions on
//! a meta ref rather than in the worktree means an untrusted branch cannot
//! rewrite the checks that gate it.

use vstd::prelude::*;

use crate::component::{
    self, distinct_keys, in_key_order, is_loaded_map, law_stored_set_loads, map_document, to_map,
    Keyed,
};
use crate::documents::{map_value, single, Node, Stored};
use crate::keyed::{entry_texts, lemma_finite_listing, listing, TextMap};
use crate::seqs::{kept, lemma_kept_step};
use crate::text::{after_prefix, opt_clone, opt_text, strip_prefix};

verus! {

/// The ref whose tree holds the configured check set.
pub const CHECKS_REF: &'static str = "refs/meta/checks";

/// The namespace under which a commit's check runs are recorded: one ref,
/// `refs/meta/runs/<commit>`, per checked commit.
pub const RUNS_NS: &'static str = "refs/meta/runs";

/// One configured check.
#[derive(Debug, Clone, PartialEq, Eq)]
pub struct Check {
    /// The name it is stored under.
    pub name: String,
    /// The shell command run for the check (e.g. `cargo fmt --check`).
    pub command: String,
}

/// A configured check's stored body. The name it stands under is its identity, so
/// it is not repeated in the body.
#[derive(Debug, Clone, PartialEq, Eq)]
pub struct CheckBody {
    /// The shell command run for the check.
    pub command: String,
}

/// One check's stored outcome, without its name.
#[derive(Debug, Clone, PartialEq, Eq)]
pub struct Outcome {
    /// `queued`, `running`, then `pass`, `fail`, or `error`.
    pub outcome: String,
    /// How long the check took to run, when known.
    pub duration_secs: Option<u64>,
    /// Where to read the check's full log, when the runner published one.
    pub log_url: Option<String>,
}

/// One check's outcome within a [`Run`].
#[derive(Debug, Clone, PartialEq, Eq)]
pub struct RunOutcome {
    /// The check's name.
    pub name: String,
    /// The outcome recorded for it as a run progresses: `queued`, `running`,
    /// then `pass`, `fail`, or `error`.
    pub outcome: String,
    /// How long the check took to run, when known.
    pub duration_secs: Option<u64>,
    /// Where to read the check's full log, when the runner published one.
    pub log_url: Option<String>,
}

/// One recorded execution of the check set against a commit.
#[derive(Debug, Clone, PartialEq, Eq)]
pub struct Run {
    /// When the run was recorded, as seconds since the Unix epoch.
    pub at: u64,
    /// Each check's outcome, in name order.
    pub results: Vec<RunOutcome>,
}

/// The runs recorded for one commit: its object id and every execution against
/// it, newest first.
#[derive(Debug, Clone, PartialEq, Eq)]
pub struct CommitRuns {
    /// The checked commit's object id.
    pub commit: String,
    /// Every run against it, newest first.
    pub runs: Vec<Run>,
}

/// What an outcome is stored as.
pub open spec fn stored(outcome: RunOutcome) -> Outcome {
    Outcome {
        outcome: outcome.outcome,
        duration_secs: outcome.duration_secs,
        log_url: outcome.log_url,
    }
}

/// What is read back of a stored outcome.
pub open spec fn assembled(name: String, outcome: Outcome) -> RunOutcome {
    RunOutcome {
        name,
        outcome: outcome.outcome,
        duration_secs: outcome.duration_secs,
        log_url: outcome.log_url,
    }
}

/// The results that a run's outcomes are stored as, the last one where a check
/// is listed twice.
pub fn run_doc(outcomes: Vec<RunOutcome>) -> (r: TextMap<Outcome>)
    ensures
        r@ == map_document(outcomes@),
{
    to_map(outcomes)
}

/// A check's outcome, from its name and what is stored under it.
pub fn assemble_outcome(name: String, outcome: Outcome) -> (r: RunOutcome)
    ensures
        r == assembled(name, outcome),
{
    let Outcome { outcome, duration_secs, log_url } = outcome;
    RunOutcome { name, outcome, duration_secs, log_url }
}

/// Whether an outcome is what is stored in an entry.
pub open spec fn is_entry(r: RunOutcome, entry: (Seq<char>, Outcome)) -> bool {
    &&& r.name@ == entry.0
    &&& r.outcome == entry.1.outcome
    &&& r.duration_secs == entry.1.duration_secs
    &&& opt_text(r.log_url) == opt_text(entry.1.log_url)
}

/// A run's outcomes, in the order of the checks' names.
pub fn outcomes(doc: &TextMap<Outcome>) -> (r: Vec<RunOutcome>)
    ensures
        r@.len() == listing(doc@).len(),
        forall|i: int| 0 <= i < r@.len() ==> is_entry(#[trigger] r@[i], listing(doc@)[i]),
{
    let entries = doc.entries();
    let mut r: Vec<RunOutcome> = Vec::new();
    let mut i: usize = 0;
    while i < entries.len()
        invariant
            i <= entries@.len(),
            entry_texts(entries@) == listing(doc@),
            r@.len() == i,
            forall|j: int| 0 <= j < i ==> is_entry(#[trigger] r@[j], listing(doc@)[j]),
        decreases entries@.len() - i,
    {
        let held = &entries[i].1;
        let outcome = Outcome {
            outcome: held.outcome.clone(),
            duration_secs: held.duration_secs,
            log_url: opt_clone(&held.log_url),
        };
        r.push(assemble_outcome(entries[i].0.clone(), outcome));
        i += 1;
    }
    r
}

/// The ref that holds a commit's runs.
pub fn runs_ref(commit: &str) -> (r: String)
    ensures
        r@ == RUNS_NS@ + "/"@ + commit@,
{
    let mut r = RUNS_NS.to_owned();
    r.append("/");
    r.append(commit);
    r
}

/// The commit that a run ref is for.
pub open spec fn ref_commit(refname: Seq<char>) -> Option<Seq<char>> {
    after_prefix(refname, RUNS_NS@ + "/"@)
}

/// The recorded runs of one ref: when each was recorded and its results, newest
/// first.
#[derive(Debug)]
pub struct RunRef {
    /// The ref.
    pub refname: String,
    /// Its runs, newest first.
    pub history: Vec<(u64, TextMap<Outcome>)>,
}

/// Whether a run is what is recorded in one commit of the history.
pub open spec fn is_recorded(run: Run, recorded: (u64, TextMap<Outcome>)) -> bool {
    &&& run.at == recorded.0
    &&& run.results@.len() == listing(recorded.1@).len()
    &&& forall|i: int|
        0 <= i < run.results@.len() ==> is_entry(
            #[trigger] run.results@[i],
            listing(recorded.1@)[i],
        )
}

/// Whether the runs of a commit are those of its ref.
pub open spec fn is_runs_of(runs: CommitRuns, listed: RunRef) -> bool {
    &&& ref_commit(listed.refname@) == Some(runs.commit@)
    &&& runs.runs@.len() == listed.history@.len()
    &&& forall|i: int|
        0 <= i < runs.runs@.len() ==> is_recorded(#[trigger] runs.runs@[i], listed.history@[i])
}

fn runs_of(history: &Vec<(u64, TextMap<Outcome>)>) -> (r: Vec<Run>)
    ensures
        r@.len() == history@.len(),
        forall|i: int| 0 <= i < r@.len() ==> is_recorded(#[trigger] r@[i], history@[i]),
{
    let mut r: Vec<Run> = Vec::new();
    let mut i: usize = 0;
    while i < history.len()
        invariant
            i <= history@.len(),
            r@.len() == i,
            forall|j: int| 0 <= j < i ==> is_recorded(#[trigger] r@[j], history@[j]),
        decreases history@.len() - i,
    {
        let results = outcomes(&history[i].1);
        let run = Run { at: history[i].0, results };
        proof {
            assert(is_recorded(run, history@[i as int]));
        }
        r.push(run);
        i += 1;
    }
    r
}

/// The refs among `listed` that hold a commit's runs.
pub open spec fn run_refs(listed: Seq<RunRef>) -> Seq<RunRef> {
    kept(
        listed,
        |r: RunRef|
            if ref_commit(r.refname@) is Some {
                Some(r)
            } else {
                None
            },
    )
}

/// The recorded runs per commit, in the order of the refs; a ref outside the
/// namespace is passed over.
pub fn runs(listed: &Vec<RunRef>) -> (r: Vec<CommitRuns>)
    ensures
        r@.len() == run_refs(listed@).len(),
        forall|i: int| 0 <= i < r@.len() ==> is_runs_of(#[trigger] r@[i], run_refs(listed@)[i]),
{
    let mut prefix = RUNS_NS.to_owned();
    prefix.append("/");
    let ghost f = |r: RunRef|
        if ref_commit(r.refname@) is Some {
            Some(r)
        } else {
            None
        };
    let mut r: Vec<CommitRuns> = Vec::new();
    let mut i: usize = 0;
    proof {
        assert(kept(listed@.take(0), f) =~= seq![]);
    }
    while i < listed.len()
        invariant
            i <= listed@.len(),
            prefix@ == RUNS_NS@ + "/"@,
            f == |r: RunRef|
                if ref_commit(r.refname@) is Some {
                    Some(r)
                } else {
                    None
                },
            r@.len() == kept(listed@.take(i as int), f).len(),
            forall|j: int|
                0 <= j < r@.len() ==> is_runs_of(
                    #[trigger] r@[j],
                    kept(listed@.take(i as int), f)[j],
                ),
        decreases listed@.len() - i,
    {
        proof {
            lemma_kept_step(listed@, f, i as int);
        }
        let ghost before = kept(listed@.take(i as int), f);
        if let Some(commit) = strip_prefix(listed[i].refname.as_str(), prefix.as_str()) {
            let item = CommitRuns { commit: commit.to_owned(), runs: runs_of(&listed[i].history) };
            proof {
                assert(is_runs_of(item, listed@[i as int]));
            }
            let ghost prior = r@;
            r.push(item);
            proof {
                let now = kept(listed@.take(i + 1), f);
                assert forall|j: int| 0 <= j < r@.len() implies is_runs_of(
                    #[trigger] r@[j],
                    now[j],
                ) by {
                    if j < prior.len() {
                        assert(r@[j] == prior[j]);
                        assert(now[j] == before[j]);
                    }
                }
            }
        }
        i += 1;
    }
    proof {
        assert(listed@.take(listed@.len() as int) =~= listed@);
    }
    r
}

/// What is stored of an outcome is what comes back.
pub proof fn law_outcome_round_trip(outcome: RunOutcome)
    ensures
        assembled(outcome.name, stored(outcome)) == outcome,
{
}

/// A commit's run ref leads back to the commit.
pub proof fn law_run_ref_names_its_commit(commit: Seq<char>)
    ensures
        ref_commit(RUNS_NS@ + "/"@ + commit) == Some(commit),
{
    let prefix = RUNS_NS@ + "/"@;
    let name = prefix + commit;
    assert(name.take(prefix.len() as int) =~= prefix);
    assert(name.skip(prefix.len() as int) =~= commit);
}

/// Loads the checks from what [`CHECKS_REF`] holds, in the order of their keys: none
/// where the ref is absent, and `None` where it cannot be read.
pub fn load(node: Option<&Node>) -> (r: Option<Vec<Check>>)
    ensures
        is_loaded_map(r, node),
{
    component::load_map(node)
}

/// The ref that checks are stored on, and what it holds then: these checks and
/// no others.
pub fn store(items: Vec<Check>) -> (r: (&'static str, Node))
    ensures
        r.0@ == CHECKS_REF@,
        single::<TextMap<CheckBody>>(r.1, "checks"@, map_value(map_document(items@))),
{
    (CHECKS_REF, component::store_map(items))
}

/// The ref that a run of a commit's checks is recorded on, and what the run's
/// commit holds.
pub fn record(commit: &str, outcomes: Vec<RunOutcome>) -> (r: (String, Node))
    ensures
        r.0@ == RUNS_NS@ + "/"@ + commit@,
        single::<TextMap<Outcome>>(r.1, "results"@, map_value(map_document(outcomes@))),
{
    (runs_ref(commit), component::store_map(outcomes))
}

/// Law: the check set that was stored is the one that is loaded, in the order of
/// the names, whatever was stored before it.
pub proof fn law_check_set_reads_back(node: Node, checks: Seq<Check>, loaded: Vec<Check>, i: int)
    requires
        distinct_keys(checks),
        single::<TextMap<CheckBody>>(node, "checks"@, map_value(map_document(checks))),
        is_loaded_map(Some(loaded), Some(&node)),
        0 <= i < checks.len(),
    ensures
        loaded@.len() == checks.len(),
        in_key_order(loaded@),
        exists|j: int|
            0 <= j < loaded@.len() && (#[trigger] loaded@[j]).name@ == checks[i].name@
                && loaded@[j].command@ == checks[i].command@,
{
    law_stored_set_loads(node, checks, loaded, i);
    let j = choose|j: int|
        0 <= j < loaded@.len() && (#[trigger] loaded@[j]).map_key() == checks[i].map_key()
            && loaded@[j].map_body().value() == checks[i].map_body().value();
    assert(loaded@[j].name@ == checks[i].name@);
}

/// Law: a recorded run shows every result that its document holds, under its
/// check's name, and no other.
pub proof fn law_recorded_run_shows_its_document(
    run: Run,
    at: u64,
    document: TextMap<Outcome>,
    name: Seq<char>,
)
    requires
        is_recorded(run, (at, document)),
        document@.dom().finite(),
    ensures
        run.at == at,
        document@.contains_key(name) <==> exists|i: int|
            0 <= i < run.results@.len() && (#[trigger] run.results@[i]).name@ == name,
        forall|i: int|
            0 <= i < run.results@.len() && (#[trigger] run.results@[i]).name@ == name
                ==> run.results@[i].outcome@ == document@[name].outcome@
                && run.results@[i].duration_secs == document@[name].duration_secs && opt_text(
                run.results@[i].log_url,
            ) == opt_text(document@[name].log_url),
{
    lemma_finite_listing(document@);
    let list = listing(document@);
    if document@.contains_key(name) {
        let i = choose|i: int| 0 <= i < list.len() && (#[trigger] list[i]).0 == name;
        assert(is_entry(run.results@[i], list[i]));
        assert(run.results@[i].name@ == name);
    }
    assert forall|i: int|
        0 <= i < run.results@.len() && (#[trigger] run.results@[i]).name@
            == name implies document@.contains_key(name) && run.results@[i].outcome@
        == document@[name].outcome@ && run.results@[i].duration_secs
        == document@[name].duration_secs && opt_text(run.results@[i].log_url) == opt_text(
        document@[name].log_url,
    ) by {
        assert(is_entry(run.results@[i], list[i]));
        assert(document@.contains_key(list[i].0));
    }
}

/// Law: of the refs that there are, those of runs are read, each for the commit
/// that its name ends in.
pub proof fn law_runs_are_read_by_commit(runs: CommitRuns, listed: RunRef, commit: Seq<char>)
    requires
        is_runs_of(runs, listed),
        listed.refname@ == "refs/meta/runs/"@ + commit,
    ensures
        runs.commit@ == commit,
        runs.runs@.len() == listed.history@.len(),
{
    reveal_strlit("refs/meta/runs/");
    reveal_strlit("refs/meta/runs");
    reveal_strlit("/");
    assert("refs/meta/runs/"@ =~= RUNS_NS@ + "/"@);
    law_run_ref_names_its_commit(commit);
}

} // verus!
