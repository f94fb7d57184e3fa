//! Reviews on a target, sourced from the
//! `refs/meta/reviews/<target_id>/<principal>` refs.
//!
//! One ref per member per target: a member's second look replaces their own
//! first, while two members' looks never collide. Merge readiness is
//! computed at read time from what the members said and the check runs; it is never
//! stored, so there is no status to fall out of sync.

use vstd::prelude::*;

use crate::checks::Run;
use crate::component::{self, is_loaded, item_values, items_under};
use crate::documents::{Node, Stored};
use crate::text::same;

verus! {

/// The namespace under which reviews are recorded.
pub const REVIEWS_NS: &'static str = "refs/meta/reviews";

/// What a member says of a target.
#[derive(Debug, Clone, Copy, PartialEq, Eq, Structural)]
pub enum Verdict {
    /// The target is fine as it is.
    Approve,
    /// Changes are asked for before the target can land.
    RequestChanges,
    /// A non-blocking remark, neither of the others.
    Comment,
}

/// One member's look at a target.
#[derive(Debug, Clone, PartialEq, Eq)]
pub struct Review {
    /// The reviewing member's principal: the ref's last segment.
    pub principal: String,
    /// What the member says.
    pub verdict: Verdict,
    /// The member's remarks.
    pub body: String,
}

/// The ref namespace holding every review of `target_id`.
pub fn target_reviews_ns(target_id: &str) -> (r: String)
    ensures
        r@ == REVIEWS_NS@ + "/"@ + target_id@,
{
    let mut r = REVIEWS_NS.to_owned();
    r.append("/");
    r.append(target_id);
    r
}

/// Whether any review gives `verdict`.
pub open spec fn any_verdict(reviews: Seq<Review>, verdict: Verdict) -> bool {
    exists|i: int| 0 <= i < reviews.len() && (#[trigger] reviews[i]).verdict == verdict
}

/// Whether every check of a run has passed.
pub open spec fn all_passed(run: Run) -> bool {
    forall|i: int|
        0 <= i < run.results@.len() ==> (#[trigger] run.results@[i]).outcome@ == "pass"@
}

/// Whether a target is ready to merge.
pub open spec fn ready(reviews: Seq<Review>, latest_run: Option<Run>) -> bool {
    &&& any_verdict(reviews, Verdict::Approve)
    &&& !any_verdict(reviews, Verdict::RequestChanges)
    &&& latest_run matches Some(run) ==> all_passed(run)
}

fn has_verdict(reviews: &[Review], verdict: Verdict) -> (r: bool)
    ensures
        r == any_verdict(reviews@, verdict),
{
    let mut i: usize = 0;
    while i < reviews.len()
        invariant
            i <= reviews@.len(),
            forall|j: int| 0 <= j < i ==> (#[trigger] reviews@[j]).verdict != verdict,
        decreases reviews@.len() - i,
    {
        if reviews[i].verdict == verdict {
            return true;
        }
        i += 1;
    }
    false
}

fn run_passed(run: &Run) -> (r: bool)
    ensures
        r == all_passed(*run),
{
    let mut i: usize = 0;
    while i < run.results.len()
        invariant
            i <= run.results@.len(),
            forall|j: int|
                0 <= j < i ==> (#[trigger] run.results@[j]).outcome@ == "pass"@,
        decreases run.results@.len() - i,
    {
        if !same(run.results[i].outcome.as_str(), "pass") {
            return false;
        }
        i += 1;
    }
    true
}

/// Whether a target is ready to merge: someone found it fine, nobody asked for
/// changes, and every check in the most recent run (if any)
/// having passed. A target with no runs recorded is judged on reviews alone.
pub fn is_ready(reviews: &[Review], latest_run: Option<&Run>) -> (r: bool)
    ensures
        r == ready(
            reviews@,
            match latest_run {
                Some(run) => Some(*run),
                None => None,
            },
        ),
{
    if !has_verdict(reviews, Verdict::Approve) || has_verdict(reviews, Verdict::RequestChanges) {
        return false;
    }
    match latest_run {
        Some(run) => run_passed(run),
        None => true,
    }
}

/// A requested change blocks, however many approvals there are.
pub proof fn law_requested_change_blocks(reviews: Seq<Review>, latest_run: Option<Run>, i: int)
    requires
        0 <= i < reviews.len(),
        reviews[i].verdict == Verdict::RequestChanges,
    ensures
        !ready(reviews, latest_run),
{
    assert(any_verdict(reviews, Verdict::RequestChanges));
}

/// Checks that were never run cannot block.
pub proof fn law_no_run_blocks_nothing(reviews: Seq<Review>, latest_run: Option<Run>)
    requires
        ready(reviews, latest_run),
    ensures
        ready(reviews, None),
{
}

/// A remark changes nothing: readiness is the same with it or without it.
pub proof fn law_remarks_do_not_count(
    reviews: Seq<Review>,
    remark: Review,
    latest_run: Option<Run>,
)
    requires
        remark.verdict == Verdict::Comment,
    ensures
        ready(reviews.push(remark), latest_run) == ready(reviews, latest_run),
{
    let more = reviews.push(remark);
    assert forall|verdict: Verdict| verdict != Verdict::Comment implies any_verdict(more, verdict)
        == any_verdict(reviews, verdict) by {
        if any_verdict(more, verdict) {
            let i = choose|i: int| 0 <= i < more.len() && (#[trigger] more[i]).verdict == verdict;
            assert(reviews[i].verdict == verdict);
        }
        if any_verdict(reviews, verdict) {
            let i = choose|i: int|
                0 <= i < reviews.len() && (#[trigger] reviews[i]).verdict == verdict;
            assert(more[i].verdict == verdict);
        }
    }
}

/// Loads a member's look at a target from what its ref holds: `Some(None)` where the ref is absent,
/// and `None` where it cannot be read.
pub fn load(node: Option<&Node>) -> (r: Option<Option<Review>>)
    ensures
        is_loaded(r, node),
{
    component::load_item(node)
}

/// The ref that a member's look at `target_id` is stored on, in place of any
/// earlier one of theirs, and what it holds then.
pub fn store(target_id: &str, look: &Review) -> (r: (String, Node))
    ensures
        r.0@ == REVIEWS_NS@ + "/"@ + target_id@ + "/"@ + look.principal@,
        Review::layout(r.1, look.value()),
{
    let mut name = target_reviews_ns(target_id);
    name.append("/");
    name.append(look.principal.as_str());
    (name, look.write())
}

/// Every one of the looks at `target_id` among `refs`, each with its id, in the order of the
/// refs; `None` where one cannot be read.
pub fn list(target_id: &str, refs: &[(String, Node)]) -> (r: Option<Vec<(String, Review)>>)
    ensures
        match r {
            Some(items) => items_under::<Review>(REVIEWS_NS@ + "/"@ + target_id@, refs@) == Some(item_values(items@)),
            None => items_under::<Review>(REVIEWS_NS@ + "/"@ + target_id@, refs@) is None,
        },
{
    component::list(target_reviews_ns(target_id).as_str(), refs)
}

/// Law: a change is ready exactly where somebody approved it, nobody requests
/// changes, and its latest run, where there is one, passed every check.
pub proof fn law_ready_means_approved_and_passed(reviews: Seq<Review>, latest_run: Option<Run>)
    ensures
        ready(reviews, latest_run) <==> (exists|i: int|
            0 <= i < reviews.len() && (#[trigger] reviews[i]).verdict == Verdict::Approve) && (
        forall|i: int|
            0 <= i < reviews.len() ==> (#[trigger] reviews[i]).verdict != Verdict::RequestChanges)
            && (latest_run matches Some(run) ==> forall|i: int|
            0 <= i < run.results@.len() ==> (#[trigger] run.results@[i]).outcome@ == "pass"@),
{
}

} // verus!
