//! The repository's issues, sourced from the `refs/meta/issues/<id>` refs: each
//! a self-contained document on its own ref.

use vstd::prelude::*;

use crate::component::{self, is_loaded, item_values, items_under};
use crate::documents::{Node, Stored};
use crate::seqs::{kept, lemma_kept_step};
use crate::text::{after_prefix, same, strip_prefix};

verus! {

/// The namespace under which issues are recorded.
pub const ISSUES_NS: &'static str = "refs/meta/issues";

/// One issue stored at `refs/meta/issues/<id>`.
#[derive(Debug, Clone, PartialEq, Eq)]
pub struct Issue {
    /// The issue's one-line title.
    pub title: String,
    /// The issue's body text.
    pub body: String,
    /// The issue's state: `open` or `closed`.
    pub state: String,
    /// The labels applied to the issue, as plain strings.
    pub labels: Vec<String>,
    /// The identity that opened the issue.
    pub author: String,
}

impl Issue {
    /// Whether the issue is open.
    pub open spec fn open(&self) -> bool {
        self.state@ != "closed"@
    }

    /// Whether the issue is open (any state other than `closed`).
    pub fn is_open(&self) -> (r: bool)
        ensures
            r == self.open(),
    {
        !same(self.state.as_str(), "closed")
    }
}

/// The ref that holds the issue `id`.
pub fn issue_ref(id: &str) -> (r: String)
    ensures
        r@ == ISSUES_NS@ + "/"@ + id@,
{
    let mut r = ISSUES_NS.to_owned();
    r.append("/");
    r.append(id);
    r
}

/// The id of the issue that a ref holds.
pub open spec fn ref_issue(refname: Seq<char>) -> Option<Seq<char>> {
    after_prefix(refname, ISSUES_NS@ + "/"@)
}

/// The id of the issue that a ref holds, if it is an issue's ref.
pub fn issue_id(refname: &str) -> (r: Option<String>)
    ensures
        match r {
            Some(id) => ref_issue(refname@) == Some(id@),
            None => ref_issue(refname@) is None,
        },
{
    let mut prefix = ISSUES_NS.to_owned();
    prefix.append("/");
    match strip_prefix(refname, prefix.as_str()) {
        Some(id) => Some(id.to_owned()),
        None => None,
    }
}

/// An issue that is open.
pub open spec fn open_issue(entry: (String, Issue)) -> Option<Issue> {
    if entry.1.open() {
        Some(entry.1)
    } else {
        None
    }
}

/// The number of open issues.
pub fn open_count(issues: &[(String, Issue)]) -> (r: usize)
    ensures
        r == kept(issues@, |entry: (String, Issue)| open_issue(entry)).len(),
{
    let ghost f = |entry: (String, Issue)| open_issue(entry);
    let mut n: usize = 0;
    let mut i: usize = 0;
    proof {
        assert(kept(issues@.take(0), f) =~= seq![]);
    }
    while i < issues.len()
        invariant
            n <= i <= issues@.len(),
            f == (|entry: (String, Issue)| open_issue(entry)),
            n == kept(issues@.take(i as int), f).len(),
        decreases issues@.len() - i,
    {
        proof {
            lemma_kept_step(issues@, f, i as int);
        }
        if issues[i].1.is_open() {
            n += 1;
        }
        i += 1;
    }
    proof {
        assert(issues@.take(issues@.len() as int) =~= issues@);
    }
    n
}

/// An issue's ref leads back to the issue.
pub proof fn law_issue_ref_names_its_issue(id: Seq<char>)
    ensures
        ref_issue(ISSUES_NS@ + "/"@ + id) == Some(id),
{
    let prefix = ISSUES_NS@ + "/"@;
    let name = prefix + id;
    assert(name.take(prefix.len() as int) =~= prefix);
    assert(name.skip(prefix.len() as int) =~= id);
}

/// Loads an issue from what its ref holds: `Some(None)` where the ref is absent,
/// and `None` where it cannot be read.
pub fn load(node: Option<&Node>) -> (r: Option<Option<Issue>>)
    ensures
        is_loaded(r, node),
{
    component::load_item(node)
}

/// The ref that the issue `id` is stored on, and what it holds then.
pub fn store(id: &str, issue: &Issue) -> (r: (String, Node))
    ensures
        r.0@ == ISSUES_NS@ + "/"@ + id@,
        Issue::layout(r.1, issue.value()),
{
    component::store_item(id, issue)
}

/// Every one of the issues among `refs`, each with its id, in the order of the
/// refs; `None` where one cannot be read.
pub fn list(refs: &[(String, Node)]) -> (r: Option<Vec<(String, Issue)>>)
    ensures
        match r {
            Some(items) => items_under::<Issue>(ISSUES_NS@, refs@) == Some(item_values(items@)),
            None => items_under::<Issue>(ISSUES_NS@, refs@) is None,
        },
{
    component::list(ISSUES_NS, refs)
}

/// Law: an issue is open unless its state says that it is closed, and open issues
/// are counted as many times as they occur.
pub proof fn law_open_issues_are_counted(issues: Seq<(String, Issue)>)
    ensures
        kept(issues, |entry: (String, Issue)| open_issue(entry)).len() == issues.filter(
            |entry: (String, Issue)| entry.1.state@ != "closed"@,
        ).len(),
    decreases issues.len(),
{
    reveal(Seq::filter);
    if issues.len() > 0 {
        law_open_issues_are_counted(issues.drop_last());
    }
}

} // verus!
