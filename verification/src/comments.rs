//! Comments on issues, sourced from the
//! `refs/meta/comments/<issue_id>/<comment_id>` refs.
//!
//! Each comment is its own document nested under the issue's stable key, never
//! its friendly number, so a comment filed before promotion still resolves
//! after.

use vstd::prelude::*;

use crate::component::{self, is_loaded, item_values, items_under};
use crate::documents::{Node, Stored};

verus! {

/// The namespace under which comments are recorded.
pub const COMMENTS_NS: &'static str = "refs/meta/comments";

/// One comment on an issue.
#[derive(Debug, Clone, PartialEq, Eq)]
pub struct Comment {
    /// The comment's body text.
    pub body: String,
    /// The identity that wrote the comment.
    pub author: String,
    /// The commented-on issue's stable key.
    pub issue_id: String,
}

/// The ref namespace holding every comment on `issue_id`.
pub fn issue_comments_ns(issue_id: &str) -> (r: String)
    ensures
        r@ == COMMENTS_NS@ + "/"@ + issue_id@,
{
    let mut r = COMMENTS_NS.to_owned();
    r.append("/");
    r.append(issue_id);
    r
}

/// The ref holding one comment.
pub fn comment_ref(issue_id: &str, comment_id: &str) -> (r: String)
    ensures
        r@ == COMMENTS_NS@ + "/"@ + issue_id@ + "/"@ + comment_id@,
{
    let mut r = issue_comments_ns(issue_id);
    r.append("/");
    r.append(comment_id);
    r
}

/// Comments on different issues never share a ref, as long as an issue's id
/// holds no slash.
pub proof fn law_comments_do_not_collide(
    issue: Seq<char>,
    comment: Seq<char>,
    other_issue: Seq<char>,
    other_comment: Seq<char>,
)
    requires
        !issue.contains('/'),
        !other_issue.contains('/'),
        COMMENTS_NS@ + "/"@ + issue + "/"@ + comment == COMMENTS_NS@ + "/"@ + other_issue + "/"@
            + other_comment,
    ensures
        issue == other_issue,
        comment == other_comment,
{
    reveal_strlit("/");
    let prefix = COMMENTS_NS@ + "/"@;
    let a = prefix + issue + "/"@ + comment;
    let b = prefix + other_issue + "/"@ + other_comment;
    let n = prefix.len() as int;
    assert(a.skip(n) =~= issue + seq!['/'] + comment);
    assert(b.skip(n) =~= other_issue + seq!['/'] + other_comment);
    let s = issue + seq!['/'] + comment;
    let t = other_issue + seq!['/'] + other_comment;
    assert(s == t);
    if issue.len() < other_issue.len() {
        assert(t[issue.len() as int] == other_issue[issue.len() as int]);
        assert(s[issue.len() as int] == '/');
        assert(other_issue.contains('/'));
    }
    if other_issue.len() < issue.len() {
        assert(s[other_issue.len() as int] == issue[other_issue.len() as int]);
        assert(t[other_issue.len() as int] == '/');
        assert(issue.contains('/'));
    }
    assert(s.take(issue.len() as int) =~= issue);
    assert(t.take(issue.len() as int) =~= other_issue);
    assert(s.skip(1 + issue.len() as int) =~= comment);
    assert(t.skip(1 + issue.len() as int) =~= other_comment);
}

/// Loads a comment from what its ref holds: `Some(None)` where the ref is absent,
/// and `None` where it cannot be read.
pub fn load(node: Option<&Node>) -> (r: Option<Option<Comment>>)
    ensures
        is_loaded(r, node),
{
    component::load_item(node)
}

/// The ref that the comment `comment_id` on `issue_id` is stored on, and what it
/// holds then.
pub fn store(issue_id: &str, comment_id: &str, comment: &Comment) -> (r: (String, Node))
    ensures
        r.0@ == COMMENTS_NS@ + "/"@ + issue_id@ + "/"@ + comment_id@,
        Comment::layout(r.1, comment.value()),
{
    (comment_ref(issue_id, comment_id), comment.write())
}

/// Every one of the comments on `issue_id` among `refs`, each with its id, in the order of the
/// refs; `None` where one cannot be read.
pub fn list(issue_id: &str, refs: &[(String, Node)]) -> (r: Option<Vec<(String, Comment)>>)
    ensures
        match r {
            Some(items) => items_under::<Comment>(COMMENTS_NS@ + "/"@ + issue_id@, refs@) == Some(item_values(items@)),
            None => items_under::<Comment>(COMMENTS_NS@ + "/"@ + issue_id@, refs@) is None,
        },
{
    component::list(issue_comments_ns(issue_id).as_str(), refs)
}

} // verus!
