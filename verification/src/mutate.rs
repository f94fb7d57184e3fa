//! The one shape that every entity mutation has: a signed commit bound to its
//! ref, proposed as a transition of that ref, and what came of it.

use vstd::prelude::*;
use vstd::utf8::encode_utf8;

use crate::error::Error;
use crate::object_id::{hex_id, ObjectId};
use crate::runner::one_line;
use crate::seqs::{kept, lemma_kept_all, lemma_kept_none, lemma_kept_step};
use crate::sign::{ssh_signature, Signer, GIT_SIGN_NAMESPACE};
use crate::text::{
    join, joined, lemma_lines_front, lines_of, opt_text, pairs, same, texts, trim_end, trimmed_end,
};

verus! {

/// A text with a space put in after every line break that something follows,
/// as a header's value is continued on the next line.
pub open spec fn continued(s: Seq<char>) -> Seq<char>
    decreases s.len(),
{
    if s.len() == 0 {
        Seq::empty()
    } else if s[0] == '\n' && s.len() > 1 {
        seq!['\n', ' '] + continued(s.skip(1))
    } else {
        seq![s[0]] + continued(s.skip(1))
    }
}

/// A header of a commit.
pub open spec fn header_text(header: (Seq<char>, Seq<char>)) -> Seq<char> {
    header.0 + " "@ + continued(header.1) + (if header.1.len() > 0 && header.1.last() == '\n' {
        Seq::empty()
    } else {
        "\n"@
    })
}

/// The headers of a commit, one after the other.
pub open spec fn headers_text(headers: Seq<(Seq<char>, Seq<char>)>) -> Seq<char>
    decreases headers.len(),
{
    if headers.len() == 0 {
        Seq::empty()
    } else {
        headers_text(headers.drop_last()) + header_text(headers.last())
    }
}

/// The lines that name a commit's parents.
pub open spec fn parents_text(parents: Seq<Seq<char>>) -> Seq<char>
    decreases parents.len(),
{
    if parents.len() == 0 {
        Seq::empty()
    } else {
        parents_text(parents.drop_last()) + "parent "@ + parents.last() + "\n"@
    }
}

/// A commit, as git stores it.
pub open spec fn commit_text(
    tree: Seq<char>,
    parents: Seq<Seq<char>>,
    author: Seq<char>,
    committer: Seq<char>,
    headers: Seq<(Seq<char>, Seq<char>)>,
    message: Seq<char>,
) -> Seq<char> {
    "tree "@ + tree + "\n"@ + parents_text(parents) + "author "@ + author + "\n"@ + "committer "@
        + committer + "\n"@ + headers_text(headers) + "\n"@ + message
}

/// Whether a text is an object id as git writes it.
pub open spec fn is_id(s: Seq<char>) -> bool {
    hex_id(encode_utf8(s)) == Some(s)
}

/// `gix_object::WriteTo::write_to` for a `CommitRef` writes the tree, each
/// parent, the author, the committer and the further headers on a line each, an
/// empty line, and the message; a header's value that has more than one line is
/// continued with a space. The ids have to be object ids.
#[verifier::external_body]
fn write_commit(
    tree: &str,
    parents: &Vec<String>,
    author: &str,
    committer: &str,
    headers: &Vec<(String, String)>,
    message: &str,
) -> (r: Vec<u8>)
    requires
        is_id(tree@),
        forall|i: int| 0 <= i < parents@.len() ==> is_id(#[trigger] texts(parents@)[i]),
    ensures
        r@ == encode_utf8(
            commit_text(
                tree@,
                texts(parents@),
                author@,
                committer@,
                pairs(headers@),
                message@,
            ),
        ),
{
    let commit = gix_object::CommitRef {
        tree: tree.into(),
        parents: parents.iter().map(|id| id.as_str().into()).collect(),
        author: author.into(),
        committer: committer.into(),
        encoding: None,
        message: message.into(),
        extra_headers: headers.iter().map(|h| (h.0.as_str().into(), std::borrow::Cow::Borrowed(h.1.as_str().into()))).collect(),
    };
    let mut out = Vec::new();
    let _ = gix_object::WriteTo::write_to(&commit, &mut out);
    out
}

fn check_id(s: &str) -> (r: bool)
    ensures
        r == is_id(s@),
{
    match ObjectId::from_hex(s.as_bytes()) {
        None => false,
        Some(id) => same(id.as_str(), s),
    }
}

/// The bytes of a commit as git stores it, or nothing where its tree or a parent
/// is no object id.
pub fn commit_object(
    tree: &str,
    parents: &Vec<String>,
    author: &str,
    committer: &str,
    headers: &Vec<(String, String)>,
    message: &str,
) -> (r: Option<Vec<u8>>)
    ensures
        if is_id(tree@) && forall|i: int|
            0 <= i < parents@.len() ==> is_id(#[trigger] texts(parents@)[i]) {
            r matches Some(bytes) && bytes@ == encode_utf8(
                commit_text(
                    tree@,
                    texts(parents@),
                    author@,
                    committer@,
                    pairs(headers@),
                    message@,
                ),
            )
        } else {
            r is None
        },
{
    if !check_id(tree) {
        return None;
    }
    let ghost all = texts(parents@);
    let mut i: usize = 0;
    while i < parents.len()
        invariant
            i <= parents@.len(),
            all == texts(parents@),
            forall|j: int| 0 <= j < i ==> is_id(#[trigger] all[j]),
        decreases parents@.len() - i,
    {
        proof {
            assert(all[i as int] == parents@[i as int]@);
        }
        if !check_id(parents[i].as_str()) {
            return None;
        }
        i += 1;
    }
    Some(write_commit(tree, parents, author, committer, headers, message))
}

/// A proposed transition of a ref, and the commit it moves to.
#[derive(Debug, PartialEq, Eq)]
pub struct RefTransition {
    /// The ref.
    pub name: String,
    /// Where it was, or nothing where it was not there.
    pub old: Option<String>,
    /// The commit it moves to, or nothing where it is deleted.
    pub commit: Option<Vec<u8>>,
}

/// What an entity's commit says: the subject, and the trailers that bind it to
/// its ref.
pub open spec fn entity_message(subject: Seq<char>, trailers: Seq<char>) -> Seq<char> {
    subject + "\n\n"@ + trailers
}

/// The parents of a commit that moves a ref on.
pub open spec fn parents_of(old: Option<Seq<char>>) -> Seq<Seq<char>> {
    match old {
        Some(tip) => seq![tip],
        None => Seq::empty(),
    }
}

/// An entity's commit, before it is signed.
pub open spec fn unsigned(
    old: Option<Seq<char>>,
    tree: Seq<char>,
    actor: Seq<char>,
    message: Seq<char>,
) -> Seq<char> {
    commit_text(tree, parents_of(old), actor, actor, Seq::empty(), message)
}

/// An entity's commit with a signature.
pub open spec fn signed(
    old: Option<Seq<char>>,
    tree: Seq<char>,
    actor: Seq<char>,
    message: Seq<char>,
    signature: Seq<char>,
) -> Seq<char> {
    commit_text(
        tree,
        parents_of(old),
        actor,
        actor,
        seq![("gpgsig"@, trimmed_end(signature))],
        message,
    )
}

/// Wraps an entity's tree in a commit on top of where its ref is, signs it, and
/// proposes to move the ref there. What is signed is the commit without its
/// signature.
pub fn propose_entity(
    name: &str,
    old: Option<String>,
    tree: &str,
    actor: &str,
    subject: &str,
    trailers: &str,
    signer: &Signer,
) -> (r: Result<RefTransition, Error>)
    ensures
        ({
            let message = entity_message(subject@, trailers@);
            let payload = encode_utf8(unsigned(opt_text(old), tree@, actor@, message));
            let old_is_id = match opt_text(old) {
                Some(tip) => is_id(tip),
                None => true,
            };
            if !is_id(tree@) || !old_is_id {
                r matches Err(Error::InvalidArgument(what)) && what@ == "not an object id"@
            } else {
                match ssh_signature(signer@, GIT_SIGN_NAMESPACE@, payload) {
                    Err(detail) => r matches Err(Error::Other(text)) && text@ == detail,
                    Ok(signature) => r matches Ok(t) && t.name@ == name@ && opt_text(t.old)
                        == opt_text(old) && (t.commit matches Some(bytes) && bytes@
                        == encode_utf8(
                        signed(opt_text(old), tree@, actor@, message, signature),
                    )),
                }
            }
        }),
{
    let mut message = subject.to_owned();
    message.append("\n\n");
    message.append(trailers);
    let mut parents: Vec<String> = Vec::new();
    if let Some(tip) = &old {
        parents.push(tip.clone());
    }
    let ghost all = texts(parents@);
    proof {
        assert(all =~= parents_of(opt_text(old)));
    }
    let mut headers: Vec<(String, String)> = Vec::new();
    proof {
        assert(pairs(headers@) =~= Seq::empty());
        if old is Some {
            assert(all[0] == old->0@);
        }
    }
    let payload = match commit_object(
        tree,
        &parents,
        actor,
        actor,
        &headers,
        message.as_str(),
    ) {
        Some(payload) => payload,
        None => {
            return Err(Error::InvalidArgument("not an object id".to_owned()));
        },
    };
    let pem = match signer.sign(payload.as_slice()) {
        Ok(pem) => pem,
        Err(detail) => {
            return Err(Error::Other(detail));
        },
    };
    headers.push(("gpgsig".to_owned(), trim_end(pem.as_str())));
    proof {
        assert(pairs(headers@) =~= seq![("gpgsig"@, trimmed_end(pem@))]);
    }
    let commit = commit_object(tree, &parents, actor, actor, &headers, message.as_str());
    Ok(RefTransition { name: name.to_owned(), old, commit })
}

/// Proposes to delete an entity's ref.
pub fn propose_delete(name: &str, old: Option<String>) -> (r: RefTransition)
    ensures
        r.name@ == name@,
        r.old == old,
        r.commit is None,
{
    RefTransition { name: name.to_owned(), old, commit: None }
}

/// What one rule of the repository said of a transition.
#[derive(Debug, PartialEq, Eq)]
pub enum Verdict {
    /// It may pass.
    Pass,
    /// It may not, with the reason.
    Fail(String),
}

/// What became of a batch of transitions.
#[derive(Debug, PartialEq, Eq)]
pub enum TxResult {
    /// It was applied.
    Applied,
    /// A rule refused it.
    Refused,
    /// A ref had moved.
    Rejected {
        /// The ref.
        name: String,
    },
    /// It would have refilled a redacted object.
    Redacted {
        /// The object.
        oid: String,
    },
}

/// The reason of a verdict that fails.
pub open spec fn reason_of(verdict: Verdict) -> Option<Seq<char>> {
    match verdict {
        Verdict::Fail(reason) => Some(reason@),
        Verdict::Pass => None,
    }
}

/// The reasons of the verdicts that fail, joined.
pub open spec fn reasons(verdicts: Seq<Verdict>) -> Seq<char> {
    joined(kept(verdicts, |v: Verdict| reason_of(v)), "; "@)
}

fn join_reasons(verdicts: &[Verdict]) -> (r: String)
    ensures
        r@ == reasons(verdicts@),
{
    let ghost f = |v: Verdict| reason_of(v);
    let mut found: Vec<String> = Vec::new();
    let mut i: usize = 0;
    proof {
        assert(texts(found@) =~= kept(verdicts@.take(0), f));
    }
    while i < verdicts.len()
        invariant
            i <= verdicts@.len(),
            f == (|v: Verdict| reason_of(v)),
            texts(found@) == kept(verdicts@.take(i as int), f),
        decreases verdicts@.len() - i,
    {
        proof {
            lemma_kept_step(verdicts@, f, i as int);
        }
        if let Verdict::Fail(reason) = &verdicts[i] {
            let ghost prior = texts(found@);
            found.push(reason.clone());
            proof {
                assert(texts(found@) =~= prior.push(reason@));
            }
        }
        i += 1;
    }
    proof {
        assert(verdicts@.take(verdicts@.len() as int) =~= verdicts@);
    }
    join(found.as_slice(), "; ")
}

/// Translates what became of a proposal into the new tip on success or a
/// user-facing error otherwise, the same way for every command.
pub fn outcome_to_result(result: TxResult, verdicts: &[Verdict], tip: Option<String>) -> (r: Result<
    Option<String>,
    Error,
>)
    ensures
        match result {
            TxResult::Applied => r == Ok::<Option<String>, Error>(tip),
            TxResult::Refused => r matches Err(Error::Refused(text)) && text@ == reasons(
                verdicts@,
            ),
            TxResult::Rejected { name } => r == Err::<Option<String>, Error>(
                Error::Stale { name },
            ),
            TxResult::Redacted { oid } => r == Err::<Option<String>, Error>(
                Error::Redacted { oid },
            ),
        },
{
    match result {
        TxResult::Applied => Ok(tip),
        TxResult::Refused => Err(Error::Refused(join_reasons(verdicts))),
        TxResult::Rejected { name } => Err(Error::Stale { name }),
        TxResult::Redacted { oid } => Err(Error::Redacted { oid }),
    }
}

/// What stands in an entity's commit before its signature.
pub open spec fn before_signature(old: Option<Seq<char>>, tree: Seq<char>, actor: Seq<char>) -> Seq<
    char,
> {
    "tree "@ + tree + "\n"@ + parents_text(parents_of(old)) + "author "@ + actor + "\n"@
        + "committer "@ + actor + "\n"@
}

/// A signature changes nothing of a commit but the header it adds: what comes
/// before it and what comes after it is the commit that was signed.
pub proof fn law_signature_is_an_added_header(
    old: Option<Seq<char>>,
    tree: Seq<char>,
    actor: Seq<char>,
    message: Seq<char>,
    signature: Seq<char>,
)
    ensures
        unsigned(old, tree, actor, message) == before_signature(old, tree, actor) + ("\n"@
            + message),
        signed(old, tree, actor, message, signature) == before_signature(old, tree, actor)
            + header_text(("gpgsig"@, trimmed_end(signature))) + ("\n"@ + message),
{
    let front = before_signature(old, tree, actor);
    let back = "\n"@ + message;
    let header = header_text(("gpgsig"@, trimmed_end(signature)));
    let headers = seq![("gpgsig"@, trimmed_end(signature))];
    let none = headers.drop_last();
    assert(none =~= Seq::empty());
    assert(headers_text(none) =~= Seq::<char>::empty());
    assert(headers.last() == ("gpgsig"@, trimmed_end(signature)));
    assert(headers_text(headers) =~= header);
    assert(unsigned(old, tree, actor, message) =~= front + back);
    assert(signed(old, tree, actor, message, signature) =~= front + header + back);
}

/// Law: a commit says, line by line, its tree, its parent where it has one, who
/// made it, and after a blank line its message.
pub proof fn law_commit_reads_line_by_line(
    old: Option<Seq<char>>,
    tree: Seq<char>,
    actor: Seq<char>,
    message: Seq<char>,
)
    requires
        one_line(tree),
        one_line(actor),
        old matches Some(tip) ==> one_line(tip),
    ensures
        lines_of(unsigned(old, tree, actor, message)) == seq!["tree "@ + tree] + (match old {
            Some(tip) => seq!["parent "@ + tip],
            None => Seq::empty(),
        }) + seq!["author "@ + actor, "committer "@ + actor, Seq::<char>::empty()] + lines_of(
            message,
        ),
{
    reveal_strlit("tree ");
    reveal_strlit("parent ");
    reveal_strlit("author ");
    reveal_strlit("committer ");
    reveal_strlit("\n");
    let none: Seq<char> = seq![];
    let a = "author "@ + actor;
    let c = "committer "@ + actor;
    let t = "tree "@ + tree;
    lemma_labelled("tree "@, tree);
    lemma_labelled("author "@, actor);
    lemma_labelled("committer "@, actor);
    let e = none + seq!['\n'] + message;
    let d = c + seq!['\n'] + e;
    let b = a + seq!['\n'] + d;
    lemma_lines_front(none, message);
    lemma_lines_front(c, e);
    lemma_lines_front(a, d);
    assert(parents_text(Seq::empty()) =~= none);
    assert(headers_text(Seq::empty()) =~= none);
    let text = unsigned(old, tree, actor, message);
    match old {
        Some(tip) => {
            let p = "parent "@ + tip;
            lemma_labelled("parent "@, tip);
            assert(seq![tip].drop_last() =~= Seq::empty());
            assert(parents_text(seq![tip]) =~= p + "\n"@);
            lemma_lines_front(p, b);
            lemma_lines_front(t, p + seq!['\n'] + b);
            assert(text =~= t + seq!['\n'] + (p + seq!['\n'] + b));
            assert(lines_of(text) =~= seq![t] + seq![p] + seq![a, c, none] + lines_of(message));
        },
        None => {
            lemma_lines_front(t, b);
            assert(text =~= t + seq!['\n'] + b);
            assert(lines_of(text) =~= seq![t] + seq![a, c, none] + lines_of(message));
        },
    }
}

proof fn lemma_labelled(label: Seq<char>, text: Seq<char>)
    requires
        one_line(text),
        label.len() > 0,
        label.last() != '\r',
        forall|i: int| 0 <= i < label.len() ==> label[i] != '\n',
    ensures
        !(label + text).contains('\n'),
        (label + text).last() != '\r',
{
    let all = label + text;
    assert forall|i: int| 0 <= i < all.len() implies all[i] != '\n' by {
        if i >= label.len() {
            assert(all[i] == text[i - label.len()]);
        } else {
            assert(all[i] == label[i]);
        }
    }
    if text.len() > 0 {
        assert(all.last() == text[text.len() - 1]);
    } else {
        assert(all.last() == label.last());
    }
}

/// Law: a header's value that has more lines is continued, each line behind a
/// space, and loses none of them.
pub proof fn law_header_is_continued(lines: Seq<Seq<char>>)
    requires
        lines.len() > 0,
        forall|i: int|
            0 <= i < lines.len() ==> (#[trigger] lines[i]).len() > 0 && !lines[i].contains('\n'),
    ensures
        continued(joined(lines, "\n"@)) == joined(lines, "\n "@),
    decreases lines.len(),
{
    reveal_strlit("\n");
    reveal_strlit("\n ");
    let last = lines[lines.len() - 1];
    assert(lines[lines.len() - 1].len() > 0);
    if lines.len() == 1 {
        lemma_continued_line(last);
        assert(joined(lines, "\n"@) =~= last);
        assert(joined(lines, "\n "@) =~= last);
    } else {
        let less = lines.drop_last();
        assert forall|i: int| 0 <= i < less.len() implies (#[trigger] less[i]).len() > 0
            && !less[i].contains('\n') by {
            assert(less[i] == lines[i]);
        }
        law_header_is_continued(less);
        let front = joined(less, "\n"@);
        lemma_continued_more(front, last);
        assert(joined(lines, "\n"@) =~= front + seq!['\n'] + last);
        assert(joined(lines, "\n "@) =~= joined(less, "\n "@) + seq!['\n', ' '] + last);
    }
}

/// A line by itself is continued as it is.
proof fn lemma_continued_line(line: Seq<char>)
    requires
        !line.contains('\n'),
    ensures
        continued(line) == line,
    decreases line.len(),
{
    if line.len() > 0 {
        assert(line.contains(line[0]));
        let rest = line.skip(1);
        assert(!rest.contains('\n')) by {
            if rest.contains('\n') {
                let i = choose|i: int| 0 <= i < rest.len() && rest[i] == '\n';
                assert(line[i + 1] == '\n');
            }
        }
        lemma_continued_line(rest);
        assert(seq![line[0]] + rest =~= line);
    } else {
        assert(continued(line) =~= line);
    }
}

/// One more line is continued behind a space.
proof fn lemma_continued_more(front: Seq<char>, line: Seq<char>)
    requires
        line.len() > 0,
        !line.contains('\n'),
        front.len() == 0 || front.last() != '\n',
    ensures
        continued(front + seq!['\n'] + line) == continued(front) + seq!['\n', ' '] + line,
    decreases front.len(),
{
    let all = front + seq!['\n'] + line;
    if front.len() == 0 {
        assert(all[0] == '\n');
        assert(all.skip(1) =~= line);
        lemma_continued_line(line);
        assert(continued(front) =~= Seq::empty());
        assert(continued(all) =~= continued(front) + seq!['\n', ' '] + line);
    } else {
        let rest = front.skip(1);
        assert(rest.len() > 0 ==> rest.last() == front.last());
        lemma_continued_more(rest, line);
        assert(all.skip(1) =~= rest + seq!['\n'] + line);
        assert(all[0] == front[0]);
        if front[0] == '\n' {
            assert(front.len() > 1);
        }
        assert(continued(all) =~= continued(front) + seq!['\n', ' '] + line);
    }
}

/// Law: a refusal gives every reason that there is, in order.
pub proof fn law_every_reason_is_given(texts: Seq<String>)
    ensures
        reasons(texts.map_values(|text: String| Verdict::Fail(text))) == joined(
            texts.map_values(|text: String| text@),
            "; "@,
        ),
        reasons(texts.map_values(|text: String| Verdict::Pass)) == Seq::<char>::empty(),
{
    let f = |v: Verdict| reason_of(v);
    let fails = texts.map_values(|text: String| Verdict::Fail(text));
    let passes = texts.map_values(|text: String| Verdict::Pass);
    lemma_kept_all(fails, f, texts.map_values(|text: String| text@));
    lemma_kept_none(passes, f);
}

/// Law: a header of one line is its name, a space and its value; every parent has
/// a line; and a message is its subject, a blank line and its trailers.
pub proof fn law_commit_lines_are_labelled(
    name: Seq<char>,
    value: Seq<char>,
    parents: Seq<Seq<char>>,
    parent: Seq<char>,
)
    requires
        !value.contains('\n'),
        value.len() > 0,
    ensures
        header_text((name, value)) == name + " "@ + value + "\n"@,
        parents_text(parents.push(parent)) == parents_text(parents) + "parent "@ + parent + "\n"@,
        parents_text(Seq::empty()) == Seq::<char>::empty(),
        entity_message(name, value) == name + "\n\n"@ + value,
{
    assert(value.contains(value[value.len() - 1]));
    lemma_continued_line(value);
    assert(parents.push(parent).drop_last() =~= parents);
}

} // verus!
