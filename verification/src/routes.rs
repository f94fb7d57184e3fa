//! Which page a browser's request is for: the repository a path names, the view
//! of it, and the forms that are posted back.

use vstd::prelude::*;

use crate::http::{safe_segment, valid_segment, MAX_REPO_DEPTH};
use crate::seqs::{first_where, lemma_first_where, lemma_first_where_is};
use crate::sessions::{header_token, logout, opt_str, Sessions};
use crate::text::{join, join_path, joined, same, texts, under};
use crate::web_edit::{is_own_post, own_post};

verus! {

/// Which form of a blob the blob route shows: prose formats rendered as a
/// document, or the underlying source.
#[derive(Debug, Clone, Copy, PartialEq, Eq, Structural)]
pub enum BlobView {
    /// A document.
    Rendered,
    /// The source.
    Source,
}

/// A view of a repository.
#[derive(Debug, PartialEq, Eq)]
pub enum Page {
    /// The overview.
    Overview,
    /// The files tab at a path.
    Files(Vec<String>),
    /// A directory's listing.
    Tree(Vec<String>),
    /// A file.
    Blob(Vec<String>, BlobView),
    /// A commit.
    Commit(String),
    /// The releases tab.
    Releases,
    /// The checks tab.
    Checks,
    /// A check's terminal session on a commit.
    Recording(String, String),
    /// One poll of a running check's output.
    Live(String, String),
    /// A check's raw recording.
    Download(String, String),
    /// The issues tab.
    Issues,
    /// The settings tab.
    Settings,
    /// There is no such page.
    Missing,
}

/// A view as plain values.
pub ghost enum PageView {
    /// The overview.
    Overview,
    /// The files tab at a path.
    Files(Seq<Seq<char>>),
    /// A directory's listing.
    Tree(Seq<Seq<char>>),
    /// A file.
    Blob(Seq<Seq<char>>, BlobView),
    /// A commit.
    Commit(Seq<char>),
    /// The releases tab.
    Releases,
    /// The checks tab.
    Checks,
    /// A check's terminal session on a commit.
    Recording(Seq<char>, Seq<char>),
    /// One poll of a running check's output.
    Live(Seq<char>, Seq<char>),
    /// A check's raw recording.
    Download(Seq<char>, Seq<char>),
    /// The issues tab.
    Issues,
    /// The settings tab.
    Settings,
    /// There is no such page.
    Missing,
}

impl View for Page {
    type V = PageView;

    open spec fn view(&self) -> PageView {
        match self {
            Page::Overview => PageView::Overview,
            Page::Files(sub) => PageView::Files(texts(sub@)),
            Page::Tree(sub) => PageView::Tree(texts(sub@)),
            Page::Blob(sub, view) => PageView::Blob(texts(sub@), *view),
            Page::Commit(sha) => PageView::Commit(sha@),
            Page::Releases => PageView::Releases,
            Page::Checks => PageView::Checks,
            Page::Recording(commit, name) => PageView::Recording(commit@, name@),
            Page::Live(commit, name) => PageView::Live(commit@, name@),
            Page::Download(commit, name) => PageView::Download(commit@, name@),
            Page::Issues => PageView::Issues,
            Page::Settings => PageView::Settings,
            Page::Missing => PageView::Missing,
        }
    }
}

/// The view that the path after a repository names.
pub open spec fn routed(rest: Seq<Seq<char>>) -> PageView {
    if rest.len() == 0 {
        PageView::Overview
    } else if rest[0] == "files"@ {
        PageView::Files(rest.skip(1))
    } else if rest[0] == "tree"@ {
        PageView::Tree(rest.skip(1))
    } else if rest[0] == "blob"@ {
        PageView::Blob(rest.skip(1), BlobView::Rendered)
    } else if rest[0] == "source"@ {
        PageView::Blob(rest.skip(1), BlobView::Source)
    } else if rest[0] == "commit"@ && rest.len() == 2 {
        PageView::Commit(rest[1])
    } else if rest[0] == "releases"@ && rest.len() == 1 {
        PageView::Releases
    } else if rest[0] == "checks"@ && rest.len() == 1 {
        PageView::Checks
    } else if rest[0] == "checks"@ && rest.len() == 3 {
        PageView::Recording(rest[1], rest[2])
    } else if rest[0] == "checks"@ && rest.len() == 4 && rest[3] == "live"@ {
        PageView::Live(rest[1], rest[2])
    } else if rest[0] == "checks"@ && rest.len() == 4 && rest[3] == "download"@ {
        PageView::Download(rest[1], rest[2])
    } else if rest[0] == "issues"@ && rest.len() == 1 {
        PageView::Issues
    } else if rest[0] == "settings"@ && rest.len() == 1 {
        PageView::Settings
    } else {
        PageView::Missing
    }
}

/// The texts from `from` on.
pub fn tail_of(v: &[String], from: usize) -> (r: Vec<String>)
    requires
        from <= v@.len(),
    ensures
        texts(r@) == texts(v@).skip(from as int),
{
    let mut r: Vec<String> = Vec::new();
    let mut i: usize = from;
    while i < v.len()
        invariant
            from <= i <= v@.len(),
            r@.len() == i - from,
            forall|j: int| 0 <= j < r@.len() ==> (#[trigger] r@[j])@ == v@[from + j]@,
        decreases v@.len() - i,
    {
        r.push(v[i].clone());
        i += 1;
    }
    proof {
        assert(texts(r@) =~= texts(v@).skip(from as int));
    }
    r
}

/// Dispatches the part of the path that follows the repository to a view. Each
/// top-level tab is its own route.
pub fn route(rest: &[String]) -> (r: Page)
    ensures
        r@ == routed(texts(rest@)),
{
    let n: usize = rest.len();
    let ghost all = texts(rest@);
    proof {
        assert(all.len() == rest@.len());
        assert(forall|i: int| 0 <= i < all.len() ==> #[trigger] all[i] == rest@[i]@);
    }
    if n == 0 {
        return Page::Overview;
    }
    let head = rest[0].as_str();
    if same(head, "files") {
        Page::Files(tail_of(rest, 1))
    } else if same(head, "tree") {
        Page::Tree(tail_of(rest, 1))
    } else if same(head, "blob") {
        Page::Blob(tail_of(rest, 1), BlobView::Rendered)
    } else if same(head, "source") {
        Page::Blob(tail_of(rest, 1), BlobView::Source)
    } else if same(head, "commit") && n == 2 {
        Page::Commit(rest[1].clone())
    } else if same(head, "releases") && n == 1 {
        Page::Releases
    } else if same(head, "checks") && n == 1 {
        Page::Checks
    } else if same(head, "checks") && n == 3 {
        Page::Recording(rest[1].clone(), rest[2].clone())
    } else if same(head, "checks") && n == 4 && same(rest[3].as_str(), "live") {
        Page::Live(rest[1].clone(), rest[2].clone())
    } else if same(head, "checks") && n == 4 && same(rest[3].as_str(), "download") {
        Page::Download(rest[1].clone(), rest[2].clone())
    } else if same(head, "issues") && n == 1 {
        Page::Issues
    } else if same(head, "settings") && n == 1 {
        Page::Settings
    } else {
        Page::Missing
    }
}

/// What the whole path of a request is for.
#[derive(Debug, Clone, Copy, PartialEq, Eq, Structural)]
pub enum Destination {
    /// The list of repositories.
    Index,
    /// The sign-in page.
    Login,
    /// The sign-in of the command line.
    LoginCli,
    /// The sign-out form.
    Logout,
    /// A repository, perhaps.
    Repo,
}

/// What a GET is for.
pub open spec fn get_target(segments: Seq<Seq<char>>) -> Destination {
    if segments.len() == 0 {
        Destination::Index
    } else if segments == seq!["login"@] {
        Destination::Login
    } else if segments == seq!["login"@, "cli"@] {
        Destination::LoginCli
    } else {
        Destination::Repo
    }
}

/// What a POST is for.
pub open spec fn post_target(segments: Seq<Seq<char>>) -> Destination {
    if segments == seq!["login"@] {
        Destination::Login
    } else if segments == seq!["login"@, "cli"@] {
        Destination::LoginCli
    } else if segments == seq!["logout"@] {
        Destination::Logout
    } else {
        Destination::Repo
    }
}

fn is_one(segments: &[String], name: &str) -> (r: bool)
    ensures
        r == (texts(segments@) == seq![name@]),
{
    let ghost all = texts(segments@);
    proof {
        assert(all.len() == segments@.len());
    }
    if segments.len() == 1 {
        proof {
            assert(all[0] == segments@[0]@);
            assert(all =~= seq![all[0]]);
            assert(seq![name@][0] == name@);
        }
        same(segments[0].as_str(), name)
    } else {
        proof {
            assert(seq![name@].len() == 1);
        }
        false
    }
}

fn is_two(segments: &[String], first: &str, second: &str) -> (r: bool)
    ensures
        r == (texts(segments@) == seq![first@, second@]),
{
    let ghost all = texts(segments@);
    proof {
        assert(all.len() == segments@.len());
    }
    if segments.len() == 2 {
        proof {
            assert(all[0] == segments@[0]@);
            assert(all[1] == segments@[1]@);
            assert(all =~= seq![all[0], all[1]]);
            assert(seq![first@, second@][0] == first@);
            assert(seq![first@, second@][1] == second@);
        }
        same(segments[0].as_str(), first) && same(segments[1].as_str(), second)
    } else {
        proof {
            assert(seq![first@, second@].len() == 2);
        }
        false
    }
}

/// What a GET is for: the index at the root, signing in, or a repository.
pub fn get_destination(segments: &[String]) -> (r: Destination)
    ensures
        r == get_target(texts(segments@)),
{
    proof {
        assert(texts(segments@).len() == segments@.len());
    }
    if segments.len() == 0 {
        Destination::Index
    } else if is_one(segments, "login") {
        Destination::Login
    } else if is_two(segments, "login", "cli") {
        Destination::LoginCli
    } else {
        Destination::Repo
    }
}

/// What a POST is for: signing in, signing out, or a repository's form. Git
/// wire POSTs never come here.
pub fn post_destination(segments: &[String]) -> (r: Destination)
    ensures
        r == post_target(texts(segments@)),
{
    if is_one(segments, "login") {
        Destination::Login
    } else if is_two(segments, "login", "cli") {
        Destination::LoginCli
    } else if is_one(segments, "logout") {
        Destination::Logout
    } else {
        Destination::Repo
    }
}

/// A repository's form.
#[derive(Debug, Clone, Copy, PartialEq, Eq, Structural)]
pub enum Form {
    /// The settings.
    Settings,
    /// A comment.
    Comment,
}

/// The form that a POST to a repository is for.
pub fn post_form(rest: &[String]) -> (r: Option<Form>)
    ensures
        r == (if texts(rest@) == seq!["settings"@] {
            Some(Form::Settings)
        } else if texts(rest@) == seq!["comment"@] {
            Some(Form::Comment)
        } else {
            None
        }),
{
    if is_one(rest, "settings") {
        Some(Form::Settings)
    } else if is_one(rest, "comment") {
        Some(Form::Comment)
    } else {
        None
    }
}

/// Where a repository may be on disk: the path, and how many segments of the
/// request name it.
#[derive(Debug, PartialEq, Eq)]
pub struct Candidate {
    /// The path.
    pub path: String,
    /// How many segments name it.
    pub depth: usize,
}

/// The candidates as plain values.
pub open spec fn candidate_views(v: Seq<Candidate>) -> Seq<(Seq<char>, nat)> {
    v.map_values(|c: Candidate| (c.path@, c.depth as nat))
}

/// How many leading segments may name a repository: up to three, as long as
/// they are safe.
pub open spec fn repo_depth(segments: Seq<Seq<char>>) -> int {
    let safe = first_where(segments, |s: Seq<char>| !safe_segment(s));
    if safe > MAX_REPO_DEPTH {
        MAX_REPO_DEPTH as int
    } else {
        safe
    }
}

/// Where a repository named by the first `depth` segments may be, the shortest
/// names first: as it is named, then with the `.git` that bare repositories are
/// stored with.
pub open spec fn places(data_dir: Seq<char>, segments: Seq<Seq<char>>, depth: nat) -> Seq<
    (Seq<char>, nat),
>
    decreases depth,
{
    if depth == 0 {
        Seq::empty()
    } else {
        let path = under(data_dir, joined(segments.take(depth as int), "/"@));
        places(data_dir, segments, (depth - 1) as nat) + seq![
            (path, depth),
            (path + ".git"@, depth),
        ]
    }
}

/// Where the repository that a path names may be, in the order in which it is
/// looked for. Resolving the boundary this way keeps a repository named like a
/// route distinct from the route.
pub fn repo_candidates(data_dir: &str, segments: &[String]) -> (r: Vec<Candidate>)
    ensures
        candidate_views(r@) == places(
            data_dir@,
            texts(segments@),
            repo_depth(texts(segments@)) as nat,
        ),
{
    let ghost all = texts(segments@);
    let ghost p = |s: Seq<char>| !safe_segment(s);
    let mut r: Vec<Candidate> = Vec::new();
    let mut prefix: Vec<String> = Vec::new();
    let mut depth: usize = 0;
    proof {
        assert(candidate_views(r@) =~= places(data_dir@, all, 0));
    }
    while depth < segments.len() && depth < MAX_REPO_DEPTH
        invariant
            depth <= segments@.len(),
            depth <= MAX_REPO_DEPTH,
            all == texts(segments@),
            p == (|s: Seq<char>| !safe_segment(s)),
            forall|j: int| 0 <= j < depth ==> !p(#[trigger] all[j]),
            texts(prefix@) == all.take(depth as int),
            candidate_views(r@) == places(data_dir@, all, depth as nat),
        decreases segments@.len() - depth,
    {
        proof {
            assert(all[depth as int] == segments@[depth as int]@);
        }
        if !valid_segment(segments[depth].as_str()) {
            proof {
                lemma_first_where_is(all, p, depth as int);
            }
            return r;
        }
        let ghost before = texts(prefix@);
        prefix.push(segments[depth].clone());
        proof {
            assert(texts(prefix@) =~= before.push(all[depth as int]));
            assert(texts(prefix@) =~= all.take(depth + 1));
        }
        depth += 1;
        let relative = join(prefix.as_slice(), "/");
        let path = join_path(data_dir, relative.as_str());
        let mut stored = path.clone();
        stored.append(".git");
        let ghost prior = candidate_views(r@);
        r.push(Candidate { path, depth });
        r.push(Candidate { path: stored, depth });
        proof {
            assert(candidate_views(r@) =~= prior + seq![
                (path@, depth as nat),
                (path@ + ".git"@, depth as nat),
            ]);
        }
    }
    proof {
        if depth == segments@.len() {
            lemma_first_where_is(all, p, depth as int);
        } else {
            lemma_first_where(all, p);
        }
    }
    r
}

/// A repository and what is asked of it.
#[derive(Debug, PartialEq, Eq)]
pub struct Resolved {
    /// Where it is.
    pub repo: String,
    /// How it is named.
    pub rel: String,
    /// The path that selects a view of it.
    pub rest: Vec<String>,
}

/// The repository that a path names: the first candidate that is a bare
/// repository on disk, as `bare` says of each in turn, with the rest of the
/// path selecting a view.
pub fn resolve_repo(data_dir: &str, segments: &[String], bare: &[bool]) -> (r: Option<Resolved>)
    ensures
        ({
            let all = texts(segments@);
            let candidates = places(data_dir@, all, repo_depth(all) as nat);
            let i = first_where(bare@, |b: bool| b);
            if i < bare@.len() && i < candidates.len() {
                let (path, depth) = candidates[i];
                r matches Some(found) && found.repo@ == path && found.rel@ == joined(
                    all.take(depth as int),
                    "/"@,
                ) && texts(found.rest@) == all.skip(depth as int)
            } else {
                r is None
            }
        }),
{
    let candidates = repo_candidates(data_dir, segments);
    let ghost all = texts(segments@);
    let ghost seen = places(data_dir@, all, repo_depth(all) as nat);
    let ghost p = |b: bool| b;
    proof {
        assert(seen.len() == candidates@.len());
    }
    let mut i: usize = 0;
    while i < bare.len()
        invariant
            i <= bare@.len(),
            p == (|b: bool| b),
            forall|j: int| 0 <= j < i ==> !p(#[trigger] bare@[j]),
            all == texts(segments@),
            seen == places(data_dir@, all, repo_depth(all) as nat),
            seen == candidate_views(candidates@),
        decreases bare@.len() - i,
    {
        if bare[i] {
            proof {
                lemma_first_where_is(bare@, p, i as int);
            }
            if i >= candidates.len() {
                return None;
            }
            proof {
                law_candidates_are_named_by_the_request(data_dir@, all, i as int);
                assert(seen[i as int] == (
                    candidates@[i as int].path@,
                    candidates@[i as int].depth as nat,
                ));
            }
            let depth: usize = candidates[i].depth;
            let head = head_of(segments, depth);
            return Some(
                Resolved {
                    repo: candidates[i].path.clone(),
                    rel: join(head.as_slice(), "/"),
                    rest: tail_of(segments, depth),
                },
            );
        }
        i += 1;
    }
    proof {
        lemma_first_where_is(bare@, p, i as int);
    }
    None
}

/// The first `to` texts.
pub fn head_of(v: &[String], to: usize) -> (r: Vec<String>)
    requires
        to <= v@.len(),
    ensures
        texts(r@) == texts(v@).take(to as int),
{
    let mut r: Vec<String> = Vec::new();
    let mut i: usize = 0;
    while i < to
        invariant
            i <= to <= v@.len(),
            r@.len() == i,
            forall|j: int| 0 <= j < i ==> (#[trigger] r@[j])@ == v@[j]@,
        decreases to - i,
    {
        r.push(v[i].clone());
        i += 1;
    }
    proof {
        assert(texts(r@) =~= texts(v@).take(to as int));
    }
    r
}

/// Every candidate is named by safe segments of the request, at least one of
/// them and never more than there are.
pub proof fn law_candidates_are_named_by_the_request(
    data_dir: Seq<char>,
    segments: Seq<Seq<char>>,
    i: int,
)
    requires
        0 <= i < places(data_dir, segments, repo_depth(segments) as nat).len(),
    ensures
        ({
            let (path, depth) = places(data_dir, segments, repo_depth(segments) as nat)[i];
            let plain = under(data_dir, joined(segments.take(depth as int), "/"@));
            &&& 0 < depth <= segments.len()
            &&& depth <= MAX_REPO_DEPTH
            &&& forall|j: int| 0 <= j < depth ==> safe_segment(#[trigger] segments[j])
            &&& path == plain || path == plain + ".git"@
        }),
{
    let p = |s: Seq<char>| !safe_segment(s);
    lemma_first_where(segments, p);
    assert forall|j: int| 0 <= j < repo_depth(segments) implies safe_segment(
        #[trigger] segments[j],
    ) by {
        assert(!p(segments[j]));
    }
    lemma_place(data_dir, segments, repo_depth(segments) as nat, i);
}

proof fn lemma_place(data_dir: Seq<char>, segments: Seq<Seq<char>>, depth: nat, i: int)
    requires
        0 <= i < places(data_dir, segments, depth).len(),
    ensures
        ({
            let (path, at) = places(data_dir, segments, depth)[i];
            let plain = under(data_dir, joined(segments.take(at as int), "/"@));
            0 < at <= depth && (path == plain || path == plain + ".git"@)
        }),
    decreases depth,
{
    if depth > 0 && i < places(data_dir, segments, (depth - 1) as nat).len() {
        lemma_place(data_dir, segments, (depth - 1) as nat, i);
    }
}

/// What is done with a sign-out.
#[derive(Debug, Clone, Copy, PartialEq, Eq, Structural)]
pub enum SignOut {
    /// Nothing: it did not come from the session's own page.
    Refused,
    /// The session is gone, and so its cookie is cleared.
    Done,
}

/// Ends a session on its own page's request. A cross-site form cannot read the
/// session's CSRF token, so an absent or wrong one ends nothing.
pub fn sign_out(sessions: &mut Sessions, cookie: Option<&str>, body: &[u8]) -> (r: SignOut)
    ensures
        ({
            let own = own_post(old(sessions)@, opt_str(cookie), body@);
            &&& r == (if own {
                SignOut::Done
            } else {
                SignOut::Refused
            })
            &&& final(sessions)@ == if own {
                old(sessions)@.remove(header_token(opt_str(cookie))->0)
            } else {
                old(sessions)@
            }
        }),
{
    if !is_own_post(sessions, cookie, body) {
        return SignOut::Refused;
    }
    logout(sessions, cookie);
    SignOut::Done
}

/// Law: every page of a repository has its address, and no other address has a
/// page.
pub proof fn law_pages_have_their_addresses(
    sub: Seq<Seq<char>>,
    commit: Seq<char>,
    name: Seq<char>,
    other: Seq<char>,
)
    ensures
        routed(Seq::empty()) == PageView::Overview,
        routed(seq!["files"@] + sub) == PageView::Files(sub),
        routed(seq!["tree"@] + sub) == PageView::Tree(sub),
        routed(seq!["blob"@] + sub) == PageView::Blob(sub, BlobView::Rendered),
        routed(seq!["source"@] + sub) == PageView::Blob(sub, BlobView::Source),
        routed(seq!["commit"@, commit]) == PageView::Commit(commit),
        routed(seq!["releases"@]) == PageView::Releases,
        routed(seq!["checks"@]) == PageView::Checks,
        routed(seq!["checks"@, commit, name]) == PageView::Recording(commit, name),
        routed(seq!["checks"@, commit, name, "live"@]) == PageView::Live(commit, name),
        routed(seq!["checks"@, commit, name, "download"@]) == PageView::Download(commit, name),
        routed(seq!["issues"@]) == PageView::Issues,
        routed(seq!["settings"@]) == PageView::Settings,
{
    lemma_page_words_differ();
    assert((seq!["files"@] + sub).skip(1) =~= sub);
    assert((seq!["tree"@] + sub).skip(1) =~= sub);
    assert((seq!["blob"@] + sub).skip(1) =~= sub);
    assert((seq!["source"@] + sub).skip(1) =~= sub);
}

/// Law: an address that begins with no known word is nowhere.
pub proof fn law_unknown_addresses_are_nowhere(rest: Seq<Seq<char>>)
    requires
        rest.len() > 0,
        rest[0] != "files"@,
        rest[0] != "tree"@,
        rest[0] != "blob"@,
        rest[0] != "source"@,
        rest[0] != "commit"@,
        rest[0] != "releases"@,
        rest[0] != "checks"@,
        rest[0] != "issues"@,
        rest[0] != "settings"@,
    ensures
        routed(rest) == PageView::Missing,
{
}

proof fn lemma_page_words_differ()
    ensures
        "files"@ != "tree"@,
        "files"@ != "blob"@,
        "files"@ != "source"@,
        "files"@ != "commit"@,
        "files"@ != "releases"@,
        "files"@ != "checks"@,
        "files"@ != "issues"@,
        "files"@ != "settings"@,
        "tree"@ != "blob"@,
        "tree"@ != "source"@,
        "tree"@ != "commit"@,
        "tree"@ != "releases"@,
        "tree"@ != "checks"@,
        "tree"@ != "issues"@,
        "tree"@ != "settings"@,
        "blob"@ != "source"@,
        "blob"@ != "commit"@,
        "blob"@ != "releases"@,
        "blob"@ != "checks"@,
        "blob"@ != "issues"@,
        "blob"@ != "settings"@,
        "source"@ != "commit"@,
        "source"@ != "releases"@,
        "source"@ != "checks"@,
        "source"@ != "issues"@,
        "source"@ != "settings"@,
        "commit"@ != "releases"@,
        "commit"@ != "checks"@,
        "commit"@ != "issues"@,
        "commit"@ != "settings"@,
        "releases"@ != "checks"@,
        "releases"@ != "issues"@,
        "releases"@ != "settings"@,
        "checks"@ != "issues"@,
        "checks"@ != "settings"@,
        "issues"@ != "settings"@,
        "live"@ != "download"@,
{
    reveal_strlit("files");
    reveal_strlit("tree");
    reveal_strlit("blob");
    reveal_strlit("source");
    reveal_strlit("commit");
    reveal_strlit("releases");
    reveal_strlit("checks");
    reveal_strlit("issues");
    reveal_strlit("settings");
    reveal_strlit("live");
    reveal_strlit("download");
    assert("files"@.len() == 5 && "tree"@.len() == 4 && "blob"@.len() == 4);
    assert("source"@.len() == 6 && "commit"@.len() == 6 && "checks"@.len() == 6);
    assert("issues"@.len() == 6 && "releases"@.len() == 8 && "settings"@.len() == 8);
    assert("live"@.len() == 4 && "download"@.len() == 8);
    assert("tree"@[0] == 't' && "blob"@[0] == 'b');
    assert("source"@[0] == 's' && "commit"@[0] == 'c' && "checks"@[0] == 'c');
    assert("commit"@[1] == 'o' && "checks"@[1] == 'h' && "issues"@[0] == 'i');
    assert("releases"@[0] == 'r' && "settings"@[0] == 's');
}

/// Law: a repository is looked for under as many names of a request as are safe,
/// at most three.
pub proof fn law_repository_is_at_most_three_deep(segments: Seq<Seq<char>>)
    ensures
        0 <= repo_depth(segments) <= 3,
        repo_depth(segments) <= segments.len(),
        forall|i: int| 0 <= i < repo_depth(segments) ==> safe_segment(#[trigger] segments[i]),
        repo_depth(segments) < 3 && repo_depth(segments) < segments.len() ==> !safe_segment(
            segments[repo_depth(segments)],
        ),
{
    let p = |s: Seq<char>| !safe_segment(s);
    crate::seqs::lemma_first_where(segments, p);
    assert forall|i: int| 0 <= i < repo_depth(segments) implies safe_segment(
        #[trigger] segments[i],
    ) by {
        assert(!p(segments[i]));
    }
}

/// Law: at each depth a repository is looked for under its name and under its
/// name with `.git`, shallow before deep.
pub proof fn law_both_names_are_tried(
    data_dir: Seq<char>,
    segments: Seq<Seq<char>>,
    depth: nat,
    d: int,
)
    requires
        0 <= d < depth,
    ensures
        places(data_dir, segments, depth).len() == 2 * depth,
        places(data_dir, segments, depth)[2 * d] == (
            under(data_dir, joined(segments.take(d + 1), "/"@)),
            (d + 1) as nat,
        ),
        places(data_dir, segments, depth)[2 * d + 1] == (
            under(data_dir, joined(segments.take(d + 1), "/"@)) + ".git"@,
            (d + 1) as nat,
        ),
    decreases depth,
{
    if depth > 1 {
        if d < depth - 1 {
            law_both_names_are_tried(data_dir, segments, (depth - 1) as nat, d);
        } else {
            law_both_names_are_tried(data_dir, segments, (depth - 1) as nat, 0);
        }
    } else {
        assert(places(data_dir, segments, 0).len() == 0);
    }
}

/// Law: the few addresses that are no repository's.
pub proof fn law_sign_in_has_its_addresses(segments: Seq<Seq<char>>)
    ensures
        get_target(Seq::empty()) == Destination::Index,
        get_target(seq!["login"@]) == Destination::Login,
        get_target(seq!["login"@, "cli"@]) == Destination::LoginCli,
        post_target(seq!["login"@]) == Destination::Login,
        post_target(seq!["login"@, "cli"@]) == Destination::LoginCli,
        post_target(seq!["logout"@]) == Destination::Logout,
        segments.len() > 0 && segments[0] != "login"@ ==> get_target(segments)
            == Destination::Repo,
        segments.len() > 0 && segments[0] != "login"@ && segments[0] != "logout"@ ==> post_target(
            segments,
        ) == Destination::Repo,
{
    reveal_strlit("login");
    reveal_strlit("logout");
    assert("login"@.len() == 5 && "logout"@.len() == 6);
    assert(seq!["login"@][0] == "login"@);
    assert(seq!["logout"@][0] == "logout"@);
    assert(seq!["login"@, "cli"@].len() == 2);
    assert(seq!["login"@].len() == 1 && seq!["logout"@].len() == 1);
    assert(seq!["login"@, "cli"@][0] == "login"@);
}

} // verus!
