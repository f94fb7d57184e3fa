//! The pages of a repository, each put together from what git printed and what
//! the meta refs hold. Nothing here is markup: a page says what is shown.

use vstd::prelude::*;

use crate::bytes::{decoded, from_utf8_lossy};
use crate::check_pages::{
    all_runs, head_checks, recent, recent_runs, shows_head_checks, shows_run, CommitRecord,
    HeadChecks, RunRow,
};
use crate::files::{
    blob_content, blob_path, chain_of, is_blob, latest_release, listing, listing_of, listing_views,
    listings_views, overview, padded, row_views, rows_from, select, selection_of, shows_blob,
    shows_latest, shows_overview, toggles, tree_page, tree_rows, view_toggle, Content,
    LatestRelease, ListingRow, Overview, TreeRow,
};
use crate::history::{
    commit_info, commit_name, diff_lines, diff_view, diff_views, is_commit_name, is_info,
    CommitInfo,
};
use crate::keys::opt_view;
use crate::routes::BlobView;
use crate::runner::CheckDef;
use crate::sessions::LOGIN_NAMESPACE;
use crate::settings_pages::{checks_card, is_card, shown_checks, Card};
use crate::shell::{
    clone_url, crumb_views, crumbs, printed, read_printed, trail, Crumb, RepoMeta,
};
use crate::text::{base_name, file_name, nonempty, opt_clone, opt_text, split_on, texts};
use crate::tree::{browse_path, browsed, entry_views, Entry, Language, Release};

verus! {

/// A repository's overview: its README beside an aside of clone, about,
/// releases, and language cards.
#[derive(Debug, PartialEq, Eq)]
pub struct RepoPage {
    /// The page's title.
    pub title: String,
    /// The body.
    pub main: Overview,
    /// Where the repository is cloned from.
    pub clone_url: String,
    /// The command that is copied.
    pub clone_command: String,
    /// The homepage.
    pub homepage: Option<String>,
    /// The language that most of it is written in.
    pub language: Option<Language>,
    /// When it was last changed, in git's words.
    pub updated: Option<String>,
    /// The latest release.
    pub latest: Option<LatestRelease>,
    /// The languages.
    pub languages: Vec<Language>,
}

/// A repository's overview, given what `git log -1 --format=%ar` printed, its
/// root's entries, its rendered README, its languages and its releases.
pub fn repo_page(
    meta: &RepoMeta,
    host: Option<&str>,
    updated: Option<&str>,
    tree: &[Entry],
    readme: Option<(String, String)>,
    languages: Vec<Language>,
    releases: &[Release],
    now: i64,
) -> (r: RepoPage)
    ensures
        r.title@ == base_name(meta.rel@),
        shows_overview(r.main, meta.rel@, opt_view(updated), entry_views(tree@), readme),
        r.clone_url@ == (match host {
            Some(host) => "http://"@ + host@ + "/"@ + meta.rel@,
            None => "/"@ + meta.rel@,
        }),
        r.clone_command@ == "git clone "@ + r.clone_url@,
        opt_text(r.homepage) == opt_text(meta.homepage),
        r.language == (if languages@.len() > 0 {
            Some(languages@[0])
        } else {
            None
        }),
        opt_text(r.updated) == printed(opt_view(updated)),
        shows_latest(r.latest, meta.rel@, releases@, now),
        r.languages == languages,
{
    let url = clone_url(host, meta.rel.as_str());
    let mut clone_command = "git clone ".to_owned();
    clone_command.append(url.as_str());
    let language = if languages.len() > 0 {
        Some(languages[0])
    } else {
        None
    };
    RepoPage {
        title: meta.name(),
        main: overview(meta.rel.as_str(), updated, tree, readme),
        clone_url: url,
        clone_command,
        homepage: opt_clone(&meta.homepage),
        language,
        updated: read_printed(updated),
        latest: latest_release(meta.rel.as_str(), releases, now),
        languages,
    }
}

/// The files tab: a tree pane beside a file.
#[derive(Debug, PartialEq, Eq)]
pub struct FilesPage {
    /// The page's title.
    pub title: String,
    /// What heads the tree pane.
    pub head: String,
    /// The tree pane's rows.
    pub rows: Vec<TreeRow>,
    /// The file that is shown, where one is selected.
    pub file: Option<String>,
}

/// What a path of the files tab selects, given what `git cat-file -t` printed of
/// it.
pub open spec fn files_selection(sub: Seq<Seq<char>>, kind: Option<Seq<char>>) -> Option<
    (Option<Seq<char>>, Seq<char>),
> {
    match browsed(sub) {
        None => None,
        Some(selected) => selection_of(selected, kind),
    }
}

/// The files tab: the tree is shown already expanded along the selected path.
/// There is none where the path is refused, or is neither a file nor a
/// directory. `listings` holds the entries of each directory on the way.
pub fn files_page(
    meta: &RepoMeta,
    sub: &[String],
    kind: Option<&str>,
    listings: Vec<Vec<Entry>>,
) -> (r: Option<FilesPage>)
    ensures
        match files_selection(texts(sub@), opt_view(kind)) {
            None => r is None,
            Some((file, dir)) => r matches Some(page) && page.title@ == base_name(meta.rel@)
                && page.head@ == (match meta.branch {
                Some(branch) => branch@,
                None => "HEAD"@,
            }) && opt_text(page.file) == file && row_views(page.rows@) == rows_from(
                chain_of(dir),
                padded(listings_views(listings@), chain_of(dir).len()),
                match file {
                    Some(path) => path,
                    None => Seq::empty(),
                },
                0,
                0,
                0,
            ),
        },
{
    let selected = match browse_path(sub) {
        None => {
            return None;
        },
        Some(selected) => selected,
    };
    let selection = match select(selected.as_str(), kind) {
        None => {
            return None;
        },
        Some(selection) => selection,
    };
    let shown = match &selection.file {
        Some(path) => path.clone(),
        None => String::new(),
    };
    proof {
        if selection.file is None {
            assert(shown@ =~= Seq::<char>::empty());
        }
    }
    let rows = tree_rows(selection.dir.as_str(), shown.as_str(), listings);
    let head = match &meta.branch {
        Some(branch) => branch.clone(),
        None => "HEAD".to_owned(),
    };
    Some(FilesPage { title: meta.name(), head, rows, file: selection.file })
}

/// A directory's listing.
#[derive(Debug, PartialEq, Eq)]
pub struct TreePage {
    /// The way there.
    pub crumbs: Vec<Crumb>,
    /// Its entries.
    pub rows: Vec<ListingRow>,
}

/// A directory's listing: none where the path is refused, or names no directory.
pub fn tree_view(meta: &RepoMeta, sub: &[String], entries: &[Entry]) -> (r: Option<TreePage>)
    ensures
        match browsed(texts(sub@)) {
            Some(dir) if entries@.len() > 0 || dir.len() == 0 => r matches Some(page)
                && crumb_views(page.crumbs@) == trail(
                "/"@ + meta.rel@ + "/tree/"@,
                nonempty(split_on(dir, '/')),
                false,
            ) && listing_views(page.rows@) == listing_of(meta.rel@, dir, entry_views(entries@)),
            _ => r is None,
        },
{
    match tree_page(sub, entries) {
        None => None,
        Some(dir) => Some(
            TreePage {
                crumbs: crumbs(meta.rel.as_str(), dir.as_str(), false),
                rows: listing(meta.rel.as_str(), dir.as_str(), entries),
            },
        ),
    }
}

/// A file's contents.
#[derive(Debug, PartialEq, Eq)]
pub struct BlobPage {
    /// The page's title.
    pub title: String,
    /// The file.
    pub path: String,
    /// The way there.
    pub crumbs: Vec<Crumb>,
    /// The link to its other view.
    pub toggle: Option<(&'static str, String)>,
    /// What is shown of it.
    pub content: Content,
}

/// A file's contents, given what `git cat-file -t` printed of it and what was
/// read, and whether that was cut short. There is none where the path names no
/// file, or it cannot be read.
pub fn blob_page(
    meta: &RepoMeta,
    sub: &[String],
    kind: Option<&str>,
    read: Option<(Vec<u8>, bool)>,
    view: BlobView,
    asciidoc: Option<String>,
) -> (r: Option<BlobPage>)
    ensures
        match (browsed(texts(sub@)), read) {
            (Some(path), Some((bytes, truncated))) if path.len() > 0 && opt_view(kind) == Some(
                "blob\n"@,
            ) => r matches Some(page) && page.title@ == base_name(path) && page.path@ == path
                && crumb_views(page.crumbs@) == trail(
                "/"@ + meta.rel@ + "/tree/"@,
                nonempty(split_on(path, '/')),
                true,
            ) && toggles(page.toggle, meta.rel@, path, bytes@, truncated, view) && shows_blob(
                page.content,
                base_name(path),
                bytes@,
                truncated,
                view,
                opt_text(asciidoc),
            ),
            _ => r is None,
        },
{
    let path = match blob_path(sub) {
        None => {
            return None;
        },
        Some(path) => path,
    };
    if !is_blob(kind) {
        return None;
    }
    let (bytes, truncated) = match read {
        None => {
            return None;
        },
        Some(read) => read,
    };
    let title = file_name(path.as_str());
    let rel = meta.rel.as_str();
    Some(
        BlobPage {
            crumbs: crumbs(rel, path.as_str(), true),
            toggle: view_toggle(rel, path.as_str(), bytes.as_slice(), truncated, view),
            content: blob_content(title.as_str(), bytes.as_slice(), truncated, view, asciidoc),
            title,
            path,
        },
    )
}

/// A single commit: its metadata and a colorized unified diff.
#[derive(Debug, PartialEq, Eq)]
pub struct CommitPage {
    /// The metadata.
    pub info: CommitInfo,
    /// The diff's lines, each with its class.
    pub diff: Vec<(&'static str, String)>,
    /// Whether the diff was cut short.
    pub truncated: bool,
}

/// A commit's page, given what `git show` printed of it and of its patch. There
/// is none where the name is no commit's, or git knows none of it.
pub fn commit_page(
    sha: &str,
    info: Option<&str>,
    patch: Option<(Vec<u8>, bool)>,
    now: i64,
) -> (r: Option<CommitPage>)
    ensures
        match info {
            Some(text) if commit_name(sha@) => {
                let shown = match r {
                    Some(page) => Some(page.info),
                    None => None,
                };
                is_info(shown, text@, now) && (r matches Some(page) ==> match patch {
                    Some((bytes, truncated)) => diff_views(page.diff@) == diff_lines(
                        decoded(bytes@),
                    ) && page.truncated == truncated,
                    None => page.diff@.len() == 0 && !page.truncated,
                })
            },
            _ => r is None,
        },
{
    if !is_commit_name(sha) {
        return None;
    }
    let text = match info {
        None => {
            return None;
        },
        Some(text) => text,
    };
    let info = match commit_info(text, now) {
        None => {
            return None;
        },
        Some(info) => info,
    };
    match patch {
        None => Some(CommitPage { info, diff: Vec::new(), truncated: false }),
        Some((bytes, truncated)) => {
            let text = from_utf8_lossy(bytes.as_slice());
            Some(CommitPage { info, diff: diff_view(text.as_str()), truncated })
        },
    }
}

/// The "Recent runs" card.
#[derive(Debug, PartialEq, Eq)]
pub enum RecentRuns {
    /// The runs could not be read.
    Unreadable(String),
    /// There are none.
    NoRuns,
    /// One row per run.
    Rows(Vec<RunRow>),
}

/// Whether the "Recent runs" card shows the runs.
pub open spec fn shows_recent(
    card: RecentRuns,
    rel: Seq<char>,
    runs: Result<Vec<CommitRecord>, String>,
) -> bool {
    match runs {
        Err(error) => card matches RecentRuns::Unreadable(message) && message@ == error@,
        Ok(commits) => if commits@.len() == 0 {
            card is NoRuns
        } else {
            let all = all_runs(recent(commits@));
            card matches RecentRuns::Rows(rows) && rows@.len() == all.len() && forall|i: int|
                0 <= i < rows@.len() ==> shows_run(#[trigger] rows@[i], rel, all[i].0, all[i].1)
        },
    }
}

/// The checks tab.
#[derive(Debug, PartialEq, Eq)]
pub struct ChecksPage {
    /// The checks on `HEAD`.
    pub head: HeadChecks,
    /// The recent runs.
    pub recent: RecentRuns,
    /// The configured checks.
    pub configured: Card,
}

/// The checks tab: one row per configured check with its latest status against
/// `HEAD`, then the recent runs, then the configured set itself.
pub fn checks_page(
    rel: &str,
    head: Option<&str>,
    checks: Result<&[CheckDef], String>,
    runs: &Result<Vec<CommitRecord>, String>,
) -> (r: ChecksPage)
    ensures
        shows_head_checks(r.head, rel@, opt_view(head), checks, *runs),
        shows_recent(r.recent, rel@, *runs),
        is_card(r.configured, "checks"@, shown_checks(checks)),
{
    let set: Result<&[CheckDef], String> = match &checks {
        Ok(all) => Ok(*all),
        Err(error) => Err(error.clone()),
    };
    let configured = checks_card(set);
    let shown = head_checks(rel, head, checks, runs);
    let recent = match runs {
        Err(error) => RecentRuns::Unreadable(error.clone()),
        Ok(commits) => if commits.len() == 0 {
            RecentRuns::NoRuns
        } else {
            RecentRuns::Rows(recent_runs(rel, commits.as_slice()))
        },
    };
    ChecksPage { head: shown, recent, configured }
}

/// The sign-in page.
#[derive(Debug, PartialEq, Eq)]
pub enum LoginPage {
    /// Somebody is signed in, by the label of their key.
    SignedIn(String),
    /// A challenge to be signed: the nonce, and the command that signs it.
    Challenge(String, String),
    /// No challenge could be issued.
    NoChallenge,
}

/// The sign-in page: prove control of a member key by signing a one-time
/// challenge locally, without ever surrendering the key.
pub fn login_page(label: Option<String>, challenge: Option<String>) -> (r: LoginPage)
    ensures
        match (label, challenge) {
            (Some(label), _) => r == LoginPage::SignedIn(label),
            (None, Some(nonce)) => r matches LoginPage::Challenge(shown, command) && shown == nonce
                && command@ == "printf %s '"@ + nonce@ + "' | ssh-keygen -Y sign -n "@
                + LOGIN_NAMESPACE@ + " -f ~/.ssh/your_web_key"@,
            (None, None) => r is NoChallenge,
        },
{
    match label {
        Some(label) => LoginPage::SignedIn(label),
        None => match challenge {
            Some(nonce) => {
                let mut command = "printf %s '".to_owned();
                command.append(nonce.as_str());
                command.append("' | ssh-keygen -Y sign -n ");
                command.append(LOGIN_NAMESPACE);
                command.append(" -f ~/.ssh/your_web_key");
                LoginPage::Challenge(nonce, command)
            },
            None => LoginPage::NoChallenge,
        },
    }
}

} // verus!
