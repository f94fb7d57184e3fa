//! What every page of a repository shows around its body: the header band, the
//! tab bar, breadcrumbs, and how long ago something was.

use vstd::prelude::*;

use crate::config::Config;
use crate::members::Member;
use crate::sessions::Session;
use crate::text::{
    base_name, decimal, file_name, join, joined, lines, lines_of, nonempty, opt_text, push_decimal,
    split, split_nonempty, split_on, texts, trim, trim_nonempty, trimmed, trimmed_nonempty,
};
use crate::web_edit::{key_owner, member_for_public_key};

verus! {

/// The top-level tabs of a repository page.
#[derive(Debug, Clone, Copy, PartialEq, Eq, Structural)]
pub enum Tab {
    /// The overview.
    Overview,
    /// The files.
    Files,
    /// The releases.
    Releases,
    /// The checks.
    Checks,
    /// The issues.
    Issues,
    /// The settings.
    Settings,
}

/// What is shown in the repository header band and tab bar, gathered once per
/// request and shared by every view.
#[derive(Debug, PartialEq, Eq)]
pub struct RepoMeta {
    /// The repository's path.
    pub rel: String,
    /// The branch that `HEAD` names.
    pub branch: Option<String>,
    /// The repository's description.
    pub description: Option<String>,
    /// The repository's homepage.
    pub homepage: Option<String>,
    /// The repository's topics.
    pub topics: Vec<String>,
    /// How many releases there are.
    pub releases: usize,
    /// How many open issues there are.
    pub issues: usize,
}

impl RepoMeta {
    /// The repository's short name: the final segment of its path.
    pub fn name(&self) -> (r: String)
        ensures
            r@ == base_name(self.rel@),
    {
        file_name(self.rel.as_str())
    }
}

/// A text trimmed, none where it is blank.
pub open spec fn unless_blank(s: Seq<char>) -> Option<Seq<char>> {
    if trimmed(s).len() > 0 {
        Some(trimmed(s))
    } else {
        None
    }
}

/// A text trimmed, none where it is blank.
pub fn trim_unless_blank(s: &str) -> (r: Option<String>)
    ensures
        opt_text(r) == unless_blank(s@),
{
    let t = trim(s);
    if t.as_str().is_empty() {
        None
    } else {
        Some(t)
    }
}

/// What git printed, trimmed, none where it failed or printed nothing.
pub open spec fn printed(output: Option<Seq<char>>) -> Option<Seq<char>> {
    match output {
        Some(text) => unless_blank(text),
        None => None,
    }
}

/// What git printed, trimmed, none where it failed or printed nothing.
pub fn read_printed(output: Option<&str>) -> (r: Option<String>)
    ensures
        opt_text(r) == printed(
            match output {
                Some(text) => Some(text@),
                None => None,
            },
        ),
{
    match output {
        Some(text) => trim_unless_blank(text),
        None => None,
    }
}

/// Collects the header and tab metadata of a repository: what
/// `git symbolic-ref --short HEAD` and `git tag --list` printed, its
/// configuration where that could be read, and its open issues.
pub fn gather_meta(
    rel: &str,
    head: Option<&str>,
    config: Option<&Config>,
    tags: Option<&str>,
    issues: usize,
) -> (r: RepoMeta)
    ensures
        r.rel@ == rel@,
        opt_text(r.branch) == printed(
            match head {
                Some(text) => Some(text@),
                None => None,
            },
        ),
        match config {
            None => r.description is None && r.homepage is None && r.topics@.len() == 0,
            Some(config) => opt_text(r.description) == unless_blank(config.description@)
                && opt_text(r.homepage) == unless_blank(config.homepage@) && texts(r.topics@)
                == trimmed_nonempty(texts(config.topics@)),
        },
        r.releases as int == (match tags {
            None => 0,
            Some(text) => trimmed_nonempty(lines_of(text@)).len() as int,
        }),
        r.issues == issues,
{
    let branch = read_printed(head);
    let releases: usize = match tags {
        None => 0,
        Some(text) => {
            let listed = trim_nonempty(&lines(text));
            proof {
                assert(texts(listed@).len() == listed@.len());
            }
            listed.len()
        },
    };
    match config {
        None => RepoMeta {
            rel: rel.to_owned(),
            branch,
            description: None,
            homepage: None,
            topics: Vec::new(),
            releases,
            issues,
        },
        Some(config) => RepoMeta {
            rel: rel.to_owned(),
            branch,
            description: trim_unless_blank(config.description.as_str()),
            homepage: trim_unless_blank(config.homepage.as_str()),
            topics: trim_nonempty(&config.topics),
            releases,
            issues,
        },
    }
}

/// One segment of a breadcrumb trail: a label and, unless it is the current
/// place, the link to it.
#[derive(Debug, PartialEq, Eq)]
pub struct Crumb {
    /// What is shown.
    pub label: String,
    /// Where it leads.
    pub href: Option<String>,
}

/// The crumbs as plain values.
pub open spec fn crumb_views(v: Seq<Crumb>) -> Seq<(Seq<char>, Option<Seq<char>>)> {
    v.map_values(|c: Crumb| (c.label@, opt_text(c.href)))
}

/// The trail of a path's parts: each leads to `base` and the path down to it,
/// except the last where that is the current place.
pub open spec fn trail(base: Seq<char>, parts: Seq<Seq<char>>, last_is_here: bool) -> Seq<
    (Seq<char>, Option<Seq<char>>),
> {
    Seq::new(
        parts.len(),
        |i: int|
            (
                parts[i],
                if i + 1 == parts.len() && last_is_here {
                    None
                } else {
                    Some(base + joined(parts.take(i + 1), "/"@))
                },
            ),
    )
}

fn make_trail(base: &str, parts: &Vec<String>, last_is_here: bool) -> (r: Vec<Crumb>)
    ensures
        crumb_views(r@) == trail(base@, texts(parts@), last_is_here),
{
    let n: usize = parts.len();
    let ghost all = texts(parts@);
    let mut r: Vec<Crumb> = Vec::new();
    let mut so_far: Vec<String> = Vec::new();
    let mut i: usize = 0;
    while i < n
        invariant
            i <= n,
            n == parts@.len(),
            all == texts(parts@),
            texts(so_far@) == all.take(i as int),
            r@.len() == i,
            forall|j: int|
                0 <= j < i ==> #[trigger] crumb_views(r@)[j] == trail(base@, all, last_is_here)[j],
        decreases n - i,
    {
        let ghost before = texts(so_far@);
        so_far.push(parts[i].clone());
        proof {
            assert(texts(so_far@) =~= before.push(all[i as int]));
            assert(texts(so_far@) =~= all.take(i + 1));
        }
        let href = if i + 1 == n && last_is_here {
            None
        } else {
            let mut href = base.to_owned();
            href.append(join(so_far.as_slice(), "/").as_str());
            Some(href)
        };
        let ghost prior = r@;
        r.push(Crumb { label: parts[i].clone(), href });
        proof {
            assert forall|j: int| 0 <= j < i + 1 implies #[trigger] crumb_views(r@)[j] == trail(
                base@,
                all,
                last_is_here,
            )[j] by {
                if j < i {
                    assert(crumb_views(prior)[j] == trail(base@, all, last_is_here)[j]);
                    assert(r@[j] == prior[j]);
                }
            }
        }
        i += 1;
    }
    proof {
        assert(crumb_views(r@) =~= trail(base@, all, last_is_here));
    }
    r
}

/// The path line of the header band: each directory above the repository is a
/// link, the repository itself is not.
pub fn header_crumbs(rel: &str) -> (r: Vec<Crumb>)
    ensures
        crumb_views(r@) == trail("/"@, split_on(rel@, '/'), true),
{
    make_trail("/", &split(rel, '/'), true)
}

/// Breadcrumb navigation from the repository root down through `path`. When
/// `is_file` is set, the final component is shown as plain text rather than a
/// link, since a file has no listing of its own.
pub fn crumbs(rel: &str, path: &str, is_file: bool) -> (r: Vec<Crumb>)
    ensures
        crumb_views(r@) == trail(
            "/"@ + rel@ + "/tree/"@,
            nonempty(split_on(path@, '/')),
            is_file,
        ),
{
    let mut base = "/".to_owned();
    base.append(rel);
    base.append("/tree/");
    make_trail(base.as_str(), &split_nonempty(path, '/'), is_file)
}

/// A tab of the tab bar.
#[derive(Debug, PartialEq, Eq)]
pub struct TabLink {
    /// What is shown.
    pub label: &'static str,
    /// Where it leads.
    pub href: String,
    /// Whether it is the current one.
    pub active: bool,
    /// How much is behind it, where that is shown.
    pub count: Option<usize>,
}

/// Whether a tab shows a label, leads under the repository, and is the current
/// one where it is the active tab.
pub open spec fn is_tab(
    link: TabLink,
    label: Seq<char>,
    href: Seq<char>,
    active: bool,
    count: usize,
) -> bool {
    link.label@ == label && link.href@ == href && link.active == active && link.count == if count
        > 0 {
        Some(count)
    } else {
        None
    }
}

fn tab(label: &'static str, rel: &str, path: &str, active: bool, count: usize) -> (r: TabLink)
    ensures
        is_tab(r, label@, "/"@ + rel@ + path@, active, count),
{
    let mut href = "/".to_owned();
    href.append(rel);
    href.append(path);
    TabLink {
        label,
        href,
        active,
        count: if count > 0 {
            Some(count)
        } else {
            None
        },
    }
}

/// The tab bar with the active tab marked.
pub fn tab_bar(meta: &RepoMeta, active: Tab) -> (r: Vec<TabLink>)
    ensures
        r@.len() == 6,
        is_tab(r@[0], "Overview"@, "/"@ + meta.rel@, active is Overview, 0),
        is_tab(r@[1], "Files"@, "/"@ + meta.rel@ + "/files"@, active is Files, 0),
        is_tab(
            r@[2],
            "Releases"@,
            "/"@ + meta.rel@ + "/releases"@,
            active is Releases,
            meta.releases,
        ),
        is_tab(r@[3], "Checks"@, "/"@ + meta.rel@ + "/checks"@, active is Checks, 0),
        is_tab(r@[4], "Issues"@, "/"@ + meta.rel@ + "/issues"@, active is Issues, meta.issues),
        is_tab(r@[5], "Settings"@, "/"@ + meta.rel@ + "/settings"@, active is Settings, 0),
{
    let rel = meta.rel.as_str();
    let overview = tab("Overview", rel, "", active == Tab::Overview, 0);
    proof {
        reveal_strlit("");
        assert("/"@ + rel@ + ""@ =~= "/"@ + rel@);
    }
    let mut r: Vec<TabLink> = Vec::new();
    r.push(overview);
    r.push(tab("Files", rel, "/files", active == Tab::Files, 0));
    r.push(tab("Releases", rel, "/releases", active == Tab::Releases, meta.releases));
    r.push(tab("Checks", rel, "/checks", active == Tab::Checks, 0));
    r.push(tab("Issues", rel, "/issues", active == Tab::Issues, meta.issues));
    r.push(tab("Settings", rel, "/settings", active == Tab::Settings, 0));
    r
}

/// The clone URL for `rel`, using the request host when known.
pub fn clone_url(host: Option<&str>, rel: &str) -> (r: String)
    ensures
        r@ == (match host {
            Some(host) => "http://"@ + host@ + "/"@ + rel@,
            None => "/"@ + rel@,
        }),
{
    match host {
        Some(host) => {
            let mut url = "http://".to_owned();
            url.append(host);
            url.append("/");
            url.append(rel);
            url
        },
        None => {
            let mut url = "/".to_owned();
            url.append(rel);
            url
        },
    }
}

/// A number of whole units, as words.
pub open spec fn units_ago(n: nat, unit: Seq<char>) -> Seq<char> {
    if n == 1 {
        "1 "@ + unit + " ago"@
    } else {
        decimal(n) + " "@ + unit + "s ago"@
    }
}

/// Formats `n` whole `unit`s with an "ago" suffix, pluralizing as needed.
pub fn plural(n: u64, unit: &str) -> (r: String)
    ensures
        r@ == units_ago(n as nat, unit@),
{
    if n == 1 {
        let mut r = "1 ".to_owned();
        r.append(unit);
        r.append(" ago");
        r
    } else {
        let mut r = String::new();
        push_decimal(&mut r, n);
        proof {
            assert(Seq::<char>::empty() + decimal(n as nat) =~= decimal(n as nat));
        }
        r.append(" ");
        r.append(unit);
        r.append("s ago");
        r
    }
}

/// The seconds from `then` to `now`, none where `then` is still to come.
pub open spec fn elapsed(now: i64, then: i64) -> nat {
    if now <= then {
        0
    } else if now - then > i64::MAX {
        i64::MAX as nat
    } else {
        (now - then) as nat
    }
}

/// How long ago so many seconds are: in the largest unit of which there is at
/// least one, a month being thirty days and a year three hundred and
/// sixty-five.
pub open spec fn ago_text(seconds: nat) -> Seq<char> {
    let minutes = seconds / 60;
    let hours = seconds / 3600;
    let days = seconds / 86400;
    if minutes == 0 {
        "just now"@
    } else if hours == 0 {
        units_ago(minutes, "minute"@)
    } else if days == 0 {
        units_ago(hours, "hour"@)
    } else if days < 30 {
        units_ago(days, "day"@)
    } else if days < 365 {
        units_ago(days / 30, "month"@)
    } else {
        units_ago(days / 365, "year"@)
    }
}

/// A time rendered as a relative "time ago" label, measured against `now`, both
/// in seconds since the epoch.
pub fn ago_seconds(now: i64, then: i64) -> (r: String)
    ensures
        r@ == ago_text(elapsed(now, then)),
{
    let seconds: u64 = if now <= then {
        0
    } else {
        let span: i128 = now as i128 - then as i128;
        if span > i64::MAX as i128 {
            i64::MAX as u64
        } else {
            span as u64
        }
    };
    let minutes: u64 = seconds / 60;
    let hours: u64 = seconds / 3600;
    let days: u64 = seconds / 86400;
    if minutes == 0 {
        "just now".to_owned()
    } else if hours == 0 {
        plural(minutes, "minute")
    } else if days == 0 {
        plural(hours, "hour")
    } else if days < 30 {
        plural(days, "day")
    } else if days < 365 {
        plural(days / 30, "month")
    } else {
        plural(days / 365, "year")
    }
}

/// A label never counts to zero: each unit is used only where there is one.
pub proof fn law_ago_never_counts_to_zero(seconds: nat)
    requires
        seconds >= 60,
    ensures
        exists|n: nat, unit: Seq<char>|
            n >= 1 && ago_text(seconds) == #[trigger] units_ago(n, unit) && (unit == "minute"@
                || unit == "hour"@ || unit == "day"@ || unit == "month"@ || unit == "year"@),
{
    let minutes = seconds / 60;
    let hours = seconds / 3600;
    let days = seconds / 86400;
    if hours == 0 {
        assert(ago_text(seconds) == units_ago(minutes, "minute"@));
    } else if days == 0 {
        assert(ago_text(seconds) == units_ago(hours, "hour"@));
    } else if days < 30 {
        assert(ago_text(seconds) == units_ago(days, "day"@));
    } else if days < 365 {
        assert(ago_text(seconds) == units_ago(days / 30, "month"@));
    } else {
        assert(ago_text(seconds) == units_ago(days / 365, "year"@));
    }
}

/// Who is signed in for the current request, resolved per repository: a
/// member's web key authorizes edits only on a repository whose member list
/// contains it.
#[derive(Debug, PartialEq, Eq)]
pub struct Auth {
    /// The session key's display label.
    pub label: String,
    /// The member that the key belongs to in the current repository, when it is
    /// one there.
    pub username: Option<String>,
    /// The session's CSRF token, echoed in edit forms.
    pub csrf: String,
}

/// Resolves a session into what it may do on a repository: whether its key is
/// one of `members`, and under which username. Members that could not be read
/// own no key.
pub fn resolve_auth(session: Option<&Session>, members: Option<&[Member]>) -> (r: Option<Auth>)
    ensures
        match session {
            None => r is None,
            Some(session) => r matches Some(auth) && auth.label@ == session.label@ && auth.csrf@
                == session.csrf@ && opt_text(auth.username) == (match members {
                Some(members) => match key_owner(members@, session.public_key@) {
                    Some(member) => Some(member.principal@),
                    None => None,
                },
                None => None,
            }),
        },
{
    match session {
        None => None,
        Some(session) => {
            let username = match members {
                Some(members) => member_for_public_key(members, session.public_key.as_str()),
                None => None,
            };
            Some(Auth { label: session.label.clone(), username, csrf: session.csrf.clone() })
        },
    }
}

/// Whether somebody is offered edit controls: a signed-in member, on a server
/// that can land edits.
pub open spec fn may_edit(auth: Option<Auth>, editing: bool) -> bool {
    auth matches Some(auth) && auth.username is Some && editing
}

/// Whether somebody is offered edit controls.
pub fn can_edit(auth: Option<&Auth>, editing: bool) -> (r: bool)
    ensures
        r == may_edit(
            match auth {
                Some(auth) => Some(*auth),
                None => None,
            },
            editing,
        ),
{
    match auth {
        Some(auth) => editing && auth.username.is_some(),
        None => false,
    }
}

/// Law: how long ago something was is counted in the largest unit that fits, a
/// month being thirty days and a year three hundred and sixty-five.
pub proof fn law_ago_counts_in_the_largest_unit(n: nat)
    ensures
        n < 60 ==> ago_text(n) == "just now"@,
        60 <= n < 3600 ==> ago_text(n) == units_ago(n / 60, "minute"@),
        3600 <= n < 86400 ==> ago_text(n) == units_ago(n / 3600, "hour"@),
        86400 <= n < 2592000 ==> ago_text(n) == units_ago(n / 86400, "day"@),
        2592000 <= n < 31536000 ==> ago_text(n) == units_ago(n / 86400 / 30, "month"@),
        31536000 <= n ==> ago_text(n) == units_ago(n / 86400 / 365, "year"@),
        units_ago(1, "day"@) == "1 "@ + "day"@ + " ago"@,
        n != 1 ==> units_ago(n, "day"@) == decimal(n) + " "@ + "day"@ + "s ago"@,
{
}

/// Law: time since is the difference of the two moments, and none where the other
/// is not past.
pub proof fn law_elapsed_is_the_difference(now: i64, then: i64)
    requires
        now - then <= i64::MAX,
    ensures
        now >= then ==> elapsed(now, then) == now - then,
        now < then ==> elapsed(now, then) == 0,
{
}

/// Law: a trail names every part of a path and links each to the path up to it;
/// only what is being looked at is not linked.
pub proof fn law_trail_links_every_part(
    base: Seq<char>,
    parts: Seq<Seq<char>>,
    last_is_here: bool,
    i: int,
)
    requires
        0 <= i < parts.len(),
    ensures
        trail(base, parts, last_is_here).len() == parts.len(),
        trail(base, parts, last_is_here)[i].0 == parts[i],
        i + 1 < parts.len() || !last_is_here ==> trail(base, parts, last_is_here)[i].1 == Some(
            base + joined(parts.take(i + 1), "/"@),
        ),
        i + 1 == parts.len() && last_is_here ==> trail(base, parts, last_is_here)[i].1 is None,
{
}

/// Law: only a member who is signed in may edit, and only where the server takes
/// edits.
pub proof fn law_only_members_edit(auth: Option<Auth>, editing: bool)
    ensures
        may_edit(auth, editing) <==> editing && (auth matches Some(who) && who.username is Some),
{
}

} // verus!
