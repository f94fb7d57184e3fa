//! The issues and settings tabs: which issues are open, who may edit what, and
//! how members, roles and cards read.

use vstd::prelude::*;
use vstd::utf8::encode_utf8;

use crate::check_pages::{effect_text, effect_value};
use crate::config::{Config, RoleRules};
use crate::forms::{encoded_form, field_or_empty, fields_map, law_form_round_trip};
use crate::issues::Issue;
use crate::keyed::{before, lemma_before_total, lemma_before_transitive, listing};
use crate::members::{Member, Trust};
use crate::order::{by_name, is_arranged, is_sorted, sort_texts};
use crate::runner::CheckDef;
use crate::seqs::{kept, lemma_kept_all, lemma_kept_step};
use crate::sessions::{session_of, Session};
use crate::shell::{Auth, RepoMeta};
use crate::text::{
    base_name, fields, fields_of, is_word, join, joined, law_fields_undo_join, lemma_joined_front,
    lemma_split_front, opt_text, pairs, same, split_on, texts, trimmed,
};
use crate::web_edit::{listed_names, own_post};

verus! {

/// The labels of issues, one after the other.
pub open spec fn all_labels(issues: Seq<Issue>) -> Seq<Seq<char>>
    decreases issues.len(),
{
    if issues.len() == 0 {
        Seq::empty()
    } else {
        all_labels(issues.drop_last()) + texts(issues.last().labels@)
    }
}

/// A sequence with each run of the same text cut down to one.
pub open spec fn deduped(v: Seq<Seq<char>>) -> Seq<Seq<char>>
    decreases v.len(),
{
    if v.len() == 0 {
        Seq::empty()
    } else {
        let front = deduped(v.drop_last());
        if v.len() > 1 && v[v.len() - 2] == v.last() {
            front
        } else {
            front.push(v.last())
        }
    }
}

/// Cuts each run of the same text down to one.
pub fn dedup(v: &[String]) -> (r: Vec<String>)
    ensures
        texts(r@) == deduped(texts(v@)),
{
    let ghost all = texts(v@);
    let mut r: Vec<String> = Vec::new();
    let mut i: usize = 0;
    proof {
        assert(texts(r@) =~= deduped(all.take(0)));
    }
    while i < v.len()
        invariant
            i <= v@.len(),
            all == texts(v@),
            texts(r@) == deduped(all.take(i as int)),
        decreases v@.len() - i,
    {
        proof {
            assert(all.take(i + 1).drop_last() =~= all.take(i as int));
            assert(all.take(i + 1).last() == v@[i as int]@);
            if i > 0 {
                assert(all.take(i + 1)[i - 1] == v@[i - 1]@);
            }
        }
        if i == 0 || !same(v[i - 1].as_str(), v[i].as_str()) {
            let ghost prior = texts(r@);
            r.push(v[i].clone());
            proof {
                assert(texts(r@) =~= prior.push(v@[i as int]@));
            }
        }
        i += 1;
    }
    proof {
        assert(all.take(all.len() as int) =~= all);
    }
    r
}

/// The issues tab.
#[derive(Debug, PartialEq, Eq)]
pub struct IssuesPage {
    /// The labels that occur, in order, each once.
    pub labels: Vec<String>,
    /// The open issues: their titles and labels.
    pub open: Vec<(String, Vec<String>)>,
    /// How many issues are closed.
    pub closed_count: usize,
}

/// The issues as plain values.
pub open spec fn issue_rows(v: Seq<(String, Vec<String>)>) -> Seq<(Seq<char>, Seq<Seq<char>>)> {
    v.map_values(|row: (String, Vec<String>)| (row.0@, texts(row.1@)))
}

/// The row of an issue: none of a closed one.
pub open spec fn open_row(issue: Issue) -> Option<(Seq<char>, Seq<Seq<char>>)> {
    if issue.open() {
        Some((issue.title@, texts(issue.labels@)))
    } else {
        None
    }
}

fn copy_texts(v: &Vec<String>) -> (r: Vec<String>)
    ensures
        texts(r@) == texts(v@),
{
    let mut r: Vec<String> = Vec::new();
    push_texts(&mut r, v);
    proof {
        assert(texts(r@) =~= texts(v@));
    }
    r
}

fn push_texts(r: &mut Vec<String>, v: &Vec<String>)
    ensures
        texts(final(r)@) == texts(old(r)@) + texts(v@),
{
    let ghost start = texts(r@);
    let mut i: usize = 0;
    proof {
        assert(start + texts(v@).take(0) =~= start);
    }
    while i < v.len()
        invariant
            i <= v@.len(),
            texts(r@) == start + texts(v@).take(i as int),
        decreases v@.len() - i,
    {
        let ghost prior = texts(r@);
        r.push(v[i].clone());
        proof {
            assert(texts(r@) =~= prior.push(v@[i as int]@));
            assert(texts(r@) =~= start + texts(v@).take(i + 1));
        }
        i += 1;
    }
    proof {
        assert(texts(v@).take(v@.len() as int) =~= texts(v@));
    }
}

/// The issues tab, split into open and closed, with the filter chips derived
/// from the labels that exist.
pub fn issues_page(issues: &[Issue]) -> (r: IssuesPage)
    ensures
        issue_rows(r.open@) == kept(issues@, |issue: Issue| open_row(issue)),
        r.closed_count == issues@.len() - r.open@.len(),
        exists|sorted: Seq<Seq<char>>| #[trigger]
            is_arranged(sorted, all_labels(issues@), by_name(all_labels(issues@))) && texts(
                r.labels@,
            ) == deduped(sorted),
{
    let n: usize = issues.len();
    let ghost f = |issue: Issue| open_row(issue);
    let mut open: Vec<(String, Vec<String>)> = Vec::new();
    let mut labels: Vec<String> = Vec::new();
    let mut closed_count: usize = 0;
    let mut i: usize = 0;
    proof {
        assert(issue_rows(open@) =~= kept(issues@.take(0), f));
        assert(texts(labels@) =~= all_labels(issues@.take(0)));
    }
    while i < n
        invariant
            i <= n,
            n == issues@.len(),
            f == (|issue: Issue| open_row(issue)),
            issue_rows(open@) == kept(issues@.take(i as int), f),
            closed_count + open@.len() == i,
            texts(labels@) == all_labels(issues@.take(i as int)),
        decreases n - i,
    {
        let issue = &issues[i];
        proof {
            lemma_kept_step(issues@, f, i as int);
            assert(issues@.take(i + 1).drop_last() =~= issues@.take(i as int));
            assert(issues@.take(i + 1).last() == *issue);
        }
        push_texts(&mut labels, &issue.labels);
        if issue.is_open() {
            let ghost prior = open@;
            let own = copy_texts(&issue.labels);
            open.push((issue.title.clone(), own));
            proof {
                assert(issue_rows(open@) =~= issue_rows(prior).push(
                    (issue.title@, texts(issue.labels@)),
                ));
            }
        } else {
            closed_count += 1;
        }
        i += 1;
    }
    proof {
        assert(issues@.take(n as int) =~= issues@);
    }
    let sorted = sort_texts(labels.as_slice());
    IssuesPage { labels: dedup(sorted.as_slice()), open, closed_count }
}

/// The filter chips show each label once.
pub proof fn law_labels_are_shown_once(sorted: Seq<Seq<char>>, i: int, j: int)
    requires
        is_sorted(sorted),
        0 <= i < j < deduped(sorted).len(),
    ensures
        before(deduped(sorted)[i], deduped(sorted)[j]),
    decreases sorted.len(),
{
    let n = sorted.len() as int;
    let front = sorted.drop_last();
    assert(is_sorted(front)) by {
        assert forall|a: int, b: int| 0 <= a < b < front.len() implies !before(
            #[trigger] front[b],
            #[trigger] front[a],
        ) by {
            assert(front[a] == sorted[a]);
            assert(front[b] == sorted[b]);
        }
    }
    if j < deduped(front).len() {
        law_labels_are_shown_once(front, i, j);
    } else {
        lemma_deduped_last(front);
        assert(n > 1);
        assert(deduped(sorted)[j] == sorted.last());
        assert(deduped(front).last() == front.last());
        lemma_before_total(front.last(), sorted.last());
        assert(front.last() == sorted[n - 2]);
        assert(!before(sorted[n - 1], sorted[n - 2]));
        if i < deduped(front).len() - 1 {
            law_labels_are_shown_once(front, i, deduped(front).len() - 1);
            lemma_before_transitive(
                deduped(front)[i],
                front.last(),
                sorted.last(),
            );
        }
    }
}

proof fn lemma_deduped_last(v: Seq<Seq<char>>)
    ensures
        v.len() == 0 <==> deduped(v).len() == 0,
        v.len() > 0 ==> deduped(v).last() == v.last(),
    decreases v.len(),
{
    if v.len() > 0 {
        lemma_deduped_last(v.drop_last());
    }
}

/// The settings authorization banner.
#[derive(Debug, PartialEq, Eq)]
pub enum Banner {
    /// Nobody is signed in.
    SignIn,
    /// A member who can edit, by the label of their key.
    CanEdit(String),
    /// A member, but the server lands no edits.
    Disabled(String),
    /// Somebody who is no member here.
    NotMember(String),
}

/// Whether a banner tells what somebody may do.
pub open spec fn tells(banner: Banner, auth: Option<Auth>, editing: bool) -> bool {
    match auth {
        None => banner is SignIn,
        Some(auth) => if auth.username is Some && editing {
            banner matches Banner::CanEdit(label) && label@ == auth.label@
        } else if auth.username is Some {
            banner matches Banner::Disabled(label) && label@ == auth.label@
        } else {
            banner matches Banner::NotMember(label) && label@ == auth.label@
        },
    }
}

/// Who somebody is, by value.
pub open spec fn who(auth: Option<&Auth>) -> Option<Auth> {
    match auth {
        Some(auth) => Some(*auth),
        None => None,
    }
}

/// The settings authorization banner: who is signed in and whether they may edit
/// this repository. When `editing` is unset the server cannot land edits at
/// all, so a member is told editing is disabled rather than offered controls
/// that would only fail.
pub fn settings_auth_banner(auth: Option<&Auth>, editing: bool) -> (r: Banner)
    ensures
        tells(r, who(auth), editing),
{
    match auth {
        None => Banner::SignIn,
        Some(auth) => {
            let label = auth.label.clone();
            if auth.username.is_none() {
                Banner::NotMember(label)
            } else if editing {
                Banner::CanEdit(label)
            } else {
                Banner::Disabled(label)
            }
        },
    }
}

/// The general settings.
#[derive(Debug, PartialEq, Eq)]
pub enum General {
    /// A form to edit them with.
    Form {
        /// Where it is posted.
        action: String,
        /// The session's CSRF token.
        csrf: String,
        /// The description.
        description: String,
        /// The homepage.
        homepage: String,
        /// The topics, comma-separated.
        topics: String,
    },
    /// The values.
    ReadOnly {
        /// The description.
        description: String,
        /// The homepage.
        homepage: String,
        /// The topics.
        topics: Vec<String>,
    },
}

/// A text, or another where there is none.
pub open spec fn text_or(o: Option<String>, default: Seq<char>) -> Seq<char> {
    match o {
        Some(s) => s@,
        None => default,
    }
}

fn owned_or(o: &Option<String>, default: &str) -> (r: String)
    ensures
        r@ == text_or(*o, default@),
{
    match o {
        Some(s) => s.clone(),
        None => default.to_owned(),
    }
}

/// Whether the General fields are shown as somebody may see them: in an edit
/// form where they are a signed-in member on a server that can land edits,
/// otherwise as they are.
pub open spec fn shows_general(
    shown: General,
    meta: RepoMeta,
    auth: Option<Auth>,
    editing: bool,
) -> bool {
    match auth {
        Some(auth) if editing && auth.username is Some => shown matches General::Form {
            action,
            csrf,
            description,
            homepage,
            topics,
        } && action@ == "/"@ + meta.rel@ + "/settings"@ && csrf@ == auth.csrf@ && description@
            == text_or(meta.description, Seq::empty()) && homepage@ == text_or(
            meta.homepage,
            Seq::empty(),
        ) && topics@ == joined(texts(meta.topics@), ", "@),
        _ => shown matches General::ReadOnly { description, homepage, topics } && description@
            == text_or(meta.description, "\u{2014}"@) && homepage@ == text_or(
            meta.homepage,
            "\u{2014}"@,
        ) && texts(topics@) == texts(meta.topics@),
    }
}

/// The editable General fields: an edit form when a signed-in member edits a
/// server that can land edits, otherwise read-only rows.
pub fn general_settings(meta: &RepoMeta, auth: Option<&Auth>, editing: bool) -> (r: General)
    ensures
        shows_general(r, *meta, who(auth), editing),
{
    if let Some(auth) = auth {
        if editing && auth.username.is_some() {
            let mut action = "/".to_owned();
            action.append(meta.rel.as_str());
            action.append("/settings");
            proof {
                reveal_strlit("");
                assert(""@ =~= Seq::<char>::empty());
            }
            return General::Form {
                action,
                csrf: auth.csrf.clone(),
                description: owned_or(&meta.description, ""),
                homepage: owned_or(&meta.homepage, ""),
                topics: join(meta.topics.as_slice(), ", "),
            };
        }
    }
    General::ReadOnly {
        description: owned_or(&meta.description, "\u{2014}"),
        homepage: owned_or(&meta.homepage, "\u{2014}"),
        topics: copy_texts(&meta.topics),
    }
}

/// Whether a text can be a topic: trimmed, not empty, and without a comma.
pub open spec fn plain_topic(topic: Seq<char>) -> bool {
    topic.len() > 0 && trimmed(topic) == topic && !topic.contains(',')
}

/// What the form shows of the topics, an edit reads back: a form that is posted
/// as it was filled in changes none of them.
pub proof fn law_topics_survive_the_form(topics: Seq<Seq<char>>)
    requires
        forall|i: int| 0 <= i < topics.len() ==> plain_topic(#[trigger] topics[i]),
    ensures
        listed_names(joined(topics, ", "@)) == topics,
{
    let f = |s: Seq<char>|
        if trimmed(s).len() > 0 {
            Some(trimmed(s))
        } else {
            None
        };
    let text = joined(topics, ", "@);
    let pieces = split_on(text, ',');
    if topics.len() == 0 {
        assert(!Seq::<char>::empty().contains(','));
        lemma_split_front(Seq::empty(), ',', Seq::empty());
        assert(pieces =~= seq![Seq::<char>::empty()]);
        assert(pieces.drop_last() =~= Seq::empty());
        assert(kept(pieces.drop_last(), f) =~= Seq::empty());
        assert(kept(pieces, f) =~= topics);
    } else {
        assert(Seq::<char>::empty() + text =~= text);
        lemma_topic_pieces(topics, Seq::empty());
        assert forall|i: int| 0 <= i < pieces.len() implies f(#[trigger] pieces[i]) == Some(
            topics[i],
        ) by {
            assert(plain_topic(topics[i]));
        }
        lemma_kept_all(pieces, f, topics);
    }
}

/// The pieces of joined topics, after an optional space, are the topics again.
proof fn lemma_topic_pieces(topics: Seq<Seq<char>>, lead: Seq<char>)
    requires
        topics.len() > 0,
        lead == Seq::<char>::empty() || lead == seq![' '],
        forall|i: int| 0 <= i < topics.len() ==> plain_topic(#[trigger] topics[i]),
    ensures
        ({
            let pieces = split_on(lead + joined(topics, ", "@), ',');
            pieces.len() == topics.len() && forall|i: int|
                0 <= i < pieces.len() ==> trimmed(#[trigger] pieces[i]) == topics[i]
        }),
    decreases topics.len(),
{
    let text = lead + joined(topics, ", "@);
    let first = lead + topics[0];
    assert(plain_topic(topics[0]));
    assert(trimmed(first) == topics[0]) by {
        if lead.len() > 0 {
            assert(first[0] == ' ');
            assert(first.skip(1) =~= topics[0]);
        } else {
            assert(first =~= topics[0]);
        }
    }
    assert(!first.contains(',')) by {
        assert forall|i: int| 0 <= i < first.len() implies first[i] != ',' by {
            if i >= lead.len() {
                assert(topics[0].contains(topics[0][i - lead.len()]));
            }
        }
    }
    if topics.len() == 1 {
        assert(text =~= first);
        lemma_split_front(first, ',', Seq::empty());
    } else {
        let tail = topics.skip(1);
        let space = seq![' '];
        reveal_strlit(", ");
        lemma_joined_front(topics, ", "@);
        assert(text =~= first + seq![','] + (space + joined(tail, ", "@)));
        lemma_split_front(first, ',', space + joined(tail, ", "@));
        assert forall|i: int| 0 <= i < tail.len() implies plain_topic(#[trigger] tail[i]) by {
            assert(tail[i] == topics[i + 1]);
        }
        lemma_topic_pieces(tail, space);
        let rest = split_on(space + joined(tail, ", "@), ',');
        let pieces = split_on(text, ',');
        assert(pieces == seq![first] + rest);
        assert forall|i: int| 0 <= i < pieces.len() implies trimmed(#[trigger] pieces[i])
            == topics[i] by {
            if i > 0 {
                assert(pieces[i] == rest[i - 1]);
                assert(tail[i - 1] == topics[i]);
            }
        }
    }
}

/// A row of the features card.
#[derive(Debug, PartialEq, Eq)]
pub struct Feature {
    /// The feature.
    pub title: &'static str,
    /// What it is.
    pub description: &'static str,
    /// Whether there is anything behind it.
    pub on: bool,
}

/// Whether a row is of a feature.
pub open spec fn is_feature(row: Feature, title: Seq<char>, description: Seq<char>, on: bool) -> bool {
    row.title@ == title && row.description@ == description && row.on == on
}

/// Whether rows are the features card: each active where it has data behind it.
pub open spec fn shows_features(rows: Seq<Feature>, meta: RepoMeta, checks: Option<usize>) -> bool {
    &&& rows.len() == 3
    &&& is_feature(rows[0], "Bug reports"@, "Track and triage bugs."@, meta.issues > 0)
    &&& is_feature(rows[1], "Releases"@, "Publish tagged releases."@, meta.releases > 0)
    &&& is_feature(
        rows[2],
        "Checks (CI)"@,
        "Run signed CI records on push."@,
        checks matches Some(n) && n > 0,
    )
}

/// The features card. `checks` is how many checks there are, where they could be
/// read.
pub fn features(meta: &RepoMeta, checks: Option<usize>) -> (r: Vec<Feature>)
    ensures
        shows_features(r@, *meta, checks),
{
    let checked = match checks {
        Some(n) => n > 0,
        None => false,
    };
    let mut r: Vec<Feature> = Vec::new();
    r.push(
        Feature {
            title: "Bug reports",
            description: "Track and triage bugs.",
            on: meta.issues > 0,
        },
    );
    r.push(
        Feature {
            title: "Releases",
            description: "Publish tagged releases.",
            on: meta.releases > 0,
        },
    );
    r.push(
        Feature {
            title: "Checks (CI)",
            description: "Run signed CI records on push.",
            on: checked,
        },
    );
    r
}

/// What is said of a signer's key: its type, and its comment where it has one.
pub open spec fn key_label(key: Seq<char>) -> Seq<char> {
    let parts = fields_of(key);
    let kind = if parts.len() > 0 {
        parts[0]
    } else {
        Seq::empty()
    };
    if parts.len() > 2 && parts[2].len() > 0 {
        kind + " \u{b7} "@ + parts[2]
    } else {
        kind
    }
}

/// A short label for a signer's key: its type and trailing comment, dropping
/// the long base64 body that would not fit on the row.
pub fn signer_label(key: &str) -> (r: String)
    ensures
        r@ == key_label(key@),
{
    let parts = fields(key);
    proof {
        assert(texts(parts@).len() == parts@.len());
        assert(forall|i: int| 0 <= i < parts@.len() ==> texts(parts@)[i] == #[trigger] parts@[i]@);
    }
    let mut label = if parts.len() > 0 {
        parts[0].clone()
    } else {
        String::new()
    };
    if parts.len() > 2 && !parts[2].as_str().is_empty() {
        label.append(" \u{b7} ");
        label.append(parts[2].as_str());
    }
    label
}

/// The rows of a member: one for a pinned CA, else one for each key.
pub open spec fn member_texts(member: Member) -> Seq<(Seq<char>, Seq<char>)> {
    match member.trust {
        Trust::CertAuthority(ca) => seq![
            (member.principal@, "cert-authority \u{b7} "@ + key_label(ca@)),
        ],
        _ => member.leaf_keys().map_values(
            |key: (Seq<char>, String)| (member.principal@, key_label(key.1@)),
        ),
    }
}

/// A member's rows: their username beside a short label of each key, or a
/// single `cert-authority` row for a pinned CA.
pub fn member_rows(member: &Member) -> (r: Vec<(String, String)>)
    ensures
        pairs(r@) == member_texts(*member),
{
    let mut r: Vec<(String, String)> = Vec::new();
    if let Some(ca) = member.ca() {
        let mut label = "cert-authority \u{b7} ".to_owned();
        label.append(signer_label(ca).as_str());
        r.push((member.principal.clone(), label));
        proof {
            assert(pairs(r@) =~= member_texts(*member));
        }
        return r;
    }
    let keys = member.keys();
    let ghost view = |p: (&String, &String)| (p.0@, *p.1);
    let mut i: usize = 0;
    while i < keys.len()
        invariant
            i <= keys@.len(),
            view == (|p: (&String, &String)| (p.0@, *p.1)),
            keys@.map_values(view) == member.leaf_keys(),
            r@.len() == i,
            forall|j: int|
                0 <= j < i ==> (#[trigger] r@[j]).0@ == member.principal@ && r@[j].1@ == key_label(
                    member.leaf_keys()[j].1@,
                ),
        decreases keys@.len() - i,
    {
        proof {
            assert(keys@.map_values(view)[i as int] == (keys@[i as int].0@, *keys@[i as int].1));
        }
        let label = signer_label(keys[i].1.as_str());
        r.push((member.principal.clone(), label));
        i += 1;
    }
    proof {
        assert(keys@.map_values(view).len() == keys@.len());
        assert(pairs(r@) =~= member_texts(*member));
    }
    r
}

/// What is said of a role: the refs it may push to and may not, or that it has
/// no rules.
pub open spec fn role_text(rules: RoleRules) -> Seq<char> {
    let allow = "allow "@ + joined(texts(rules.allow@), ", "@);
    let deny = "deny "@ + joined(texts(rules.deny@), ", "@);
    if rules.allow@.len() > 0 && rules.deny@.len() > 0 {
        allow + " \u{b7} "@ + deny
    } else if rules.allow@.len() > 0 {
        allow
    } else if rules.deny@.len() > 0 {
        deny
    } else {
        "no rules"@
    }
}

/// One role's ref-push gating: its `allow`/`deny` glob lists joined for display,
/// or "no rules" for a role entry with neither.
pub fn role_row(rules: &RoleRules) -> (r: String)
    ensures
        r@ == role_text(*rules),
{
    let mut allow = "allow ".to_owned();
    allow.append(join(rules.allow.as_slice(), ", ").as_str());
    let mut deny = "deny ".to_owned();
    deny.append(join(rules.deny.as_slice(), ", ").as_str());
    if rules.allow.len() > 0 && rules.deny.len() > 0 {
        allow.append(" \u{b7} ");
        allow.append(deny.as_str());
        allow
    } else if rules.allow.len() > 0 {
        allow
    } else if rules.deny.len() > 0 {
        deny
    } else {
        "no rules".to_owned()
    }
}

/// The rows of members, one member's after the other's.
pub open spec fn members_texts(members: Seq<Member>) -> Seq<(Seq<char>, Seq<char>)>
    decreases members.len(),
{
    if members.len() == 0 {
        Seq::empty()
    } else {
        members_texts(members.drop_last()) + member_texts(members.last())
    }
}

/// The rows of checks: each one's name, and what is said beside it.
pub open spec fn effect_texts(checks: Seq<CheckDef>) -> Seq<(Seq<char>, Seq<char>)> {
    checks.map_values(
        |check: CheckDef|
            (
                check.name@,
                effect_text(
                    opt_text(check.command),
                    opt_text(check.image),
                    texts(check.depends@),
                    texts(check.toolchains@),
                ),
            ),
    )
}

/// A list-shaped card.
#[derive(Debug, PartialEq, Eq)]
pub enum Card {
    /// The items could not be read: what is said of it.
    Unreadable(String),
    /// There are none.
    Empty,
    /// How many there are, and the rows that show them.
    Items(usize, Vec<(String, String)>),
}

/// Whether a card shows items: that they could not be read, that there are none,
/// or how many there are and their rows.
pub open spec fn is_card(
    card: Card,
    plural: Seq<char>,
    items: Result<(nat, Seq<(Seq<char>, Seq<char>)>), Seq<char>>,
) -> bool {
    match items {
        Err(error) => card matches Card::Unreadable(message) && message@ == "Could not read "@
            + plural + ": "@ + error,
        Ok((n, texts)) => if n == 0 {
            card is Empty
        } else {
            card matches Card::Items(count, rows) && count == n && pairs(rows@) == texts
        },
    }
}

/// The card that list-shaped components share: an error row, an empty-state
/// message, or the rows of each item.
pub fn card(plural: &str, items: Result<(usize, Vec<(String, String)>), String>) -> (r: Card)
    ensures
        is_card(
            r,
            plural@,
            match items {
                Ok((n, rows)) => Ok((n as nat, pairs(rows@))),
                Err(error) => Err(error@),
            },
        ),
{
    match items {
        Err(error) => {
            let mut message = "Could not read ".to_owned();
            message.append(plural);
            message.append(": ");
            message.append(error.as_str());
            Card::Unreadable(message)
        },
        Ok((n, rows)) => if n == 0 {
            Card::Empty
        } else {
            Card::Items(n, rows)
        },
    }
}

/// What the members card is to show.
pub open spec fn shown_members(members: Result<&[Member], String>) -> Result<
    (nat, Seq<(Seq<char>, Seq<char>)>),
    Seq<char>,
> {
    match members {
        Ok(all) => Ok((all@.len(), members_texts(all@))),
        Err(error) => Err(error@),
    }
}

/// The members card: one row per authorized key or pinned CA.
pub fn members_card(members: Result<&[Member], String>) -> (r: Card)
    ensures
        is_card(r, "members"@, shown_members(members)),
{
    let all = match members {
        Ok(all) => all,
        Err(error) => {
            return card("members", Err(error));
        },
    };
    let mut rows: Vec<(String, String)> = Vec::new();
    let mut i: usize = 0;
    proof {
        assert(all@.take(0) =~= Seq::empty());
        assert(pairs(rows@) =~= members_texts(all@.take(0)));
    }
    while i < all.len()
        invariant
            i <= all@.len(),
            pairs(rows@) == members_texts(all@.take(i as int)),
        decreases all@.len() - i,
    {
        let ghost prior = rows@;
        let mut own = member_rows(&all[i]);
        let ghost added = own@;
        rows.append(&mut own);
        proof {
            assert(rows@ =~= prior + added);
            assert(pairs(rows@) =~= pairs(prior) + pairs(added));
            assert(all@.take(i + 1).drop_last() =~= all@.take(i as int));
            assert(all@.take(i + 1).last() == all@[i as int]);
        }
        i += 1;
    }
    proof {
        assert(all@.take(all@.len() as int) =~= all@);
    }
    card("members", Ok((all.len(), rows)))
}

/// What the checks card is to show.
pub open spec fn shown_checks(checks: Result<&[CheckDef], String>) -> Result<
    (nat, Seq<(Seq<char>, Seq<char>)>),
    Seq<char>,
> {
    match checks {
        Ok(all) => Ok((all@.len(), effect_texts(all@))),
        Err(error) => Err(error@),
    }
}

/// The checks card: one row per configured check.
pub fn checks_card(checks: Result<&[CheckDef], String>) -> (r: Card)
    ensures
        is_card(r, "checks"@, shown_checks(checks)),
{
    let all = match checks {
        Ok(all) => all,
        Err(error) => {
            return card("checks", Err(error));
        },
    };
    let mut rows: Vec<(String, String)> = Vec::new();
    let mut i: usize = 0;
    while i < all.len()
        invariant
            i <= all@.len(),
            rows@.len() == i,
            forall|j: int|
                0 <= j < i ==> ((#[trigger] rows@[j]).0@, rows@[j].1@) == effect_texts(all@)[j],
        decreases all@.len() - i,
    {
        rows.push((all[i].name.clone(), effect_value(&all[i])));
        i += 1;
    }
    proof {
        assert(pairs(rows@) =~= effect_texts(all@));
    }
    card("checks", Ok((all.len(), rows)))
}

/// The roles card.
#[derive(Debug, PartialEq, Eq)]
pub enum Roles {
    /// The configuration could not be read.
    Unreadable(String),
    /// There are no roles: every member may push any ref.
    NoRoles,
    /// One row per role: its name, and its rules.
    Rows(Vec<(String, String)>),
}

/// The rows of roles.
pub open spec fn role_rows(roles: Seq<(Seq<char>, RoleRules)>) -> Seq<(Seq<char>, Seq<char>)> {
    roles.map_values(|role: (Seq<char>, RoleRules)| (role.0, role_text(role.1)))
}

/// Whether the roles card shows a configuration.
pub open spec fn shows_roles(card: Roles, config: Result<&Config, String>) -> bool {
    match config {
        Err(error) => card matches Roles::Unreadable(message) && message@
            == "Could not read config: "@ + error@,
        Ok(config) => if listing(config.roles@).len() == 0 {
            card is NoRoles
        } else {
            card matches Roles::Rows(rows) && pairs(rows@) == role_rows(listing(config.roles@))
        },
    }
}

/// The roles card: one row per role, in the order of their names.
pub fn roles_card(config: Result<&Config, String>) -> (r: Roles)
    ensures
        shows_roles(r, config),
{
    let config = match config {
        Err(error) => {
            let mut message = "Could not read config: ".to_owned();
            message.append(error.as_str());
            return Roles::Unreadable(message);
        },
        Ok(config) => config,
    };
    let roles = config.roles.entries();
    if roles.len() == 0 {
        return Roles::NoRoles;
    }
    let mut rows: Vec<(String, String)> = Vec::new();
    let mut i: usize = 0;
    while i < roles.len()
        invariant
            i <= roles@.len(),
            rows@.len() == i,
            forall|j: int|
                0 <= j < i ==> (#[trigger] rows@[j]).0@ == roles@[j].0@ && rows@[j].1@ == role_text(
                    roles@[j].1,
                ),
        decreases roles@.len() - i,
    {
        let rules = role_row(&roles[i].1);
        rows.push((roles[i].0.clone(), rules));
        i += 1;
    }
    proof {
        assert(pairs(rows@) =~= role_rows(listing(config.roles@)));
    }
    Roles::Rows(rows)
}

/// The settings tab.
#[derive(Debug, PartialEq, Eq)]
pub struct SettingsPage {
    /// The repository's name.
    pub name: String,
    /// Its default branch.
    pub branch: String,
    /// Who is signed in, and what they may do.
    pub banner: Banner,
    /// The general settings.
    pub general: General,
    /// The features.
    pub features: Vec<Feature>,
    /// The members.
    pub members: Card,
    /// The checks.
    pub checks: Card,
    /// The roles.
    pub roles: Roles,
}

/// The settings tab: a projection over the repository's meta refs. The General
/// fields are editable in place by a signed-in member when `editing` is set;
/// everything else is read-only.
pub fn settings_page(
    meta: &RepoMeta,
    auth: Option<&Auth>,
    editing: bool,
    members: Result<&[Member], String>,
    checks: Result<&[CheckDef], String>,
    config: Result<&Config, String>,
) -> (r: SettingsPage)
    ensures
        r.name@ == base_name(meta.rel@),
        r.branch@ == text_or(meta.branch, "\u{2014}"@),
        tells(r.banner, who(auth), editing),
        shows_general(r.general, *meta, who(auth), editing),
        shows_features(
            r.features@,
            *meta,
            match checks {
                Ok(all) => Some(all@.len() as usize),
                Err(_) => None,
            },
        ),
        is_card(r.members, "members"@, shown_members(members)),
        is_card(r.checks, "checks"@, shown_checks(checks)),
        shows_roles(r.roles, config),
{
    let count = match &checks {
        Ok(all) => Some(all.len()),
        Err(_) => None,
    };
    SettingsPage {
        name: meta.name(),
        branch: owned_or(&meta.branch, "\u{2014}"),
        banner: settings_auth_banner(auth, editing),
        general: general_settings(meta, auth, editing),
        features: features(meta, count),
        members: members_card(members),
        checks: checks_card(checks),
        roles: roles_card(config),
    }
}

/// The fields that the settings form posts.
pub open spec fn settings_fields(
    csrf: Seq<char>,
    description: Seq<char>,
    homepage: Seq<char>,
    topics: Seq<char>,
) -> Seq<(Seq<char>, Seq<char>)> {
    seq![
        ("csrf"@, csrf),
        ("description"@, description),
        ("homepage"@, homepage),
        ("topics"@, topics),
    ]
}

/// Law: the form that a session is offered, posted back by that session as it was
/// filled in, is taken for its own and changes nothing.
pub proof fn law_offered_form_is_taken(
    sessions: Map<Seq<char>, Session>,
    cookie: Option<Seq<char>>,
    description: Seq<char>,
    homepage: Seq<char>,
    topics: Seq<Seq<char>>,
)
    requires
        session_of(sessions, cookie) is Some,
        forall|i: int| 0 <= i < topics.len() ==> plain_topic(#[trigger] topics[i]),
    ensures
        ({
            let csrf = session_of(sessions, cookie)->0.csrf@;
            let body = encode_utf8(
                encoded_form(settings_fields(csrf, description, homepage, joined(topics, ", "@))),
            );
            &&& own_post(sessions, cookie, body)
            &&& field_or_empty(body, "description"@) == description
            &&& field_or_empty(body, "homepage"@) == homepage
            &&& listed_names(field_or_empty(body, "topics"@)) == topics
        }),
{
    let csrf = session_of(sessions, cookie)->0.csrf@;
    let list = joined(topics, ", "@);
    let all = settings_fields(csrf, description, homepage, list);
    law_form_round_trip(all);
    law_topics_survive_the_form(topics);
    reveal_strlit("csrf");
    reveal_strlit("description");
    reveal_strlit("homepage");
    reveal_strlit("topics");
    assert("csrf"@.len() == 4 && "description"@.len() == 11);
    assert("homepage"@.len() == 8 && "topics"@.len() == 6);
    let three = all.drop_last();
    let two = three.drop_last();
    let one = two.drop_last();
    let none = one.drop_last();
    assert(all.last() == ("topics"@, list));
    assert(three.last() == ("homepage"@, homepage));
    assert(two.last() == ("description"@, description));
    assert(one.last() == ("csrf"@, csrf));
    assert(none.len() == 0);
    assert(fields_map(one) == fields_map(none).insert("csrf"@, csrf));
    assert(fields_map(two) == fields_map(one).insert("description"@, description));
    assert(fields_map(three) == fields_map(two).insert("homepage"@, homepage));
    assert(fields_map(all) == fields_map(three).insert("topics"@, list));
}

/// Law: the labels that are offered are exactly those that some issue has.
pub proof fn law_labels_are_the_issues(issues: Seq<Issue>, label: Seq<char>)
    ensures
        all_labels(issues).contains(label) <==> exists|i: int|
            0 <= i < issues.len() && texts((#[trigger] issues[i]).labels@).contains(label),
    decreases issues.len(),
{
    if issues.len() > 0 {
        let less = issues.drop_last();
        let last = texts(issues.last().labels@);
        let front = all_labels(less);
        law_labels_are_the_issues(less, label);
        let all = front + last;
        if all.contains(label) {
            let k = choose|k: int| 0 <= k < all.len() && all[k] == label;
            if k < front.len() {
                assert(front[k] == label);
                let i = choose|i: int|
                    0 <= i < less.len() && texts((#[trigger] less[i]).labels@).contains(label);
                assert(texts(issues[i].labels@).contains(label));
            } else {
                assert(last[k - front.len()] == label);
                assert(texts(issues[issues.len() - 1].labels@).contains(label));
            }
        }
        if exists|i: int|
            0 <= i < issues.len() && texts((#[trigger] issues[i]).labels@).contains(label) {
            let i = choose|i: int|
                0 <= i < issues.len() && texts((#[trigger] issues[i]).labels@).contains(label);
            if i < less.len() {
                assert(texts(less[i].labels@).contains(label));
                let k = choose|k: int| 0 <= k < front.len() && front[k] == label;
                assert(all[k] == label);
            } else {
                let k = choose|k: int| 0 <= k < last.len() && last[k] == label;
                assert(all[front.len() + k] == label);
            }
        }
    }
}

/// Law: leaving out repetitions leaves out no label.
pub proof fn law_no_label_is_lost(sorted: Seq<Seq<char>>, label: Seq<char>)
    ensures
        deduped(sorted).contains(label) <==> sorted.contains(label),
    decreases sorted.len(),
{
    if sorted.len() > 0 {
        let less = sorted.drop_last();
        let front = deduped(less);
        law_no_label_is_lost(less, label);
        let repeats = sorted.len() > 1 && sorted[sorted.len() - 2] == sorted.last();
        if sorted.contains(label) {
            let k = choose|k: int| 0 <= k < sorted.len() && sorted[k] == label;
            if k < less.len() {
                assert(less[k] == label);
                let j = choose|j: int| 0 <= j < front.len() && front[j] == label;
                if !repeats {
                    assert(front.push(sorted.last())[j] == label);
                }
            } else if repeats {
                assert(less[sorted.len() - 2] == label);
            } else {
                assert(front.push(sorted.last())[front.len() as int] == label);
            }
        }
        if deduped(sorted).contains(label) {
            let all = deduped(sorted);
            let k = choose|k: int| 0 <= k < all.len() && all[k] == label;
            if k < front.len() {
                assert(front[k] == label);
                let j = choose|j: int| 0 <= j < less.len() && less[j] == label;
                assert(sorted[j] == label);
            } else {
                assert(sorted[sorted.len() - 1] == label);
            }
        }
    }
}

/// Law: the issues that are shown are those that are not closed, each with its
/// own title and labels.
pub proof fn law_open_issues_are_shown(issue: Issue)
    ensures
        open_row(issue) == (if issue.state@ == "closed"@ {
            None
        } else {
            Some((issue.title@, texts(issue.labels@)))
        }),
{
}

/// Law: who is signed in is told what they may do: edit, where they are a member
/// and the server takes edits; not edit, where either is wanting.
pub proof fn law_banner_tells_what_one_may_do(banner: Banner, auth: Option<Auth>, editing: bool)
    requires
        tells(banner, auth, editing),
    ensures
        banner is SignIn <==> auth is None,
        banner is CanEdit <==> (auth matches Some(who) && who.username is Some && editing),
        banner is NotMember <==> (auth matches Some(who) && who.username is None),
{
}

/// Law: a form is offered to those who may edit and to nobody else, filled in with
/// what is there; all others are shown what is there.
pub proof fn law_form_is_for_those_who_may_edit(
    shown: General,
    meta: RepoMeta,
    auth: Option<Auth>,
    editing: bool,
)
    requires
        shows_general(shown, meta, auth, editing),
    ensures
        shown is Form <==> (auth matches Some(who) && who.username is Some && editing),
        shown matches General::Form { action, csrf, description, homepage, topics } ==> action@
            == "/"@ + meta.rel@ + "/settings"@ && (auth matches Some(who) && csrf@ == who.csrf@)
            && (meta.description matches Some(text) ==> description@ == text@) && (
        meta.homepage matches Some(text) ==> homepage@ == text@),
        shown matches General::ReadOnly { description, homepage, topics } ==> (
        meta.description matches Some(text) ==> description@ == text@) && (
        meta.homepage matches Some(text) ==> homepage@ == text@) && texts(topics@) == texts(
            meta.topics@,
        ),
{
}

/// Law: a key is labelled by its type and its comment.
pub proof fn law_key_label_is_type_and_comment(kind: Seq<char>, body: Seq<char>, comment: Seq<char>)
    requires
        is_word(kind),
        is_word(body),
        is_word(comment),
    ensures
        key_label(kind + " "@ + body) == kind,
        key_label(kind + " "@ + body + " "@ + comment) == kind + " \u{b7} "@ + comment,
{
    let three = seq![kind, body, comment];
    let two = seq![kind, body];
    assert forall|i: int| 0 <= i < three.len() implies is_word(#[trigger] three[i]) by {}
    assert forall|i: int| 0 <= i < two.len() implies is_word(#[trigger] two[i]) by {}
    law_fields_undo_join(three);
    law_fields_undo_join(two);
    reveal_with_fuel(joined, 4);
    assert(three.drop_last() =~= two);
    assert(two.drop_last() =~= seq![kind]);
    assert(seq![kind].drop_last() =~= seq![]);
    assert(joined(two, " "@) =~= kind + " "@ + body);
    assert(joined(three, " "@) =~= kind + " "@ + body + " "@ + comment);
}

/// Law: a member is shown once for each of their keys, by their own name; all
/// members are shown, in order.
pub proof fn law_members_are_shown_by_key(
    members: Seq<Member>,
    more: Seq<Member>,
    member: Member,
    i: int,
)
    ensures
        members_texts(members + more) == members_texts(members) + members_texts(more),
        members_texts(seq![member]) == member_texts(member),
        !(member.trust is CertAuthority) ==> member_texts(member).len()
            == member.leaf_keys().len(),
        !(member.trust is CertAuthority) && 0 <= i < member.leaf_keys().len() ==> member_texts(
            member,
        )[i] == (member.principal@, key_label(member.leaf_keys()[i].1@)),
        member.trust matches Trust::CertAuthority(ca) ==> member_texts(member) == seq![
            (member.principal@, "cert-authority \u{b7} "@ + key_label(ca@)),
        ],
    decreases more.len(),
{
    let none: Seq<Member> = seq![];
    assert(seq![member].drop_last() =~= none);
    assert(members_texts(none) =~= Seq::empty());
    assert(members_texts(none) + member_texts(member) =~= member_texts(member));
    if more.len() == 0 {
        assert(members + more =~= members);
        assert(members_texts(members) + members_texts(more) =~= members_texts(members));
    } else {
        law_members_are_shown_by_key(members, more.drop_last(), member, i);
        assert((members + more).drop_last() =~= members + more.drop_last());
        assert((members + more).last() == more.last());
        assert(members_texts(members + more) =~= members_texts(members) + members_texts(more));
    }
}

/// Law: a card shows every row that there is, says that there is none, or says why
/// it cannot tell.
pub proof fn law_card_shows_every_row(
    card: Card,
    plural: Seq<char>,
    n: nat,
    rows: Seq<(Seq<char>, Seq<char>)>,
    error: Seq<char>,
)
    ensures
        is_card(card, plural, Ok((n, rows))) ==> (card is Empty <==> n == 0) && (
        card matches Card::Items(count, shown) ==> count == n && pairs(shown@) == rows),
        is_card(card, plural, Err(error)) ==> (card matches Card::Unreadable(message) && message@
            == "Could not read "@ + plural + ": "@ + error),
{
}

/// Law: a role is shown by what it may push to and what it may not.
pub proof fn law_role_is_shown_by_its_rules(rules: RoleRules)
    ensures
        rules.allow@.len() > 0 && rules.deny@.len() == 0 ==> role_text(rules) == "allow "@ + joined(
            texts(rules.allow@),
            ", "@,
        ),
        rules.allow@.len() == 0 && rules.deny@.len() > 0 ==> role_text(rules) == "deny "@ + joined(
            texts(rules.deny@),
            ", "@,
        ),
        rules.allow@.len() > 0 && rules.deny@.len() > 0 ==> role_text(rules) == "allow "@ + joined(
            texts(rules.allow@),
            ", "@,
        ) + " \u{b7} "@ + ("deny "@ + joined(texts(rules.deny@), ", "@)),
        rules.allow@.len() == 0 && rules.deny@.len() == 0 ==> role_text(rules) == "no rules"@,
{
}

} // verus!
