//! The member commands: listing members, authorizing and pinning keys, and
//! revoking them.

use vstd::prelude::*;

use crate::keyed::{TextMap, TextSet};
use crate::keys::{
    colon_hex, comment_on, key_body, key_comment, looks_like_fingerprint, opt_view, same_key,
};
use crate::members::{
    debug_form, debug_text, valid_timestamp, well_formed_timestamp, Member, MemberView, Provenance,
    Trust, TrustView,
};
use crate::revocations::Revocation;
use crate::seqs::{
    first_where, kept, lemma_first_where, lemma_first_where_is, lemma_kept_all, lemma_kept_from,
    lemma_kept_step,
};
use crate::text::{opt_text, same, starts, texts};

verus! {

/// The annotation of a validity window.
pub open spec fn window_note(after: Option<Seq<char>>, until: Option<Seq<char>>) -> Seq<char> {
    match (after, until) {
        (Some(after), Some(until)) => " (after "@ + after + ", before "@ + until + ")"@,
        (Some(after), None) => " (after "@ + after + ")"@,
        (None, Some(until)) => " (before "@ + until + ")"@,
        (None, None) => Seq::empty(),
    }
}

/// The trailing ` (after …, before …)` annotation for a member's validity
/// window, or nothing when it is unbounded, so an expiry that has been set is
/// visible at a glance.
pub fn window_suffix(member: &Member) -> (r: String)
    ensures
        r@ == window_note(opt_text(member.valid_after), opt_text(member.valid_before)),
{
    let mut r = String::new();
    match (&member.valid_after, &member.valid_before) {
        (Some(after), Some(until)) => {
            r.append(" (after ");
            r.append(after.as_str());
            r.append(", before ");
            r.append(until.as_str());
            r.append(")");
        },
        (Some(after), None) => {
            r.append(" (after ");
            r.append(after.as_str());
            r.append(")");
        },
        (None, Some(until)) => {
            r.append(" (before ");
            r.append(until.as_str());
            r.append(")");
        },
        (None, None) => {},
    }
    proof {
        assert(r@ =~= window_note(opt_text(member.valid_after), opt_text(member.valid_before)));
    }
    r
}

/// The line of one of a member's keys.
pub open spec fn key_line(
    member: Member,
    fingerprint: Seq<char>,
    key: Seq<char>,
    revoked: Set<Seq<char>>,
) -> Seq<char> {
    member.principal@ + "/"@ + fingerprint + "  "@ + comment_on(key) + window_note(
        opt_text(member.valid_after),
        opt_text(member.valid_before),
    ) + (if revoked.contains(fingerprint) {
        " [revoked]"@
    } else {
        Seq::empty()
    })
}

/// The lines of a member: one for a pinned CA, else one for each key.
pub open spec fn member_listing(member: Member, revoked: Set<Seq<char>>) -> Seq<Seq<char>> {
    match member.trust {
        Trust::CertAuthority(ca) => seq![
            member.principal@ + "  cert-authority "@ + comment_on(ca@) + window_note(
                opt_text(member.valid_after),
                opt_text(member.valid_before),
            ),
        ],
        _ => member.leaf_keys().map_values(
            |key: (Seq<char>, String)| key_line(member, key.0, key.1@, revoked),
        ),
    }
}

fn push_listing(member: &Member, revoked: &TextSet, out: &mut Vec<String>)
    ensures
        texts(final(out)@) == texts(old(out)@) + member_listing(*member, revoked@),
{
    let ghost start = texts(out@);
    let suffix = window_suffix(member);
    if let Some(ca) = member.ca() {
        let mut line = member.principal.clone();
        line.append("  cert-authority ");
        line.append(key_comment(ca).as_str());
        line.append(suffix.as_str());
        out.push(line);
        proof {
            assert(texts(out@) =~= start + member_listing(*member, revoked@));
        }
        return;
    }
    let keys = member.keys();
    let ghost view = |p: (&String, &String)| (p.0@, *p.1);
    let ghost all = member_listing(*member, revoked@);
    let mut i: usize = 0;
    proof {
        assert(keys@.map_values(view).len() == keys@.len());
        assert(start + all.take(0) =~= start);
    }
    while i < keys.len()
        invariant
            i <= keys@.len(),
            view == (|p: (&String, &String)| (p.0@, *p.1)),
            keys@.map_values(view) == member.leaf_keys(),
            !(member.trust is CertAuthority),
            all == member_listing(*member, revoked@),
            all.len() == keys@.len(),
            suffix@ == window_note(opt_text(member.valid_after), opt_text(member.valid_before)),
            texts(out@) == start + all.take(i as int),
        decreases keys@.len() - i,
    {
        proof {
            assert(keys@.map_values(view)[i as int] == (keys@[i as int].0@, *keys@[i as int].1));
        }
        let fingerprint = keys[i].0.as_str();
        let mut line = member.principal.clone();
        line.append("/");
        line.append(fingerprint);
        line.append("  ");
        line.append(key_comment(keys[i].1.as_str()).as_str());
        line.append(suffix.as_str());
        if revoked.contains(fingerprint) {
            line.append(" [revoked]");
        }
        proof {
            assert(line@ =~= all[i as int]);
        }
        let ghost prior = texts(out@);
        out.push(line);
        proof {
            assert(texts(out@) =~= prior.push(line@));
            assert(texts(out@) =~= start + all.take(i + 1));
        }
        i += 1;
    }
    proof {
        assert(all.take(all.len() as int) =~= all);
    }
}

/// The lines of members, one after the other.
pub open spec fn listings(members: Seq<Member>, revoked: Set<Seq<char>>) -> Seq<Seq<char>>
    decreases members.len(),
{
    if members.len() == 0 {
        Seq::empty()
    } else {
        listings(members.drop_last(), revoked) + member_listing(members.last(), revoked)
    }
}

/// Lists every member on a remote: one line per authorized key, or one
/// `cert-authority` line per pinned-CA member, the revoked keys flagged.
pub fn members_list(remote: &str, members: &[Member], revoked: &TextSet) -> (r: Vec<String>)
    ensures
        texts(r@) == (if members@.len() == 0 {
            seq!["no members on "@ + remote@ + " (open bootstrap window)"@]
        } else {
            listings(members@, revoked@)
        }),
{
    let mut r: Vec<String> = Vec::new();
    if members.len() == 0 {
        let mut line = "no members on ".to_owned();
        line.append(remote);
        line.append(" (open bootstrap window)");
        r.push(line);
        proof {
            assert(texts(r@) =~= seq!["no members on "@ + remote@ + " (open bootstrap window)"@]);
        }
        return r;
    }
    let mut i: usize = 0;
    proof {
        assert(texts(r@) =~= listings(members@.take(0), revoked@));
    }
    while i < members.len()
        invariant
            i <= members@.len(),
            texts(r@) == listings(members@.take(i as int), revoked@),
        decreases members@.len() - i,
    {
        proof {
            assert(members@.take(i + 1).drop_last() =~= members@.take(i as int));
            assert(members@.take(i + 1).last() == members@[i as int]);
        }
        push_listing(&members[i], revoked, &mut r);
        i += 1;
    }
    proof {
        assert(members@.take(members@.len() as int) =~= members@);
    }
    r
}

/// A revocation as plain values.
pub open spec fn revocation_views(v: Seq<Revocation>) -> Seq<(Seq<char>, Seq<char>)> {
    v.map_values(|r: Revocation| (r.fingerprint@, r.reason@))
}

/// Whether an entry of the deny list is of a fingerprint.
pub open spec fn is_of(entry: (Seq<char>, Seq<char>), fingerprint: Seq<char>) -> bool {
    entry.0 == fingerprint
}

/// An entry of the deny list, unless it is of a fingerprint.
pub open spec fn unless_of(entry: (Seq<char>, Seq<char>), fingerprint: Seq<char>) -> Option<
    (Seq<char>, Seq<char>),
> {
    if is_of(entry, fingerprint) {
        None
    } else {
        Some(entry)
    }
}

/// The deny list with a fingerprint on it: its reason replaced where it is
/// already there.
pub open spec fn with_revoked(
    list: Seq<(Seq<char>, Seq<char>)>,
    fingerprint: Seq<char>,
    reason: Seq<char>,
) -> Seq<(Seq<char>, Seq<char>)> {
    let i = first_where(list, |r: (Seq<char>, Seq<char>)| is_of(r, fingerprint));
    if i < list.len() {
        list.update(i, (fingerprint, reason))
    } else {
        list.push((fingerprint, reason))
    }
}

/// The message for a text that is no fingerprint.
pub open spec fn no_fingerprint(text: Seq<char>) -> Seq<char> {
    debug_form(text)
        + " does not look like a key fingerprint (expected colon-hex form, e.g. aa:bb:cc:..., as `members list` prints)"@
}

/// Refuses what is no fingerprint.
pub fn check_fingerprint(fingerprint: &str) -> (r: Result<(), String>)
    ensures
        match r {
            Ok(_) => colon_hex(fingerprint@),
            Err(message) => !colon_hex(fingerprint@) && message@ == no_fingerprint(fingerprint@),
        },
{
    if looks_like_fingerprint(fingerprint) {
        Ok(())
    } else {
        let mut message = debug_text(fingerprint);
        message.append(
            " does not look like a key fingerprint (expected colon-hex form, e.g. aa:bb:cc:..., as `members list` prints)",
        );
        Err(message)
    }
}

/// The question to be asked before a key is revoked: only of one's own, since
/// revoking that may lock one out.
pub fn revoke_question(fingerprint: &str, own: Option<&str>, remote: &str) -> (r: Option<String>)
    ensures
        opt_text(r) == (match own {
            Some(own) if own@ == fingerprint@ => Some(
                fingerprint@ + " is your own signing key; revoking it may lock you out of "@
                    + remote@ + ". Continue?"@,
            ),
            _ => None,
        }),
{
    match own {
        Some(own) => if same(own, fingerprint) {
            let mut question = fingerprint.to_owned();
            question.append(" is your own signing key; revoking it may lock you out of ");
            question.append(remote);
            question.append(". Continue?");
            Some(question)
        } else {
            None
        },
        None => None,
    }
}

/// Adds a fingerprint to the deny list, so the key is refused before its window
/// would expire.
pub fn members_revoke(revocations: Vec<Revocation>, fingerprint: &str, reason: String) -> (r: Vec<
    Revocation,
>)
    ensures
        revocation_views(r@) == with_revoked(
            revocation_views(revocations@),
            fingerprint@,
            reason@,
        ),
{
    let ghost all = revocation_views(revocations@);
    let ghost p = |r: (Seq<char>, Seq<char>)| is_of(r, fingerprint@);
    let mut list = revocations;
    let mut i: usize = 0;
    while i < list.len()
        invariant
            i <= list@.len(),
            all == revocation_views(list@),
            all == revocation_views(revocations@),
            p == (|r: (Seq<char>, Seq<char>)| is_of(r, fingerprint@)),
            forall|j: int| 0 <= j < i ==> !p(#[trigger] all[j]),
        decreases list@.len() - i,
    {
        proof {
            assert(all[i as int] == (list@[i as int].fingerprint@, list@[i as int].reason@));
        }
        if same(list[i].fingerprint.as_str(), fingerprint) {
            proof {
                lemma_first_where_is(all, p, i as int);
            }
            list.set(i, Revocation { fingerprint: fingerprint.to_owned(), reason });
            proof {
                assert(revocation_views(list@) =~= with_revoked(all, fingerprint@, reason@));
            }
            return list;
        }
        i += 1;
    }
    proof {
        lemma_first_where_is(all, p, i as int);
    }
    list.push(Revocation { fingerprint: fingerprint.to_owned(), reason });
    proof {
        assert(revocation_views(list@) =~= with_revoked(all, fingerprint@, reason@));
    }
    list
}

/// The deny list without a fingerprint.
pub open spec fn without_revocation(list: Seq<(Seq<char>, Seq<char>)>, fingerprint: Seq<char>) -> Seq<
    (Seq<char>, Seq<char>),
> {
    kept(
        list,
        |r: (Seq<char>, Seq<char>)| unless_of(r, fingerprint),
    )
}

/// Takes a fingerprint off the deny list, or says that it is not on it.
pub fn members_unrevoke(revocations: Vec<Revocation>, fingerprint: &str, remote: &str) -> (r: Result<
    Vec<Revocation>,
    String,
>)
    ensures
        ({
            let list = revocation_views(revocations@);
            let left = without_revocation(list, fingerprint@);
            if left.len() == list.len() {
                r matches Err(message) && message@ == fingerprint@ + " is not revoked on "@
                    + remote@
            } else {
                r matches Ok(kept) && revocation_views(kept@) == left
            }
        }),
{
    let count: usize = revocations.len();
    let ghost all = revocation_views(revocations@);
    let ghost f = |r: (Seq<char>, Seq<char>)| unless_of(r, fingerprint@);
    let ghost given = revocations@;
    let mut left: Vec<Revocation> = Vec::new();
    proof {
        assert(revocation_views(left@) =~= kept(all.take(0), f));
    }
    for revocation in it: revocations
        invariant
            it.seq() == given,
            all == revocation_views(given),
            f == (|r: (Seq<char>, Seq<char>)| unless_of(r, fingerprint@)),
            revocation_views(left@) == kept(all.take(it.index()), f),
    {
        proof {
            lemma_kept_step(all, f, it.index());
            assert(all[it.index()] == (revocation.fingerprint@, revocation.reason@));
        }
        if !same(revocation.fingerprint.as_str(), fingerprint) {
            let ghost prior = left@;
            left.push(revocation);
            proof {
                assert(revocation_views(left@) =~= revocation_views(prior).push(
                    (revocation.fingerprint@, revocation.reason@),
                ));
            }
        }
    }
    proof {
        assert(all.take(all.len() as int) =~= all);
        assert(revocation_views(left@).len() == left@.len());
    }
    if left.len() == count {
        let mut message = fingerprint.to_owned();
        message.append(" is not revoked on ");
        message.append(remote);
        return Err(message);
    }
    Ok(left)
}

/// A fingerprint whose revocation was lifted is on the list no more.
pub proof fn law_lifted_revocation_is_gone(
    list: Seq<(Seq<char>, Seq<char>)>,
    fingerprint: Seq<char>,
    i: int,
)
    requires
        0 <= i < without_revocation(list, fingerprint).len(),
    ensures
        without_revocation(list, fingerprint)[i].0 != fingerprint,
{
    let f = |r: (Seq<char>, Seq<char>)| unless_of(r, fingerprint);
    let k = lemma_kept_from(list, f, i);
}

/// Lifting a revocation leaves the list as it was before it.
pub proof fn law_unrevoke_undoes_revoke(
    list: Seq<(Seq<char>, Seq<char>)>,
    fingerprint: Seq<char>,
    reason: Seq<char>,
)
    requires
        forall|i: int| 0 <= i < list.len() ==> !is_of(#[trigger] list[i], fingerprint),
    ensures
        without_revocation(with_revoked(list, fingerprint, reason), fingerprint) == list,
{
    let p = |r: (Seq<char>, Seq<char>)| is_of(r, fingerprint);
    let f = |r: (Seq<char>, Seq<char>)| unless_of(r, fingerprint);
    lemma_first_where_is(list, p, list.len() as int);
    let revoked = with_revoked(list, fingerprint, reason);
    assert(revoked.drop_last() =~= list);
    lemma_kept_all(list, f, list);
}

/// A revoked fingerprint is on the list.
pub proof fn law_revoked_is_listed(
    list: Seq<(Seq<char>, Seq<char>)>,
    fingerprint: Seq<char>,
    reason: Seq<char>,
)
    ensures
        with_revoked(list, fingerprint, reason).contains((fingerprint, reason)),
{
    let p = |r: (Seq<char>, Seq<char>)| is_of(r, fingerprint);
    lemma_first_where(list, p);
    let i = first_where(list, p);
    let revoked = with_revoked(list, fingerprint, reason);
    if i < list.len() {
        assert(revoked[i] == (fingerprint, reason));
    } else {
        assert(revoked[list.len() as int] == (fingerprint, reason));
    }
}

/// What a new member's trust rests on, as far as it is settled.
#[derive(Debug, PartialEq, Eq)]
pub enum TrustSource {
    /// A key's path, or the configured key.
    Key(Option<String>),
    /// A certificate authority's path.
    CertAuthority(String),
    /// It is to be asked.
    Ask,
}

/// Settles what a member's trust rests on: as given when either flag is set or
/// nobody can be asked, so scripted runs are unchanged.
pub fn resolve_trust(
    key: Option<String>,
    cert_authority: Option<String>,
    interactive: bool,
) -> (r: Result<TrustSource, &'static str>)
    ensures
        match (key, cert_authority) {
            (Some(_), Some(_)) => r matches Err(message) && message@
                == "--key conflicts with --cert-authority"@,
            (Some(path), None) => r == Ok::<TrustSource, &'static str>(
                TrustSource::Key(Some(path)),
            ),
            (None, Some(path)) => r == Ok::<TrustSource, &'static str>(
                TrustSource::CertAuthority(path),
            ),
            (None, None) => r == Ok::<TrustSource, &'static str>(
                if interactive {
                    TrustSource::Ask
                } else {
                    TrustSource::Key(None)
                },
            ),
        },
{
    match (key, cert_authority) {
        (Some(_), Some(_)) => Err("--key conflicts with --cert-authority"),
        (Some(path), None) => Ok(TrustSource::Key(Some(path))),
        (None, Some(path)) => Ok(TrustSource::CertAuthority(path)),
        (None, None) => if interactive {
            Ok(TrustSource::Ask)
        } else {
            Ok(TrustSource::Key(None))
        },
    }
}

/// Refuses, ahead of any network access, a bound that is no timestamp.
pub fn validate_timestamp(value: &str) -> (r: Result<(), String>)
    ensures
        match r {
            Ok(_) => well_formed_timestamp(value@),
            Err(message) => !well_formed_timestamp(value@) && message@ == "invalid timestamp "@
                + debug_form(value@) + ": expected YYYYMMDD[Z] or YYYYMMDDHHMM[SS][Z]"@,
        },
{
    if valid_timestamp(value) {
        Ok(())
    } else {
        let mut message = "invalid timestamp ".to_owned();
        message.append(debug_text(value).as_str());
        message.append(": expected YYYYMMDD[Z] or YYYYMMDDHHMM[SS][Z]");
        Err(message)
    }
}

/// A value that was given, or the one there was.
pub open spec fn given_or(given: Option<Seq<char>>, there: Option<Seq<char>>) -> Option<Seq<char>> {
    if given is Some {
        given
    } else {
        there
    }
}

/// The member that is edited: the one there is, or a new one without keys, with
/// what was given put in.
pub fn member_to_edit(
    existing: Option<Member>,
    username: &str,
    valid_after: Option<String>,
    valid_before: Option<String>,
    account: Option<String>,
) -> (r: Member)
    ensures
        match existing {
            Some(member) => r@ == (MemberView {
                valid_after: given_or(opt_text(valid_after), member@.valid_after),
                valid_before: given_or(opt_text(valid_before), member@.valid_before),
                account: given_or(opt_text(account), member@.account),
                ..member@
            }),
            None => r@ == (MemberView {
                principal: username@,
                valid_after: opt_text(valid_after),
                valid_before: opt_text(valid_before),
                trust: TrustView::Keys(Map::empty()),
                provenance: Provenance::AdminRegistered,
                account: opt_text(account),
            }),
        },
{
    let mut member = match existing {
        Some(member) => member,
        None => Member::with_keys(username.to_owned(), TextMap::new()),
    };
    if valid_after.is_some() {
        member.valid_after = valid_after;
    }
    if valid_before.is_some() {
        member.valid_before = valid_before;
    }
    if account.is_some() {
        member.account = account;
    }
    member
}

/// Pins a certificate authority for a member. It replaces their trust
/// wholesale: a member is either leaf keys or a CA, never both.
pub fn pin_authority(member: Member, ca: String) -> (r: Member)
    ensures
        r@ == (MemberView { trust: TrustView::CertAuthority(ca@), ..member@ }),
{
    let mut member = member;
    member.trust = Trust::CertAuthority(ca);
    member
}

/// What came of authorizing a key for a member.
#[derive(Debug, PartialEq, Eq)]
pub enum Authorized {
    /// The key was there already.
    Already,
    /// The member with the key.
    Added(Member),
}

/// Whether a key is among a member's, whatever comment it carries.
pub open spec fn has_key(member: Member, public_key: Seq<char>) -> bool {
    exists|i: int|
        0 <= i < member.leaf_keys().len() && key_body((#[trigger] member.leaf_keys()[i]).1@)
            == key_body(public_key)
}

/// Whether a key is among a member's.
pub fn holds_public_key(member: &Member, public_key: &str) -> (r: bool)
    ensures
        r == has_key(*member, public_key@),
{
    let keys = member.keys();
    let ghost view = |p: (&String, &String)| (p.0@, *p.1);
    let mut i: usize = 0;
    while i < keys.len()
        invariant
            i <= keys@.len(),
            view == (|p: (&String, &String)| (p.0@, *p.1)),
            keys@.map_values(view) == member.leaf_keys(),
            forall|j: int|
                0 <= j < i ==> key_body((#[trigger] member.leaf_keys()[j]).1@) != key_body(
                    public_key@,
                ),
        decreases keys@.len() - i,
    {
        proof {
            assert(keys@.map_values(view)[i as int] == (keys@[i as int].0@, *keys@[i as int].1));
        }
        if same_key(keys[i].1.as_str(), public_key) {
            proof {
                assert(key_body(member.leaf_keys()[i as int].1@) == key_body(public_key@));
            }
            return true;
        }
        i += 1;
    }
    proof {
        assert(keys@.map_values(view).len() == keys@.len());
    }
    false
}

/// Authorizes a key for a member, or says why it cannot be: a member pinned to a
/// certificate authority, and one who only has passkeys, take no leaf keys.
pub fn members_add(member: Member, username: &str, fingerprint: &str, public_key: String) -> (r:
    Result<Authorized, String>)
    ensures
        match member.trust {
            Trust::CertAuthority(_) => r matches Err(message) && message@ == username@
                + " is pinned to a certificate authority; revoke and re-add to switch to leaf keys"@,
            Trust::WebAuthn(_) => r matches Err(message) && message@ == username@
                + " is a self-attested WebAuthn member; an admin must promote them before adding leaf keys"@,
            Trust::Keys(keys) => if has_key(member, public_key@) {
                r matches Ok(Authorized::Already)
            } else {
                r matches Ok(Authorized::Added(added)) && added@ == (MemberView {
                    trust: TrustView::Keys(keys@.insert(fingerprint@, public_key)),
                    ..member@
                })
            },
        },
{
    let there = holds_public_key(&member, public_key.as_str());
    let Member { principal, valid_after, valid_before, trust, provenance, account } = member;
    match trust {
        Trust::CertAuthority(_) => {
            let mut message = username.to_owned();
            message.append(
                " is pinned to a certificate authority; revoke and re-add to switch to leaf keys",
            );
            Err(message)
        },
        Trust::WebAuthn(_) => {
            let mut message = username.to_owned();
            message.append(
                " is a self-attested WebAuthn member; an admin must promote them before adding leaf keys",
            );
            Err(message)
        },
        Trust::Keys(keys) => {
            if there {
                return Ok(Authorized::Already);
            }
            let mut keys = keys;
            keys.insert(fingerprint.to_owned(), public_key);
            Ok(
                Authorized::Added(
                    Member {
                        principal,
                        valid_after,
                        valid_before,
                        trust: Trust::Keys(keys),
                        provenance,
                        account,
                    },
                ),
            )
        },
    }
}

/// Authorizing a key takes none of a member's other keys away.
pub proof fn law_authorizing_keeps_other_keys(
    keys: Map<Seq<char>, String>,
    fingerprint: Seq<char>,
    public_key: String,
    other: Seq<char>,
)
    requires
        keys.contains_key(other),
        other != fingerprint,
    ensures
        keys.insert(fingerprint, public_key).contains_key(other),
        keys.insert(fingerprint, public_key)[other] == keys[other],
        keys.insert(fingerprint, public_key)[fingerprint] == public_key,
{
}

/// The member that holds a key, if there is one.
pub open spec fn key_holder(members: Seq<Member>, public_key: Seq<char>) -> Option<Member> {
    let i = first_where(members, |m: Member| has_key(m, public_key));
    if i < members.len() {
        Some(members[i])
    } else {
        None
    }
}

/// Reports whether a key is a member's on a remote.
pub fn check(remote: &str, members: &[Member], public_key: &str, fingerprint: &str) -> (r: String)
    ensures
        r@ == remote@ + ": "@ + (if members@.len() == 0 {
            "open bootstrap window (no members yet)"@
        } else {
            match key_holder(members@, public_key@) {
                Some(member) => fingerprint@ + " is a member ("@ + member.principal@ + ")"@,
                None => fingerprint@ + " is NOT a member"@,
            }
        }),
{
    let mut r = remote.to_owned();
    r.append(": ");
    let ghost start = r@;
    if members.len() == 0 {
        r.append("open bootstrap window (no members yet)");
        return r;
    }
    let ghost p = |m: Member| has_key(m, public_key@);
    let mut i: usize = 0;
    while i < members.len()
        invariant
            i <= members@.len(),
            members@.len() > 0,
            r@ == start,
            start == remote@ + ": "@,
            p == (|m: Member| has_key(m, public_key@)),
            forall|j: int| 0 <= j < i ==> !p(#[trigger] members@[j]),
        decreases members@.len() - i,
    {
        if holds_public_key(&members[i], public_key) {
            proof {
                lemma_first_where_is(members@, p, i as int);
            }
            let mut found = fingerprint.to_owned();
            found.append(" is a member (");
            found.append(members[i].principal.as_str());
            found.append(")");
            r.append(found.as_str());
            return r;
        }
        i += 1;
    }
    proof {
        lemma_first_where_is(members@, p, i as int);
    }
    let mut found = fingerprint.to_owned();
    found.append(" is NOT a member");
    r.append(found.as_str());
    r
}

/// A setting as it is reported.
pub open spec fn shown(setting: Option<Seq<char>>) -> Seq<char> {
    match setting {
        Some(value) => value,
        None => "(unset)"@,
    }
}

/// Reports how a client is configured to sign.
pub fn client_line(format: Option<&str>, key: Option<&str>, sign: Option<&str>) -> (r: String)
    ensures
        r@ == "client: gpg.format="@ + shown(opt_view(format))
            + ", user.signingkey="@ + shown(opt_view(key)) + ", push.gpgSign="@
            + shown(opt_view(sign)),
{
    let mut r = "client: gpg.format=".to_owned();
    r.append(or_unset(format));
    r.append(", user.signingkey=");
    r.append(or_unset(key));
    r.append(", push.gpgSign=");
    r.append(or_unset(sign));
    r
}

fn or_unset<'a>(setting: Option<&'a str>) -> (r: &'a str)
    ensures
        r@ == shown(opt_view(setting)),
{
    match setting {
        Some(value) => value,
        None => "(unset)",
    }
}

/// Law: lifting a revocation takes away the entries of that fingerprint and
/// leaves all others, in their order; revoking changes the entries of that
/// fingerprint only.
pub proof fn law_revocations_touch_one_key(
    list: Seq<(Seq<char>, Seq<char>)>,
    fingerprint: Seq<char>,
    reason: Seq<char>,
)
    ensures
        without_revocation(list, fingerprint) == list.filter(
            |entry: (Seq<char>, Seq<char>)| entry.0 != fingerprint,
        ),
        without_revocation(with_revoked(list, fingerprint, reason), fingerprint)
            == without_revocation(list, fingerprint),
        with_revoked(list, fingerprint, reason).contains((fingerprint, reason)),
{
    lemma_without_is_filter(list, fingerprint);
    law_revoked_is_listed(list, fingerprint, reason);
    let p = |r: (Seq<char>, Seq<char>)| is_of(r, fingerprint);
    let f = |r: (Seq<char>, Seq<char>)| unless_of(r, fingerprint);
    crate::seqs::lemma_first_where(list, p);
    let i = first_where(list, p);
    let now = with_revoked(list, fingerprint, reason);
    if i < list.len() {
        let front = list.take(i);
        let back = list.skip(i + 1);
        assert(list =~= front + seq![list[i]] + back);
        assert(now =~= front + seq![(fingerprint, reason)] + back);
        crate::seqs::lemma_kept_concat(front + seq![list[i]], back, f);
        crate::seqs::lemma_kept_concat(front, seq![list[i]], f);
        crate::seqs::lemma_kept_concat(front + seq![(fingerprint, reason)], back, f);
        crate::seqs::lemma_kept_concat(front, seq![(fingerprint, reason)], f);
        let none: Seq<(Seq<char>, Seq<char>)> = seq![];
        assert(seq![list[i]].drop_last() =~= none);
        assert(seq![(fingerprint, reason)].drop_last() =~= none);
        assert(kept(none, f) =~= none);
        assert(kept(seq![list[i]], f) =~= none);
        assert(kept(seq![(fingerprint, reason)], f) =~= none);
    } else {
        assert(now.drop_last() =~= list);
        assert(now.last() == (fingerprint, reason));
    }
}

proof fn lemma_without_is_filter(list: Seq<(Seq<char>, Seq<char>)>, fingerprint: Seq<char>)
    ensures
        without_revocation(list, fingerprint) == list.filter(
            |entry: (Seq<char>, Seq<char>)| entry.0 != fingerprint,
        ),
    decreases list.len(),
{
    reveal(Seq::filter);
    if list.len() > 0 {
        lemma_without_is_filter(list.drop_last(), fingerprint);
    }
}

/// Law: a key's line in the list of members begins with who it is of and its
/// fingerprint, and says of a revoked key, beyond what it says of any, that it is
/// revoked.
pub proof fn law_listing_marks_the_revoked(
    member: Member,
    fingerprint: Seq<char>,
    key: Seq<char>,
    revoked: Set<Seq<char>>,
)
    ensures
        key_line(member, fingerprint, key, revoked.insert(fingerprint)) == key_line(
            member,
            fingerprint,
            key,
            revoked.remove(fingerprint),
        ) + " [revoked]"@,
        revoked.contains(fingerprint) ==> key_line(member, fingerprint, key, revoked) == key_line(
            member,
            fingerprint,
            key,
            revoked.insert(fingerprint),
        ),
        !revoked.contains(fingerprint) ==> key_line(member, fingerprint, key, revoked) == key_line(
            member,
            fingerprint,
            key,
            revoked.remove(fingerprint),
        ),
        starts(
            key_line(member, fingerprint, key, revoked),
            member.principal@ + "/"@ + fingerprint + "  "@ + comment_on(key),
        ),
{
    let head = member.principal@ + "/"@ + fingerprint + "  "@ + comment_on(key);
    let line = key_line(member, fingerprint, key, revoked);
    assert(line.take(head.len() as int) =~= head);
    let note = window_note(opt_text(member.valid_after), opt_text(member.valid_before));
    assert(key_line(member, fingerprint, key, revoked.remove(fingerprint)) =~= head + note);
    assert(key_line(member, fingerprint, key, revoked.insert(fingerprint)) =~= head + note
        + " [revoked]"@);
}

/// Law: a key is a member's where one of the keys in their table is the same but
/// for the comment.
pub proof fn law_member_holds_what_is_in_the_table(member: Member, public_key: Seq<char>)
    requires
        member.trust matches Trust::Keys(keys) ==> keys@.dom().finite(),
    ensures
        has_key(member, public_key) <==> (member.trust matches Trust::Keys(keys) && exists|
            fingerprint: Seq<char>,
        | #[trigger] keys@.contains_key(fingerprint) && key_body(keys@[fingerprint]@) == key_body(
            public_key,
        )),
{
    if let Trust::Keys(keys) = member.trust {
        let list = member.leaf_keys();
        if has_key(member, public_key) {
            let i = choose|i: int|
                0 <= i < list.len() && key_body((#[trigger] list[i]).1@) == key_body(public_key);
            crate::members::law_leaf_keys_are_the_members(member, list[i].0, list[i].1);
            assert(list.contains(list[i]));
            assert(keys@.contains_key(list[i].0));
        }
        if exists|fingerprint: Seq<char>| #[trigger]
            keys@.contains_key(fingerprint) && key_body(keys@[fingerprint]@) == key_body(
                public_key,
            ) {
            let fingerprint = choose|fingerprint: Seq<char>| #[trigger]
                keys@.contains_key(fingerprint) && key_body(keys@[fingerprint]@) == key_body(
                    public_key,
                );
            let key = keys@[fingerprint];
            crate::members::law_leaf_keys_are_the_members(member, fingerprint, key);
            let i = choose|i: int| 0 <= i < list.len() && list[i] == (fingerprint, key);
            assert(key_body(list[i].1@) == key_body(public_key));
        }
    }
}

/// Law: who a key is reported to be is a member that holds it, the first, and it
/// is reported to be nobody's only where none does.
pub proof fn law_reported_member_holds_the_key(members: Seq<Member>, public_key: Seq<char>)
    ensures
        match key_holder(members, public_key) {
            Some(member) => exists|i: int|
                0 <= i < members.len() && (#[trigger] members[i]) == member && has_key(
                    member,
                    public_key,
                ) && forall|j: int| 0 <= j < i ==> !has_key(#[trigger] members[j], public_key),
            None => forall|j: int|
                0 <= j < members.len() ==> !has_key(#[trigger] members[j], public_key),
        },
{
    let p = |m: Member| has_key(m, public_key);
    crate::seqs::lemma_first_where(members, p);
    let i = first_where(members, p);
    assert forall|j: int| 0 <= j < i implies !has_key(#[trigger] members[j], public_key) by {
        assert(!p(members[j]));
    }
    if i < members.len() {
        assert(p(members[i]));
        assert(has_key(members[i], public_key));
    }
}

} // verus!
