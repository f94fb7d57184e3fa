//! The repository's members, sourced from the `refs/meta/member/*` refs.
//!
//! A *member* is one person whose signed pushes the repository accepts. The
//! OpenSSH `allowed_signers` file this module renders keeps that name because it
//! is OpenSSH's own format term, but everything else here is framed as members.
//!
//! Each member carries an optional `valid-after`/`valid-before` window rendered
//! into the `allowed_signers` file git verifies pushes against: an un-refreshed
//! member stops authorizing new pushes once it lapses.
//!
//! A member can also onboard through the browser by proving control of a
//! passkey. [`Trust::WebAuthn`] records that credential set, but authorizes web
//! sign-in only: such a member has no keys and no `allowed_signers` line, so it
//! cannot push at all.

use vstd::prelude::*;
use vstd::seq_lib::lemma_flatten_concat;

use crate::component::{self, is_loaded, item_values, items_under};
use crate::documents::{list_value, MemberValue, Node, Stored};
use crate::keyed::{
    before, entry_texts, is_listing, law_digits_order_as_numbers, lemma_finite_listing, listing,
    precedes, TextMap, TextSet,
};
use crate::seqs::{kept, lemma_kept_from, lemma_kept_has, lemma_kept_step};
use crate::text::{
    all_digits, before_suffix, chars_of, decimal_value, ends, fields_of, is_digit, is_white,
    is_word, join, joined, law_split_undoes_join, lemma_fields_front, opt_text, split_on,
    strip_suffix, texts,
};

verus! {

/// The namespace whose refs hold the member set, the push trust root: one
/// `refs/meta/member/<username>` ref per person.
pub const MEMBER_NS: &'static str = "refs/meta/member";

/// The ref holding the member named `username`.
pub fn member_ref(username: &str) -> (r: String)
    ensures
        r@ == MEMBER_NS@ + "/"@ + username@,
{
    let mut r = MEMBER_NS.to_owned();
    r.append("/");
    r.append(username);
    r
}

/// Whether a member was admin-registered or self-attested via web onboarding.
#[derive(Debug, Clone, Copy, PartialEq, Eq, Structural)]
pub enum Provenance {
    /// Added by an admin (a CLI action). Fully trusted.
    AdminRegistered,
    /// Onboarded through the browser by proving a passkey, with no admin
    /// action. Limited trust until an admin promotes them.
    SelfAttestedWeb,
}

impl Default for Provenance {
    fn default() -> (r: Provenance)
        ensures
            r == Provenance::AdminRegistered,
    {
        Provenance::AdminRegistered
    }
}

/// A WebAuthn passkey credential, in COSE form, with a human-readable label.
#[derive(Debug, Clone, PartialEq, Eq)]
pub struct WebAuthnKey {
    /// The credential's public key, in COSE form.
    pub cose_key: String,
    /// A human-readable label (e.g. the authenticator's name).
    pub label: String,
}

/// What a member's trust rests on: a set of leaf keys, a pinned certificate
/// authority, or a set of WebAuthn passkeys.
#[derive(Debug, Clone, PartialEq, Eq)]
pub enum Trust {
    /// A set of leaf signing keys, mapping each fingerprint to its OpenSSH
    /// public key.
    Keys(TextMap<String>),
    /// A pinned certificate authority's OpenSSH public key: any certificate it
    /// issues for the member's principal is trusted.
    CertAuthority(String),
    /// A set of passkey credentials, keyed by credential id. Authorizes browser
    /// sign-in only.
    WebAuthn(TextMap<WebAuthnKey>),
}

/// One member: a person named by their `refs/meta/member/<principal>` ref, the
/// window their trust holds within, and the keys it rests on.
#[derive(Debug, Clone, PartialEq, Eq)]
pub struct Member {
    /// The member's username, the ref's last segment.
    pub principal: String,
    /// The OpenSSH timestamp (`YYYYMMDD[Z]` or `YYYYMMDDHHMM[SS][Z]`) at or
    /// after which the member is trusted, or `None` for no lower bound.
    pub valid_after: Option<String>,
    /// The OpenSSH timestamp at or before which the member is trusted, or
    /// `None` for trust that never lapses on its own.
    pub valid_before: Option<String>,
    /// What the member's trust rests on.
    pub trust: Trust,
    /// Whether the member was admin-registered or self-attested via web
    /// onboarding.
    pub provenance: Provenance,
    /// The account this member is, by its stable genesis hash; `None` until an
    /// admin links one.
    pub account: Option<String>,
}

/// A member's trust in mathematical terms.
pub enum TrustView {
    /// Leaf keys by fingerprint.
    Keys(Map<Seq<char>, String>),
    /// A certificate authority's key.
    CertAuthority(Seq<char>),
    /// Passkeys by credential id.
    WebAuthn(Map<Seq<char>, WebAuthnKey>),
}

/// A member in mathematical terms.
pub struct MemberView {
    /// The username.
    pub principal: Seq<char>,
    /// The lower bound.
    pub valid_after: Option<Seq<char>>,
    /// The upper bound.
    pub valid_before: Option<Seq<char>>,
    /// What the trust rests on.
    pub trust: TrustView,
    /// How the member came in.
    pub provenance: Provenance,
    /// The account.
    pub account: Option<Seq<char>>,
}

impl View for Trust {
    type V = TrustView;

    open spec fn view(&self) -> TrustView {
        match self {
            Trust::Keys(keys) => TrustView::Keys(keys@),
            Trust::CertAuthority(ca) => TrustView::CertAuthority(ca@),
            Trust::WebAuthn(keys) => TrustView::WebAuthn(keys@),
        }
    }
}

impl View for Member {
    type V = MemberView;

    open spec fn view(&self) -> MemberView {
        MemberView {
            principal: self.principal@,
            valid_after: opt_text(self.valid_after),
            valid_before: opt_text(self.valid_before),
            trust: self.trust@,
            provenance: self.provenance,
            account: opt_text(self.account),
        }
    }
}

/// The views of a sequence of members.
pub open spec fn member_views(v: Seq<Member>) -> Seq<MemberView> {
    v.map_values(|m: Member| m@)
}

/// The text that `Debug` writes for a string.
pub uninterp spec fn debug_form(s: Seq<char>) -> Seq<char>;

/// `format!` with `{:?}` writes a string in quotes, with what would not print
/// escaped. Which characters are escaped, and how, is left unsaid.
#[verifier::external_body]
pub(crate) fn debug_text(s: &str) -> (r: String)
    ensures
        r@ == debug_form(s@),
{
    format!("{:?}", s)
}

/// The digits of a timestamp: what comes before a `Z` that may end it.
pub open spec fn timestamp_digits(value: Seq<char>) -> Seq<char> {
    match before_suffix(value, "Z"@) {
        Some(digits) => digits,
        None => value,
    }
}

/// Whether `value` is a well-formed OpenSSH timestamp.
pub open spec fn well_formed_timestamp(value: Seq<char>) -> bool {
    let digits = timestamp_digits(value);
    (digits.len() == 8 || digits.len() == 12 || digits.len() == 14) && all_digits(digits)
}

/// Whether `value` is a well-formed OpenSSH `allowed_signers` timestamp:
/// `YYYYMMDD`, `YYYYMMDDHHMM`, or `YYYYMMDDHHMMSS`, each optionally suffixed
/// `Z` for UTC.
pub fn valid_timestamp(value: &str) -> (r: bool)
    ensures
        r == well_formed_timestamp(value@),
{
    let digits = match strip_suffix(value, "Z") {
        Some(digits) => digits,
        None => value,
    };
    let v = chars_of(digits);
    let n: usize = v.len();
    if n != 8 && n != 12 && n != 14 {
        return false;
    }
    let mut i: usize = 0;
    while i < n
        invariant
            n == v@.len(),
            v@ == digits@,
            digits@ == timestamp_digits(value@),
            i <= n,
            forall|j: int| 0 <= j < i ==> #[trigger] is_digit(v@[j]),
        decreases n - i,
    {
        if v[i] < '0' || v[i] > '9' {
            proof {
                assert(!is_digit(digits@[i as int]));
            }
            return false;
        }
        i += 1;
    }
    true
}

/// A timestamp's digits, with zeros after them up to the full precision, so
/// that timestamps of different precision compare as calendar time.
pub open spec fn sort_key(value: Seq<char>) -> Seq<char> {
    let digits = timestamp_digits(value);
    if digits.len() < 14 {
        digits + Seq::new((14 - digits.len()) as nat, |i: int| '0')
    } else {
        digits
    }
}

/// A timestamp's digits, with zeros after them up to the full precision.
pub fn timestamp_key(value: &str) -> (r: String)
    ensures
        r@ == sort_key(value@),
{
    let digits = match strip_suffix(value, "Z") {
        Some(digits) => digits,
        None => value,
    };
    let mut r = digits.to_owned();
    let mut n: usize = digits.unicode_len();
    let ghost start = n as nat;
    proof {
        assert(r@ =~= digits@ + Seq::new(0, |i: int| '0'));
    }
    while n < 14
        invariant
            start == digits@.len(),
            start <= n,
            n <= 14 || n == start,
            r@ == digits@ + Seq::new((n - start) as nat, |i: int| '0'),
        decreases 14 - n,
    {
        r.push('0');
        n += 1;
        proof {
            assert(r@ =~= digits@ + Seq::new((n - start) as nat, |i: int| '0'));
        }
    }
    proof {
        assert(r@ =~= sort_key(value@));
    }
    r
}

/// Whether a window never authorizes anything: both bounds are set, and the
/// first is after the second.
pub open spec fn inverted(after: Option<Seq<char>>, until: Option<Seq<char>>) -> bool {
    match (after, until) {
        (Some(a), Some(b)) => before(sort_key(b), sort_key(a)),
        _ => false,
    }
}

/// Why a timestamp is refused.
pub open spec fn malformed_message(value: Seq<char>) -> Seq<char> {
    debug_form(value)
        + " is not a valid OpenSSH timestamp (expected YYYYMMDD[Z] or YYYYMMDDHHMM[SS][Z])"@
}

/// Why a window is refused.
pub open spec fn inverted_message(after: Seq<char>, until: Seq<char>) -> Seq<char> {
    "valid-after "@ + debug_form(after) + " is after valid-before "@ + debug_form(until)
        + ": this window would never authorize a push"@
}

/// Why a window is refused, if it is: the first bound that is malformed, else
/// an inversion.
pub open spec fn window_error(
    after: Option<Seq<char>>,
    until: Option<Seq<char>>,
) -> Option<Seq<char>> {
    if after is Some && !well_formed_timestamp(after->0) {
        Some(malformed_message(after->0))
    } else if until is Some && !well_formed_timestamp(until->0) {
        Some(malformed_message(until->0))
    } else if inverted(after, until) {
        Some(inverted_message(after->0, until->0))
    } else {
        None
    }
}

/// Why a bound is refused, if it is.
fn check_bound(bound: &Option<String>) -> (r: Option<String>)
    ensures
        opt_text(r) == (match *bound {
            Some(value) => if well_formed_timestamp(value@) {
                None
            } else {
                Some(malformed_message(value@))
            },
            None => None,
        }),
{
    if let Some(value) = bound {
        if !valid_timestamp(value.as_str()) {
            let mut message = debug_text(value.as_str());
            message.append(
                " is not a valid OpenSSH timestamp (expected YYYYMMDD[Z] or YYYYMMDDHHMM[SS][Z])",
            );
            return Some(message);
        }
    }
    None
}

/// Whether a window may stand: a set bound must be a well-formed timestamp, and
/// the first must not be after the second.
pub fn check_window(valid_after: &Option<String>, valid_before: &Option<String>) -> (r: Result<
    (),
    String,
>)
    ensures
        match r {
            Ok(_) => window_error(opt_text(*valid_after), opt_text(*valid_before)) is None,
            Err(message) => window_error(opt_text(*valid_after), opt_text(*valid_before)) == Some(
                message@,
            ),
        },
{
    if let Some(message) = check_bound(valid_after) {
        return Err(message);
    }
    if let Some(message) = check_bound(valid_before) {
        return Err(message);
    }
    if let Some(after) = valid_after {
        if let Some(until) = valid_before {
            let first = timestamp_key(after.as_str());
            let last = timestamp_key(until.as_str());
            if precedes(last.as_str(), first.as_str()) {
                let mut message = "valid-after ".to_owned();
                message.append(debug_text(after.as_str()).as_str());
                message.append(" is after valid-before ");
                message.append(debug_text(until.as_str()).as_str());
                message.append(": this window would never authorize a push");
                return Err(message);
            }
        }
    }
    Ok(())
}

impl Member {
    /// A member trusting `keys` with no validity window, admin-registered.
    pub fn with_keys(principal: String, keys: TextMap<String>) -> (r: Member)
        ensures
            r == (Member {
                principal,
                valid_after: None,
                valid_before: None,
                trust: Trust::Keys(keys),
                provenance: Provenance::AdminRegistered,
                account: None,
            }),
    {
        Member {
            principal,
            valid_after: None,
            valid_before: None,
            trust: Trust::Keys(keys),
            provenance: Provenance::AdminRegistered,
            account: None,
        }
    }

    /// A member trusting any certificate the CA `ca` issues for them, with no
    /// validity window, admin-registered.
    pub fn with_ca(principal: String, ca: String) -> (r: Member)
        ensures
            r == (Member {
                principal,
                valid_after: None,
                valid_before: None,
                trust: Trust::CertAuthority(ca),
                provenance: Provenance::AdminRegistered,
                account: None,
            }),
    {
        Member {
            principal,
            valid_after: None,
            valid_before: None,
            trust: Trust::CertAuthority(ca),
            provenance: Provenance::AdminRegistered,
            account: None,
        }
    }

    /// A member trusting `keys` (a WebAuthn credential set) with no validity
    /// window, self-attested via web onboarding.
    pub fn with_webauthn(principal: String, keys: TextMap<WebAuthnKey>) -> (r: Member)
        ensures
            r == (Member {
                principal,
                valid_after: None,
                valid_before: None,
                trust: Trust::WebAuthn(keys),
                provenance: Provenance::SelfAttestedWeb,
                account: None,
            }),
    {
        Member {
            principal,
            valid_after: None,
            valid_before: None,
            trust: Trust::WebAuthn(keys),
            provenance: Provenance::SelfAttestedWeb,
            account: None,
        }
    }

    /// The leaf keys that a member pushes with, in the order of their
    /// fingerprints.
    pub open spec fn leaf_keys(&self) -> Seq<(Seq<char>, String)> {
        match self.trust {
            Trust::Keys(keys) => listing(keys@),
            _ => seq![],
        }
    }

    /// The member's leaf signing keys as `(fingerprint, key)` pairs. A member
    /// resting on a CA or WebAuthn credentials has no leaf keys.
    pub fn keys(&self) -> (r: Vec<(&String, &String)>)
        ensures
            r@.map_values(|p: (&String, &String)| (p.0@, *p.1)) == self.leaf_keys(),
    {
        let mut r: Vec<(&String, &String)> = Vec::new();
        let ghost view = |p: (&String, &String)| (p.0@, *p.1);
        match &self.trust {
            Trust::Keys(keys) => {
                let entries = keys.entries();
                let mut i: usize = 0;
                while i < entries.len()
                    invariant
                        i <= entries@.len(),
                        entry_texts(entries@) == listing(keys@),
                        view == (|p: (&String, &String)| (p.0@, *p.1)),
                        r@.map_values(view) == entry_texts(entries@).take(i as int),
                    decreases entries@.len() - i,
                {
                    let ghost prior = r@.map_values(view);
                    r.push((&entries[i].0, &entries[i].1));
                    proof {
                        let list = entry_texts(entries@);
                        assert(r@.map_values(view) =~= prior.push(list[i as int]));
                        assert(list.take(i + 1) =~= list.take(i as int).push(list[i as int]));
                    }
                    i += 1;
                }
                proof {
                    assert(entry_texts(entries@).take(entries@.len() as int) =~= entry_texts(
                        entries@,
                    ));
                }
            },
            Trust::CertAuthority(_) => {
                proof {
                    assert(r@.map_values(view) =~= seq![]);
                }
            },
            Trust::WebAuthn(_) => {
                proof {
                    assert(r@.map_values(view) =~= seq![]);
                }
            },
        }
        r
    }

    /// The member's pinned certificate authority key, or `None` when the member
    /// rests on leaf keys or WebAuthn credentials.
    pub fn ca(&self) -> (r: Option<&str>)
        ensures
            match self.trust {
                Trust::CertAuthority(ca) => r matches Some(key) && key@ == ca@,
                _ => r is None,
            },
    {
        match &self.trust {
            Trust::CertAuthority(ca) => Some(ca.as_str()),
            Trust::Keys(_) => None,
            Trust::WebAuthn(_) => None,
        }
    }

    /// Checks what the type does not enforce: a set validity bound must be a
    /// well-formed OpenSSH timestamp, and `valid_after` must not be after
    /// `valid_before`. An inverted window would authorize nothing, silently
    /// locking every one of the member's keys out.
    pub fn validate(&self) -> (r: Result<(), String>)
        ensures
            match r {
                Ok(_) => window_error(opt_text(self.valid_after), opt_text(self.valid_before))
                    is None,
                Err(message) => window_error(
                    opt_text(self.valid_after),
                    opt_text(self.valid_before),
                ) == Some(message@),
            },
    {
        check_window(&self.valid_after, &self.valid_before)
    }
}

/// What is left of a member's trust when `revoked` keys are taken away: a
/// member left with no key is not trusted at all, and one that rests on
/// something else is untouched.
pub open spec fn honored(member: MemberView, revoked: Set<Seq<char>>) -> Option<MemberView> {
    match member.trust {
        TrustView::Keys(keys) => {
            let left = keys.remove_keys(revoked);
            if left == Map::<Seq<char>, String>::empty() {
                None
            } else {
                Some(MemberView { trust: TrustView::Keys(left), ..member })
            }
        },
        _ => Some(member),
    }
}

/// Drops every `revoked` fingerprint from `members`, returning the trust set
/// the verifier should actually honor: a member left with no keys drops out
/// entirely, and one resting on a CA or on passkeys is untouched.
pub fn without_revoked(members: Vec<Member>, revoked: &TextSet) -> (r: Vec<Member>)
    ensures
        member_views(r@) == kept(
            member_views(members@),
            |m: MemberView| honored(m, revoked@),
        ),
{
    let ghost all = member_views(members@);
    let ghost f = |m: MemberView| honored(m, revoked@);
    let mut r: Vec<Member> = Vec::new();
    proof {
        assert(kept(all.take(0), f) =~= seq![]);
        assert(member_views(r@) =~= seq![]);
    }
    for member in it: members
        invariant
            it.seq() == members@,
            all == member_views(members@),
            f == (|m: MemberView| honored(m, revoked@)),
            member_views(r@) == kept(all.take(it.index()), f),
    {
        let ghost prior = member_views(r@);
        proof {
            lemma_kept_step(all, f, it.index());
            assert(all[it.index()] == member@);
        }
        let Member { principal, valid_after, valid_before, trust, provenance, account } =
            member;
        match trust {
            Trust::Keys(keys) => {
                let left = keys.without(revoked);
                if !left.is_empty() {
                    let honored_member = Member {
                        principal,
                        valid_after,
                        valid_before,
                        trust: Trust::Keys(left),
                        provenance,
                        account,
                    };
                    let ghost hv = honored_member@;
                    r.push(honored_member);
                    proof {
                        assert(member_views(r@) =~= prior.push(hv));
                    }
                }
            },
            Trust::CertAuthority(ca) => {
                let honored_member = Member {
                    principal,
                    valid_after,
                    valid_before,
                    trust: Trust::CertAuthority(ca),
                    provenance,
                    account,
                };
                let ghost hv = honored_member@;
                r.push(honored_member);
                proof {
                    assert(member_views(r@) =~= prior.push(hv));
                }
            },
            Trust::WebAuthn(keys) => {
                let honored_member = Member {
                    principal,
                    valid_after,
                    valid_before,
                    trust: Trust::WebAuthn(keys),
                    provenance,
                    account,
                };
                let ghost hv = honored_member@;
                r.push(honored_member);
                proof {
                    assert(member_views(r@) =~= prior.push(hv));
                }
            },
        }
    }
    proof {
        assert(all.take(all.len() as int) =~= all);
    }
    r
}

/// The options of an `allowed_signers` line.
pub open spec fn line_options(
    ca: bool,
    after: Option<Seq<char>>,
    until: Option<Seq<char>>,
) -> Seq<Seq<char>> {
    let flag = if ca {
        seq!["cert-authority"@]
    } else {
        seq![]
    };
    let lower = match after {
        Some(value) => seq!["valid-after=\""@ + value + "\""@],
        None => seq![],
    };
    let upper = match until {
        Some(value) => seq!["valid-before=\""@ + value + "\""@],
        None => seq![],
    };
    flag + lower + upper + seq!["namespaces=\"git\""@]
}

/// An `allowed_signers` line: the wildcard principal, the options joined by
/// commas, and the key.
pub open spec fn signer_line(
    ca: bool,
    after: Option<Seq<char>>,
    until: Option<Seq<char>>,
    key: Seq<char>,
) -> Seq<char> {
    "* "@ + joined(line_options(ca, after, until), ","@) + " "@ + key + "\n"@
}

/// One `allowed_signers` line: the wildcard principal, the `cert-authority` flag
/// when `ca` is set, the validity window, the git namespace, and the key.
/// Options are comma-joined, the syntax OpenSSH requires for more than one.
pub fn allowed_signers_line(
    valid_after: &Option<String>,
    valid_before: &Option<String>,
    ca: bool,
    key: &str,
) -> (r: String)
    ensures
        r@ == signer_line(ca, opt_text(*valid_after), opt_text(*valid_before), key@),
{
    let mut options: Vec<String> = Vec::new();
    if ca {
        options.push("cert-authority".to_owned());
    }
    if let Some(after) = valid_after {
        let mut option = "valid-after=\"".to_owned();
        option.append(after.as_str());
        option.append("\"");
        options.push(option);
    }
    if let Some(until) = valid_before {
        let mut option = "valid-before=\"".to_owned();
        option.append(until.as_str());
        option.append("\"");
        options.push(option);
    }
    options.push("namespaces=\"git\"".to_owned());
    proof {
        assert(texts(options@) =~= line_options(
            ca,
            opt_text(*valid_after),
            opt_text(*valid_before),
        ));
    }
    let mut line = "* ".to_owned();
    line.append(join(&options, ",").as_str());
    line.append(" ");
    line.append(key);
    line.append("\n");
    line
}

/// The lines for one member: one per leaf key, in the order of their
/// fingerprints, a single `cert-authority` line for a pinned CA, or none at all
/// for passkeys.
pub open spec fn signed_lines(member: MemberView) -> Seq<Seq<char>> {
    let after = member.valid_after;
    let until = member.valid_before;
    match member.trust {
        TrustView::Keys(keys) => listing(keys).map_values(
            |key: (Seq<char>, String)| signer_line(false, after, until, key.1@),
        ),
        TrustView::CertAuthority(ca) => seq![signer_line(true, after, until, ca)],
        TrustView::WebAuthn(_) => seq![],
    }
}

/// Appends the `allowed_signers` lines for one member.
pub fn member_lines(member: &Member, out: &mut String)
    ensures
        final(out)@ == old(out)@ + signed_lines(member@).flatten(),
{
    let ghost start = out@;
    let ghost all = signed_lines(member@);
    match &member.trust {
        Trust::Keys(keys) => {
            let entries = keys.entries();
            let mut i: usize = 0;
            proof {
                assert(entry_texts(entries@).len() == entries@.len());
                assert(all.take(0) =~= seq![]);
                assert(out@ =~= start + all.take(0).flatten());
            }
            while i < entries.len()
                invariant
                    i <= entries@.len(),
                    member.trust == Trust::Keys(*keys),
                    entry_texts(entries@) == listing(keys@),
                    all == signed_lines(member@),
                    all.len() == entries@.len(),
                    out@ == start + all.take(i as int).flatten(),
                decreases entries@.len() - i,
            {
                let line = allowed_signers_line(
                    &member.valid_after,
                    &member.valid_before,
                    false,
                    entries[i].1.as_str(),
                );
                out.append(line.as_str());
                proof {
                    assert(entry_texts(entries@)[i as int].1 == entries@[i as int].1);
                    assert(line@ == all[i as int]);
                    all.take(i as int).lemma_flatten_push(line@);
                    assert(all.take(i + 1) =~= all.take(i as int).push(line@));
                    assert(out@ =~= start + all.take(i + 1).flatten());
                }
                i += 1;
            }
            proof {
                assert(all.take(all.len() as int) =~= all);
            }
        },
        Trust::CertAuthority(ca) => {
            let line = allowed_signers_line(
                &member.valid_after,
                &member.valid_before,
                true,
                ca.as_str(),
            );
            out.append(line.as_str());
            proof {
                all.lemma_flatten_one_element();
            }
        },
        Trust::WebAuthn(_) => {
            proof {
                assert(out@ =~= start + all.flatten());
            }
        },
    }
}

/// The lines for all of `members`.
pub open spec fn signers_lines(members: Seq<MemberView>) -> Seq<Seq<char>>
    decreases members.len(),
{
    if members.len() == 0 {
        seq![]
    } else {
        signers_lines(members.drop_last()) + signed_lines(members.last())
    }
}

/// The `allowed_signers` file of `members`.
pub open spec fn signers_file(members: Seq<MemberView>) -> Seq<char> {
    signers_lines(members).flatten()
}

/// Renders `members` as an OpenSSH `allowed_signers` file that authorizes any
/// pusher identity (`*`) signing in git's namespace, each key within its
/// member's window.
pub fn allowed_signers(members: &[Member]) -> (r: String)
    ensures
        r@ == signers_file(member_views(members@)),
{
    let mut out = String::new();
    let ghost all = member_views(members@);
    let mut i: usize = 0;
    proof {
        assert(out@ =~= signers_file(all.take(0)));
    }
    while i < members.len()
        invariant
            i <= members@.len(),
            all == member_views(members@),
            out@ == signers_file(all.take(i as int)),
        decreases members@.len() - i,
    {
        member_lines(&members[i], &mut out);
        proof {
            assert(all.take(i + 1).drop_last() =~= all.take(i as int));
            lemma_flatten_concat(signers_lines(all.take(i as int)), signed_lines(all[i as int]));
        }
        i += 1;
    }
    proof {
        assert(all.take(all.len() as int) =~= all);
    }
    out
}

/// Whether a line authorizes what `member` signs with: a leaf key whose
/// fingerprint is not revoked, or the authority that is pinned.
pub open spec fn authorizes(line: Seq<char>, member: MemberView, revoked: Set<Seq<char>>) -> bool {
    let after = member.valid_after;
    let until = member.valid_before;
    match member.trust {
        TrustView::Keys(keys) => exists|fingerprint: Seq<char>| #[trigger]
            keys.contains_key(fingerprint) && !revoked.contains(fingerprint) && line == signer_line(
                false,
                after,
                until,
                keys[fingerprint]@,
            ),
        TrustView::CertAuthority(ca) => line == signer_line(true, after, until, ca),
        TrustView::WebAuthn(_) => false,
    }
}

/// Each line of several members is a line of one of them.
proof fn lemma_line_from(members: Seq<MemberView>, k: int) -> (r: (int, int))
    requires
        0 <= k < signers_lines(members).len(),
    ensures
        0 <= r.0 < members.len(),
        0 <= r.1 < signed_lines(members[r.0]).len(),
        signers_lines(members)[k] == signed_lines(members[r.0])[r.1],
    decreases members.len(),
{
    let rest = members.drop_last();
    let n = signers_lines(rest).len() as int;
    if k < n {
        let r = lemma_line_from(rest, k);
        assert(rest[r.0] == members[r.0]);
        r
    } else {
        (members.len() - 1, k - n)
    }
}

/// Each line of one of several members is a line of theirs.
proof fn lemma_line_in(members: Seq<MemberView>, i: int, j: int) -> (k: int)
    requires
        0 <= i < members.len(),
        0 <= j < signed_lines(members[i]).len(),
    ensures
        0 <= k < signers_lines(members).len(),
        signers_lines(members)[k] == signed_lines(members[i])[j],
    decreases members.len(),
{
    let rest = members.drop_last();
    if i < members.len() - 1 {
        assert(rest[i] == members[i]);
        lemma_line_in(rest, i, j)
    } else {
        signers_lines(rest).len() + j
    }
}

/// Law: each line of the trust set is the line of a member's leaf key under a
/// fingerprint that is not revoked, or of a pinned authority.
pub proof fn law_each_line_is_trusted(
    members: Seq<MemberView>,
    revoked: Set<Seq<char>>,
    k: int,
)
    requires
        0 <= k < signers_lines(kept(members, |m: MemberView| honored(m, revoked))).len(),
    ensures
        exists|i: int|
            0 <= i < members.len() && authorizes(
                signers_lines(kept(members, |m: MemberView| honored(m, revoked)))[k],
                #[trigger] members[i],
                revoked,
            ),
{
    let f = |m: MemberView| honored(m, revoked);
    let trusted = kept(members, f);
    let (t, j) = lemma_line_from(trusted, k);
    let i = lemma_kept_from(members, f, t);
    let line = signers_lines(trusted)[k];
    if let TrustView::Keys(keys) = members[i].trust {
        let left = keys.remove_keys(revoked);
        let list = listing(left);
        assert(is_listing(list, left));
        let fingerprint = list[j].0;
        assert(left.contains_key(fingerprint));
        assert(keys.contains_key(fingerprint));
    }
    assert(authorizes(line, members[i], revoked));
}

/// Law: every leaf key under a fingerprint that is not revoked, and every pinned
/// authority, has its line in the trust set.
pub proof fn law_each_trusted_key_has_its_line(
    members: Seq<MemberView>,
    revoked: Set<Seq<char>>,
    i: int,
    line: Seq<char>,
)
    requires
        0 <= i < members.len(),
        members[i].trust matches TrustView::Keys(keys) ==> keys.dom().finite(),
        authorizes(line, members[i], revoked),
    ensures
        signers_lines(kept(members, |m: MemberView| honored(m, revoked))).contains(line),
{
    let f = |m: MemberView| honored(m, revoked);
    let trusted = kept(members, f);
    let member = members[i];
    match member.trust {
        TrustView::Keys(keys) => {
            let left = keys.remove_keys(revoked);
            let fingerprint = choose|fingerprint: Seq<char>| #[trigger]
                keys.contains_key(fingerprint) && !revoked.contains(fingerprint) && line
                    == signer_line(
                    false,
                    member.valid_after,
                    member.valid_before,
                    keys[fingerprint]@,
                );
            assert(left.contains_key(fingerprint));
            assert(left.dom() =~= keys.dom().difference(revoked));
            lemma_finite_listing(left);
            let list = listing(left);
            let j = choose|j: int| 0 <= j < list.len() && (#[trigger] list[j]).0 == fingerprint;
            assert(left[list[j].0] == list[j].1);
            let t = lemma_kept_has(members, f, i);
            let k = lemma_line_in(trusted, t, j);
            assert(signers_lines(trusted)[k] == line);
        },
        TrustView::CertAuthority(_) => {
            let t = lemma_kept_has(members, f, i);
            let k = lemma_line_in(trusted, t, 0);
            assert(signers_lines(trusted)[k] == line);
        },
        TrustView::WebAuthn(_) => {},
    }
}

/// No revoked fingerprint is left in the trust set, and every member that
/// rests on leaf keys still holds one.
pub proof fn law_no_revoked_key_is_honored(
    members: Seq<MemberView>,
    revoked: Set<Seq<char>>,
    k: int,
)
    requires
        0 <= k < kept(members, |m: MemberView| honored(m, revoked)).len(),
    ensures
        kept(members, |m: MemberView| honored(m, revoked))[k].trust matches TrustView::Keys(keys)
            ==> {
            &&& forall|fingerprint: Seq<char>|
                keys.contains_key(fingerprint) ==> !revoked.contains(fingerprint)
            &&& keys != Map::<Seq<char>, String>::empty()
        },
{
    let f = |m: MemberView| honored(m, revoked);
    let i = lemma_kept_from(members, f, k);
}

/// A member that is honored once is honored again unchanged.
proof fn lemma_honored_is_stable(member: MemberView, revoked: Set<Seq<char>>)
    ensures
        honored(member, revoked) matches Some(m) ==> honored(m, revoked) == Some(m),
{
    if let TrustView::Keys(keys) = member.trust {
        let left = keys.remove_keys(revoked);
        assert(left.remove_keys(revoked) =~= left);
    }
}

/// Taking revoked keys away twice takes away no more than once.
pub proof fn law_revocation_is_idempotent(members: Seq<MemberView>, revoked: Set<Seq<char>>)
    ensures
        kept(
            kept(members, |m: MemberView| honored(m, revoked)),
            |m: MemberView| honored(m, revoked),
        ) == kept(members, |m: MemberView| honored(m, revoked)),
    decreases members.len(),
{
    let f = |m: MemberView| honored(m, revoked);
    if members.len() > 0 {
        law_revocation_is_idempotent(members.drop_last(), revoked);
        lemma_honored_is_stable(members.last(), revoked);
        let rest = kept(members.drop_last(), f);
        match f(members.last()) {
            Some(m) => {
                assert(rest.push(m).drop_last() =~= rest);
            },
            None => {},
        }
    }
}

/// A member resting on a certificate authority or on passkeys is honored as it
/// is, whatever is revoked.
pub proof fn law_other_trust_is_untouched(member: MemberView, revoked: Set<Seq<char>>)
    requires
        !(member.trust is Keys),
    ensures
        honored(member, revoked) == Some(member),
{
}

/// A member that signed up with a passkey cannot push: it has no leaf keys and
/// no line in the `allowed_signers` file.
pub proof fn law_passkeys_do_not_push(member: Member)
    requires
        member.trust is WebAuthn,
    ensures
        member.leaf_keys().len() == 0,
        signed_lines(member@).len() == 0,
{
}

/// Members by their names, the last one where a name occurs twice.
pub open spec fn by_principal(members: Seq<Member>) -> Map<Seq<char>, Member>
    decreases members.len(),
{
    if members.len() == 0 {
        Map::empty()
    } else {
        by_principal(members.drop_last()).insert(members.last().principal@, members.last())
    }
}

/// What an index of members holds: each member under the name it is filed by.
pub uninterp spec fn indexed(index: iddqd::IdOrdMap<Member>) -> Map<Seq<char>, Member>;

/// `iddqd::IdOrdMap`, an ordered map of items that carry their own keys. Nothing
/// is claimed of it here.
#[verifier::external_type_specification]
#[verifier::external_body]
#[verifier::reject_recursive_types(T)]
pub struct ExIdOrdMap<T>(iddqd::IdOrdMap<T>);

/// A member is filed under its principal, so the name lives once, on the member
/// itself.
impl iddqd::IdOrdItem for Member {
    type Key<'a> = &'a str;

    fn key(&self) -> (r: Self::Key<'_>)
        ensures
            r@ == self.principal@,
    {
        self.principal.as_str()
    }

    fn upcast_key<'short, 'long: 'short>(long: Self::Key<'long>) -> (r: Self::Key<'short>)
        ensures
            r@ == long@,
    {
        long
    }
}

/// An index without members: `iddqd::IdOrdMap::new`, of which it is claimed that
/// it holds nothing.
#[verifier::external_body]
fn new_index() -> (r: iddqd::IdOrdMap<Member>)
    ensures
        forall|name: Seq<char>| !indexed(r).contains_key(name),
{
    iddqd::IdOrdMap::new()
}

/// Files a member: `iddqd::IdOrdMap::insert_overwrite`, of which it is claimed
/// that the member then stands under its key, that what stood there before is
/// handed back, and that nothing else changes. It panics once every index that a
/// `u32` can name is taken.
#[verifier::external_body]
fn insert_overwrite(index: &mut iddqd::IdOrdMap<Member>, member: Member) -> (r: Option<Member>)
    requires
        indexed(*old(index)).dom().len() < 0xffff_ffff,
    ensures
        indexed(*final(index)) == indexed(*old(index)).insert(member.principal@, member),
        r == (if indexed(*old(index)).contains_key(member.principal@) {
            Some(indexed(*old(index))[member.principal@])
        } else {
            None
        }),
{
    index.insert_overwrite(member)
}

proof fn lemma_index_is_small(members: Seq<Member>)
    ensures
        by_principal(members).dom().finite(),
        by_principal(members).dom().len() <= members.len(),
    decreases members.len(),
{
    if members.len() > 0 {
        lemma_index_is_small(members.drop_last());
        assert(by_principal(members).dom() =~= by_principal(members.drop_last()).dom().insert(
            members.last().principal@,
        ));
    }
}

/// The members, keyed by principal.
pub fn load_all_indexed(members: Vec<Member>) -> (r: iddqd::IdOrdMap<Member>)
    requires
        members@.len() <= 0xffff_ffff,
    ensures
        indexed(r) == by_principal(members@),
{
    let ghost all = members@;
    let mut r = new_index();
    proof {
        assert(indexed(r) =~= by_principal(all.take(0)));
    }
    for member in it: members
        invariant
            it.seq() == all,
            all.len() <= 0xffff_ffff,
            indexed(r) == by_principal(all.take(it.index())),
    {
        proof {
            lemma_index_is_small(all.take(it.index()));
            assert(all.take(it.index() + 1).drop_last() =~= all.take(it.index()));
            assert(all.take(it.index() + 1).last() == member);
        }
        insert_overwrite(&mut r, member);
    }
    proof {
        assert(all.take(all.len() as int) =~= all);
    }
    r
}

/// Law: an index of members holds exactly the principals that occur, and under
/// each of them a member of that name, the last one listed.
pub proof fn law_index_holds_the_last(members: Seq<Member>, principal: Seq<char>)
    ensures
        by_principal(members).contains_key(principal) <==> exists|i: int|
            0 <= i < members.len() && #[trigger] members[i].principal@ == principal,
        forall|i: int|
            0 <= i < members.len() && #[trigger] members[i].principal@ == principal && (forall|j: int|
                i < j < members.len() ==> #[trigger] members[j].principal@ != principal)
                ==> by_principal(members)[principal] == members[i],
    decreases members.len(),
{
    if members.len() > 0 {
        let rest = members.drop_last();
        law_index_holds_the_last(rest, principal);
        assert forall|i: int| 0 <= i < rest.len() && #[trigger] members[i].principal@
            == principal implies by_principal(rest).contains_key(principal) by {
            assert(rest[i].principal@ == principal);
        }
        if members.last().principal@ == principal {
            assert(members[members.len() - 1].principal@ == principal);
        } else if by_principal(rest).contains_key(principal) {
            let i = choose|i: int| 0 <= i < rest.len() && #[trigger] rest[i].principal@ == principal;
            assert(members[i].principal@ == principal);
        }
        assert forall|i: int|
            0 <= i < members.len() && #[trigger] members[i].principal@ == principal && (forall|j: int|
                i < j < members.len() ==> #[trigger] members[j].principal@ != principal) implies by_principal(
            members,
        )[principal] == members[i] by {
            if i < rest.len() {
                assert(members[members.len() - 1].principal@ != principal);
                assert(rest[i].principal@ == principal);
                assert forall|j: int| i < j < rest.len() implies #[trigger] rest[j].principal@
                    != principal by {
                    assert(members[j].principal@ != principal);
                }
            }
        }
    }
}

/// Loads a member from what its ref holds: `Some(None)` where the ref is absent,
/// and `None` where it cannot be read.
pub fn load(node: Option<&Node>) -> (r: Option<Option<Member>>)
    ensures
        is_loaded(r, node),
{
    component::load_item(node)
}

/// The ref that a member is stored on, under its own name, and what it holds
/// then; or why its validity window is refused.
pub fn store(member: &Member) -> (r: Result<(String, Node), String>)
    ensures
        match r {
            Ok(stored) => window_error(
                opt_text(member.valid_after),
                opt_text(member.valid_before),
            ) is None && stored.0@ == MEMBER_NS@ + "/"@ + member.principal@ && Member::layout(
                stored.1,
                member.value(),
            ),
            Err(message) => window_error(
                opt_text(member.valid_after),
                opt_text(member.valid_before),
            ) == Some(message@),
        },
{
    match member.validate() {
        Ok(()) => Ok(component::store_item(member.principal.as_str(), member)),
        Err(message) => Err(message),
    }
}

/// Every member among `refs`, in the order of the refs, or `None` where one
/// cannot be read: an unreadable member is never passed over.
pub fn load_all(refs: &[(String, Node)]) -> (r: Option<Vec<Member>>)
    ensures
        match r {
            Some(members) => match items_under::<Member>(MEMBER_NS@, refs@) {
                Some(items) => list_value(members@) == items.map_values(
                    |item: (Seq<char>, MemberValue)| item.1,
                ),
                None => false,
            },
            None => items_under::<Member>(MEMBER_NS@, refs@) is None,
        },
{
    let items: Vec<(String, Member)> = match component::list(MEMBER_NS, refs) {
        Some(items) => items,
        None => {
            return None;
        },
    };
    let ghost all = items@;
    let mut members: Vec<Member> = Vec::new();
    for item in it: items
        invariant
            it.seq() == all,
            members@ == all.take(it.index()).map_values(|item: (String, Member)| item.1),
    {
        let ghost prior = members@;
        let (_, member) = item;
        members.push(member);
        proof {
            assert(members@ =~= all.take(it.index() + 1).map_values(
                |item: (String, Member)| item.1,
            ));
        }
    }
    proof {
        assert(all.take(all.len() as int) =~= all);
        assert(list_value(members@) =~= item_values(all).map_values(
            |item: (Seq<char>, MemberValue)| item.1,
        ));
    }
    Some(members)
}

/// What a digit that ends a timestamp of `n` digits is worth, counted in
/// seconds' digits.
pub open spec fn digit_worth(n: nat) -> nat {
    if n == 8 {
        1000000
    } else if n == 12 {
        100
    } else {
        1
    }
}

/// Zeros after a number make it ten times greater each.
proof fn lemma_zeros_scale(s: Seq<char>, n: nat)
    requires
        n == 0 || n == 2 || n == 6,
    ensures
        decimal_value(s + Seq::new(n, |i: int| '0')) == decimal_value(s) * (if n == 6 {
            1000000int
        } else if n == 2 {
            100int
        } else {
            1int
        }),
{
    assert(s + Seq::new(0, |i: int| '0') =~= s);
    if n > 0 {
        lemma_zero_scales(s, 1);
        lemma_zero_scales(s, 2);
    }
    if n == 6 {
        lemma_zero_scales(s, 3);
        lemma_zero_scales(s, 4);
        lemma_zero_scales(s, 5);
        lemma_zero_scales(s, 6);
    }
}

proof fn lemma_zero_scales(s: Seq<char>, n: nat)
    requires
        n > 0,
    ensures
        decimal_value(s + Seq::new(n, |i: int| '0')) == 10 * decimal_value(
            s + Seq::new((n - 1) as nat, |i: int| '0'),
        ),
{
    let all = s + Seq::new(n, |i: int| '0');
    assert(all.drop_last() =~= s + Seq::new((n - 1) as nat, |i: int| '0'));
    assert(all.last() == '0');
}

/// A timestamp as it is written: digits, and a `Z` that may end it.
pub open spec fn stamp(digits: Seq<char>, utc: bool) -> Seq<char> {
    if utc {
        digits.push('Z')
    } else {
        digits
    }
}

/// A timestamp's digits are what is written before its `Z`.
proof fn lemma_stamp(digits: Seq<char>, utc: bool)
    requires
        all_digits(digits),
    ensures
        timestamp_digits(stamp(digits, utc)) == digits,
{
    reveal_strlit("Z");
    assert("Z"@ =~= seq!['Z']);
    let value = stamp(digits, utc);
    if utc {
        assert(value.skip(value.len() - 1) =~= "Z"@);
        assert(value.take(value.len() - 1) =~= digits);
    } else if digits.len() > 0 {
        assert(is_digit(digits[digits.len() - 1]));
        assert(digits.skip(digits.len() - 1)[0] == digits[digits.len() - 1]);
    }
}

/// Law: a timestamp is eight, twelve or fourteen digits, with or without a `Z`
/// after them, and nothing else.
pub proof fn law_timestamp_is_digits(value: Seq<char>)
    ensures
        well_formed_timestamp(value) <==> exists|digits: Seq<char>, utc: bool|
            value == #[trigger] stamp(digits, utc) && (digits.len() == 8 || digits.len() == 12
                || digits.len() == 14) && forall|i: int|
                0 <= i < digits.len() ==> '0' <= #[trigger] digits[i] <= '9',
{
    reveal_strlit("Z");
    assert("Z"@ =~= seq!['Z']);
    if well_formed_timestamp(value) {
        let digits = timestamp_digits(value);
        let utc = ends(value, "Z"@);
        assert forall|i: int| 0 <= i < digits.len() implies '0' <= #[trigger] digits[i] <= '9' by {
            assert(is_digit(digits[i]));
        }
        if utc {
            assert(value.skip(value.len() - 1)[0] == 'Z');
        }
        assert(value =~= stamp(digits, utc));
    }
    if exists|digits: Seq<char>, utc: bool|
        value == #[trigger] stamp(digits, utc) && (digits.len() == 8 || digits.len() == 12
            || digits.len() == 14) && forall|i: int|
            0 <= i < digits.len() ==> '0' <= #[trigger] digits[i] <= '9' {
        let (digits, utc) = choose|digits: Seq<char>, utc: bool|
            value == #[trigger] stamp(digits, utc) && (digits.len() == 8 || digits.len() == 12
                || digits.len() == 14) && forall|i: int|
                0 <= i < digits.len() ==> '0' <= #[trigger] digits[i] <= '9';
        assert forall|i: int| 0 <= i < digits.len() implies #[trigger] is_digit(digits[i]) by {
            assert('0' <= digits[i] <= '9');
        }
        lemma_stamp(digits, utc);
    }
}

/// Law: a window is refused exactly where the moment that it begins at is later
/// than the one that it ends at, as the numbers tell that the digits write. A
/// shorter timestamp is the beginning of its day or minute, and a window with one
/// end is never refused.
pub proof fn law_inverted_window_is_refused(
    a: Seq<char>,
    a_utc: bool,
    b: Seq<char>,
    b_utc: bool,
)
    requires
        all_digits(a),
        all_digits(b),
        a.len() == 8 || a.len() == 12 || a.len() == 14,
        b.len() == 8 || b.len() == 12 || b.len() == 14,
    ensures
        window_error(Some(stamp(a, a_utc)), Some(stamp(b, b_utc))) is Some <==> decimal_value(a)
            * digit_worth(a.len()) > decimal_value(b) * digit_worth(b.len()),
        a.len() == b.len() ==> (window_error(Some(stamp(a, a_utc)), Some(stamp(b, b_utc))) is Some
            <==> decimal_value(a) > decimal_value(b)),
        window_error(Some(stamp(a, a_utc)), None) is None,
        window_error(None, Some(stamp(b, b_utc))) is None,
        window_error(None, None) is None,
{
    lemma_stamp(a, a_utc);
    lemma_stamp(b, b_utc);
    let x = sort_key(stamp(a, a_utc));
    let y = sort_key(stamp(b, b_utc));
    let m = (14 - a.len()) as nat;
    let n = (14 - b.len()) as nat;
    assert(x =~= a + Seq::new(m, |i: int| '0'));
    assert(y =~= b + Seq::new(n, |i: int| '0'));
    lemma_zeros_scale(a, m);
    lemma_zeros_scale(b, n);
    assert forall|i: int| 0 <= i < 14 implies #[trigger] is_digit(x[i]) by {
        if i < a.len() {
            assert(is_digit(a[i]));
        }
    }
    assert forall|i: int| 0 <= i < 14 implies #[trigger] is_digit(y[i]) by {
        if i < b.len() {
            assert(is_digit(b[i]));
        }
    }
    law_digits_order_as_numbers(y, x);
}

/// Law: a bound that is no timestamp is refused, whatever the other is.
pub proof fn law_malformed_bound_is_refused(bad: Seq<char>, other: Option<Seq<char>>)
    requires
        !well_formed_timestamp(bad),
    ensures
        window_error(Some(bad), other) is Some,
        window_error(other, Some(bad)) is Some,
{
}

/// Law: what revoking leaves of a member is the member with exactly the keys
/// that are not revoked, each as it was, and nothing where none is left; name,
/// window, account and how they came in stay.
pub proof fn law_revoking_takes_keys_only(
    member: MemberView,
    keys: Map<Seq<char>, String>,
    revoked: Set<Seq<char>>,
)
    requires
        member.trust == TrustView::Keys(keys),
    ensures
        honored(member, revoked) is None <==> forall|fingerprint: Seq<char>| #[trigger]
            keys.contains_key(fingerprint) ==> revoked.contains(fingerprint),
        honored(member, revoked) matches Some(left) ==> {
            &&& left.principal == member.principal
            &&& left.valid_after == member.valid_after
            &&& left.valid_before == member.valid_before
            &&& left.account == member.account
            &&& left.provenance == member.provenance
            &&& left.trust matches TrustView::Keys(some) && forall|fingerprint: Seq<char>|
                #[trigger] some.contains_key(fingerprint) <==> keys.contains_key(fingerprint)
                    && !revoked.contains(fingerprint)
            &&& left.trust matches TrustView::Keys(some) && forall|fingerprint: Seq<char>|
                #[trigger] some.contains_key(fingerprint) ==> some[fingerprint]
                    == keys[fingerprint]
        },
{
    let left = keys.remove_keys(revoked);
    if forall|fingerprint: Seq<char>| #[trigger]
        keys.contains_key(fingerprint) ==> revoked.contains(fingerprint) {
        assert(left =~= Map::empty());
    }
    if left == Map::<Seq<char>, String>::empty() {
        assert forall|fingerprint: Seq<char>| #[trigger] keys.contains_key(fingerprint) implies
            revoked.contains(fingerprint) by {
            assert(!left.contains_key(fingerprint));
        }
    }
}

/// Whether a text can stand in a line's options: a word without a comma.
pub open spec fn is_option(s: Seq<char>) -> bool {
    is_word(s) && !s.contains(',')
}

/// Law: an `allowed_signers` line reads as OpenSSH reads it: anybody may use the
/// key, for git and nothing else, within the member's own window, and it is a
/// certificate authority exactly where one was pinned; the key is the one that
/// was given.
pub proof fn law_signer_line_reads_back(
    ca: bool,
    after: Option<Seq<char>>,
    until: Option<Seq<char>>,
    key: Seq<char>,
)
    requires
        after matches Some(text) ==> is_option(text),
        until matches Some(text) ==> is_option(text),
    ensures
        fields_of(signer_line(ca, after, until, key)).len() >= 2,
        fields_of(signer_line(ca, after, until, key))[0] == "*"@,
        signer_line(ca, after, until, key) == "*"@ + " "@ + fields_of(
            signer_line(ca, after, until, key),
        )[1] + " "@ + key + "\n"@,
        ({
            let options = split_on(fields_of(signer_line(ca, after, until, key))[1], ',');
            &&& options.last() == "namespaces=\"git\""@
            &&& options.contains("cert-authority"@) <==> ca
            &&& after matches Some(text) ==> options.contains("valid-after=\""@ + text + "\""@)
            &&& until matches Some(text) ==> options.contains("valid-before=\""@ + text + "\""@)
            &&& options.len() == 1 + (if ca {
                1int
            } else {
                0
            }) + (if after is Some {
                1int
            } else {
                0
            }) + (if until is Some {
                1int
            } else {
                0
            })
        }),
{
    reveal_strlit("*");
    reveal_strlit("* ");
    reveal_strlit(" ");
    reveal_strlit(",");
    reveal_strlit("\n");
    reveal_strlit("\"");
    reveal_strlit("cert-authority");
    reveal_strlit("valid-after=\"");
    reveal_strlit("valid-before=\"");
    reveal_strlit("namespaces=\"git\"");
    let options = line_options(ca, after, until);
    assert(","@ =~= seq![',']);
    assert forall|i: int| 0 <= i < options.len() implies is_option(#[trigger] options[i]) by {
        let option = options[i];
        if option == "cert-authority"@ || option == "namespaces=\"git\""@ {
            lemma_option(seq![], seq![], option);
        } else if after is Some && option == "valid-after=\""@ + after->0 + "\""@ {
            lemma_option("valid-after=\""@, after->0, "\""@);
        } else {
            lemma_option("valid-before=\""@, until->0, "\""@);
        }
    }
    assert forall|i: int| 0 <= i < options.len() implies !(#[trigger] options[i]).contains(
        ',',
    ) by {
        assert(is_option(options[i]));
    }
    law_split_undoes_join(options, ',');
    let joint = joined(options, ","@);
    lemma_joined_word(options);
    let line = signer_line(ca, after, until, key);
    let rest = key + "\n"@;
    assert(line =~= "*"@ + seq![' '] + (joint + seq![' '] + rest));
    lemma_fields_front(joint, ' ', rest);
    lemma_fields_front("*"@, ' ', joint + seq![' '] + rest);
    assert(fields_of(line) =~= seq!["*"@, joint] + fields_of(rest));
    assert(line =~= "*"@ + " "@ + joint + " "@ + key + "\n"@);
    assert(options.last() == "namespaces=\"git\""@);
    if ca {
        assert(options[0] == "cert-authority"@);
    } else if options.contains("cert-authority"@) {
        let i = choose|i: int| 0 <= i < options.len() && options[i] == "cert-authority"@;
        assert(options[i][0] == 'c');
        assert("namespaces=\"git\""@[0] == 'n');
    }
    let at = if ca {
        1int
    } else {
        0int
    };
    if after is Some {
        assert(options[at] == "valid-after=\""@ + after->0 + "\""@);
    }
    if until is Some {
        assert(options[options.len() - 2] == "valid-before=\""@ + until->0 + "\""@);
    }
}

/// An option made of a name, a value and what closes it.
proof fn lemma_option(name: Seq<char>, value: Seq<char>, end: Seq<char>)
    requires
        value.len() == 0 || is_option(value),
        end.len() > 0,
        forall|i: int| 0 <= i < name.len() ==> !is_white(#[trigger] name[i]) && name[i] != ',',
        forall|i: int| 0 <= i < end.len() ==> !is_white(#[trigger] end[i]) && end[i] != ',',
    ensures
        is_option(name + value + end),
        name.len() == 0 && value.len() == 0 ==> is_option(end),
{
    let all = name + value + end;
    assert forall|i: int| 0 <= i < all.len() implies !is_white(#[trigger] all[i]) && all[i]
        != ',' by {
        if i < name.len() {
            assert(all[i] == name[i]);
        } else if i < name.len() + value.len() {
            assert(all[i] == value[i - name.len()]);
            assert(value.contains(value[i - name.len()]));
        } else {
            assert(all[i] == end[i - name.len() - value.len()]);
        }
    }
}

/// Options with commas between them are one word.
proof fn lemma_joined_word(options: Seq<Seq<char>>)
    requires
        options.len() > 0,
        forall|i: int| 0 <= i < options.len() ==> is_option(#[trigger] options[i]),
    ensures
        is_word(joined(options, ","@)),
    decreases options.len(),
{
    reveal_strlit(",");
    assert(is_option(options[options.len() - 1]));
    if options.len() > 1 {
        let less = options.drop_last();
        assert forall|i: int| 0 <= i < less.len() implies is_option(#[trigger] less[i]) by {
            assert(less[i] == options[i]);
        }
        lemma_joined_word(less);
        let front = joined(less, ","@);
        let all = joined(options, ","@);
        assert(all =~= front + ","@ + options.last());
        assert forall|i: int| 0 <= i < all.len() implies !is_white(#[trigger] all[i]) by {
            if i < front.len() {
                assert(all[i] == front[i]);
            } else if i > front.len() {
                assert(all[i] == options.last()[i - front.len() - 1]);
            }
        }
    } else {
        assert(joined(options, ","@) =~= options[0]);
    }
}

/// Law: a member's leaf keys are those of their table, each with its fingerprint
/// and once, in the order of the fingerprints; who rests on an authority or on
/// passkeys has none.
pub proof fn law_leaf_keys_are_the_members(member: Member, fingerprint: Seq<char>, key: String)
    requires
        member.trust matches Trust::Keys(keys) ==> keys@.dom().finite(),
    ensures
        member.leaf_keys().contains((fingerprint, key)) <==> (member.trust matches Trust::Keys(keys)
            && keys@.contains_key(fingerprint) && keys@[fingerprint] == key),
        forall|i: int, j: int|
            0 <= i < j < member.leaf_keys().len() ==> before(
                (#[trigger] member.leaf_keys()[i]).0,
                (#[trigger] member.leaf_keys()[j]).0,
            ),
{
    if let Trust::Keys(keys) = member.trust {
        lemma_finite_listing(keys@);
        let list = listing(keys@);
        if list.contains((fingerprint, key)) {
            let i = choose|i: int| 0 <= i < list.len() && list[i] == (fingerprint, key);
            assert(keys@.contains_key(list[i].0));
        }
        if keys@.contains_key(fingerprint) && keys@[fingerprint] == key {
            let i = choose|i: int| 0 <= i < list.len() && (#[trigger] list[i]).0 == fingerprint;
            assert(keys@[list[i].0] == list[i].1);
            assert(list[i] == (fingerprint, key));
        }
    }
}

} // verus!
