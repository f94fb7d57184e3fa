//! Device-flow authentication: issuing and validating access tokens.
//!
//! A client starts a login and is given a device code and a user code. It shows
//! the user code to the operator and polls with the device code until someone
//! has approved the login. Approval mints a token, which the next poll collects.

use vstd::prelude::*;

use crate::keyed::{as_map, in_order, lemma_as_map_entry, TextMap};
use crate::random::{hex_of, random_hex, random_user_code, user_code};
use crate::seqs::{kept, lemma_kept_step};
use crate::text::{
    alphanumeric, chars_of, is_alphanumeric, lower, lowered, opt_text, same, to_upper, upper,
};

verus! {

/// How long a pending login (and its user code) stays valid, in nanoseconds.
pub const CODE_TTL_NANOS: u128 = 900_000_000_000;

/// Seconds that a pending login stays valid, as a client is told.
pub const CODE_TTL_SECS: u64 = 900;

/// Seconds a polling client should wait between polls.
pub const POLL_INTERVAL_SECS: u64 = 5;

/// Who an issued token belongs to.
#[derive(Clone, Debug, PartialEq, Eq)]
pub enum Principal {
    /// The administrator.
    Admin,
    /// A GitHub account.
    Github(String),
    /// An atproto account.
    Atproto(String),
}

/// A login awaiting approval, kept under its device code.
#[derive(Debug, PartialEq, Eq)]
pub struct PendingLogin {
    /// The code that the operator confirms.
    pub user_code: String,
    /// When the login lapses, in nanoseconds since the epoch.
    pub expires_at: u128,
    /// Set once approved: the token that the client's next poll receives.
    pub token: Option<String>,
}

/// A pending login in mathematical terms.
pub struct Login {
    /// The code that the operator confirms.
    pub user_code: Seq<char>,
    /// When the login lapses.
    pub expires_at: nat,
    /// The token that awaits collection.
    pub token: Option<Seq<char>>,
}

impl View for PendingLogin {
    type V = Login;

    open spec fn view(&self) -> Login {
        Login {
            user_code: self.user_code@,
            expires_at: self.expires_at as nat,
            token: opt_text(self.token),
        }
    }
}

/// Result of a client polling for its token.
#[derive(Debug, PartialEq, Eq)]
pub enum PollOutcome {
    /// Nobody has approved the login yet.
    Pending,
    /// The login was approved; this is its token.
    Approved(String),
    /// The login has lapsed.
    Expired,
    /// There is no such login.
    Unknown,
}

/// A poll's outcome in mathematical terms.
pub enum Polled {
    /// Nobody has approved the login yet.
    Pending,
    /// The login was approved; this is its token.
    Approved(Seq<char>),
    /// The login has lapsed.
    Expired,
    /// There is no such login.
    Unknown,
}

impl View for PollOutcome {
    type V = Polled;

    open spec fn view(&self) -> Polled {
        match self {
            PollOutcome::Pending => Polled::Pending,
            PollOutcome::Approved(token) => Polled::Approved(token@),
            PollOutcome::Expired => Polled::Expired,
            PollOutcome::Unknown => Polled::Unknown,
        }
    }
}

/// Why an approval attempt failed.
#[derive(Debug, PartialEq, Eq, Structural, Clone, Copy)]
pub enum ApproveError {
    /// No login that is still valid carries the code.
    UnknownCode,
    /// No token could be made.
    Internal,
}

/// What a user code is matched by.
pub open spec fn comparable(code: Seq<char>) -> Seq<char> {
    kept(
        code,
        |c: char|
            if is_alphanumeric(c) {
                Some(upper(c))
            } else {
                None
            },
    )
}

/// Collapses a user code to what it is matched by: its letters and digits, in
/// upper case.
pub fn normalize_user_code(input: &str) -> (r: String)
    ensures
        r@ == comparable(input@),
{
    let v = chars_of(input);
    let ghost f = |c: char|
        if is_alphanumeric(c) {
            Some(upper(c))
        } else {
            None
        };
    let mut r = String::new();
    let mut i: usize = 0;
    proof {
        assert(kept(v@.take(0), f) =~= seq![]);
    }
    while i < v.len()
        invariant
            v@ == input@,
            i <= v@.len(),
            f == |c: char|
                if is_alphanumeric(c) {
                    Some(upper(c))
                } else {
                    None
                },
            r@ == kept(v@.take(i as int), f),
        decreases v@.len() - i,
    {
        proof {
            lemma_kept_step(v@, f, i as int);
        }
        if alphanumeric(v[i]) {
            r.push(to_upper(v[i]));
        }
        i += 1;
    }
    proof {
        assert(v@.take(v@.len() as int) =~= v@);
    }
    r
}

/// What a poll comes to.
pub open spec fn poll_result(
    logins: Map<Seq<char>, Login>,
    device_code: Seq<char>,
    now: nat,
) -> Polled {
    if !logins.contains_key(device_code) {
        Polled::Unknown
    } else if now >= logins[device_code].expires_at {
        Polled::Expired
    } else {
        match logins[device_code].token {
            Some(token) => Polled::Approved(token),
            None => Polled::Pending,
        }
    }
}

/// The logins after a poll: one that has lapsed or whose token was collected
/// is gone.
pub open spec fn after_poll(
    logins: Map<Seq<char>, Login>,
    device_code: Seq<char>,
    now: nat,
) -> Map<Seq<char>, Login> {
    match poll_result(logins, device_code, now) {
        Polled::Approved(_) => logins.remove(device_code),
        Polled::Expired => logins.remove(device_code),
        _ => logins,
    }
}

/// A new login.
pub open spec fn opened(user_code: Seq<char>, now: nat) -> Login {
    Login { user_code, expires_at: now + CODE_TTL_NANOS as nat, token: None }
}

/// A login that was approved.
pub open spec fn approved(login: Login, token: Seq<char>) -> Login {
    Login { token: Some(token), ..login }
}

/// Whether a login is still valid and carries `code`.
pub open spec fn awaits(login: Login, code: Seq<char>, now: nat) -> bool {
    comparable(login.user_code) == comparable(code) && now < login.expires_at
}

/// Whether any login is still valid and carries `code`.
pub open spec fn any_awaits(logins: Map<Seq<char>, Login>, code: Seq<char>, now: nat) -> bool {
    exists|device: Seq<char>| #[trigger]
        logins.contains_key(device) && awaits(logins[device], code, now)
}

/// Issued tokens and logins in flight.
#[derive(Debug)]
pub struct Auth {
    tokens: TextMap<Principal>,
    pending: TextMap<PendingLogin>,
}

impl Auth {
    /// The issued tokens and whom they belong to.
    pub closed spec fn issued(&self) -> Map<Seq<char>, Principal> {
        self.tokens@
    }

    /// The logins in flight, by their device codes.
    pub closed spec fn logins(&self) -> Map<Seq<char>, Login> {
        self.pending@.map_values(|p: PendingLogin| p@)
    }

    /// Starts with the tokens that were issued before, and no login in
    /// flight.
    pub fn load(tokens: TextMap<Principal>) -> (r: Auth)
        ensures
            r.issued() == tokens@,
            r.logins() == Map::<Seq<char>, Login>::empty(),
    {
        let r = Auth { tokens, pending: TextMap::new() };
        proof {
            assert(r.logins() =~= Map::<Seq<char>, Login>::empty());
        }
        r
    }

    /// The issued tokens, to be written down.
    pub fn tokens(&self) -> (r: &TextMap<Principal>)
        ensures
            r@ == self.issued(),
    {
        &self.tokens
    }

    /// Whether no token has ever been issued.
    pub fn is_empty(&self) -> (r: bool)
        ensures
            r == (self.issued() == Map::<Seq<char>, Principal>::empty()),
    {
        self.tokens.is_empty()
    }

    /// Whether `token` is a currently issued access token.
    pub fn validate(&self, token: &str) -> (r: bool)
        ensures
            r == self.issued().contains_key(token@),
    {
        self.tokens.contains_key(token)
    }

    /// Begins a login with these codes. Nothing is begun where the moment it
    /// lapses at cannot be told.
    pub fn begin(&mut self, device_code: &str, user_code: &str, now: u128) -> (r: bool)
        ensures
            r == (now + CODE_TTL_NANOS <= u128::MAX),
            final(self).issued() == old(self).issued(),
            final(self).logins() == (if r {
                old(self).logins().insert(device_code@, opened(user_code@, now as nat))
            } else {
                old(self).logins()
            }),
    {
        if now > u128::MAX - CODE_TTL_NANOS {
            return false;
        }
        let login = PendingLogin {
            user_code: user_code.to_owned(),
            expires_at: now + CODE_TTL_NANOS,
            token: None,
        };
        let ghost login_view = login@;
        self.pending.insert(device_code.to_owned(), login);
        proof {
            assert(self.logins() =~= old(self).logins().insert(device_code@, login_view));
        }
        true
    }

    /// Begins a login with the codes that were drawn, returning them. Nothing is
    /// begun where one of them could not be drawn, or where the moment the login
    /// lapses at cannot be told.
    pub fn start_with(
        &mut self,
        device_code: Option<String>,
        user_code: Option<String>,
        now: u128,
    ) -> (r: Option<(String, String)>)
        ensures
            final(self).issued() == old(self).issued(),
            match (device_code, user_code) {
                (Some(device), Some(user)) => if now + CODE_TTL_NANOS <= u128::MAX {
                    r == Some((device, user)) && final(self).logins() == old(self).logins().insert(
                        device@,
                        opened(user@, now as nat),
                    )
                } else {
                    r is None && final(self).logins() == old(self).logins()
                },
                _ => r is None && final(self).logins() == old(self).logins(),
            },
    {
        match (device_code, user_code) {
            (Some(device_code), Some(user_code)) => if self.begin(
                device_code.as_str(),
                user_code.as_str(),
                now,
            ) {
                Some((device_code, user_code))
            } else {
                None
            },
            _ => None,
        }
    }

    /// Begins a login with fresh codes, returning the device code and the user
    /// code. Nothing is begun where the system has no randomness to give; what
    /// comes of the codes that were drawn, [`Auth::start_with`] says.
    pub fn start(&mut self, now: u128) -> (r: Option<(String, String)>)
        ensures
            final(self).issued() == old(self).issued(),
            match r {
                Some((device, user)) => {
                    &&& now + CODE_TTL_NANOS <= u128::MAX
                    &&& final(self).logins() == old(self).logins().insert(
                        device@,
                        opened(user@, now as nat),
                    )
                    &&& exists|bytes: Seq<u8>|
                        bytes.len() == 32 && device@ == #[trigger] hex_of(bytes)
                    &&& exists|bytes: Seq<u8>|
                        bytes.len() == 8 && user@ == #[trigger] user_code(bytes)
                },
                None => final(self).logins() == old(self).logins(),
            },
    {
        let device_code = random_hex();
        let user_code = random_user_code();
        self.start_with(device_code, user_code, now)
    }

    /// Checks on a login; one that has resolved is gone afterwards.
    pub fn poll(&mut self, device_code: &str, now: u128) -> (r: PollOutcome)
        ensures
            r@ == poll_result(old(self).logins(), device_code@, now as nat),
            final(self).logins() == after_poll(old(self).logins(), device_code@, now as nat),
            final(self).issued() == old(self).issued(),
    {
        let outcome = match self.pending.get(device_code) {
            None => PollOutcome::Unknown,
            Some(pending) => if now >= pending.expires_at {
                PollOutcome::Expired
            } else {
                match &pending.token {
                    Some(token) => PollOutcome::Approved(token.clone()),
                    None => PollOutcome::Pending,
                }
            },
        };
        let resolved = match &outcome {
            PollOutcome::Approved(_) => true,
            PollOutcome::Expired => true,
            _ => false,
        };
        if resolved {
            let _consumed = self.pending.remove(device_code);
            proof {
                assert(self.logins() =~= old(self).logins().remove(device_code@));
            }
        }
        outcome
    }

    /// The device code of a login that is still valid and carries `code`.
    fn find(&self, code: &str, now: u128) -> (r: Option<String>)
        ensures
            match r {
                Some(device) => self.logins().contains_key(device@) && awaits(
                    self.logins()[device@],
                    code@,
                    now as nat,
                ),
                None => !any_awaits(self.logins(), code@, now as nat),
            },
    {
        let wanted = normalize_user_code(code);
        let entries = self.pending.entries();
        let ghost seen = entries@;
        let mut i: usize = 0;
        while i < entries.len()
            invariant
                i <= entries@.len(),
                seen == entries@,
                in_order(seen),
                as_map(seen) == self.pending@,
                wanted@ == comparable(code@),
                forall|j: int| 0 <= j < i ==> !awaits((#[trigger] seen[j]).1@, code@, now as nat),
            decreases entries@.len() - i,
        {
            let login = &entries[i].1;
            let theirs = normalize_user_code(login.user_code.as_str());
            if same(theirs.as_str(), wanted.as_str()) && now < login.expires_at {
                proof {
                    lemma_as_map_entry(seen, i as int);
                }
                return Some(entries[i].0.clone());
            }
            i += 1;
        }
        proof {
            if any_awaits(self.logins(), code@, now as nat) {
                let device = choose|device: Seq<char>| #[trigger]
                    self.logins().contains_key(device) && awaits(
                        self.logins()[device],
                        code@,
                        now as nat,
                    );
                assert(as_map(seen).contains_key(device));
                let j = crate::keyed::key_index(seen, device);
                lemma_as_map_entry(seen, j);
                assert(!awaits(seen[j].1@, code@, now as nat));
            }
        }
        None
    }

    /// Approves a login that carries `user_code`, with a token that was minted
    /// for it. Where several logins carry the code, one of them is approved.
    pub fn approve_with(
        &mut self,
        user_code: &str,
        principal: Principal,
        token: &str,
        now: u128,
    ) -> (r: bool)
        ensures
            r == any_awaits(old(self).logins(), user_code@, now as nat),
            !r ==> final(self).logins() == old(self).logins() && final(self).issued() == old(
                self,
            ).issued(),
            r ==> final(self).issued() == old(self).issued().insert(token@, principal),
            r ==> exists|device: Seq<char>|
                {
                    &&& #[trigger] old(self).logins().contains_key(device)
                    &&& awaits(old(self).logins()[device], user_code@, now as nat)
                    &&& final(self).logins() == old(self).logins().insert(
                        device,
                        approved(old(self).logins()[device], token@),
                    )
                },
    {
        let device = match self.find(user_code, now) {
            Some(device) => device,
            None => {
                return false;
            },
        };
        let ghost device_code = device@;
        let login = match self.pending.get(device.as_str()) {
            Some(pending) => PendingLogin {
                user_code: pending.user_code.clone(),
                expires_at: pending.expires_at,
                token: Some(token.to_owned()),
            },
            None => {
                return false;
            },
        };
        let ghost login_view = login@;
        self.tokens.insert(token.to_owned(), principal);
        self.pending.insert(device, login);
        proof {
            let before = old(self).logins();
            assert(login_view == approved(before[device_code], token@));
            assert(self.logins() =~= before.insert(device_code, login_view));
            assert(before.contains_key(device_code));
        }
        true
    }

    /// Approves the login carrying `user_code`, minting a token for
    /// `principal`.
    pub fn approve(&mut self, user_code: &str, principal: Principal, now: u128) -> (r: Result<
        (),
        ApproveError,
    >)
        ensures
            r == Err::<(), ApproveError>(ApproveError::UnknownCode) <==> !any_awaits(
                old(self).logins(),
                user_code@,
                now as nat,
            ),
            r is Err ==> final(self).logins() == old(self).logins() && final(self).issued() == old(
                self,
            ).issued(),
            r is Ok ==> exists|bytes: Seq<u8>, device: Seq<char>|
                {
                    &&& bytes.len() == 32
                    &&& #[trigger] old(self).logins().contains_key(device)
                    &&& awaits(old(self).logins()[device], user_code@, now as nat)
                    &&& final(self).issued() == old(self).issued().insert(
                        #[trigger] hex_of(bytes),
                        principal,
                    )
                    &&& final(self).logins() == old(self).logins().insert(
                        device,
                        approved(old(self).logins()[device], hex_of(bytes)),
                    )
                },
    {
        match self.find(user_code, now) {
            Some(device) => {
                proof {
                    assert(self.logins().contains_key(device@));
                }
            },
            None => {
                return Err(ApproveError::UnknownCode);
            },
        }
        match random_hex() {
            Some(token) => {
                let _approved = self.approve_with(user_code, principal, token.as_str(), now);
                Ok(())
            },
            None => Err(ApproveError::Internal),
        }
    }
}

/// A login that was begun waits until it lapses.
pub proof fn law_begun_login_is_pending(
    logins: Map<Seq<char>, Login>,
    device: Seq<char>,
    code: Seq<char>,
    begun: nat,
    now: nat,
)
    ensures
        poll_result(logins.insert(device, opened(code, begun)), device, now) == (if now < begun
            + CODE_TTL_NANOS {
            Polled::Pending
        } else {
            Polled::Expired
        }),
        awaits(opened(code, begun), code, now) == (now < begun + CODE_TTL_NANOS),
{
}

/// An approved login hands its token out once, and is not known after that.
pub proof fn law_token_is_collected_once(
    logins: Map<Seq<char>, Login>,
    device: Seq<char>,
    token: Seq<char>,
    now: nat,
    later: nat,
)
    requires
        logins.contains_key(device),
        now < logins[device].expires_at,
    ensures
        poll_result(logins.insert(device, approved(logins[device], token)), device, now)
            == Polled::Approved(token),
        poll_result(
            after_poll(logins.insert(device, approved(logins[device], token)), device, now),
            device,
            later,
        ) == Polled::Unknown,
{
}

/// A poll for one login leaves every other login as it was.
pub proof fn law_poll_touches_one_login(
    logins: Map<Seq<char>, Login>,
    device: Seq<char>,
    other: Seq<char>,
    now: nat,
)
    requires
        device != other,
    ensures
        poll_result(after_poll(logins, device, now), other, now) == poll_result(logins, other, now),
{
}

/// A code is matched whatever the case of its letters.
pub proof fn law_code_ignores_case(code: Seq<char>)
    ensures
        comparable(lowered(code)) == comparable(code),
    decreases code.len(),
{
    let f = |c: char|
        if is_alphanumeric(c) {
            Some(upper(c))
        } else {
            None
        };
    if code.len() > 0 {
        law_code_ignores_case(code.drop_last());
        assert(lowered(code).drop_last() =~= lowered(code.drop_last()));
        lemma_case_of_letter(code.last());
    }
}

proof fn lemma_case_of_letter(c: char)
    ensures
        is_alphanumeric(lower(c)) == is_alphanumeric(c),
        is_alphanumeric(c) ==> upper(lower(c)) == upper(c),
        is_alphanumeric(c) ==> is_alphanumeric(upper(c)),
        upper(upper(c)) == upper(c),
{
}

/// A code is matched with its dash or without it.
pub proof fn law_code_ignores_dashes(a: Seq<char>, b: Seq<char>)
    ensures
        comparable(a + seq!['-'] + b) == comparable(a + b),
{
    let f = |c: char|
        if is_alphanumeric(c) {
            Some(upper(c))
        } else {
            None
        };
    crate::seqs::lemma_kept_concat(a + seq!['-'], b, f);
    crate::seqs::lemma_kept_concat(a, seq!['-'], f);
    crate::seqs::lemma_kept_concat(a, b, f);
    assert(kept(seq!['-'], f) =~= seq![]) by {
        assert(seq!['-'].drop_last() =~= seq![]);
        assert(kept(Seq::<char>::empty(), f) =~= seq![]);
    }
    assert(kept(a, f) + seq![] =~= kept(a, f));
}

/// What a client is told of a poll that gives it no token.
pub fn oauth_code(outcome: &PollOutcome) -> (r: Option<&'static str>)
    ensures
        match outcome@ {
            Polled::Approved(_) => r is None,
            Polled::Pending => r matches Some(code) && code@ == "authorization_pending"@,
            Polled::Expired => r matches Some(code) && code@ == "expired_token"@,
            Polled::Unknown => r matches Some(code) && code@ == "invalid_grant"@,
        },
{
    match outcome {
        PollOutcome::Approved(_) => None,
        PollOutcome::Pending => Some("authorization_pending"),
        PollOutcome::Expired => Some("expired_token"),
        PollOutcome::Unknown => Some("invalid_grant"),
    }
}

/// Whether an approval may go ahead.
#[derive(Debug, PartialEq, Eq, Structural, Clone, Copy)]
pub enum Approval {
    /// No admin token is set, so nobody can approve.
    NotConfigured,
    /// The admin token that was given is not the one that is set.
    Refused,
    /// The approval may go ahead.
    Allowed,
}

/// Whether an approval may go ahead: only with the admin token, and only where
/// one is set.
pub fn verify_submit(access_token: Option<&str>, given: &str) -> (r: Approval)
    ensures
        r == (match access_token {
            None => Approval::NotConfigured,
            Some(admin) => if given@ == admin@ {
                Approval::Allowed
            } else {
                Approval::Refused
            },
        }),
{
    match access_token {
        None => Approval::NotConfigured,
        Some(admin) => if same(given, admin) {
            Approval::Allowed
        } else {
            Approval::Refused
        },
    }
}

/// Law: codes without dashes are the same exactly where their characters are, up
/// to case.
pub proof fn law_codes_differ_by_their_characters(a: Seq<char>, b: Seq<char>)
    requires
        forall|i: int| 0 <= i < a.len() ==> is_alphanumeric(#[trigger] a[i]),
        forall|i: int| 0 <= i < b.len() ==> is_alphanumeric(#[trigger] b[i]),
    ensures
        comparable(a) == comparable(b) <==> a.len() == b.len() && forall|i: int|
            0 <= i < a.len() ==> upper(#[trigger] a[i]) == upper(b[i]),
{
    lemma_comparable_plain(a);
    lemma_comparable_plain(b);
    let x = a.map_values(|c: char| upper(c));
    let y = b.map_values(|c: char| upper(c));
    if comparable(a) == comparable(b) {
        assert(x.len() == y.len());
        assert forall|i: int| 0 <= i < a.len() implies upper(#[trigger] a[i]) == upper(b[i]) by {
            assert(x[i] == y[i]);
        }
    }
    if a.len() == b.len() && forall|i: int|
        0 <= i < a.len() ==> upper(#[trigger] a[i]) == upper(b[i]) {
        assert(x =~= y);
    }
}

proof fn lemma_comparable_plain(a: Seq<char>)
    requires
        forall|i: int| 0 <= i < a.len() ==> is_alphanumeric(#[trigger] a[i]),
    ensures
        comparable(a) == a.map_values(|c: char| upper(c)),
{
    let f = |c: char|
        if is_alphanumeric(c) {
            Some(upper(c))
        } else {
            None
        };
    crate::seqs::lemma_kept_all(a, f, a.map_values(|c: char| upper(c)));
}

/// Law: a login can be approved for fifteen minutes after it began, by its own
/// code, and not a moment longer.
pub proof fn law_login_waits_fifteen_minutes(code: Seq<char>, other: Seq<char>, begun: nat, now: nat)
    ensures
        awaits(opened(code, begun), code, now) <==> now < begun + 900_000_000_000,
        comparable(other) != comparable(code) ==> !awaits(opened(code, begun), other, now),
        opened(code, begun).token is None,
{
}

/// Law: approving a login gives it the token and changes nothing else of it.
pub proof fn law_approval_adds_the_token(login: Login, token: Seq<char>)
    ensures
        approved(login, token).token == Some(token),
        approved(login, token).user_code == login.user_code,
        approved(login, token).expires_at == login.expires_at,
{
}

/// Law: asking too early changes nothing, and a login that has run out is
/// dropped, with any token that it held.
pub proof fn law_poll_keeps_or_drops(logins: Map<Seq<char>, Login>, device: Seq<char>, now: nat)
    ensures
        logins.contains_key(device) && now < logins[device].expires_at
            && logins[device].token is None ==> poll_result(logins, device, now) == Polled::Pending
            && after_poll(logins, device, now) == logins,
        logins.contains_key(device) && now >= logins[device].expires_at ==> poll_result(
            logins,
            device,
            now,
        ) == Polled::Expired && after_poll(logins, device, now) == logins.remove(device),
        !logins.contains_key(device) ==> poll_result(logins, device, now) == Polled::Unknown
            && after_poll(logins, device, now) == logins,
{
}

} // verus!
