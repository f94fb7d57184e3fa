use git_ents::keyed::{TextMap, TextSet};
use git_ents::member_edit::{
    check, check_fingerprint, client_line, member_to_edit, members_add, members_list,
    members_revoke, members_unrevoke, pin_authority, resolve_trust, revoke_question,
    validate_timestamp, window_suffix, Authorized, TrustSource,
};
use git_ents::members::{
    allowed_signers, load_all_indexed, member_ref, valid_timestamp, without_revoked, Member,
    Provenance, Trust, WebAuthnKey,
};
use git_ents::revocations::Revocation;

const KEY_A: &str =
    "ssh-ed25519 AAAAC3NzaC1lZDI1NTE5AAAAIaaaaaaaaaaaaaaaaaaaaaaaaaaaaaaaaaaaaaaaaaaA alice";
const KEY_B: &str =
    "ssh-ed25519 AAAAC3NzaC1lZDI1NTE5AAAAIbbbbbbbbbbbbbbbbbbbbbbbbbbbbbbbbbbbbbbbbbbB bob";

fn keys(pairs: &[(&str, &str)]) -> TextMap<String> {
    let mut map = TextMap::new();
    for (fingerprint, key) in pairs {
        map.insert((*fingerprint).to_owned(), (*key).to_owned());
    }
    map
}

fn set(elements: &[&str]) -> TextSet {
    let mut set = TextSet::new();
    for element in elements {
        set.insert((*element).to_owned());
    }
    set
}

#[test]
fn members_renders_a_wildcard_allowed_signers_file() {
    let member = Member::with_keys("alice".to_owned(), keys(&[("aa:bb", KEY_A)]));
    assert_eq!(
        allowed_signers(&[member]),
        format!("* namespaces=\"git\" {KEY_A}\n")
    );
}

#[test]
fn members_renders_the_validity_window_as_comma_joined_options() {
    let mut member = Member::with_keys("alice".to_owned(), keys(&[("aa:bb", KEY_A)]));
    member.valid_after = Some("20260101".to_owned());
    member.valid_before = Some("20270101".to_owned());
    assert_eq!(
        allowed_signers(&[member]),
        format!(
            "* valid-after=\"20260101\",valid-before=\"20270101\",namespaces=\"git\" {KEY_A}\n"
        )
    );
}

#[test]
fn without_revoked_drops_revoked_keys_and_emptied_members() {
    let alice = Member::with_keys(
        "alice".to_owned(),
        keys(&[("aa:bb", KEY_A), ("cc:dd", KEY_B)]),
    );
    let bob = Member::with_keys("bob".to_owned(), keys(&[("ee:ff", KEY_A)]));
    let revoked = set(&["cc:dd", "ee:ff"]);

    let alice_kept = Member::with_keys("alice".to_owned(), keys(&[("aa:bb", KEY_A)]));
    assert_eq!(
        without_revoked(vec![alice, bob], &revoked),
        vec![alice_kept]
    );
}

#[test]
fn without_revoked_leaves_ca_members_untouched() {
    let member = Member::with_ca("alice".to_owned(), KEY_A.to_owned());
    let revoked = set(&["aa:bb"]);
    assert_eq!(
        without_revoked(vec![member.clone()], &revoked),
        vec![member]
    );
}

#[test]
fn renders_a_pinned_ca_as_a_cert_authority_line() {
    let mut member = Member::with_ca("alice".to_owned(), KEY_A.to_owned());
    member.valid_before = Some("20270101".to_owned());
    assert_eq!(
        allowed_signers(&[member]),
        format!("* cert-authority,valid-before=\"20270101\",namespaces=\"git\" {KEY_A}\n")
    );
}

#[test]
fn validate_rejects_a_malformed_timestamp() {
    let mut member = Member::with_keys("alice".to_owned(), keys(&[("aa:bb", KEY_A)]));
    member.valid_before = Some("not-a-timestamp".to_owned());
    assert!(member.validate().is_err());
}

#[test]
fn validate_rejects_an_inverted_window() {
    let mut member = Member::with_keys("alice".to_owned(), keys(&[("aa:bb", KEY_A)]));
    member.valid_after = Some("20270101".to_owned());
    member.valid_before = Some("20260101".to_owned());
    assert!(member.validate().is_err());
}

#[test]
fn validate_accepts_an_ordered_window_of_mixed_precision() {
    let mut member = Member::with_keys("alice".to_owned(), keys(&[("aa:bb", KEY_A)]));
    member.valid_after = Some("20260101".to_owned());
    member.valid_before = Some("20270101120000Z".to_owned());
    member.validate().unwrap();
}

#[test]
fn passkeys_render_no_signer_line() {
    let mut passkeys = TextMap::new();
    passkeys.insert(
        "cred".to_owned(),
        WebAuthnKey { cose_key: "k".to_owned(), label: "phone".to_owned() },
    );
    let member = Member::with_webauthn("alice".to_owned(), passkeys);
    assert_eq!(member.provenance, Provenance::SelfAttestedWeb);
    assert!(member.keys().is_empty());
    assert_eq!(member.ca(), None);
    assert_eq!(allowed_signers(&[member]), "");
}

#[test]
fn timestamps_have_three_lengths() {
    assert!(valid_timestamp("20260101"));
    assert!(valid_timestamp("202601011200Z"));
    assert!(valid_timestamp("20260101120000"));
    assert!(!valid_timestamp("2026010"));
    assert!(!valid_timestamp("2026-01-01"));
    assert!(!valid_timestamp("Z"));
}

#[test]
fn a_member_lives_on_their_own_ref() {
    assert_eq!(member_ref("alice"), "refs/meta/member/alice");
}

#[test]
fn indexing_members_keeps_the_last_of_a_name() {
    let first = Member::with_ca("alice".to_owned(), "one".to_owned());
    let second = Member::with_ca("alice".to_owned(), "two".to_owned());
    let index = load_all_indexed(vec![first, second]);
    assert_eq!(index.len(), 1);
    assert_eq!(index.get("alice").and_then(|m| m.ca()), Some("two"));
}

#[test]
fn lists_members_with_window_and_revocation() {
    let mut alice = Member::with_keys(
        "alice".to_owned(),
        keys(&[("aa:bb", KEY_A), ("cc:dd", "ssh-ed25519 AAAA two words")]),
    );
    alice.valid_before = Some("20270101".to_owned());
    let carol = Member::with_ca("carol".to_owned(), KEY_B.to_owned());
    assert_eq!(
        members_list("origin", &[alice, carol], &set(&["cc:dd"])),
        vec![
            "alice/aa:bb  alice (before 20270101)",
            "alice/cc:dd  two words (before 20270101) [revoked]",
            "carol  cert-authority bob",
        ]
    );
    assert_eq!(
        members_list("origin", &[], &set(&[])),
        vec!["no members on origin (open bootstrap window)"]
    );
}

#[test]
fn a_window_is_noted_on_both_sides() {
    let mut member = Member::with_ca("a".to_owned(), "k".to_owned());
    assert_eq!(window_suffix(&member), "");
    member.valid_after = Some("20260101".to_owned());
    assert_eq!(window_suffix(&member), " (after 20260101)");
    member.valid_before = Some("20270101".to_owned());
    assert_eq!(window_suffix(&member), " (after 20260101, before 20270101)");
}

fn revocation(fingerprint: &str, reason: &str) -> Revocation {
    Revocation { fingerprint: fingerprint.to_owned(), reason: reason.to_owned() }
}

#[test]
fn revoking_and_lifting_a_key() {
    let list = members_revoke(vec![revocation("aa:bb", "old")], "cc:dd", "lost".to_owned());
    assert_eq!(list, vec![revocation("aa:bb", "old"), revocation("cc:dd", "lost")]);
    let list = members_revoke(list, "aa:bb", "stolen".to_owned());
    assert_eq!(list, vec![revocation("aa:bb", "stolen"), revocation("cc:dd", "lost")]);
    let list = members_unrevoke(list, "cc:dd", "origin").unwrap();
    assert_eq!(list, vec![revocation("aa:bb", "stolen")]);
    assert_eq!(
        members_unrevoke(list, "cc:dd", "origin").unwrap_err(),
        "cc:dd is not revoked on origin"
    );
}

#[test]
fn only_fingerprints_can_be_revoked() {
    assert_eq!(check_fingerprint("aa:bb:0F"), Ok(()));
    assert_eq!(
        check_fingerprint("SHA256\"x").unwrap_err(),
        "\"SHA256\\\"x\" does not look like a key fingerprint (expected colon-hex form, e.g. aa:bb:cc:..., as `members list` prints)"
    );
    assert_eq!(
        revoke_question("aa:bb", Some("aa:bb"), "origin").unwrap(),
        "aa:bb is your own signing key; revoking it may lock you out of origin. Continue?"
    );
    assert_eq!(revoke_question("aa:bb", Some("cc:dd"), "origin"), None);
    assert_eq!(revoke_question("aa:bb", None, "origin"), None);
}

#[test]
fn trust_is_given_or_asked_for() {
    assert_eq!(
        resolve_trust(Some("k".to_owned()), Some("ca".to_owned()), true).unwrap_err(),
        "--key conflicts with --cert-authority"
    );
    assert_eq!(
        resolve_trust(Some("k".to_owned()), None, true),
        Ok(TrustSource::Key(Some("k".to_owned())))
    );
    assert_eq!(
        resolve_trust(None, Some("ca".to_owned()), false),
        Ok(TrustSource::CertAuthority("ca".to_owned()))
    );
    assert_eq!(resolve_trust(None, None, false), Ok(TrustSource::Key(None)));
    assert_eq!(resolve_trust(None, None, true), Ok(TrustSource::Ask));
}

#[test]
fn a_malformed_bound_is_refused_early() {
    assert_eq!(validate_timestamp("20260101Z"), Ok(()));
    assert_eq!(
        validate_timestamp("soon").unwrap_err(),
        "invalid timestamp \"soon\": expected YYYYMMDD[Z] or YYYYMMDDHHMM[SS][Z]"
    );
}

#[test]
fn authorizing_keys() {
    let member = member_to_edit(None, "alice", Some("20260101".to_owned()), None, None);
    assert_eq!(member.principal, "alice");
    assert_eq!(member.valid_after.as_deref(), Some("20260101"));
    let member = match members_add(member, "alice", "aa:bb", KEY_A.to_owned()) {
        Ok(Authorized::Added(member)) => member,
        _ => panic!("the key should be added"),
    };
    assert_eq!(member.keys().len(), 1);
    let same_key_other_comment = KEY_A.replace(" alice", " laptop");
    assert_eq!(
        members_add(member.clone(), "alice", "aa:bb", same_key_other_comment),
        Ok(Authorized::Already)
    );
    let member = match members_add(member, "alice", "cc:dd", KEY_B.to_owned()) {
        Ok(Authorized::Added(member)) => member,
        _ => panic!("the second key should be added"),
    };
    assert_eq!(member.keys().len(), 2);
    let pinned = pin_authority(member, KEY_B.to_owned());
    assert_eq!(pinned.ca(), Some(KEY_B));
    assert_eq!(
        members_add(pinned, "alice", "aa:bb", KEY_A.to_owned()).unwrap_err(),
        "alice is pinned to a certificate authority; revoke and re-add to switch to leaf keys"
    );
    let passkeys = Member::with_webauthn("bob".to_owned(), TextMap::new());
    assert_eq!(
        members_add(passkeys, "bob", "aa:bb", KEY_A.to_owned()).unwrap_err(),
        "bob is a self-attested WebAuthn member; an admin must promote them before adding leaf keys"
    );
}

#[test]
fn editing_a_member_keeps_what_was_not_given() {
    let mut existing = Member::with_keys("alice".to_owned(), keys(&[("aa:bb", KEY_A)]));
    existing.valid_after = Some("20260101".to_owned());
    existing.account = Some("hash".to_owned());
    let edited = member_to_edit(
        Some(existing),
        "ignored",
        None,
        Some("20270101".to_owned()),
        None,
    );
    assert_eq!(edited.principal, "alice");
    assert_eq!(edited.valid_after.as_deref(), Some("20260101"));
    assert_eq!(edited.valid_before.as_deref(), Some("20270101"));
    assert_eq!(edited.account.as_deref(), Some("hash"));
    assert!(matches!(edited.trust, Trust::Keys(_)));
}

#[test]
fn reports_whether_a_key_is_a_member() {
    assert_eq!(
        check("origin", &[], KEY_A, "aa:bb"),
        "origin: open bootstrap window (no members yet)"
    );
    let alice = Member::with_keys("alice".to_owned(), keys(&[("aa:bb", KEY_A)]));
    assert_eq!(
        check("origin", &[alice.clone()], KEY_A, "aa:bb"),
        "origin: aa:bb is a member (alice)"
    );
    assert_eq!(
        check("origin", &[alice], KEY_B, "cc:dd"),
        "origin: cc:dd is NOT a member"
    );
    assert_eq!(
        client_line(Some("ssh"), None, Some("if-asked")),
        "client: gpg.format=ssh, user.signingkey=(unset), push.gpgSign=if-asked"
    );
}
