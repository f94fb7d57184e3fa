use git_ents::forms::{field, form, percent_decode, trimmed_field};
use git_ents::sessions::{
    cleared_cookie, csrf_ok, is_secure_request, issue_challenge, issue_nonce, key_comment, key_type,
    login_begin, login_finish, login_signers, logout, new_challenges, new_sessions, normalize_key,
    session_cookie, snapshot, take_challenge, token,
};

const NOW: u128 = 5_000_000_000;

#[test]
fn normalizes_keys_by_dropping_the_comment() {
    assert_eq!(
        normalize_key("ssh-ed25519 AAAABODY laptop@host"),
        normalize_key("ssh-ed25519 AAAABODY web"),
    );
}

#[test]
fn reads_a_keys_comment_as_its_label() {
    assert_eq!(
        key_comment("ssh-ed25519 AAAA laptop").as_deref(),
        Some("laptop")
    );
    assert_eq!(key_comment("ssh-ed25519 AAAA"), None);
}

#[test]
fn decodes_form_fields() {
    assert_eq!(
        field(b"public_key=ssh-ed25519+AAAA&signature=a%0Ab", "public_key").as_deref(),
        Some("ssh-ed25519 AAAA"),
    );
    assert_eq!(
        field(b"public_key=ssh-ed25519+AAAA&signature=a%0Ab", "signature").as_deref(),
        Some("a\nb"),
    );
}

#[test]
fn reads_the_session_cookie() {
    assert_eq!(
        token("other=1; ents_session=abc123; x=2").as_deref(),
        Some("abc123"),
    );
    assert_eq!(token("other=1").as_deref(), None);
}

#[test]
fn a_consumed_challenge_does_not_verify_twice() {
    let mut challenges = new_challenges();
    let nonce = issue_challenge(&mut challenges, NOW).unwrap();
    assert!(take_challenge(&mut challenges, &nonce, NOW), "first use should pass");
    assert!(
        !take_challenge(&mut challenges, &nonce, NOW),
        "a challenge is one-time"
    );
}

#[test]
fn a_stale_challenge_is_refused() {
    let mut challenges = new_challenges();
    issue_nonce(&mut challenges, "n", NOW);
    assert!(!take_challenge(&mut challenges, "n", NOW + 3_600_000_000_000));
    assert!(!take_challenge(&mut challenges, "other", NOW));
}

#[test]
fn odd_percent_signs_are_kept() {
    assert_eq!(percent_decode("a%2"), "a%2");
    assert_eq!(percent_decode("100%"), "100%");
    assert_eq!(percent_decode("%zz+%41"), "%zz A");
    assert_eq!(percent_decode("%e2%82%ac"), "\u{20ac}");
    assert_eq!(percent_decode("%ff"), "\u{fffd}");
}

#[test]
fn the_last_value_of_a_field_wins() {
    let fields = form(b"a=1&b&a=2&=x");
    assert_eq!(fields.get("a").map(|s| s.as_str()), Some("2"));
    assert_eq!(fields.get("").map(|s| s.as_str()), Some("x"));
    assert!(!fields.contains_key("b"));
    assert_eq!(trimmed_field(b"a=+1+", "a"), "1");
    assert_eq!(trimmed_field(b"", "a"), "");
}

fn body(nonce: &str) -> String {
    format!("nonce={nonce}&public_key=ssh-ed25519+AAAA+laptop&signature=SIG")
}

#[test]
fn signing_in_opens_a_session() {
    let mut challenges = new_challenges();
    let mut sessions = new_sessions();
    issue_nonce(&mut challenges, "n1", NOW);
    let attempt = login_begin(&mut challenges, body("n1").as_bytes(), NOW).unwrap();
    assert_eq!(attempt.signature, "SIG");
    assert_eq!(attempt.nonce, "n1");
    assert_eq!(
        login_signers(&attempt.public_key),
        "* namespaces=\"git-ents-login\" ssh-ed25519 AAAA\n"
    );
    login_finish(&mut sessions, &attempt, true, "tok", "csrf").unwrap();
    let cookie = session_cookie("tok", false);
    assert_eq!(cookie, "ents_session=tok; Path=/; HttpOnly; SameSite=Lax");
    let session = snapshot(&sessions, Some("ents_session=tok")).unwrap();
    assert_eq!(session.label, "laptop");
    assert_eq!(session.public_key, "ssh-ed25519 AAAA");
    assert!(csrf_ok(&sessions, Some("ents_session=tok"), "csrf"));
    assert!(!csrf_ok(&sessions, Some("ents_session=tok"), "other"));
    assert!(!csrf_ok(&sessions, None, "csrf"));
    logout(&mut sessions, Some("ents_session=tok"));
    assert!(snapshot(&sessions, Some("ents_session=tok")).is_none());
    assert!(login_begin(&mut challenges, body("n1").as_bytes(), NOW).is_err());
}

#[test]
fn a_signature_that_does_not_match_the_public_key_is_refused() {
    let mut challenges = new_challenges();
    let mut sessions = new_sessions();
    issue_nonce(&mut challenges, "n1", NOW);
    let attempt = login_begin(&mut challenges, body("n1").as_bytes(), NOW).unwrap();
    assert_eq!(
        login_finish(&mut sessions, &attempt, false, "tok", "csrf").unwrap_err(),
        "the signature did not match that public key"
    );
    assert!(snapshot(&sessions, Some("ents_session=tok")).is_none());
}

#[test]
fn cookies_are_secure_over_https() {
    assert_eq!(
        session_cookie("t", true),
        "ents_session=t; Path=/; HttpOnly; SameSite=Lax; Secure"
    );
    assert_eq!(
        cleared_cookie(false),
        "ents_session=; Path=/; Max-Age=0; HttpOnly; SameSite=Lax"
    );
    assert!(is_secure_request(Some("HTTPS")));
    assert!(!is_secure_request(Some("http")));
    assert!(!is_secure_request(None));
    assert_eq!(key_type(""), "key");
    assert_eq!(key_type("ssh-rsa X"), "ssh-rsa");
}
