use git_ents::auth::{
    normalize_user_code, oauth_code, verify_submit, Approval, ApproveError, Auth, PollOutcome,
    Principal,
};
use git_ents::keyed::TextMap;

const NOW: u128 = 1_000_000_000;

#[test]
fn device_flow_round_trip() {
    let mut auth = Auth::load(TextMap::new());
    assert!(auth.is_empty());

    let (device_code, user_code) = auth.start(NOW).unwrap();
    assert!(matches!(auth.poll(&device_code, NOW), PollOutcome::Pending));

    auth.approve(&user_code, Principal::Admin, NOW).unwrap();

    let PollOutcome::Approved(token) = auth.poll(&device_code, NOW) else {
        panic!("login should be approved");
    };
    assert!(auth.validate(&token));
    assert!(!auth.is_empty());
    assert!(matches!(auth.poll(&device_code, NOW), PollOutcome::Unknown));
}

#[test]
fn approval_accepts_dashless_lowercase_codes() {
    let mut auth = Auth::load(TextMap::new());
    let (_device, user_code) = auth.start(NOW).unwrap();

    let messy = user_code.replace('-', "").to_lowercase();
    auth.approve(&messy, Principal::Admin, NOW).unwrap();
}

#[test]
fn approval_rejects_unknown_code() {
    let mut auth = Auth::load(TextMap::new());
    assert!(matches!(
        auth.approve("ZZZZ-ZZZZ", Principal::Admin, NOW),
        Err(ApproveError::UnknownCode)
    ));
}

#[test]
fn issued_tokens_survive_reload() {
    let (token, tokens) = {
        let mut auth = Auth::load(TextMap::new());
        let (device_code, user_code) = auth.start(NOW).unwrap();
        auth.approve(&user_code, Principal::Github("alice".to_owned()), NOW).unwrap();
        match auth.poll(&device_code, NOW) {
            PollOutcome::Approved(token) => (token, auth.tokens().clone()),
            _ => panic!("login should be approved"),
        }
    };

    let reloaded = Auth::load(tokens);
    assert!(reloaded.validate(&token));
}

#[test]
fn codes_expire() {
    let mut auth = Auth::load(TextMap::new());
    let (device_code, user_code) = auth.start(NOW).unwrap();
    let late = NOW + 3_600_000_000_000;
    assert!(matches!(
        auth.approve(&user_code, Principal::Admin, late),
        Err(ApproveError::UnknownCode)
    ));
    assert!(matches!(auth.poll(&device_code, late), PollOutcome::Expired));
}

#[test]
fn polling_touches_one_login() {
    let mut auth = Auth::load(TextMap::new());
    let (first, _code) = auth.start(NOW).unwrap();
    let (second, code) = auth.start(NOW).unwrap();
    assert_ne!(first, second);
    auth.approve(&code, Principal::Atproto("did".to_owned()), NOW).unwrap();
    assert!(matches!(auth.poll(&first, NOW), PollOutcome::Pending));
    assert!(matches!(auth.poll(&second, NOW), PollOutcome::Approved(_)));
}

#[test]
fn user_codes_are_compared_in_one_form() {
    assert_eq!(normalize_user_code("ab-c1 x"), normalize_user_code("ABC1 X"));
    assert_eq!(oauth_code(&PollOutcome::Pending), Some("authorization_pending"));
    assert_eq!(oauth_code(&PollOutcome::Expired), Some("expired_token"));
}

#[test]
fn approval_needs_the_access_token() {
    assert!(matches!(verify_submit(None, "x"), Approval::NotConfigured));
    assert!(matches!(verify_submit(Some("t"), "x"), Approval::Refused));
    assert!(matches!(verify_submit(Some("t"), "t"), Approval::Allowed));
}

#[test]
fn a_login_starts_once_both_codes_are_drawn() {
    let code = |text: &str| Some(text.to_owned());
    let mut auth = Auth::load(TextMap::new());
    assert_eq!(auth.start_with(None, code("ABCD-EFGH"), 0), None);
    assert_eq!(auth.start_with(code("dev"), None, 0), None);
    assert_eq!(auth.start_with(code("dev"), code("ABCD-EFGH"), u128::MAX), None);
    assert!(matches!(auth.poll("dev", 0), PollOutcome::Unknown));
    assert_eq!(
        auth.start_with(code("dev"), code("ABCD-EFGH"), 0),
        Some(("dev".to_owned(), "ABCD-EFGH".to_owned()))
    );
    assert!(matches!(auth.poll("dev", 0), PollOutcome::Pending));
}
