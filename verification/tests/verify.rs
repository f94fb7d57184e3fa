use git_ents::debug::{
    handshake, parse_resize, pump, relay, resize_frame, shell_args, Action, Event, PumpAction,
    PumpEvent, Size,
};
use git_ents::keyed::{TextMap, TextSet};
use git_ents::members::{Member, Trust};
use git_ents::order::{order_of, sort_texts};
use git_ents::routes::Resolved;
use git_ents::sessions::{new_sessions, Session};
use git_ents::verify::{pre_receive, signer_principal, verdict, verify_certificate, Gate};

fn member(name: &str, fingerprint: &str, key: &str) -> Member {
    let mut keys = TextMap::new();
    keys.insert(fingerprint.to_owned(), key.to_owned());
    Member::with_keys(name.to_owned(), keys)
}

const CERTIFICATE: &str = "certificate version 0.1\npusher Ann <ann@x> 1 +0000\n\n0 1 refs/heads/x\n-----BEGIN SSH SIGNATURE-----\nabc\n";

#[test]
fn a_repository_without_members_is_open() {
    assert_eq!(pre_receive(&[], None, None), Gate::Accept);
}

#[test]
fn a_push_needs_a_fresh_certificate() {
    let members = [member("ann", "aa", "ssh-rsa A")];
    assert_eq!(
        pre_receive(&members, None, Some("OK")),
        Gate::Refuse("this repository requires a signed push: rerun with `git push --signed`")
    );
    assert_eq!(
        pre_receive(&members, Some(String::new()), Some("OK")),
        Gate::Refuse("this repository requires a signed push: rerun with `git push --signed`")
    );
    assert_eq!(
        pre_receive(&members, Some("oid".to_owned()), Some("SLOP")),
        Gate::Refuse("push certificate nonce was missing or stale")
    );
    assert_eq!(
        pre_receive(&members, Some("oid".to_owned()), Some("OK")),
        Gate::Read("oid".to_owned())
    );
}

#[test]
fn a_certificate_is_verified_against_honored_keys() {
    let mut bounded = member("bob", "bb", "ssh-rsa B");
    bounded.valid_before = Some("20200101".to_owned());
    let members = vec![member("ann", "aa", "ssh-rsa A"), bounded, member("eve", "ee", "ssh-rsa E")];
    let mut revoked = TextSet::new();
    revoked.insert("ee".to_owned());
    let found = verify_certificate(members, &revoked, CERTIFICATE).unwrap();
    assert_eq!(
        found.allowed_signers,
        "* namespaces=\"git\" ssh-rsa A\n* valid-before=\"20200101\",namespaces=\"git\" ssh-rsa B\n"
    );
    assert_eq!(found.principal, "ann@x");
    assert!(found.payload.ends_with("refs/heads/x\n"));
    assert_eq!(found.signature, "-----BEGIN SSH SIGNATURE-----\nabc\n");
    assert_eq!(
        verify_certificate(vec![], &revoked, "no signature").unwrap_err(),
        "push certificate carries no SSH signature"
    );
    assert_eq!(signer_principal("pusher nobody"), "git");
    assert_eq!(verdict(true), Ok(()));
    assert_eq!(verdict(false), Err("push is not signed by an authorized key"));
}

#[test]
fn lines_follow_the_fingerprints_and_leave_out_the_revoked() {
    let mut keys = TextMap::new();
    for (fingerprint, key) in [("cc", "ssh-rsa C"), ("aa", "ssh-rsa A"), ("bb", "ssh-rsa B")] {
        keys.insert(fingerprint.to_owned(), key.to_owned());
    }
    assert_eq!(keys.len(), 3);
    let mut authority = member("org", "oo", "ssh-rsa O");
    authority.trust = Trust::CertAuthority("ssh-rsa CA".to_owned());
    let people = || vec![Member::with_keys("ann".to_owned(), keys.clone()), authority.clone()];
    let file = |revoked: &[&str]| {
        let mut gone = TextSet::new();
        for fingerprint in revoked {
            gone.insert((*fingerprint).to_owned());
        }
        verify_certificate(people(), &gone, CERTIFICATE).unwrap().allowed_signers
    };
    let pinned = "* cert-authority,namespaces=\"git\" ssh-rsa CA\n";
    let line = |key: &str| format!("* namespaces=\"git\" ssh-rsa {key}\n");
    assert_eq!(file(&[]), format!("{}{}{}{pinned}", line("A"), line("B"), line("C")));
    assert_eq!(file(&["bb", "oo"]), format!("{}{}{pinned}", line("A"), line("C")));
    assert_eq!(file(&["aa", "bb", "cc"]), pinned);
}

#[test]
fn texts_are_sorted() {
    let v = vec!["b".to_owned(), "a".to_owned(), "b".to_owned(), String::new()];
    assert_eq!(sort_texts(&v), vec!["", "a", "b", "b"]);
    let keys = vec![
        (1, "a".to_owned()),
        (0, "z".to_owned()),
        (1, "a".to_owned()),
        (0, "b".to_owned()),
    ];
    assert_eq!(order_of(&keys), vec![3, 1, 0, 2]);
}

#[test]
fn a_debug_session_is_for_members() {
    let found = |rest: Vec<String>| Resolved {
        repo: "/data/r.git".to_owned(),
        rel: "r".to_owned(),
        rest,
    };
    let mut sessions = new_sessions();
    let members = [member("ann", "aa", "ssh-rsa A laptop")];
    let cookie = Some("ents_session=t");
    let status = |r: Result<String, git_ents::debug::Refusal>| r.unwrap_err().status;
    assert_eq!(status(handshake(None, &sessions, cookie, Ok(Some(&members)))), 404);
    let deeper = found(vec!["tree".to_owned()]);
    assert_eq!(status(handshake(Some(&deeper), &sessions, cookie, Ok(Some(&members)))), 404);
    let repo = found(vec![]);
    assert_eq!(status(handshake(Some(&repo), &sessions, cookie, Ok(Some(&members)))), 401);
    sessions.insert(
        "t".to_owned(),
        Session {
            public_key: "ssh-rsa A".to_owned(),
            label: "l".to_owned(),
            csrf: "c".to_owned(),
        },
    );
    let broken = handshake(Some(&repo), &sessions, cookie, Err("x".to_owned()));
    assert_eq!(broken.unwrap_err().message, "cannot open store: x");
    assert_eq!(status(handshake(Some(&repo), &sessions, cookie, Ok(Some(&[])))), 403);
    assert_eq!(status(handshake(Some(&repo), &sessions, cookie, Ok(None))), 403);
    let sprite = handshake(Some(&repo), &sessions, cookie, Ok(Some(&members))).unwrap();
    assert_eq!(shell_args(&sprite)[3], sprite);
}

#[test]
fn sessions_relay_bytes_and_sizes() {
    let size = Size { cols: 120, rows: 40 };
    assert_eq!(resize_frame(size), "120 40");
    assert_eq!(parse_resize("120 40"), Some(size));
    assert_eq!(parse_resize("70000 1"), None);
    assert_eq!(parse_resize("80"), None);
    assert_eq!(relay(Event::Output(vec![1])), Action::Send(vec![1]));
    assert_eq!(relay(Event::Typed(vec![2])), Action::Feed(vec![2]));
    assert_eq!(relay(Event::Control("120 40".to_owned())), Action::Resize(size));
    assert_eq!(relay(Event::Control("x".to_owned())), Action::Ignore);
    assert_eq!(relay(Event::Ended), Action::Stop);
    assert_eq!(relay(Event::Closed), Action::Stop);
    assert_eq!(relay(Event::Other), Action::Ignore);
    assert_eq!(pump(PumpEvent::Typed(vec![1])), PumpAction::Send(vec![1]));
    assert_eq!(pump(PumpEvent::Output(vec![1])), PumpAction::Print(vec![1]));
    assert_eq!(pump(PumpEvent::InputEnded), PumpAction::Finish(Ok(())));
    assert_eq!(
        pump(PumpEvent::Broken("x".to_owned())),
        PumpAction::Finish(Err("debug session error: x".to_owned()))
    );
    assert_eq!(pump(PumpEvent::Other), PumpAction::Ignore);
}
