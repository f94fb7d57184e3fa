use git_ents::keys::{
    accepts, default_key_path, ensure_key, expand_tilde, fingerprint, host_comment, key_comment,
    key_paths, looks_like_fingerprint, looks_like_public_key, public_key, read_public_key, same_key,
    setup, setup_report, signing_key_file, signing_key_path, KeyPlan, KeySource,
};
use git_ents::porcelain::{
    ago, debug_url, git_failure, host_of, http_outcome, login_body, ls_remote_error, not_signed_in,
    push_delete, push_signed, remote_http_base, remote_tip, session_path, short_id, sync_args,
    sync_namespace_args, to_ws,
};
use git_ents::forms::field;

#[test]
fn a_key_has_two_halves() {
    assert_eq!(key_paths("/k/id"), ("/k/id".to_owned(), "/k/id.pub".to_owned()));
    assert_eq!(key_paths("/k/id.pub"), ("/k/id".to_owned(), "/k/id.pub".to_owned()));
    assert_eq!(key_paths("/k/id.pub/"), ("/k/id".to_owned(), "/k/id.pub/".to_owned()));
    assert_eq!(key_paths("/k/.pub"), ("/k/.pub".to_owned(), "/k/.pub.pub".to_owned()));
    assert_eq!(
        ensure_key("/k/id", false, true),
        KeyPlan::Use("/k/id.pub".to_owned())
    );
    assert!(matches!(ensure_key("/k/id", true, false), KeyPlan::Derive { .. }));
    match ensure_key("/k/id", false, false) {
        KeyPlan::Generate { question, .. } => assert_eq!(
            question,
            "no SSH key at /k/id; generate a new ed25519 keypair there?"
        ),
        _ => panic!("a key should be generated"),
    }
}

#[test]
fn signing_keys_are_found() {
    assert_eq!(expand_tilde("~/k", Some("/home/a")), "/home/a/k");
    assert_eq!(expand_tilde("~/k", None), "~/k");
    assert_eq!(expand_tilde("k", Some("/h")), "k");
    assert_eq!(default_key_path(Some("/h")), Ok("/h/.ssh/id_ed25519".to_owned()));
    assert_eq!(default_key_path(None), Err("HOME is not set"));
    assert_eq!(signing_key_path("ABCDEF", Some("/h"), false), "/h/.ssh/id_ed25519");
    assert_eq!(signing_key_path("ABCDEF", Some("/h"), true), "ABCDEF");
    assert_eq!(signing_key_path("~/k", Some("/h"), false), "/h/k");
    assert_eq!(signing_key_path("ABCDEF", None, false), "ABCDEF");
    assert_eq!(signing_key_file(Some("a.pub"), None, None, false), Ok("a".to_owned()));
    assert_eq!(
        signing_key_file(None, None, None, false),
        Err("no --key given and user.signingkey is unset")
    );
    assert_eq!(
        signing_key_file(None, Some("~/k.pub"), Some("/h"), false),
        Ok("/h/k".to_owned())
    );
}

#[test]
fn public_keys_are_read() {
    assert_eq!(
        public_key(None, Some("key:: ssh-rsa A "), None),
        Ok(KeySource::Inline("ssh-rsa A".to_owned()))
    );
    assert_eq!(
        public_key(None, Some("~/k"), Some("/h")),
        Ok(KeySource::File("/h/k".to_owned()))
    );
    assert_eq!(public_key(Some("p"), None, None), Ok(KeySource::File("p".to_owned())));
    assert!(public_key(None, None, None).is_err());
    assert!(looks_like_public_key(" ecdsa-x"));
    assert!(!looks_like_public_key("-----BEGIN"));
    assert_eq!(read_public_key(Some("x"), Some("sk-a b\n")).as_deref(), Some("sk-a b"));
    assert_eq!(read_public_key(Some("x"), None), None);
    assert!(same_key("ssh-rsa A one", "ssh-rsa  A"));
    assert!(!same_key("ssh-rsa A", "ssh-rsa B"));
    assert_eq!(key_comment("t b one two"), "one two");
    assert_eq!(key_comment("t b"), "");
}

#[test]
fn fingerprints_are_colon_hex() {
    assert_eq!(fingerprint("256 MD5:aa:bb me (ED25519)"), Ok("aa:bb".to_owned()));
    assert_eq!(fingerprint("256 SHA256:x"), Ok("SHA256:x".to_owned()));
    assert_eq!(
        fingerprint("256"),
        Err("ssh-keygen returned an unexpected fingerprint line")
    );
    assert!(looks_like_fingerprint("aa:0B"));
    assert!(!looks_like_fingerprint("aa"));
    assert!(!looks_like_fingerprint("aa:b"));
    assert!(!looks_like_fingerprint("aa:gg"));
}

#[test]
fn replies_and_comments() {
    assert!(accepts("\n"));
    assert!(accepts("yes"));
    assert!(!accepts(" No"));
    assert_eq!(host_comment(Some("a"), Some("h\n")), "a@h");
    assert_eq!(host_comment(None, Some(" ")), "git-ents");
    let plan = setup("/k.pub", true);
    assert_eq!(plan.scope, "--local");
    assert_eq!(plan.settings[1], ("user.signingkey".to_owned(), "/k.pub".to_owned()));
    assert_eq!(
        setup_report(false, "/k.pub", "aa:bb")[0],
        "configured signed pushes (global git config)"
    );
}

#[test]
fn refs_are_mirrored_and_pushed() {
    assert_eq!(remote_tip("abc\trefs/x\n").as_deref(), Some("abc"));
    assert_eq!(remote_tip(""), None);
    assert_eq!(
        sync_args("origin", "refs/x", &Some("abc".to_owned())),
        vec!["fetch", "--quiet", "origin", "+refs/x:refs/x"]
    );
    assert_eq!(sync_args("origin", "refs/x", &None), vec!["update-ref", "-d", "refs/x"]);
    assert_eq!(
        sync_namespace_args("origin", "refs/m"),
        vec!["fetch", "--quiet", "--prune", "origin", "+refs/m/*:refs/m/*"]
    );
    assert_eq!(
        push_signed("origin", "refs/x", Some("abc")),
        vec!["push", "--force-if-includes", "--force-with-lease=refs/x:abc", "origin", "refs/x"]
    );
    assert_eq!(
        push_signed("o", "r", None)[2],
        format!("--force-with-lease=r:{}", "0".repeat(40))
    );
    assert_eq!(push_delete("o", "r", "abc")[4], ":r");
    assert_eq!(git_failure(Some("push")), "git push failed");
    assert_eq!(git_failure(None), "git ? failed");
    assert_eq!(
        ls_remote_error("up", b"fatal: 'up' does not appear to be a git repository\n"),
        "remote 'up' not found"
    );
    assert_eq!(ls_remote_error("up", b" other \n"), "other");
    assert_eq!(short_id("0123456789abcdef"), "0123456789ab");
    assert_eq!(short_id("short"), "short");
}

#[test]
fn servers_are_found_from_remotes() {
    assert_eq!(
        remote_http_base("origin", "https://h:1/org/r.git\n"),
        Ok(("https://h:1".to_owned(), "org/r".to_owned()))
    );
    assert_eq!(remote_http_base("o", "http://h"), Ok(("http://h".to_owned(), String::new())));
    assert_eq!(
        remote_http_base("o", "git@h:r.git").unwrap_err(),
        "o is not an http(s) remote; login and debug need one"
    );
    assert!(remote_http_base("o", "ssh://h/r").is_err());
    assert_eq!(host_of("https://h:1"), Ok("h:1".to_owned()));
    assert_eq!(host_of("h"), Err("malformed server URL"));
    assert_eq!(to_ws("https://h"), "wss://h");
    assert_eq!(to_ws("http://h"), "ws://h");
    assert_eq!(debug_url("http://h", "org/r"), "ws://h/_debug/org/r");
    assert_eq!(
        session_path(Some("/home/a"), "h:1/x"),
        Ok("/home/a/.config/git-ents/sessions/h_1_x".to_owned())
    );
    assert_eq!(session_path(None, "h"), Err("HOME is not set"));
    assert_eq!(not_signed_in("o"), "not signed in to o; run `git ents login o` first");
}

#[test]
fn a_sign_in_reads_back_on_the_server() {
    let body = login_body("ssh-ed25519 A+b/= me", "-----BEGIN\nx&y=z\n", "n\u{20ac}");
    assert_eq!(
        body,
        "public_key=ssh-ed25519+A%2Bb%2F%3D+me&signature=-----BEGIN%0Ax%26y%3Dz%0A&nonce=n%E2%82%AC"
    );
    assert_eq!(
        field(body.as_bytes(), "public_key").as_deref(),
        Some("ssh-ed25519 A+b/= me")
    );
    assert_eq!(field(body.as_bytes(), "signature").as_deref(), Some("-----BEGIN\nx&y=z\n"));
    assert_eq!(field(body.as_bytes(), "nonce").as_deref(), Some("n\u{20ac}"));
}

#[test]
fn responses_and_times() {
    assert_eq!(http_outcome("GET", "u", true, "200", "x".to_owned()), Ok("x".to_owned()));
    assert_eq!(
        http_outcome("GET", "u", false, "404", String::new()),
        Err("GET u returned 404".to_owned())
    );
    assert_eq!(http_outcome("GET", "u", false, "404", "no".to_owned()), Err("no".to_owned()));
    assert_eq!(ago(59, 0), "just now");
    assert_eq!(ago(60, 0), "1m ago");
    assert_eq!(ago(7200, 0), "2h ago");
    assert_eq!(ago(86_400 * 3, 0), "3d ago");
    assert_eq!(ago(0, 10), "just now");
}
