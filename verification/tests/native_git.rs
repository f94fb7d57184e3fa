use git_ents::native_git::{
    advertisement_body, edit_names, get_request, issue_nonce, mac_accepted, nonce_mac, nonce_valid,
    parse_command, parse_receive_request, parse_upload_request, post_request, receive_refusal,
    report_status, split_nonce, split_path, upload_body, Advertise, Expected, PushOutcome,
    RefAdvertisement, Rpc, NONCE_SLOP_SECONDS,
};
use git_ents::object_id::ObjectId;
use git_ents::pktline::{pkt_line, pkt_lines, split_commands};

fn hex(digit: &str) -> String {
    digit.repeat(40)
}

fn oid(digit: &str) -> ObjectId {
    ObjectId::from_hex(hex(digit).as_bytes()).unwrap()
}

#[test]
fn ids_are_read_in_either_case() {
    assert_eq!(ObjectId::from_hex(hex("A").as_bytes()).unwrap().as_str(), hex("a"));
    assert!(ObjectId::from_hex(b"abc").is_none());
    assert!(ObjectId::from_hex(hex("g").as_bytes()).is_none());
    assert!(oid("0").is_null());
    assert!(oid("a").same_as(&oid("a")));
}

#[test]
fn a_nonce_is_bound_to_its_repository() {
    assert_eq!(
        nonce_mac("secret", "repo.git", 100).as_deref(),
        Some("6d3296c28e383b46d9c3dc5ef39833d756f5a352")
    );
    let nonce = issue_nonce("secret", "repo.git", 100).unwrap();
    assert_eq!(nonce, "100-6d3296c28e383b46d9c3dc5ef39833d756f5a352");
    assert!(nonce_valid("secret", "repo.git", &nonce, 100));
    assert!(nonce_valid("secret", "repo.git", &nonce, 100 + NONCE_SLOP_SECONDS));
    assert!(!nonce_valid("secret", "repo.git", &nonce, 101 + NONCE_SLOP_SECONDS));
    assert!(!nonce_valid("secret", "other.git", &nonce, 100));
    assert!(!nonce_valid("guess", "repo.git", &nonce, 100));
    assert_eq!(split_nonce("7-abc"), Some((7, "abc".to_owned())));
    assert_eq!(split_nonce("x-abc"), None);
    assert!(mac_accepted(&Some("m".to_owned()), "m", 10, 10));
    assert!(!mac_accepted(&None, "m", 10, 10));
}

#[test]
fn frames_round_trip() {
    assert_eq!(pkt_line(b"hi\n"), b"0007hi\n".to_vec());
    let mut body = pkt_line(b"one");
    body.extend(pkt_line(b"two"));
    assert_eq!(pkt_lines(&body), vec![b"one".to_vec(), b"two".to_vec()]);
    let mut marked = b"0000".to_vec();
    marked.extend(pkt_line(b"one"));
    marked.extend(b"00000000");
    marked.extend(pkt_line(b"two"));
    marked.extend(b"0000");
    assert_eq!(pkt_lines(&marked), vec![b"one".to_vec(), b"two".to_vec()]);
    body.extend(b"0000PACK");
    let (commands, rest) = split_commands(&body);
    assert_eq!(commands, vec![b"one".to_vec(), b"two".to_vec()]);
    assert_eq!(rest, b"PACK".to_vec());
}

#[test]
fn paths_name_a_repository_and_a_service() {
    assert_eq!(split_path("/_native/org/r.git/info/refs"), Some(("org/r.git".to_owned(), "info/refs")));
    assert_eq!(split_path("/_native//etc/info/refs"), Some(("etc".to_owned(), "info/refs")));
    assert_eq!(
        split_path("/_native//org//r.git//git-upload-pack"),
        Some(("org/r.git".to_owned(), "git-upload-pack"))
    );
    assert_eq!(split_path("/_native//info/refs"), None);
    assert_eq!(split_path("/_native/../etc/info/refs"), None);
    assert_eq!(split_path("/_native/r.git/other"), None);
    assert!(matches!(get_request("/_native/r.git/info/refs", "service=git-upload-pack"), Advertise::Refs { .. }));
    assert!(matches!(get_request("/_native/r.git/info/refs", "service=x"), Advertise::UnknownService));
    assert!(matches!(get_request("/_native/r.git", "service=git-upload-pack"), Advertise::NotFound));
    assert!(matches!(post_request("/_native/r.git/git-upload-pack"), Rpc::UploadPack(_)));
    assert!(matches!(post_request("/_native/r.git/git-receive-pack"), Rpc::ReceivePack(_)));
    assert!(matches!(post_request("/_native/r.git/x"), Rpc::NotFound));
}

#[test]
fn wants_and_haves_are_read() {
    let mut body = pkt_line(format!("want {} side-band\n", hex("a")).as_bytes());
    body.extend(b"0000");
    body.extend(pkt_line(format!("have {}\n", hex("b")).as_bytes()));
    body.extend(pkt_line(b"done\n"));
    let (wants, haves) = parse_upload_request(&body);
    assert_eq!(wants.len(), 1);
    assert!(wants[0].same_as(&oid("a")));
    assert_eq!(haves.len(), 1);
    assert!(haves[0].same_as(&oid("b")));
    assert!(!upload_body(b"PACK").is_empty());
}

#[test]
fn commands_create_move_and_delete() {
    let line = |old: &str, new: &str| format!("{} {} refs/heads/x", hex(old), hex(new));
    let create = parse_command(line("0", "a").as_bytes()).unwrap();
    assert_eq!(create.name, "refs/heads/x");
    assert!(matches!(create.expected, Expected::MustNotExist));
    assert!(create.new.is_some());
    let delete = parse_command(line("a", "0").as_bytes()).unwrap();
    assert!(matches!(delete.expected, Expected::MustExistAndMatch(_)));
    assert!(delete.new.is_none());
    assert!(parse_command(b"garbage").is_none());
    let parsed = parse_receive_request(&[line("0", "a").into_bytes(), line("a", "b").into_bytes()]);
    assert_eq!(edit_names(&parsed.ref_edits), vec!["refs/heads/x", "refs/heads/x"]);
    assert!(parsed.cert.is_none());
    assert_eq!(receive_refusal(&parsed, "s", "r", 0), None);
}

#[test]
fn a_certificate_needs_a_fresh_nonce() {
    let nonce = issue_nonce("s", "r", 50).unwrap();
    let commands = |nonce: &str| -> Vec<Vec<u8>> {
        [
            "push-cert\0report-status\n".to_owned(),
            "certificate version 0.1\n".to_owned(),
            "pusher A <a@b> 0 +0000\n".to_owned(),
            format!("nonce {nonce}\n"),
            "\n".to_owned(),
            format!("{} {} refs/heads/x\n", hex("0"), hex("a")),
            "-----BEGIN SSH SIGNATURE-----\n".to_owned(),
            "push-cert-end\n".to_owned(),
        ]
        .iter()
        .map(|line| line.clone().into_bytes())
        .collect()
    };
    let parsed = parse_receive_request(&commands(&nonce));
    assert!(parsed.cert.is_some());
    assert_eq!(parsed.nonce.as_deref(), Some(nonce.as_str()));
    assert_eq!(parsed.ref_edits.len(), 1);
    assert_eq!(receive_refusal(&parsed, "s", "r", 60), None);
    assert_eq!(
        receive_refusal(&parsed, "s", "r", 60_000),
        Some("push certificate nonce was missing or stale")
    );
    let stale = parse_receive_request(&commands("0-x"));
    assert!(receive_refusal(&stale, "s", "r", 0).is_some());
}

#[test]
fn refs_are_advertised_with_head_first() {
    let ad = RefAdvertisement {
        head: Some("refs/heads/main".to_owned()),
        refs: vec![("refs/heads/main".to_owned(), oid("a"))],
    };
    let body = String::from_utf8(advertisement_body(&ad, true, Some("n"))).unwrap();
    assert!(body.starts_with("001f# service=git-receive-pack\n0000"));
    assert!(body.contains(&format!("{} HEAD\0", hex("a"))));
    assert!(body.contains("push-cert=n"));
    assert!(body.contains(&format!("{} refs/heads/main\n", hex("a"))));
    assert!(body.ends_with("0000"));
    let empty = RefAdvertisement { head: None, refs: vec![] };
    let body = String::from_utf8(advertisement_body(&empty, false, None)).unwrap();
    assert!(body.contains("capabilities^{}"));
}

#[test]
fn every_ref_is_reported_on() {
    let names = ["refs/heads/x".to_owned()];
    assert_eq!(
        report_status(&names, &PushOutcome::Accepted),
        b"000eunpack ok\n0014ok refs/heads/x\n0000".to_vec()
    );
    assert_eq!(
        report_status(&names, &PushOutcome::Rejected("no".to_owned())),
        b"000eunpack ok\n0017ng refs/heads/x no\n0000".to_vec()
    );
}
