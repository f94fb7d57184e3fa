use git_ents::account::Account;
use git_ents::cli::{AccountAction, EffectAction, InboxAction, MembersAction, ToolchainAction};
use git_ents::commands::{
    account_create, account_member, account_report, comment_entity, comment_line, comment_show,
    describe_projection, local_settings, location, new_comment, parse_line_range, redaction_entity,
    resolve_comment_id, toolchain_entity, tree_entries, DirItem, ItemKind, Person, ShownComment,
};
use git_ents::error::Error;
use git_ents::exe::{
    account_done, comment_done, comment_shown, effect_done, effect_shown, effects_ran, inbox_done,
    members_check, members_done, reconciled, redact_done, toolchain_done,
};
use git_ents::files::Projection;
use git_ents::interactive::{
    optional_reply, optional_text_or, required, select_or, text_or, Field,
};
use git_ents::mutate::{
    commit_object, outcome_to_result, propose_delete, propose_entity, TxResult, Verdict,
};
use git_ents::object_id::ObjectId;
use git_ents::sign::{resolve_key_path, setup_key, KeyStep, Signer};
use git_ents::web_edit::LineRange;

fn strings(parts: &[&str]) -> Vec<String> {
    parts.iter().map(|s| (*s).to_owned()).collect()
}

fn hex(digit: &str) -> String {
    digit.repeat(40)
}

#[test]
fn comment_ids_resolve_by_prefix() {
    let ids = strings(&["abc1", "abd2"]);
    assert_eq!(resolve_comment_id(&ids, "abc", "o"), Ok("abc1".to_owned()));
    assert_eq!(resolve_comment_id(&ids, "x", "o").unwrap_err(), "no comment x on o");
    assert_eq!(
        resolve_comment_id(&ids, "ab", "o").unwrap_err(),
        "comment id ab is ambiguous on o"
    );
}

#[test]
fn places_are_described() {
    let lines = Some(LineRange { start: 3, end: 5 });
    assert_eq!(location("a", lines), "a:3-5");
    assert_eq!(location("a", Some(LineRange { start: 3, end: 3 })), "a:3");
    assert_eq!(location("a", None), "a");
    let describe = |projection| describe_projection("a", lines, &projection);
    assert_eq!(describe(Some(Projection::Current)), "a:3-5");
    assert_eq!(
        describe(Some(Projection::Relocated { path: "b".to_owned(), lines: None })),
        "b"
    );
    assert_eq!(
        describe(Some(Projection::Outdated { path: "b".to_owned() })),
        "b [outdated]"
    );
    assert_eq!(describe(Some(Projection::FileDeleted)), "a [deleted]");
    assert_eq!(describe(None), "a [unresolved]");
    assert_eq!(
        comment_line("0123456789abcdef", None, "a:3", "one\ntwo"),
        "0123456789ab  ?  a:3  one"
    );
}

fn person(name: &str, seconds: u64) -> Person {
    Person { name: name.to_owned(), email: format!("{name}@x"), seconds }
}

#[test]
fn a_comment_is_shown_whole() {
    let mut shown = ShownComment {
        id: "id".to_owned(),
        provenance: Some((person("ann", 1), person("bob", 2))),
        path: "a.rs".to_owned(),
        lines: Some(LineRange { start: 1, end: 2 }),
        commit: hex("a"),
        issue: Some("i7".to_owned()),
        snippet: Some("x\ny\n".to_owned()),
        body: "hi\nthere".to_owned(),
    };
    assert_eq!(
        comment_show(&shown, "HEAD", "a.rs:4-5"),
        vec![
            "comment id",
            "author  ann <ann@x>",
            "edited  bob <bob@x>",
            "anchor  a.rs:1-2 @ aaaaaaaaaaaa",
            "on HEAD: a.rs:4-5",
            "issue   i7",
            "",
            "  | x",
            "  | y",
            "",
            "  hi",
            "  there",
        ]
    );
    shown.provenance = Some((person("ann", 1), person("ann", 1)));
    shown.lines = None;
    shown.issue = None;
    assert_eq!(
        comment_show(&shown, "HEAD", "a.rs"),
        vec![
            "comment id",
            "author  ann <ann@x>",
            "anchor  a.rs @ aaaaaaaaaaaa",
            "on HEAD: a.rs",
            "",
            "  hi",
            "  there",
        ]
    );
}

#[test]
fn accounts_keep_when_they_were_created() {
    let created = account_create(None, "ann", None, None, 100);
    assert_eq!(created.display_name, "ann");
    assert_eq!(created.bio, "");
    assert_eq!(created.created_at, 100);
    let updated =
        account_create(Some(&created), "ann", Some("Ann".to_owned()), Some("b".to_owned()), 200);
    assert_eq!(
        updated,
        Account {
            username: "ann".to_owned(),
            display_name: "Ann".to_owned(),
            bio: "b".to_owned(),
            created_at: 100,
        }
    );
    assert_eq!(account_report("ann", false, None), vec!["created account ann"]);
    assert_eq!(
        account_report("ann", true, Some("g")),
        vec![
            "updated account ann",
            "genesis: g (pass to `members add --account` to link a member)"
        ]
    );
    assert_eq!(account_member(None, Some("a".to_owned())), Ok("a".to_owned()));
    assert_eq!(
        account_member(None, None).unwrap_err().message(),
        "not found: member for the current signing key"
    );
}

#[test]
fn entities_are_stored_under_their_namespace() {
    let made = new_comment("src/a.rs");
    assert_eq!(made.id.len(), 32);
    assert_eq!(made.refname, format!("refs/meta/comments/{}", made.id));
    assert_eq!(made.subject, "Comment on src/a.rs");
    assert_ne!(new_comment("a").id, new_comment("a").id);
    assert_eq!(comment_entity("x", "p").refname, "refs/meta/comments/x");
    let redacted = redaction_entity(&hex("A")).unwrap();
    assert_eq!(redacted.refname, format!("refs/meta/redactions/{}", hex("a")));
    assert_eq!(redacted.subject, format!("Redact {}", hex("a")));
    assert_eq!(
        redaction_entity("nope").unwrap_err().message(),
        "invalid argument: not an object id: nope"
    );
    assert_eq!(toolchain_entity("gcc").subject, "Import toolchain gcc");
    assert_eq!(
        local_settings("/k")[2],
        ("receive.denyCurrentBranch".to_owned(), "updateInstead".to_owned())
    );
    assert_eq!(parse_line_range("3:1"), Ok(LineRange { start: 3, end: 1 }));
    assert_eq!(
        parse_line_range("3: 1"),
        Err(Error::InvalidArgument("bad line range: 3: 1".to_owned()))
    );
}

#[test]
fn directories_become_trees_in_git_order() {
    let item = |name: &str, kind: ItemKind| DirItem {
        name: name.to_owned(),
        path: format!("/d/{name}"),
        kind,
        oid: ObjectId::from_hex(hex("a").as_bytes()).unwrap(),
    };
    let tree = tree_entries(&[
        item("a", ItemKind::Dir),
        item("a.b", ItemKind::File(true)),
        item("a0", ItemKind::File(false)),
    ])
    .unwrap();
    let names: Vec<&str> = tree.iter().map(|e| e.filename.as_str()).collect();
    assert_eq!(names, vec!["a.b", "a", "a0"]);
    assert_eq!(
        tree_entries(&[item("l", ItemKind::Other)]).unwrap_err().message(),
        "io error at /d/l: unsupported entry (symlink or special file)"
    );
}

#[test]
fn prompts_are_settled_or_asked() {
    let given = |s: &str| Some(s.to_owned());
    assert_eq!(text_or(given("x"), "Name", false), Ok(Field::Settled("x".to_owned())));
    assert_eq!(text_or(given(""), "Name", true).unwrap_err(), "Name must not be empty");
    assert_eq!(text_or(None, "Name", true), Ok(Field::Ask));
    assert_eq!(
        text_or(None, "Name", false).unwrap_err(),
        "Name is required (not an interactive terminal)"
    );
    assert_eq!(required(String::new(), "Name").unwrap_err(), "Name must not be empty");
    assert_eq!(optional_text_or(None, true), Field::Ask);
    assert_eq!(optional_text_or(None, false), Field::Settled(None));
    assert_eq!(optional_text_or(given(""), true), Field::Settled(given("")));
    assert_eq!(optional_reply(String::new()), None);
    let options = strings(&["a", "b"]);
    assert_eq!(select_or(Some("b"), &options, 0), 1);
    assert_eq!(select_or(Some("c"), &options, 0), 0);
    assert_eq!(select_or(None, &options, 1), 1);
}

fn private_key(seed: u8) -> String {
    let pair = ssh_key::private::Ed25519Keypair::from_seed(&[seed; 32]);
    let key = ssh_key::PrivateKey::new(ssh_key::private::KeypairData::from(pair), "test").unwrap();
    key.to_openssh(ssh_key::LineEnding::LF).unwrap().to_string()
}

#[test]
fn a_signer_signs_with_its_own_key() {
    let signer = Signer::load("/k", private_key(7)).unwrap();
    let public = signer.public_openssh().unwrap();
    assert!(public.starts_with("ssh-ed25519 "));
    assert!(public.ends_with(" test"));
    let pem = signer.sign(b"payload").unwrap();
    assert!(pem.starts_with("-----BEGIN SSH SIGNATURE-----"));
    let parsed = ssh_key::SshSig::from_pem(&pem).unwrap();
    let key = ssh_key::PublicKey::from_openssh(&public).unwrap();
    assert!(key.verify("git", b"payload", &parsed).is_ok());
    assert!(key.verify("git", b"other", &parsed).is_err());
    match Signer::load("/k", "nonsense".to_owned()) {
        Err(Error::BadSigningKey { path, .. }) => assert_eq!(path, "/k"),
        _ => panic!("nonsense is no key"),
    }
}

#[test]
fn signing_keys_resolve_in_order() {
    assert_eq!(resolve_key_path(Some("a"), Some("b"), None, false), Ok("a".to_owned()));
    assert_eq!(resolve_key_path(None, Some("b"), None, false), Ok("b".to_owned()));
    assert_eq!(
        resolve_key_path(None, None, Some("/h"), true),
        Ok("/h/.ssh/id_ed25519".to_owned())
    );
    assert_eq!(
        resolve_key_path(None, None, Some("/h"), false).unwrap_err().message(),
        "no signing key configured; run `git ents setup` or pass --key"
    );
    assert_eq!(setup_key(Ok("a".to_owned()), true, None), Ok(KeyStep::Use("a".to_owned())));
    assert_eq!(
        setup_key(Err(Error::NoSigningKey), false, Some("/h")),
        Ok(KeyStep::Generate("/h/.ssh/id_ed25519".to_owned()))
    );
    assert_eq!(setup_key(Err(Error::NoSigningKey), false, None), Err(Error::NoSigningKey));
}

#[test]
fn commits_are_written_as_git_stores_them() {
    let headers = vec![("gpgsig".to_owned(), "one\ntwo".to_owned())];
    let bytes = commit_object(
        &hex("a"),
        &vec![hex("b")],
        "A <a@x> 1 +0000",
        "C <c@x> 2 +0000",
        &headers,
        "subject\n\nbody\n",
    )
    .unwrap();
    assert_eq!(
        String::from_utf8(bytes).unwrap(),
        format!(
            "tree {}\nparent {}\nauthor A <a@x> 1 +0000\ncommitter C <c@x> 2 +0000\ngpgsig one\n two\n\nsubject\n\nbody\n",
            hex("a"),
            hex("b")
        )
    );
    assert!(commit_object("x", &vec![], "a", "c", &vec![], "m").is_none());
    assert!(commit_object(&hex("A"), &vec![], "a", "c", &vec![], "m").is_none());
    assert!(commit_object(&hex("a"), &strings(&["y"]), "a", "c", &vec![], "m").is_none());
}

#[test]
fn a_mutation_is_signed_and_bound_to_its_ref() {
    let signer = Signer::load("/k", private_key(9)).unwrap();
    let transition = propose_entity(
        "refs/meta/member/ann",
        Some(hex("b")),
        &hex("a"),
        "A <a@x> 1 +0000",
        "Add member",
        "Advance-ref: refs/meta/member/ann\n",
        &signer,
    )
    .unwrap();
    assert_eq!(transition.old, Some(hex("b")));
    let commit = String::from_utf8(transition.commit.unwrap()).unwrap();
    let (head, rest) = commit.split_once("gpgsig ").unwrap();
    let (signature, message) = rest.split_once("\n\n").unwrap();
    assert_eq!(message, "Add member\n\nAdvance-ref: refs/meta/member/ann\n");
    let payload = format!("{head}\n{message}");
    let pem = format!("{}\n", signature.replace("\n ", "\n"));
    let parsed = ssh_key::SshSig::from_pem(&pem).unwrap();
    let key = ssh_key::PublicKey::from_openssh(&signer.public_openssh().unwrap()).unwrap();
    assert!(key.verify("git", payload.as_bytes(), &parsed).is_ok());
    assert!(propose_entity("r", None, "x", "a", "s", "t", &signer).is_err());
    let deleted = propose_delete("r", Some(hex("b")));
    assert_eq!(deleted.commit, None);
}

#[test]
fn outcomes_become_results() {
    let tip = Some(hex("a"));
    assert_eq!(outcome_to_result(TxResult::Applied, &[], tip.clone()), Ok(tip.clone()));
    let verdicts = [
        Verdict::Fail("one".to_owned()),
        Verdict::Pass,
        Verdict::Fail("two".to_owned()),
    ];
    assert_eq!(
        outcome_to_result(TxResult::Refused, &verdicts, None).unwrap_err().message(),
        "rejected: one; two"
    );
    assert_eq!(
        outcome_to_result(TxResult::Rejected { name: "r".to_owned() }, &[], None)
            .unwrap_err()
            .message(),
        "rejected: r changed concurrently, retry"
    );
    assert_eq!(
        outcome_to_result(TxResult::Redacted { oid: "o".to_owned() }, &[], None)
            .unwrap_err()
            .message(),
        "refused: object o was redacted and cannot be refilled"
    );
}

#[test]
fn errors_read_in_words() {
    assert_eq!(
        Error::NotARepo { path: "/x".to_owned() }.message(),
        "not a git repository (or any parent up to mount point): /x"
    );
    assert_eq!(
        Error::BadSigningKey { path: "/k".to_owned(), detail: "d".to_owned() }.message(),
        "cannot use signing key at /k: d"
    );
    assert_eq!(Error::Other("t".to_owned()).message(), "t");
}

#[test]
fn subcommands_say_what_they_did() {
    let add = MembersAction::Add { username: "ann".to_owned(), pubkey: None, key: None };
    assert_eq!(members_done(&add).as_deref(), Some("enrolled ann"));
    let revoke = MembersAction::Revoke { username: "ann".to_owned(), key: None };
    assert_eq!(members_done(&revoke).as_deref(), Some("revoked ann"));
    assert_eq!(members_done(&MembersAction::List), None);
    assert_eq!(members_check(Some(("ann", "Active"))), "ann\tActive");
    assert_eq!(members_check(None), "not a member");
    let create = AccountAction::Create { member: None, login: "l".to_owned(), key: None };
    assert_eq!(account_done(&create), "account created");
    assert_eq!(effect_done(&EffectAction::Log { name: "x".to_owned() }), None);
    assert_eq!(effect_shown("t", "r", "s"), vec!["trigger: t", "run: r", "result: s"]);
    let import = ToolchainAction::Import {
        name: "gcc".to_owned(),
        bin: "b".to_owned(),
        key: None,
    };
    assert_eq!(toolchain_done(&import).as_deref(), Some("imported gcc"));
    let adopt = InboxAction::Adopt { entry: "a/1".to_owned(), key: None };
    assert_eq!(inbox_done(&adopt).as_deref(), Some("adopted a/1"));
    assert_eq!(comment_done("id"), "commented id");
    assert_eq!(comment_shown("p", "j", "b")[2], "body: b");
    assert_eq!(redact_done("o"), "redacted o");
    assert_eq!(effects_ran(2), "ran 2 effect(s)");
    assert_eq!(reconciled(0), "reconciled: 0 pending");
}
