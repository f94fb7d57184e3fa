use std::collections::BTreeMap;

use git_ents::account::{self, is_account_repo, Account, ACCOUNT_REF};
use git_ents::checks::{
    self, outcomes, run_doc, runs, runs_ref, Check, Run, RunOutcome, RunRef, CHECKS_REF,
};
use git_ents::comments::{self, Comment};
use git_ents::component::{load_map, store_map};
use git_ents::config::{self, Config, RoleRules, CONFIG_REF};
use git_ents::documents::{read_field, write_single, Node, Stored};
use git_ents::issues::{self, issue_ref, open_count, Issue};
use git_ents::keyed::TextMap;
use git_ents::members::{
    self, allowed_signers, load_all_indexed, member_ref, Member, Provenance, Trust, WebAuthnKey,
};
use git_ents::reviews::{self, Review, Verdict};
use git_ents::revocations::{self, fingerprints, Revocation, REVOKED_REF};
use git_ents::runner::{CheckDef, CheckRun, Status};
use git_ents::signers::{self, Signer, MEMBERS_REF};

const KEY_A: &str =
    "ssh-ed25519 AAAAC3NzaC1lZDI1NTE5AAAAIaaaaaaaaaaaaaaaaaaaaaaaaaaaaaaaaaaaaaaaaaaA alice";
const KEY_B: &str =
    "ssh-ed25519 AAAAC3NzaC1lZDI1NTE5AAAAIbbbbbbbbbbbbbbbbbbbbbbbbbbbbbbbbbbbbbbbbbbB bob";

fn blob(text: &str) -> Node {
    Node::Blob(text.to_owned())
}

fn tree(entries: Vec<(&str, Node)>) -> Node {
    let mut map = TextMap::new();
    for (name, node) in entries {
        map.insert(name.to_owned(), node);
    }
    Node::Tree(map)
}

fn option_tree(bound: Option<&str>) -> Node {
    match bound {
        None => tree(vec![]),
        Some(value) => tree(vec![("some", blob(value))]),
    }
}

fn list_tree(items: &[&str]) -> Node {
    let names: Vec<String> = (0..items.len()).map(|index| format!("{index:04}")).collect();
    tree(
        names
            .iter()
            .zip(items)
            .map(|(name, item)| (name.as_str(), blob(item)))
            .collect(),
    )
}

type Refs = BTreeMap<String, Node>;

fn under(refs: &Refs) -> Vec<(String, Node)> {
    refs.iter().map(|(name, node)| (name.clone(), copy(node))).collect()
}

fn copy(node: &Node) -> Node {
    match node {
        Node::Blob(text) => Node::Blob(text.clone()),
        Node::Tree(entries) => tree(
            entries
                .entries()
                .iter()
                .map(|(name, node)| (name.as_str(), copy(node)))
                .collect(),
        ),
    }
}

fn account() -> Account {
    Account {
        username: "alice".to_owned(),
        display_name: "Alice".to_owned(),
        bio: "builder of trees".to_owned(),
        created_at: 1_700_000_000,
    }
}

#[test]
fn store_then_load_round_trips_the_account() {
    let (name, node) = account::store(&account());
    assert_eq!(name, ACCOUNT_REF);
    assert_eq!(account::load(Some(&node)), Some(Some(account())));
}

#[test]
fn absent_account_ref_is_not_an_account_repo() {
    assert_eq!(account::load(None), Some(None));
    let loaded: Result<Option<Account>, ()> = account::load(None).ok_or(());
    assert_eq!(is_account_repo(loaded), Ok(false));
}

#[test]
fn the_account_ref_marks_an_account_repo() {
    let (_, node) = account::store(&account());
    let loaded: Result<Option<Account>, ()> = account::load(Some(&node)).ok_or(());
    assert_eq!(is_account_repo(loaded), Ok(true));
}

#[test]
fn loads_the_on_disk_account_format() {
    let node = tree(vec![
        ("username", blob("alice")),
        ("display_name", blob("Alice")),
        ("bio", blob("builder of trees")),
        ("created_at", blob("1700000000")),
    ]);
    assert_eq!(account::load(Some(&node)), Some(Some(account())));
}

fn check(name: &str, command: &str) -> Check {
    Check { name: name.to_owned(), command: command.to_owned() }
}

#[test]
fn store_then_load_round_trips_the_check_set() {
    let written = vec![check("fmt", "cargo fmt --check"), check("test", "cargo nextest run")];
    let (name, node) = checks::store(written.clone());
    assert_eq!(name, CHECKS_REF);
    assert_eq!(checks::load(Some(&node)), Some(written));
}

#[test]
fn checks_store_replaces_the_previous_set() {
    let mut refs = Refs::new();
    for written in [check("fmt", "cargo fmt --check"), check("test", "cargo nextest run")] {
        let (name, node) = checks::store(vec![written]);
        refs.insert(name.to_owned(), node);
    }
    assert_eq!(
        checks::load(refs.get(CHECKS_REF)),
        Some(vec![check("test", "cargo nextest run")])
    );
}

#[test]
fn empty_when_the_checks_ref_is_absent() {
    assert_eq!(checks::load(None), Some(vec![]));
}

#[test]
fn loads_the_on_disk_checks_format() {
    let node = tree(vec![(
        "checks",
        tree(vec![
            ("fmt", tree(vec![("command", blob("cargo fmt --check"))])),
            ("test", tree(vec![("command", blob("cargo nextest run"))])),
        ]),
    )]);
    assert_eq!(
        checks::load(Some(&node)),
        Some(vec![check("fmt", "cargo fmt --check"), check("test", "cargo nextest run")])
    );
    let flat = tree(vec![("checks", tree(vec![("fmt", blob("cargo fmt --check"))]))]);
    assert_eq!(checks::load(Some(&flat)), None);
}

fn outcome(name: &str, outcome: &str) -> RunOutcome {
    RunOutcome {
        name: name.to_owned(),
        outcome: outcome.to_owned(),
        duration_secs: None,
        log_url: None,
    }
}

fn recorded(written: Vec<RunOutcome>) -> Vec<RunOutcome> {
    let (name, node) = checks::record("c0", written);
    assert_eq!(name, "refs/meta/runs/c0");
    load_map::<RunOutcome>(Some(&node)).unwrap()
}

#[test]
fn loads_the_on_disk_runs_format() {
    let node = tree(vec![(
        "results",
        tree(vec![
            ("fmt", tree(vec![("outcome", blob("pass"))])),
            ("test", tree(vec![("outcome", blob("fail"))])),
        ]),
    )]);
    let commit = "0123456789012345678901234567890123456789";
    let results = read_field(&node, "results").unwrap();
    let commits = runs(&vec![RunRef { refname: runs_ref(commit), history: vec![(7, results)] }]);
    assert_eq!(commits.len(), 1);
    assert_eq!(commits[0].commit, commit);
    assert_eq!(
        commits[0].runs,
        vec![Run { at: 7, results: vec![outcome("fmt", "pass"), outcome("test", "fail")] }]
    );
}

#[test]
fn record_then_runs_round_trips_a_run() {
    let written = vec![outcome("fmt", "pass"), outcome("test", "fail")];
    assert_eq!(recorded(written.clone()), written);
    assert_eq!(outcomes(&run_doc(written.clone())), written);
}

#[test]
fn recording_a_commit_again_appends_a_run() {
    let commit = "0123456789012345678901234567890123456789";
    let history = vec![
        (20, run_doc(vec![outcome("fmt", "pass")])),
        (10, run_doc(vec![outcome("fmt", "fail")])),
    ];
    let commits = runs(&vec![RunRef { refname: runs_ref(commit), history }]);
    assert_eq!(commits.len(), 1);
    assert_eq!(commits[0].runs.len(), 2);
    assert_eq!(commits[0].runs[0].results, vec![outcome("fmt", "pass")]);
    assert_eq!(commits[0].runs[1].results, vec![outcome("fmt", "fail")]);
}

#[test]
fn empty_when_no_runs_recorded() {
    assert!(runs(&vec![]).is_empty());
}

#[test]
fn round_trips_an_outcomes_duration_and_log_url() {
    let rich = RunOutcome {
        name: "fmt".to_owned(),
        outcome: "pass".to_owned(),
        duration_secs: Some(12),
        log_url: Some("https://example.com/log".to_owned()),
    };
    assert_eq!(recorded(vec![rich.clone()]), vec![rich]);
}

fn comment(issue_id: &str, body: &str) -> Comment {
    Comment {
        body: body.to_owned(),
        author: "alice".to_owned(),
        issue_id: issue_id.to_owned(),
    }
}

#[test]
fn store_then_load_round_trips_a_comment() {
    let written = comment("issue-1", "A comment");
    let (name, node) = comments::store("issue-1", "c", &written);
    assert_eq!(name, "refs/meta/comments/issue-1/c");
    assert_eq!(comments::load(Some(&node)), Some(Some(written)));
}

#[test]
fn none_when_the_comment_is_absent() {
    assert_eq!(comments::load(None), Some(None));
}

#[test]
fn lists_only_the_comments_on_the_named_issue() {
    let mut refs = Refs::new();
    for (issue, id, body) in [
        ("issue-1", "a", "First"),
        ("issue-1", "b", "Second"),
        ("issue-2", "c", "Unrelated"),
    ] {
        let (name, node) = comments::store(issue, id, &comment(issue, body));
        refs.insert(name, node);
    }
    let found = comments::list("issue-1", &under(&refs)).unwrap();
    let bodies: Vec<&str> = found.iter().map(|(_, comment)| comment.body.as_str()).collect();
    assert_eq!(bodies, vec!["First", "Second"]);
}

fn config() -> Config {
    Config {
        description: "A repository".to_owned(),
        homepage: "https://example.com".to_owned(),
        topics: vec!["rust".to_owned(), "git".to_owned()],
        roles: TextMap::new(),
    }
}

#[test]
fn store_then_load_round_trips_the_config() {
    let (name, node) = config::store(&config());
    assert_eq!(name, CONFIG_REF);
    assert_eq!(config::load(Some(&node)), Some(config()));
    let mut ruled = config();
    ruled.roles.insert(
        "readonly".to_owned(),
        RoleRules { allow: vec![], deny: vec!["refs/heads/*".to_owned()] },
    );
    assert_eq!(Config::read(&ruled.write()), Some(ruled));
}

#[test]
fn store_replaces_the_previous_config() {
    let mut refs = Refs::new();
    for value in [config(), Config::default()] {
        let (name, node) = config::store(&value);
        refs.insert(name.to_owned(), node);
    }
    assert_eq!(config::load(refs.get(CONFIG_REF)), Some(Config::default()));
}

#[test]
fn loads_the_on_disk_config_format() {
    let node = tree(vec![
        ("description", blob("A repository")),
        ("homepage", blob("https://example.com")),
        ("topics", list_tree(&["rust", "git"])),
    ]);
    assert_eq!(config::load(Some(&node)), Some(config()));
    let broken = tree(vec![("description", blob("A repository"))]);
    assert_eq!(config::load(Some(&broken)), None);
}

#[test]
fn default_when_the_config_ref_is_absent() {
    assert_eq!(config::load(None), Some(Config::default()));
}

fn issue(title: &str, state: &str, labels: &[&str]) -> Issue {
    Issue {
        title: title.to_owned(),
        body: "A body".to_owned(),
        state: state.to_owned(),
        labels: labels.iter().map(|l| (*l).to_owned()).collect(),
        author: "alice".to_owned(),
    }
}

#[test]
fn store_then_load_round_trips_an_issue() {
    let written = issue("A bug", "open", &["bug", "p1"]);
    let (name, node) = issues::store("1", &written);
    assert_eq!(name, issue_ref("1"));
    assert_eq!(issues::load(Some(&node)), Some(Some(written)));
}

#[test]
fn none_when_the_issue_is_absent() {
    assert_eq!(issues::load(None), Some(None));
}

#[test]
fn lists_issues_and_counts_the_open_ones() {
    let mut refs = Refs::new();
    for (id, written) in [
        ("1", issue("Open one", "open", &["bug"])),
        ("2", issue("Closed one", "closed", &[])),
    ] {
        let (name, node) = issues::store(id, &written);
        refs.insert(name, node);
    }
    refs.insert("refs/heads/main".to_owned(), blob("elsewhere"));
    let issues = issues::list(&under(&refs)).unwrap();
    let ids: Vec<&str> = issues.iter().map(|(id, _)| id.as_str()).collect();
    assert_eq!(ids, vec!["1", "2"]);
    assert_eq!(open_count(&issues), 1);
    refs.insert(issue_ref("3"), blob("no issue"));
    assert!(issues::list(&under(&refs)).is_none());
}

#[test]
fn loads_the_on_disk_issue_format() {
    let node = tree(vec![
        ("title", blob("A bug")),
        ("body", blob("A body")),
        ("state", blob("open")),
        ("labels", list_tree(&["bug", "p1"])),
        ("author", blob("alice")),
    ]);
    assert_eq!(
        issues::load(Some(&node)),
        Some(Some(issue("A bug", "open", &["bug", "p1"])))
    );
}

fn keys(pairs: &[(&str, &str)]) -> TextMap<String> {
    let mut map = TextMap::new();
    for (fingerprint, key) in pairs {
        map.insert((*fingerprint).to_owned(), (*key).to_owned());
    }
    map
}

#[test]
fn store_then_load_round_trips_a_member() {
    let mut member =
        Member::with_keys("alice".to_owned(), keys(&[("aa:bb", KEY_A), ("cc:dd", KEY_B)]));
    member.valid_after = Some("20260101".to_owned());
    member.valid_before = Some("20270101".to_owned());
    let (name, node) = members::store(&member).unwrap();
    assert_eq!(name, member_ref("alice"));
    assert_eq!(members::load(Some(&node)), Some(Some(member)));
}

#[test]
fn load_all_unions_every_member_ref() {
    let mut refs = Refs::new();
    for (principal, key) in [("alice", KEY_A), ("bob", KEY_B)] {
        let member = Member::with_keys(principal.to_owned(), keys(&[("aa:bb", key)]));
        let (name, node) = members::store(&member).unwrap();
        refs.insert(name, node);
    }
    let index = load_all_indexed(members::load_all(&under(&refs)).unwrap());
    let principals: Vec<&str> = index.iter().map(|member| member.principal.as_str()).collect();
    assert_eq!(principals, vec!["alice", "bob"]);
}

#[test]
fn empty_when_no_member_refs_exist() {
    assert_eq!(members::load_all(&[]), Some(vec![]));
    let broken = [(member_ref("eve"), blob("x"))];
    assert_eq!(members::load_all(&broken), None);
    assert_eq!(members::load(None), Some(None));
}

#[test]
fn loads_the_on_disk_member_format_with_no_provenance_entry_as_admin_registered() {
    let node = tree(vec![
        ("principal", blob("alice")),
        ("valid_after", option_tree(None)),
        ("valid_before", option_tree(Some("20270101"))),
        ("trust", tree(vec![("Keys", tree(vec![("aa:bb:cc", blob(KEY_A))]))])),
    ]);
    let member = members::load(Some(&node)).unwrap().unwrap();
    assert_eq!(member.principal, "alice");
    assert_eq!(member.valid_before, Some("20270101".to_owned()));
    assert_eq!(member.keys(), vec![(&"aa:bb:cc".to_owned(), &KEY_A.to_owned())]);
    assert_eq!(member.provenance, Provenance::AdminRegistered);
}

fn credentials() -> TextMap<WebAuthnKey> {
    let mut map = TextMap::new();
    map.insert(
        "cred-1".to_owned(),
        WebAuthnKey { cose_key: "cose-bytes".to_owned(), label: "YubiKey".to_owned() },
    );
    map
}

#[test]
fn loads_a_hand_built_webauthn_fixture() {
    let credential =
        tree(vec![("cose_key", blob("cose-bytes")), ("label", blob("YubiKey"))]);
    let node = tree(vec![
        ("principal", blob("alice")),
        ("valid_after", option_tree(None)),
        ("valid_before", option_tree(None)),
        ("trust", tree(vec![("WebAuthn", tree(vec![("cred-1", credential)]))])),
        ("provenance", tree(vec![("SelfAttestedWeb", tree(vec![]))])),
    ]);
    let member = members::load(Some(&node)).unwrap().unwrap();
    assert_eq!(member.principal, "alice");
    assert_eq!(member.provenance, Provenance::SelfAttestedWeb);
    assert!(member.keys().is_empty());
    assert_eq!(member.ca(), None);
    assert_eq!(member.trust, Trust::WebAuthn(credentials()));
}

#[test]
fn store_then_load_round_trips_a_webauthn_member() {
    let member = Member::with_webauthn("alice".to_owned(), credentials());
    let (_, node) = members::store(&member).unwrap();
    let loaded = members::load(Some(&node)).unwrap().unwrap();
    assert_eq!(loaded, member);
    assert_eq!(loaded.provenance, Provenance::SelfAttestedWeb);
    assert!(loaded.keys().is_empty());
    assert!(allowed_signers(&[loaded]).is_empty());
}

#[test]
fn store_then_load_round_trips_a_ca_member() {
    let member = Member::with_ca("alice".to_owned(), KEY_A.to_owned());
    let (_, node) = members::store(&member).unwrap();
    let loaded = members::load(Some(&node)).unwrap().unwrap();
    assert_eq!(loaded, member);
    assert_eq!(loaded.ca(), Some(KEY_A));
    assert!(loaded.keys().is_empty());
}

#[test]
fn store_rejects_a_member_with_an_inverted_window() {
    let mut member = Member::with_keys("alice".to_owned(), keys(&[("aa:bb", KEY_A)]));
    member.valid_after = Some("20270101".to_owned());
    member.valid_before = Some("20260101".to_owned());
    assert!(members::store(&member).is_err());
}

fn review(principal: &str, verdict: Verdict) -> Review {
    Review { principal: principal.to_owned(), verdict, body: "Looks good".to_owned() }
}

#[test]
fn store_then_load_round_trips_a_review() {
    for verdict in [Verdict::Approve, Verdict::RequestChanges, Verdict::Comment] {
        let written = review("alice", verdict);
        let (name, node) = reviews::store("target-1", &written);
        assert_eq!(name, "refs/meta/reviews/target-1/alice");
        assert_eq!(reviews::load(Some(&node)), Some(Some(written)));
    }
    let odd = tree(vec![("verdict", tree(vec![("Maybe", tree(vec![]))]))]);
    assert_eq!(reviews::load(Some(&odd)), None);
}

#[test]
fn lists_only_the_reviews_on_the_named_target() {
    let mut refs = Refs::new();
    for (target, principal) in [("target-1", "alice"), ("target-1", "bob"), ("target-2", "carol")]
    {
        let written = review(principal, Verdict::Approve);
        let (name, node) = reviews::store(target, &written);
        refs.insert(name, node);
    }
    let again = review("alice", Verdict::Comment);
    let (name, node) = reviews::store("target-1", &again);
    refs.insert(name, node);
    let found = reviews::list("target-1", &under(&refs)).unwrap();
    assert_eq!(found.len(), 2);
    assert_eq!(found[0], ("alice".to_owned(), again));
    assert_eq!(found[1].0, "bob");
}

fn revocation(fingerprint: &str, reason: &str) -> Revocation {
    Revocation { fingerprint: fingerprint.to_owned(), reason: reason.to_owned() }
}

#[test]
fn store_then_load_round_trips_the_revocations() {
    let written = vec![revocation("aa:bb", "laptop stolen"), revocation("cc:dd", "")];
    let (name, node) = revocations::store(written.clone());
    assert_eq!(name, REVOKED_REF);
    assert_eq!(revocations::load(Some(&node)), Some(written));
}

#[test]
fn empty_when_the_revoked_ref_is_absent() {
    let loaded = revocations::load(None).unwrap();
    assert!(loaded.is_empty());
    assert!(fingerprints(&loaded).is_empty());
}

#[test]
fn fingerprints_collects_the_revoked_keys() {
    let (_, node) = revocations::store(vec![revocation("aa:bb", "x"), revocation("cc:dd", "")]);
    let revoked = fingerprints(&revocations::load(Some(&node)).unwrap());
    assert!(revoked.contains("aa:bb"));
    assert!(revoked.contains("cc:dd"));
    assert!(!revoked.contains("ee:ff"));
}

#[test]
fn loads_the_on_disk_revoked_format() {
    let node = tree(vec![(
        "revoked",
        tree(vec![
            ("aa:bb", tree(vec![("reason", blob("laptop stolen"))])),
            ("cc:dd", tree(vec![("reason", blob(""))])),
        ]),
    )]);
    assert_eq!(
        revocations::load(Some(&node)),
        Some(vec![revocation("aa:bb", "laptop stolen"), revocation("cc:dd", "")])
    );
}

fn signer(fingerprint: &str, key: &str) -> Signer {
    Signer {
        fingerprint: fingerprint.to_owned(),
        key: key.to_owned(),
        valid_after: None,
        valid_before: None,
    }
}

#[test]
fn store_then_load_round_trips_the_signer_set() {
    let mut bounded = signer("SHA256-bbb", KEY_B);
    bounded.valid_after = Some("20260101".to_owned());
    bounded.valid_before = Some("20270101".to_owned());
    let written = vec![signer("SHA256-aaa", KEY_A), bounded];
    let (name, node) = signers::store(written.clone());
    assert_eq!(name, MEMBERS_REF);
    assert_eq!(signers::load(Some(&node)), Some(written));
}

#[test]
fn signers_store_replaces_the_previous_set() {
    let mut refs = Refs::new();
    for written in [signer("SHA256-aaa", KEY_A), signer("SHA256-bbb", KEY_B)] {
        let (name, node) = signers::store(vec![written]);
        refs.insert(name.to_owned(), node);
    }
    assert_eq!(
        signers::load(refs.get(MEMBERS_REF)),
        Some(vec![signer("SHA256-bbb", KEY_B)])
    );
}

#[test]
fn empty_when_the_members_ref_is_absent() {
    assert_eq!(signers::load(None), Some(vec![]));
}

#[test]
fn loads_the_on_disk_members_format() {
    let member = |key: &str, before: Option<&str>| {
        tree(vec![
            ("key", blob(key)),
            ("valid_after", option_tree(None)),
            ("valid_before", option_tree(before)),
        ])
    };
    let node = tree(vec![(
        "members",
        tree(vec![
            ("aa:bb:cc", member(KEY_A, None)),
            ("dd:ee:ff", member(KEY_B, Some("20270101"))),
        ]),
    )]);
    let mut expected_b = signer("dd:ee:ff", KEY_B);
    expected_b.valid_before = Some("20270101".to_owned());
    assert_eq!(
        signers::load(Some(&node)),
        Some(vec![signer("aa:bb:cc", KEY_A), expected_b])
    );
}

#[test]
fn the_last_of_a_key_is_kept() {
    let (_, node) = checks::store(vec![check("b", "1"), check("a", "2"), check("b", "3")]);
    assert_eq!(
        checks::load(Some(&node)),
        Some(vec![check("a", "2"), check("b", "3")])
    );
}

#[test]
fn what_the_server_runs_reads_back() {
    let defined = vec![CheckDef {
        name: "all".to_owned(),
        command: None,
        image: Some("rust".to_owned()),
        depends: (0..12).map(|n| format!("d{n}")).collect(),
        toolchains: vec!["gcc".to_owned()],
    }];
    assert_eq!(load_map::<CheckDef>(Some(&store_map(defined.clone()))), Some(defined));
    let settled: Vec<CheckRun> = [
        ("a", Status::Queued, None),
        ("b", Status::Running, None),
        ("c", Status::Pass, Some(0)),
        ("d", Status::Fail, Some(-1)),
        ("e", Status::Error, Some(i32::MIN)),
        ("f", Status::Skipped, Some(i32::MAX)),
    ]
    .into_iter()
    .map(|(name, status, exit_code)| CheckRun {
        name: name.to_owned(),
        status,
        duration_secs: Some(u64::MAX),
        recording: Some("r".to_owned()),
        exit_code,
    })
    .collect();
    assert_eq!(load_map::<CheckRun>(Some(&store_map(settled.clone()))), Some(settled));
}

#[test]
fn malformed_values_do_not_read() {
    assert_eq!(u64::read(&blob("12x")), None);
    assert_eq!(u64::read(&tree(vec![])), None);
    assert_eq!(i32::read(&blob("-2147483649")), None);
    assert_eq!(i32::read(&blob("-")), None);
    assert_eq!(String::read(&tree(vec![])), None);
    assert_eq!(Option::<String>::read(&blob("x")), None);
    assert_eq!(Vec::<String>::read(&tree(vec![("0001", blob("x"))])), None);
    assert_eq!(Status::read(&blob("odd")), None);
    assert_eq!(write_single("a", &7u64), tree(vec![("a", blob("7"))]));
    let many: Vec<String> = (0..3).map(|n| n.to_string()).collect();
    assert_eq!(many.write(), list_tree(&["0", "1", "2"]));
}
