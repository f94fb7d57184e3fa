use git_ents::account::{is_account_repo, Account};
use git_ents::checks::{
    assemble_outcome, outcomes, run_doc, runs, runs_ref, Check, CheckBody, Outcome, Run, RunOutcome,
    RunRef,
};
use git_ents::comments::{comment_ref, issue_comments_ns};
use git_ents::component::{item_ref, Collection, Component, Document, Keyed, MapDocument};
use git_ents::config::Config;
use git_ents::issues::{issue_id, issue_ref, open_count, Issue};
use git_ents::members::Member;
use git_ents::reviews::{is_ready, target_reviews_ns, Review, Verdict};

fn review(principal: &str, verdict: Verdict) -> Review {
    Review { principal: principal.to_owned(), verdict, body: "Looks good".to_owned() }
}

fn outcome(name: &str, outcome: &str) -> RunOutcome {
    RunOutcome {
        name: name.to_owned(),
        outcome: outcome.to_owned(),
        duration_secs: None,
        log_url: None,
    }
}

#[test]
fn ready_requires_an_approval() {
    assert!(!is_ready(&[], None));
    assert!(is_ready(&[review("alice", Verdict::Approve)], None));
}

#[test]
fn a_requested_change_blocks_readiness_even_with_an_approval() {
    let reviews = [
        review("alice", Verdict::Approve),
        review("bob", Verdict::RequestChanges),
    ];
    assert!(!is_ready(&reviews, None));
}

#[test]
fn a_failing_check_blocks_readiness() {
    let reviews = [review("alice", Verdict::Approve)];
    let run = Run {
        at: 0,
        results: vec![outcome("fmt", "pass"), outcome("test", "fail")],
    };
    assert!(!is_ready(&reviews, Some(&run)));
}

#[test]
fn passing_checks_and_an_approval_are_ready() {
    let reviews = [review("alice", Verdict::Approve)];
    let run = Run {
        at: 0,
        results: vec![outcome("fmt", "pass"), outcome("test", "pass")],
    };
    assert!(is_ready(&reviews, Some(&run)));
}

#[test]
fn a_remark_does_not_approve() {
    assert!(!is_ready(&[review("alice", Verdict::Comment)], None));
    assert_eq!(target_reviews_ns("target-1"), "refs/meta/reviews/target-1");
}

#[test]
fn outcomes_round_trip_their_duration_and_log() {
    let written = RunOutcome {
        name: "fmt".to_owned(),
        outcome: "pass".to_owned(),
        duration_secs: Some(12),
        log_url: Some("https://log".to_owned()),
    };
    assert_eq!(outcomes(&run_doc(vec![written.clone()])), vec![written]);
    let stored = Outcome { outcome: "fail".to_owned(), duration_secs: None, log_url: None };
    assert_eq!(assemble_outcome("t".to_owned(), stored), outcome("t", "fail"));
}

#[test]
fn runs_are_listed_by_commit() {
    let commit = "1111111111111111111111111111111111111111";
    assert_eq!(runs_ref(commit), format!("refs/meta/runs/{commit}"));
    let listed = vec![RunRef {
        refname: runs_ref(commit),
        history: vec![
            (20, run_doc(vec![outcome("fmt", "pass")])),
            (10, run_doc(vec![outcome("fmt", "fail")])),
        ],
    }];
    let found = runs(&listed);
    assert_eq!(found.len(), 1);
    assert_eq!(found[0].commit, commit);
    assert_eq!(found[0].runs[0], Run { at: 20, results: vec![outcome("fmt", "pass")] });
    assert_eq!(found[0].runs[1].at, 10);
}

#[test]
fn issues_are_named_by_their_ref() {
    assert_eq!(issue_ref("abc"), "refs/meta/issues/abc");
    assert_eq!(issue_id("refs/meta/issues/abc").as_deref(), Some("abc"));
    assert_eq!(issue_id("refs/heads/main"), None);
    let issue = |state: &str| Issue {
        title: "t".to_owned(),
        body: String::new(),
        state: state.to_owned(),
        labels: vec![],
        author: "a".to_owned(),
    };
    let issues = [
        ("1".to_owned(), issue("open")),
        ("2".to_owned(), issue("closed")),
        ("3".to_owned(), issue("odd")),
    ];
    assert_eq!(open_count(&issues), 2);
}

#[test]
fn comments_nest_under_their_issue() {
    assert_eq!(issue_comments_ns("i"), "refs/meta/comments/i");
    assert_eq!(comment_ref("i", "c"), "refs/meta/comments/i/c");
}

#[test]
fn the_account_ref_makes_an_account_repo() {
    assert_eq!(is_account_repo::<String>(Ok(None)), Ok(false));
    assert_eq!(is_account_repo::<String>(Ok(Some(Account::default()))), Ok(true));
    assert_eq!(is_account_repo::<String>(Err("x".to_owned())), Err("x".to_owned()));
}

#[test]
fn components_know_where_they_live() {
    assert_eq!(<Config as Document>::REF, "refs/meta/config");
    assert_eq!(<Account as Document>::REF, "refs/meta/account");
    assert_eq!(<Member as Collection>::NS, "refs/meta/member");
    assert_eq!(<Member as Component>::NOUN, "member");
    assert_eq!(<Check as Component>::PLURAL, "checks");
    assert_eq!(<Check as MapDocument>::REF, "refs/meta/checks");
    let body = CheckBody { command: "cargo fmt".to_owned() };
    let check = <Check as Keyed>::compose("fmt".to_owned(), body.clone());
    assert_eq!(check.decompose(), ("fmt".to_owned(), body));
    assert_eq!(item_ref(<Member as Collection>::NS, "alice"), "refs/meta/member/alice");
}
