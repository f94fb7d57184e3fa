use git_ents::check_pages::{
    check_recording_download, check_recording_page, effect_value, live_fragment, sanitize_filename,
    settled_source, status_class, status_word, CommitRecord, RecordedRun, RecordingBody,
};
use git_ents::commands::{checks_add, checks_list, checks_remove, checks_runs, parse_depends};
use git_ents::keyed::TextMap;
use git_ents::live::{LiveKey, LiveRegistry};
use git_ents::object_id::{ObjectId, ZERO_OID};
use git_ents::process::{Process, Stage, Task, Turn};
use git_ents::runner::{
    activate, cached_script, derive_composite, extract_script, finish, job_body, job_names,
    parse_updates, pending_jobs, post_receive, read_job, record_chunk, run_args, sprite_name,
    sync_script, time_left, toolchain_dir, toolchain_names, watch, CheckDef, CheckRun, End, Heard,
    HookPlan, JobRun, Next, QueueFile, RunResult, Status, Step,
};
use git_ents::schedule::{order, Disorder};

fn oid(digit: &str) -> ObjectId {
    ObjectId::from_hex(digit.repeat(40).as_bytes()).unwrap()
}

fn check(name: &str, command: Option<&str>, depends: &[&str]) -> CheckDef {
    CheckDef {
        name: name.to_owned(),
        command: command.map(str::to_owned),
        image: None,
        depends: depends.iter().map(|d| (*d).to_owned()).collect(),
        toolchains: vec![],
    }
}

#[test]
fn parse_updates_keeps_content_branches_only() {
    let new = "1111111111111111111111111111111111111111";
    let input = format!(
        "{zero} {new} refs/heads/main\n\
         {new} {zero} refs/heads/old\n\
         {new} {new} refs/meta/checks\n\
         {new} {new} refs/heads/feature\n",
        zero = ZERO_OID,
    );
    let updates = parse_updates(&input);
    let refs: Vec<&str> = updates.iter().map(|u| u.ref_name.as_str()).collect();
    assert_eq!(refs, vec!["refs/heads/main", "refs/heads/feature"]);
}

#[test]
fn activate_leaves_a_toolchain_free_command_unchanged() {
    let dirs = TextMap::new();
    assert_eq!(activate("cargo test", &[], &dirs), "cargo test");
}

#[test]
fn activate_prefixes_path_in_declared_order() {
    let mut dirs = TextMap::new();
    dirs.insert("gcc".to_owned(), "/toolchains/aaa".to_owned());
    dirs.insert("cmake".to_owned(), "/toolchains/bbb".to_owned());
    let toolchains = vec!["gcc".to_owned(), "cmake".to_owned()];
    assert_eq!(
        activate("make", &toolchains, &dirs),
        "export PATH=/toolchains/aaa:/toolchains/bbb:$PATH; make"
    );
}

#[test]
fn activate_skips_a_toolchain_missing_from_dirs() {
    let dirs = TextMap::new();
    let toolchains = vec!["gcc".to_owned()];
    assert_eq!(
        activate("make", &toolchains, &dirs),
        "export PATH=:$PATH; make"
    );
}

#[test]
fn composite_status_derives_from_its_dependencies() {
    assert_eq!(
        derive_composite(&[Status::Pass, Status::Pass]),
        Status::Pass
    );
    assert_eq!(
        derive_composite(&[Status::Pass, Status::Fail]),
        Status::Fail
    );
    assert_eq!(
        derive_composite(&[Status::Error, Status::Skipped]),
        Status::Fail
    );
    assert_eq!(
        derive_composite(&[Status::Pass, Status::Skipped]),
        Status::Skipped
    );
    assert_eq!(derive_composite(&[]), Status::Pass);
}

#[test]
fn pending_jobs_groups_by_repo_and_drops_malformed() {
    let file = |name: &str, body: &str| QueueFile {
        path: format!("/queue/{name}"),
        contents: Some(body.to_owned()),
    };
    let oid_a = "a".repeat(40);
    let oid_b = "b".repeat(40);
    let oid_c = "c".repeat(40);
    let oid_d = "d".repeat(40);
    let (groups, poisoned) = pending_jobs(vec![
        file("a.job", &format!("/repos/one\n{oid_a}\nrefs/heads/main\n")),
        file("b.job", &format!("/repos/one\n{oid_b}\nrefs/heads/dev\n")),
        file("c.job", &format!("/repos/two\n{oid_c}\nrefs/heads/main\n")),
        file("d.job", "garbage\n"),
        file("ignored.tmp", &format!("/repos/one\n{oid_d}\nrefs/heads/main\n")),
    ]);
    assert_eq!(groups.len(), 2);
    assert_eq!(groups.get("/repos/one").unwrap().len(), 2);
    assert_eq!(groups.get("/repos/two").unwrap().len(), 1);
    assert_eq!(poisoned, vec!["/queue/d.job".to_owned()]);
}

#[test]
fn jobs_round_trip_through_the_queue() {
    let input = format!("{} {} refs/heads/main\n", ZERO_OID, "A".repeat(40));
    let updates = match post_receive(&input, 1, true) {
        HookPlan::Queue(updates) => updates,
        _ => panic!("the push should be queued"),
    };
    let job = read_job(&job_body("/repos/one", &updates[0])).unwrap();
    assert_eq!(job.repo, "/repos/one");
    assert_eq!(job.new.as_str(), "a".repeat(40));
    assert_eq!(job.ref_name, "refs/heads/main");
    assert!(matches!(post_receive(&input, 0, true), HookPlan::Nothing));
    assert!(matches!(post_receive(&input, 1, false), HookPlan::NoQueue));
    assert!(matches!(post_receive("", 1, true), HookPlan::Nothing));
    let (temp, name) = job_names();
    assert_ne!(temp, name);
    assert!(name.ends_with(".job") || temp.ends_with(".job"));
    assert_ne!(job_names(), job_names());
}

#[test]
fn a_failed_dependency_skips_what_needs_it() {
    let mut run = JobRun::start(vec![
        check("fmt", Some("cargo fmt"), &[]),
        check("test", Some("cargo test"), &["fmt"]),
        check("all", None, &["fmt", "test"]),
    ]);
    let names = order(&run.checks).unwrap();
    assert_eq!(names, vec!["fmt", "test", "all"]);
    run.set_order(&names);
    match run.decide() {
        Step::Run(at, command) => {
            assert_eq!(at, 0);
            assert_eq!(command, "cargo fmt");
        }
        _ => panic!("fmt should run"),
    }
    run.settle_run(RunResult {
        status: Status::Fail,
        duration_secs: 3,
        recording: "r".to_owned(),
        exit_code: Some(1),
    });
    assert!(matches!(run.decide(), Step::Skip(1)));
    run.settle();
    assert!(matches!(run.decide(), Step::Composite(2, Status::Fail)));
    run.settle();
    assert!(matches!(run.decide(), Step::Done));
    let found: Vec<Status> = run.runs.iter().map(|r| r.status).collect();
    assert_eq!(found, vec![Status::Fail, Status::Skipped, Status::Fail]);
}

#[test]
fn a_job_is_carried_out_step_by_step() {
    let checks = vec![
        check("all", None, &["fmt", "test"]),
        check("fmt", Some("cargo fmt"), &[]),
        check("test", Some("cargo test"), &["fmt"]),
    ];
    let (mut process, turn) = Process::begin(checks).unwrap();
    assert_eq!(turn, Turn { record: false, task: Task::Prepare });
    assert_eq!(process.prepared(Ok(())), Turn { record: true, task: Task::Sync });
    assert_eq!(process.synced(Ok(())), Turn { record: false, task: Task::Resolve });
    let turn = process.resolved(Ok(TextMap::new()));
    assert_eq!(turn, Turn { record: false, task: Task::Check(1, "cargo fmt".to_owned()) });
    let passed = || RunResult {
        status: Status::Pass,
        duration_secs: 1,
        recording: String::new(),
        exit_code: Some(0),
    };
    let turn = process.checked(passed());
    assert_eq!(turn, Turn { record: true, task: Task::Check(2, "cargo test".to_owned()) });
    assert_eq!(process.checked(passed()), Turn { record: true, task: Task::Settle });
    assert_eq!(process.settled(), Turn { record: true, task: Task::Finish(Ok(())) });
    assert_eq!(process.stage, Stage::Finished);
    assert!(process.run.runs.iter().all(|run| run.status == Status::Pass));
}

#[test]
fn a_job_that_cannot_start_ends_in_error() {
    assert!(Process::begin(vec![]).is_none());
    let (process, turn) = Process::begin(vec![check("a", None, &["gone"])]).unwrap();
    assert_eq!(
        turn,
        Turn {
            record: true,
            task: Task::Finish(Err(
                "invalid check set: check a depends on unknown check gone".to_owned()
            )),
        }
    );
    assert_eq!(process.run.runs[0].status, Status::Error);
    let started = || Process::begin(vec![check("a", Some("x"), &[])]).unwrap().0;
    let gone = Turn { record: true, task: Task::Finish(Err("gone".to_owned())) };
    let mut process = started();
    assert_eq!(process.prepared(Err("gone".to_owned())), gone);
    assert_eq!(process.run.runs[0].status, Status::Error);
    let mut process = started();
    process.prepared(Ok(()));
    assert_eq!(process.synced(Err("gone".to_owned())), gone);
    let mut process = started();
    process.prepared(Ok(()));
    process.synced(Ok(()));
    assert_eq!(process.resolved(Err("gone".to_owned())), gone);
    assert_eq!(process.stage, Stage::Finished);
}

#[test]
fn checks_are_ordered_by_their_dependencies() {
    let checks = [
        check("c", None, &["b"]),
        check("b", None, &["a"]),
        check("a", None, &[]),
    ];
    assert_eq!(order(&checks).unwrap(), vec!["a", "b", "c"]);
    let dangling = [check("a", None, &["gone"])];
    let error = order(&dangling).unwrap_err();
    assert_eq!(
        error,
        Disorder::Unknown { check: "a".to_owned(), dependency: "gone".to_owned() }
    );
    assert_eq!(error.message(), "check a depends on unknown check gone");
    let cycle = [check("a", None, &["b"]), check("b", None, &["a"])];
    assert_eq!(order(&cycle), Err(Disorder::Cycle));
    assert_eq!(
        Disorder::Cycle.message(),
        "the checks depend on each other in a cycle"
    );
    assert_eq!(order(&[check("a", None, &["a"])]), Err(Disorder::Cycle));
}

#[test]
fn an_ended_command_has_an_outcome() {
    let passed = finish(End::Exited { success: true, code: 0 }, 2, "r".to_owned());
    assert_eq!(passed.status, Status::Pass);
    assert_eq!(passed.exit_code, Some(0));
    let failed = finish(End::Exited { success: false, code: 3 }, 2, "r".to_owned());
    assert_eq!(failed.status, Status::Fail);
    assert_eq!(failed.exit_code, Some(3));
    assert_eq!(finish(End::NotStarted, 0, String::new()).status, Status::Error);
    assert_eq!(finish(End::Lost, 0, String::new()).status, Status::Error);
    assert_ne!(finish(End::TimedOut, 0, String::new()).status, Status::Pass);
    assert!(time_left(0).is_some());
    assert_eq!(time_left(u128::MAX), None);
}

#[test]
fn a_run_that_cannot_be_carried_out_ends_in_error() {
    let check = |name: &str| CheckDef {
        name: name.to_owned(),
        command: Some("true".to_owned()),
        image: None,
        depends: vec![],
        toolchains: vec![],
    };
    let mut run = JobRun::start(vec![check("a"), check("b")]);
    run.finalize_error();
    assert!(run.runs.iter().all(|run| run.status == Status::Error));
    assert_eq!(run.runs.len(), 2);
}

#[test]
fn a_check_is_watched_until_it_ends() {
    assert_eq!(watch(Heard::Chunk(b"x".to_vec())), Next::Record(b"x".to_vec()));
    assert_eq!(watch(Heard::Silence), Next::Kill);
    assert_eq!(watch(Heard::Ended), Next::Wait);
}

#[test]
fn sandboxes_are_named_after_their_repository() {
    assert_eq!(sprite_name("/data/My Repo.git"), "checks-my-repo-git");
    assert_eq!(sprite_name("/data/---"), "checks-repo");
    assert!(
        sprite_name("/data/My_Repo.git")
            .chars()
            .all(|c| c.is_ascii_lowercase() || c.is_ascii_digit() || c == '-')
    );
    assert_eq!(sprite_name("/data/a"), sprite_name("/data/a/"));
    assert_eq!(toolchain_dir(&oid("a")), format!("/toolchains/{}", "a".repeat(40)));
    assert!(cached_script("/toolchains/x").contains("/toolchains/x"));
    assert!(extract_script("/toolchains/x").contains("/toolchains/x"));
    assert_eq!(sync_script(), "rm -rf /work && mkdir -p /work && tar -x -C /work");
    assert!(run_args("s", "make").contains(&"make".to_owned()));
    let mut first = check("a", None, &[]);
    first.toolchains = vec!["gcc".to_owned(), "cmake".to_owned()];
    let mut second = check("b", None, &[]);
    second.toolchains = vec!["gcc".to_owned()];
    assert_eq!(toolchain_names(&[first, second]).len(), 2);
}

#[test]
fn live_buffers_last_as_long_as_their_check() {
    let key = |name: &str| LiveKey {
        repo: "/r".to_owned(),
        commit: "c".to_owned(),
        name: name.to_owned(),
    };
    let mut live = LiveRegistry::new();
    assert_eq!(live.snapshot(&key("fmt")), None);
    live.append(&key("fmt"), "lost");
    assert_eq!(live.snapshot(&key("fmt")), None);
    live.start(key("fmt"));
    live.start(key("test"));
    assert_eq!(live.snapshot(&key("fmt")).as_deref(), Some(""));
    live.append(&key("fmt"), "a");
    live.append(&key("fmt"), "b");
    assert_eq!(live.snapshot(&key("fmt")).as_deref(), Some("ab"));
    assert_eq!(live.snapshot(&key("test")).as_deref(), Some(""));
    live.finish(&key("fmt"));
    assert_eq!(live.snapshot(&key("fmt")), None);
    assert_eq!(live.snapshot(&key("test")).as_deref(), Some(""));
}

fn settled(name: &str, recording: Option<&str>) -> CheckRun {
    CheckRun {
        name: name.to_owned(),
        status: Status::Pass,
        duration_secs: Some(1),
        recording: recording.map(str::to_owned),
        exit_code: Some(0),
    }
}

fn records(runs: Vec<CheckRun>) -> Vec<CommitRecord> {
    vec![CommitRecord {
        commit: oid("a"),
        runs: vec![RecordedRun { at: 100, results: runs }],
    }]
}

#[test]
fn a_recording_page_is_live_until_its_check_settles() {
    let commit = "a".repeat(40);
    let mut running = settled("fmt", None);
    running.status = Status::Running;
    let page = check_recording_page("org/r", &commit, "fmt", &records(vec![running])).unwrap();
    assert_eq!(page.title, "fmt @ aaaaaaaa");
    assert_eq!(
        page.body,
        RecordingBody::Live(Status::Running, format!("/org/r/checks/{commit}/fmt/live"))
    );
    let done = settled("fmt", Some("cast"));
    let page = check_recording_page("org/r", &commit, "fmt", &records(vec![done.clone()])).unwrap();
    assert_eq!(
        page.body,
        RecordingBody::Settled(done, format!("/org/r/checks/{commit}/fmt/download"))
    );
    assert!(check_recording_page("r", &commit, "other", &records(vec![])).is_none());
    assert!(check_recording_page("r", "xyz", "fmt", &records(vec![])).is_none());
}

#[test]
fn a_recording_downloads_under_a_safe_name() {
    let commit = "a".repeat(40);
    let name = "a\"b/c";
    let found =
        check_recording_download(&commit, name, &records(vec![settled(name, Some("cast"))]))
            .unwrap();
    assert_eq!(found.disposition, "attachment; filename=\"a_b_c-aaaaaaaa.cast\"");
    assert_eq!(found.recording, "cast");
    assert!(
        check_recording_download(&commit, name, &records(vec![settled(name, None)])).is_none()
    );
    assert_eq!(sanitize_filename("ok-1_x"), "ok-1_x");
}

#[test]
fn terminals_are_shown_where_there_is_output() {
    let mut live = git_ents::asciicast::asciicast_header();
    record_chunk(&mut live, "0.5", b"hi\n");
    let shown = live_fragment(Some(&live));
    assert_eq!(shown.state, "running");
    assert_eq!(shown.source.as_deref(), Some("[terminal]\n----\nhi\n\n----\n"));
    let blank = git_ents::asciicast::asciicast_header();
    assert_eq!(live_fragment(Some(&blank)).source, None);
    assert_eq!(live_fragment(None).state, "done");
    assert_eq!(
        settled_source(&settled("x", Some(&live))),
        Some(format!("[terminal%replay,format=asciicast]\n----\n{live}\n----\n"))
    );
    assert_eq!(settled_source(&settled("x", None)), None);
    assert_eq!(settled_source(&settled("x", Some(&blank))), None);
}

#[test]
fn statuses_read_as_words() {
    assert_eq!(status_word(Status::Queued), "queued");
    assert_eq!(status_word(Status::Skipped), "skipped");
    assert_eq!(status_class(Status::Error), "status-fail");
    assert_eq!(status_class(Status::Running), "status-running");
}

#[test]
fn the_check_commands_edit_the_set() {
    let mut fmt = check("fmt", Some("cargo fmt"), &[]);
    fmt.image = Some("rust".to_owned());
    let all = check("all", None, &["fmt"]);
    let set = checks_add(vec![], fmt).unwrap();
    let set = checks_add(set, all).unwrap();
    assert_eq!(
        checks_list("origin", &set),
        vec!["fmt  cargo fmt  [image: rust]", "all  (composite)  [needs: fmt]"]
    );
    assert_eq!(
        effect_value(&set[0]),
        "cargo fmt \u{b7} image rust"
    );
    assert_eq!(effect_value(&set[1]), "(composite) \u{b7} needs fmt");
    assert_eq!(checks_list("origin", &[]), vec!["no checks configured on origin"]);
    let set = checks_add(set, check("fmt", Some("rustfmt"), &[])).unwrap();
    assert_eq!(set.len(), 2);
    assert_eq!(set[1].command.as_deref(), Some("rustfmt"));
    assert_eq!(
        checks_add(vec![], check("x", None, &["y"])).unwrap_err(),
        Disorder::Unknown { check: "x".to_owned(), dependency: "y".to_owned() }
    );
    let set = checks_remove(set, "all", "origin").unwrap();
    assert_eq!(set.len(), 1);
    assert_eq!(
        checks_remove(set, "all", "origin").unwrap_err(),
        "no check named all on origin"
    );
    assert_eq!(parse_depends(Some(" a, ,b ")), vec!["a", "b"]);
    assert!(parse_depends(None).is_empty());
}

#[test]
fn runs_are_printed_newest_first() {
    let commits = records(vec![settled("fmt", None), settled("test", None)]);
    assert_eq!(
        checks_runs("origin", &commits, 100 + 7200),
        vec!["aaaaaaaaaaaa  2h ago  fmt=pass  test=pass"]
    );
    assert_eq!(checks_runs("origin", &[], 0), vec!["no check runs on origin"]);
}
