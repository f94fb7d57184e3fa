use git_ents::http::{
    ancestors, backend, backend_config, build_response, enclosing_repo, ensure_repo, is_receive_pack,
    is_web_get, parse_status, reconcile_head, reconciles_head, refusal, repo_id_string, repo_path,
    route_get, route_post, valid_segment, Answer, GitRequest, Target,
};
use git_ents::server::{port, resolve, AppState, Args, Environment};

fn state(cert_nonce_seed: Option<&str>, hooks_dir: Option<&str>) -> AppState {
    AppState {
        data_dir: "/data".to_owned(),
        cert_nonce_seed: cert_nonce_seed.map(str::to_owned),
        hooks_dir: hooks_dir.map(str::to_owned),
        checks_queue: "/data/checks-queue".to_owned(),
        web_signing_key: None,
        hydrate: None,
    }
}

#[test]
fn validates_segments() {
    for (segment, expected) in [
        ("repo", true),
        ("repo.git", true),
        ("My-Repo_1.git", true),
        ("", false),
        (".", false),
        ("..", false),
        (".hidden", false),
        ("a/b", false),
        ("a b", false),
        ("a%2eb", false),
    ] {
        assert_eq!(valid_segment(segment), expected, "{segment}");
    }
}

#[test]
fn backend_config_is_empty_without_authentication() {
    assert!(backend_config(&state(None, None)).is_empty());
}

#[test]
fn backend_config_injects_nonce_seed_and_hooks_path() {
    assert_eq!(
        backend_config(&state(Some("seed"), Some("/app/hooks"))),
        vec![
            ("receive.certNonceSeed", "seed"),
            ("receive.certNonceSlop", "60"),
            ("core.hooksPath", "/app/hooks"),
        ]
    );
}

#[test]
fn extracts_repo_path() {
    for (path, expected) in [
        ("/repo.git/git-receive-pack", Some("repo.git")),
        ("/org/repo.git/git-receive-pack", Some("org/repo.git")),
        ("/org/team/repo.git/git-receive-pack", Some("org/team/repo.git")),
        ("/repo.git/info/refs", Some("repo.git")),
        ("/a/b/c/d.git/git-receive-pack", None),
        ("/../etc/git-receive-pack", None),
        ("/.ssh/git-receive-pack", None),
        ("/git-receive-pack", None),
    ] {
        assert_eq!(repo_path(path).as_deref(), expected, "{path}");
    }
}

#[test]
fn detects_pushes() {
    for (path, query, expected) in [
        ("/repo.git/git-receive-pack", "", true),
        ("/repo.git/info/refs", "service=git-receive-pack", true),
        ("/repo.git/info/refs", "service=git-upload-pack", false),
        ("/repo.git/info/refs", "", false),
        ("/repo.git/info/refs", "x=service=git-receive-pack", false),
        ("/repo.git/info/refs", "a=b&service=git-receive-pack", true),
        ("/repo.git/objects/info/packs", "", false),
    ] {
        assert_eq!(is_receive_pack(path, query), expected, "{path}?{query}");
    }
}

#[test]
fn routes_browser_gets() {
    for (path, query, expected) in [
        ("/", "", true),
        ("/repo", "", true),
        ("/repo/tree/src", "", true),
        ("/repo/blob/src/main.rs", "", true),
        ("/repo/commit/abc123", "", true),
        ("/repo/blob/HEAD", "", true),
        ("/repo/blob/src/objects/mod.rs", "", true),
        ("/commit/info/refs", "service=git-upload-pack", false),
        ("/commit/git-receive-pack", "", false),
        ("/repo/info/refs", "service=git-upload-pack", false),
        ("/repo/git-upload-pack", "", false),
        ("/repo/objects/12/abcdef", "", false),
    ] {
        assert_eq!(is_web_get(path, query), expected, "{path}?{query}");
    }
}

fn request(path: &str, query: &str) -> GitRequest {
    GitRequest {
        method: "POST".to_owned(),
        path_info: path.to_owned(),
        query_string: query.to_owned(),
        content_type: Some("application/x-git".to_owned()),
        content_length: None,
        content_encoding: None,
    }
}

#[test]
fn a_push_is_planned_for_its_repository() {
    let plan = backend(&state(Some("seed"), None), &request("/org/r.git/git-receive-pack", ""))
        .unwrap();
    assert_eq!(plan.push_repo.as_deref(), Some("/data/org/r.git"));
    assert!(plan.hydrate.is_none());
    let var = |name: &str| {
        plan.env.iter().find(|(key, _)| key == name).map(|(_, value)| value.as_str())
    };
    assert_eq!(var("GIT_PROJECT_ROOT"), Some("/data"));
    assert_eq!(var("REQUEST_METHOD"), Some("POST"));
    assert_eq!(var("PATH_INFO"), Some("/org/r.git/git-receive-pack"));
    assert!(reconciles_head(&plan, true));
    assert!(!reconciles_head(&plan, false));
    assert!(backend(&state(None, None), &request("/../git-receive-pack", "")).is_none());
    let fetch = backend(&state(None, None), &request("/r.git/git-upload-pack", "")).unwrap();
    assert!(fetch.push_repo.is_none());
}

#[test]
fn requests_are_routed_by_kind() {
    assert!(matches!(route_get("/repo", ""), Answer::Web));
    assert!(matches!(route_get("/repo/info/refs", "service=git-upload-pack"), Answer::Backend));
    assert!(matches!(route_get("/../etc", ""), Answer::BadRequest));
    assert!(matches!(route_post("/repo/git-receive-pack"), Answer::Backend));
    assert!(matches!(route_post("/login"), Answer::Web));
}

#[test]
fn repositories_do_not_nest() {
    assert_eq!(ancestors("/data", "a/b/c"), vec!["/data/a", "/data/a/b"]);
    assert_eq!(
        enclosing_repo(&["/data/a".to_owned(), "/data/a/b".to_owned()], &[false, true]).as_deref(),
        Some("/data/a/b")
    );
    assert_eq!(ensure_repo(true, true, true), Target::Nested);
    assert_eq!(ensure_repo(false, false, false), Target::Create);
    assert_eq!(ensure_repo(false, true, true), Target::Ready);
    assert_eq!(ensure_repo(false, true, false), Target::Namespace);
    assert_eq!(
        refusal(Target::Nested),
        Some("repository path is nested inside an existing repository")
    );
    assert_eq!(refusal(Target::Create), None);
    assert_eq!(repo_id_string("org/r.git"), repo_id_string("org/r.git"));
}

#[test]
fn a_dangling_head_adopts_a_branch() {
    assert_eq!(reconcile_head(true, "main\n"), None);
    assert_eq!(reconcile_head(false, "dev\nmain\n").as_deref(), Some("refs/heads/main"));
    assert_eq!(reconcile_head(false, "dev\nmaster\n").as_deref(), Some("refs/heads/master"));
    assert_eq!(reconcile_head(false, "dev\n").as_deref(), Some("refs/heads/dev"));
    assert_eq!(reconcile_head(false, ""), None);
}

#[test]
fn a_cgi_response_is_taken_apart() {
    let response = build_response(b"Status: 403 Forbidden\r\nX-A: b\r\n\r\nbody\r\n\r\nmore");
    assert_eq!(response.status, 403);
    assert_eq!(response.headers, vec![(b"X-A".to_vec(), b"b".to_vec())]);
    assert_eq!(response.body, b"body\r\n\r\nmore".to_vec());
    assert_eq!(build_response(b"X: y\n\nz").status, 200);
    assert_eq!(parse_status(b"404 Not Found"), Some(404));
    assert_eq!(parse_status(b"x"), None);
}

fn args() -> Args {
    Args {
        command: None,
        port: None,
        data_dir: None,
        cert_nonce_seed: None,
        hooks_dir: None,
        web_signing_key: None,
        checks_queue: None,
    }
}

fn environment() -> Environment {
    Environment {
        port: None,
        project_root: None,
        cert_nonce_seed: None,
        hooks_dir: None,
        web_signing_key: None,
        checks_queue: None,
    }
}

#[test]
fn flags_win_over_the_environment() {
    assert_eq!(port(&args(), &environment()), 8080);
    let mut env = environment();
    env.port = Some("9000".to_owned());
    env.project_root = Some("/env".to_owned());
    env.cert_nonce_seed = Some(String::new());
    assert_eq!(port(&args(), &env), 9000);
    let mut given = args();
    given.port = Some(7000);
    assert_eq!(port(&given, &env), 7000);
    let state = resolve(&given, &env);
    assert_eq!(state.data_dir, "/env");
    assert_eq!(state.cert_nonce_seed, None);
    given.data_dir = Some("/flag".to_owned());
    assert_eq!(resolve(&given, &env).data_dir, "/flag");
    assert_eq!(resolve(&args(), &environment()).data_dir, "/data/repos");
}
