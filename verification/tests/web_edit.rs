use git_ents::keyed::TextMap;
use git_ents::members::{Member, Provenance};
use git_ents::routes::{
    get_destination, post_destination, post_form, repo_candidates, resolve_repo, route, sign_out,
    BlobView, Destination, Form, Page, SignOut,
};
use git_ents::runner::CheckDef;
use git_ents::server::AppState;
use git_ents::sessions::{new_sessions, snapshot, Session, Sessions};
use git_ents::settings_pages::{
    general_settings, settings_auth_banner, settings_page, Banner, Card, General, Roles,
};
use git_ents::shell::{can_edit, gather_meta, resolve_auth, Auth, RepoMeta};
use git_ents::web_edit::{
    author_email, comment_back, edit_author, editing_enabled, member_for_public_key, parse_lines,
    push_args, push_error, save_comment, save_settings, split_names, staging_ref, CommentEdit,
    LineRange,
};
use git_ents::config::{apply_edit, Config};

const ALICE: &str = "ssh-ed25519 AAAAALICE alice@laptop";
const COOKIE: &str = "ents_session=tok";

fn state(editing: bool) -> AppState {
    let set = |value: &str| if editing { Some(value.to_owned()) } else { None };
    AppState {
        data_dir: "/data".to_owned(),
        cert_nonce_seed: set("seed"),
        hooks_dir: set("/hooks"),
        checks_queue: "/queue".to_owned(),
        web_signing_key: set("/key"),
        hydrate: None,
    }
}

fn signed_in(public_key: &str) -> Sessions {
    let mut sessions = new_sessions();
    sessions.insert(
        "tok".to_owned(),
        Session {
            public_key: public_key.to_owned(),
            label: "laptop".to_owned(),
            csrf: "c5".to_owned(),
        },
    );
    sessions
}

fn member(name: &str, key: &str) -> Member {
    let mut keys = TextMap::new();
    keys.insert("aa:bb".to_owned(), key.to_owned());
    Member::with_keys(name.to_owned(), keys)
}

fn meta() -> RepoMeta {
    gather_meta("org/repo", Some("main\n"), None, Some("v1\n\nv2\n"), 3)
}

#[test]
fn a_member_edits_settings_through_the_browser() {
    let sessions = signed_in("ssh-ed25519 AAAAALICE");
    let members = [member("server", "ssh-ed25519 SERVER"), member("alice", ALICE)];
    let username = member_for_public_key(&members, "ssh-ed25519 AAAAALICE");
    assert_eq!(username.as_deref(), Some("alice"));
    let auth = resolve_auth(snapshot(&sessions, Some(COOKIE)), Some(&members)).unwrap();
    assert_eq!(auth.username, username);
    let csrf = match general_settings(&meta(), Some(&auth), true) {
        General::Form { csrf, .. } => csrf,
        _ => panic!("edit form should render"),
    };
    let body = format!(
        "csrf={csrf}&description=Edited+from+the+browser&homepage=https%3A%2F%2Fents.example&topics=rust%2C+git%2C+forge"
    );
    let edit = save_settings(&state(true), &sessions, Some(COOKIE), body.as_bytes()).unwrap();
    assert_eq!(edit.description, "Edited from the browser");
    assert_eq!(edit.homepage, "https://ents.example");
    assert_eq!(edit.topics, vec!["rust", "git", "forge"]);
    assert_eq!(edit_author(&sessions, Some(COOKIE), &members), Ok("alice".to_owned()));
    let config = apply_edit(Config::default(), edit);
    let after = gather_meta("org/repo", None, Some(&config), None, 0);
    assert_eq!(after.description.as_deref(), Some("Edited from the browser"));
    assert_eq!(after.topics, vec!["rust", "git", "forge"]);
}

#[test]
fn an_edit_without_a_valid_csrf_token_is_refused() {
    let sessions = signed_in("ssh-ed25519 AAAAALICE");
    let refused = save_settings(
        &state(true),
        &sessions,
        Some(COOKIE),
        b"csrf=not-the-token&description=sneaky",
    );
    assert_eq!(
        refused.unwrap_err(),
        "the edit could not be verified; reload and try again"
    );
}

#[test]
fn a_self_attested_member_is_refused_a_settings_edit() {
    let sessions = signed_in("ssh-ed25519 AAAAALICE");
    let mut alice = member("alice", ALICE);
    alice.provenance = Provenance::SelfAttestedWeb;
    let members = [alice];
    let username = member_for_public_key(&members, "ssh-ed25519 AAAAALICE");
    let auth = resolve_auth(snapshot(&sessions, Some(COOKIE)), Some(&members)).unwrap();
    assert_eq!(auth.username, username);
    assert!(
        matches!(general_settings(&meta(), Some(&auth), true), General::Form { .. }),
        "the edit form should still render for a self-attested member"
    );
    assert!(edit_author(&sessions, Some(COOKIE), &members).is_err());
}

#[test]
fn a_non_member_is_not_offered_an_edit_form() {
    let sessions = signed_in("ssh-ed25519 INTRUDER");
    let members = [member("alice", ALICE)];
    let username = member_for_public_key(&members, "ssh-ed25519 INTRUDER");
    assert_eq!(username, None);
    let auth = resolve_auth(snapshot(&sessions, Some(COOKIE)), Some(&members)).unwrap();
    assert_eq!(auth.username, username);
    assert_eq!(
        settings_auth_banner(Some(&auth), true),
        Banner::NotMember("laptop".to_owned())
    );
    assert!(matches!(
        general_settings(&meta(), Some(&auth), true),
        General::ReadOnly { .. }
    ));
    assert_eq!(
        edit_author(&sessions, Some(COOKIE), &members).unwrap_err(),
        "your web key is not a member of this repository"
    );
    assert_eq!(
        edit_author(&sessions, None, &members).unwrap_err(),
        "sign in to edit settings"
    );
}

#[test]
fn editing_needs_the_whole_gate() {
    assert!(editing_enabled(&state(true)));
    assert!(!editing_enabled(&state(false)));
    let mut half = state(true);
    half.web_signing_key = None;
    assert!(!editing_enabled(&half));
    assert_eq!(
        save_settings(&half, &signed_in("k"), Some(COOKIE), b"csrf=c5").unwrap_err(),
        "Editing is disabled: this server has no web signing key or signed-push gate."
    );
    let auth = Auth {
        label: "l".to_owned(),
        username: Some("alice".to_owned()),
        csrf: "c".to_owned(),
    };
    assert!(can_edit(Some(&auth), true));
    assert!(!can_edit(Some(&auth), false));
    assert!(!can_edit(None, true));
    assert_eq!(settings_auth_banner(None, true), Banner::SignIn);
    assert_eq!(
        settings_auth_banner(Some(&auth), false),
        Banner::Disabled("l".to_owned())
    );
    assert_eq!(
        settings_auth_banner(Some(&auth), true),
        Banner::CanEdit("l".to_owned())
    );
}

#[test]
fn comments_are_read_from_their_form() {
    let sessions = signed_in("k");
    let post = |body: &str| save_comment(&state(true), &sessions, Some(COOKIE), body.as_bytes());
    assert_eq!(
        post("csrf=c5&path=src%2Fa.rs&lines=3%3A5&body=+hi+"),
        Ok(CommentEdit {
            path: "src/a.rs".to_owned(),
            lines: Some(LineRange { start: 3, end: 5 }),
            body: "hi".to_owned(),
        })
    );
    assert_eq!(post("csrf=c5&path=a&lines=&body=x").unwrap().lines, None);
    assert_eq!(
        post("csrf=no&path=a&body=x").unwrap_err(),
        "the comment could not be verified; reload and try again"
    );
    assert_eq!(
        post("csrf=c5&path=a&body=++").unwrap_err(),
        "a comment needs a file path and a body"
    );
    assert_eq!(
        post("csrf=c5&path=a&lines=x&body=b").unwrap_err(),
        "invalid line number \"x\" in --lines"
    );
    assert!(save_comment(&state(false), &sessions, Some(COOKIE), b"csrf=c5").is_err());
    assert_eq!(comment_back("org/r", b"path=src%2Fa.rs"), "/org/r/blob/src/a.rs");
}

#[test]
fn line_ranges_are_read() {
    assert_eq!(parse_lines(None), Ok(None));
    assert_eq!(parse_lines(Some("7")), Ok(Some(LineRange { start: 7, end: 7 })));
    assert_eq!(parse_lines(Some(" 2 : 9 ")), Ok(Some(LineRange { start: 2, end: 9 })));
    assert_eq!(
        parse_lines(Some("9:2")).unwrap_err(),
        "--lines 9:2 is inverted (start must not come after end)"
    );
    assert_eq!(
        parse_lines(Some("1:\"")).unwrap_err(),
        "invalid line number \"\\\"\" in --lines"
    );
}

#[test]
fn a_refused_push_gives_its_reason() {
    assert_eq!(push_error(b"x\nremote: note\nremote: error: no key\n"), "no key");
    assert_eq!(push_error(b"  remote: hello\n"), "hello");
    assert_eq!(push_error(b"remote: \nremote: later\n"), "later");
    assert_eq!(push_error(b"\xff"), "the push was rejected");
}

#[test]
fn an_edit_lands_as_a_signed_push() {
    assert_eq!(staging_ref("t"), "refs/web-staging/t");
    assert_eq!(author_email("alice"), "alice@web");
    assert_eq!(split_names(" a ,, b"), vec!["a", "b"]);
    let args = push_args("/r", "refs/web-staging/t", "refs/meta/config", "/key", "seed", "/hooks");
    assert_eq!(args[1], "/r");
    assert_eq!(args[5], "user.signingkey=/key");
    assert_eq!(
        args[12],
        "--receive-pack=git -c receive.certNonceSeed=seed -c receive.certNonceSlop=60 -c core.hooksPath=/hooks receive-pack"
    );
    assert_eq!(args[14], "refs/web-staging/t:refs/meta/config");
}

fn segments(path: &str) -> Vec<String> {
    path.split('/').filter(|s| !s.is_empty()).map(str::to_owned).collect()
}

#[test]
fn paths_resolve_to_the_shortest_repository() {
    let parts = segments("/org/tree/blob/src");
    let found = repo_candidates("/data", &parts);
    let paths: Vec<&str> = found.iter().map(|c| c.path.as_str()).collect();
    assert_eq!(
        paths,
        vec![
            "/data/org",
            "/data/org.git",
            "/data/org/tree",
            "/data/org/tree.git",
            "/data/org/tree/blob",
            "/data/org/tree/blob.git",
        ]
    );
    let resolved =
        resolve_repo("/data", &parts, &[false, false, false, true, true, false]).unwrap();
    assert_eq!(resolved.repo, "/data/org/tree.git");
    assert_eq!(resolved.rel, "org/tree");
    assert_eq!(resolved.rest, vec!["blob", "src"]);
    assert!(resolve_repo("/data", &parts, &[false; 6]).is_none());
    assert_eq!(repo_candidates("/data", &segments("/ok/.git/x")).len(), 2);
}

#[test]
fn views_are_routed() {
    assert_eq!(route(&segments("")), Page::Overview);
    assert_eq!(route(&segments("files/a/b")), Page::Files(segments("a/b")));
    assert_eq!(route(&segments("tree")), Page::Tree(vec![]));
    assert_eq!(route(&segments("blob/a")), Page::Blob(segments("a"), BlobView::Rendered));
    assert_eq!(route(&segments("source/a")), Page::Blob(segments("a"), BlobView::Source));
    assert_eq!(route(&segments("commit/abc")), Page::Commit("abc".to_owned()));
    assert_eq!(route(&segments("commit")), Page::Missing);
    assert_eq!(route(&segments("releases")), Page::Releases);
    assert_eq!(route(&segments("checks")), Page::Checks);
    assert_eq!(
        route(&segments("checks/c/n")),
        Page::Recording("c".to_owned(), "n".to_owned())
    );
    assert_eq!(
        route(&segments("checks/c/n/live")),
        Page::Live("c".to_owned(), "n".to_owned())
    );
    assert_eq!(
        route(&segments("checks/c/n/download")),
        Page::Download("c".to_owned(), "n".to_owned())
    );
    assert_eq!(route(&segments("issues")), Page::Issues);
    assert_eq!(route(&segments("settings")), Page::Settings);
    assert_eq!(route(&segments("settings/x")), Page::Missing);
    assert_eq!(get_destination(&[]), Destination::Index);
    assert_eq!(get_destination(&segments("login")), Destination::Login);
    assert_eq!(get_destination(&segments("login/cli")), Destination::LoginCli);
    assert_eq!(get_destination(&segments("logout")), Destination::Repo);
    assert_eq!(post_destination(&segments("logout")), Destination::Logout);
    assert_eq!(post_form(&segments("settings")), Some(Form::Settings));
    assert_eq!(post_form(&segments("comment")), Some(Form::Comment));
    assert_eq!(post_form(&segments("other")), None);
}

#[test]
fn signing_out_needs_the_own_page() {
    let mut sessions = signed_in("k");
    assert_eq!(sign_out(&mut sessions, Some(COOKIE), b"csrf=x"), SignOut::Refused);
    assert!(snapshot(&sessions, Some(COOKIE)).is_some());
    assert_eq!(sign_out(&mut sessions, Some(COOKIE), b"csrf=c5"), SignOut::Done);
    assert!(snapshot(&sessions, Some(COOKIE)).is_none());
}

#[test]
fn the_settings_page_shows_what_is_there() {
    let page = settings_page(
        &meta(),
        None,
        true,
        Err("gone".to_owned()),
        Ok(&[]),
        Ok(&Config::default()),
    );
    assert_eq!(page.name, "repo");
    assert_eq!(page.branch, "main");
    assert_eq!(page.members, Card::Unreadable("Could not read members: gone".to_owned()));
    assert_eq!(page.checks, Card::Empty);
    assert_eq!(page.roles, Roles::NoRoles);
    assert!(page.features[0].on);
    assert!(page.features[1].on);
    assert!(!page.features[2].on);
    let check = CheckDef {
        name: "fmt".to_owned(),
        command: Some("cargo fmt".to_owned()),
        image: None,
        depends: vec!["all".to_owned()],
        toolchains: vec![],
    };
    let members = [member("alice", ALICE), member("bob", "ssh-rsa B")];
    let page = settings_page(
        &meta(),
        None,
        true,
        Ok(&members),
        Ok(&[check]),
        Ok(&Config::default()),
    );
    assert_eq!(
        page.members,
        Card::Items(
            2,
            vec![
                ("alice".to_owned(), "ssh-ed25519 \u{b7} alice@laptop".to_owned()),
                ("bob".to_owned(), "ssh-rsa".to_owned()),
            ]
        )
    );
    assert_eq!(
        page.checks,
        Card::Items(1, vec![("fmt".to_owned(), "cargo fmt \u{b7} needs all".to_owned())])
    );
    assert!(page.features[2].on);
}
