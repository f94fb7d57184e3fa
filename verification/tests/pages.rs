use git_ents::files::{
    blob_body, blob_content, expanded_dirs, file_comments, has_comments_card, head_spec, is_binary,
    line_chip, pane_head, readme,
    row_indent, select, tree_rows, view_toggle, AnchoredComment, Content, Overview, Projection,
};
use git_ents::history::{
    commit_info, diff_class, diff_view, is_commit_name, recent_commits, releases_page, short_oid,
};
use git_ents::issues::Issue;
use git_ents::object_id::ObjectId;
use git_ents::pages::{
    blob_page, checks_page, commit_page, files_page, login_page, repo_page, tree_view, LoginPage,
    RecentRuns,
};
use git_ents::check_pages::{CheckRow, CommitRecord, HeadChecks, RecordedRun};
use git_ents::routes::BlobView;
use git_ents::runner::{CheckDef, CheckRun, Status};
use git_ents::config::RoleRules;
use git_ents::keyed::TextMap;
use git_ents::members::Member;
use git_ents::settings_pages::{issues_page, member_rows, role_row, signer_label, Card};
use git_ents::shell::{ago_seconds, clone_url, crumbs, gather_meta, header_crumbs, plural, tab_bar, Tab};
use git_ents::tree::{
    browse_path, classify_language, entry_mode, languages, list_tree, parse_iso, parse_tree_entry,
    release, release_tags, Discovery, Entry, EntryKind, Found,
};
use git_ents::web_edit::LineRange;

fn hex(digit: &str) -> String {
    digit.repeat(40)
}

fn oid(digit: &str) -> ObjectId {
    ObjectId::from_hex(hex(digit).as_bytes()).unwrap()
}

fn entry(kind: EntryKind, name: &str) -> Entry {
    Entry { kind, filename: name.to_owned(), oid: oid("a") }
}

fn strings(parts: &[&str]) -> Vec<String> {
    parts.iter().map(|s| (*s).to_owned()).collect()
}

#[test]
fn listings_put_directories_first() {
    let text = format!(
        "100644 blob {a}\tb.rs\n040000 tree {a}\tsrc\n100755 blob {a}\ta.sh\nbroken\n120000 blob {a}\tlink\n160000 commit {a}\tmod\n",
        a = hex("A")
    );
    let entries = list_tree(Some(&text));
    let names: Vec<&str> = entries.iter().map(|e| e.filename.as_str()).collect();
    assert_eq!(names, vec!["src", "a.sh", "b.rs", "link", "mod"]);
    assert_eq!(entries[0].kind, EntryKind::Tree);
    assert_eq!(entries[0].oid.as_str(), hex("a"));
    assert_eq!(entries[1].kind, EntryKind::BlobExecutable);
    assert_eq!(entries[3].kind, EntryKind::Link);
    assert_eq!(entries[4].kind, EntryKind::Commit);
    assert!(list_tree(None).is_empty());
    assert!(parse_tree_entry("100644 blob xyz\tf").is_none());
    assert_eq!(entry_mode("40000"), EntryKind::Tree);
}

#[test]
fn browse_paths_do_not_climb() {
    assert_eq!(browse_path(&strings(&["a", "b"])).as_deref(), Some("a/b"));
    assert_eq!(browse_path(&[]).as_deref(), Some(""));
    assert_eq!(browse_path(&strings(&["a", ".."])), None);
    assert_eq!(browse_path(&strings(&["."])), None);
    assert_eq!(browse_path(&strings(&[""])), None);
}

#[test]
fn languages_are_shared_out() {
    let text = format!(
        "100644 blob {a}  750\tsrc/main.RS\n100644 blob {a}  200\ta.py\n100644 blob {a}  50\tb.py\n100644 blob {a}  2\tc.go\n100644 blob {a}  900\tdata.bin\nbroken\n",
        a = hex("a")
    );
    let found = languages(Some(&text));
    let shares: Vec<(&str, u8)> = found.iter().map(|l| (l.name, l.percent)).collect();
    assert_eq!(shares, vec![("Rust", 74), ("Python", 24)]);
    assert_eq!(found[0].color, "var(--s-type)");
    assert!(languages(Some("")).is_empty());
    assert!(languages(None).is_empty());
    assert_eq!(classify_language("a.YML"), Some(("YAML", "var(--s-prop)")));
    assert_eq!(classify_language("Makefile"), None);
}

#[test]
fn dates_are_read() {
    let date = parse_iso("2024-01-02T03:04:05+01:00").unwrap();
    assert_eq!(date.seconds, 1_704_161_045);
    assert_eq!(date.offset, 3600);
    assert_eq!(parse_iso("yesterday"), None);
    assert_eq!(parse_iso("nonsense"), None);
}

#[test]
fn releases_are_read_from_tags() {
    assert_eq!(release_tags(Some("v2\n\n v1 \n")), vec!["v2", "v1"]);
    assert!(release_tags(None).is_empty());
    let many: String = (0..50).map(|n| format!("v{n}\n")).collect();
    assert_eq!(release_tags(Some(&many)).len(), 40);
    let meta = format!("{}\0{}\n", hex("b"), "2024-01-02T03:04:05+01:00");
    let found = release("v1", Some(&meta), Some("First\0 Notes \n")).unwrap();
    assert_eq!(found.title, "First");
    assert_eq!(found.body, "Notes");
    assert_eq!(found.oid.as_str(), hex("b"));
    assert!(release("v1", None, None).is_none());
    assert!(release("v1", Some(&hex("b")), None).is_none());
    assert!(release("v1", Some("xyz\0now"), None).is_none());
    let same = release("v1", Some(&meta), Some("v1")).unwrap();
    let rows = releases_page(&[found, same], 1_704_161_045 + 86_400 * 3);
    assert_eq!(rows[0].name.as_deref(), Some("First"));
    assert!(rows[0].latest);
    assert_eq!(rows[0].when, "3 days ago");
    assert_eq!(rows[0].notes.as_deref(), Some("Notes"));
    assert_eq!(rows[0].short, "bbbbbbb");
    assert_eq!(rows[1].name, None);
    assert!(!rows[1].latest);
    assert_eq!(rows[1].notes, None);
}

#[test]
fn repositories_are_discovered_level_by_level() {
    let found = |name: &str, is_dir: bool, is_bare: bool| Found {
        name: name.to_owned(),
        is_dir,
        is_bare,
    };
    let mut search = Discovery::start();
    let (dir, left) = search.next().unwrap();
    assert_eq!((dir.as_str(), left), ("", 3));
    search.record(
        &dir,
        left,
        &[found("z.git", true, true), found("org", true, false), found("file", false, false)],
    );
    let (dir, left) = search.next().unwrap();
    assert_eq!((dir.as_str(), left), ("org", 2));
    search.record(&dir, left, &[found("a\\b.git", true, true), found("team", true, false)]);
    let (dir, left) = search.next().unwrap();
    assert_eq!((dir.as_str(), left), ("org/team", 1));
    search.record(&dir, left, &[found("x.git", true, true), found("deep", true, false)]);
    assert!(search.next().is_none());
    assert_eq!(search.repos(), vec!["org/a/b.git", "org/team/x.git", "z.git"]);
}

#[test]
fn times_read_as_ago() {
    assert_eq!(ago_seconds(100, 100), "just now");
    assert_eq!(ago_seconds(100, 200), "just now");
    assert_eq!(ago_seconds(160, 100), "1 minute ago");
    assert_eq!(ago_seconds(3700, 0), "1 hour ago");
    assert_eq!(ago_seconds(86_400 * 29, 0), "29 days ago");
    assert_eq!(ago_seconds(86_400 * 60, 0), "2 months ago");
    assert_eq!(ago_seconds(86_400 * 730, 0), "2 years ago");
    assert_eq!(ago_seconds(i64::MAX, i64::MIN), "292471208677 years ago");
    assert_eq!(plural(0, "day"), "0 days ago");
}

#[test]
fn crumbs_lead_back() {
    let trail = crumbs("org/r", "src//a.rs", true);
    assert_eq!(trail.len(), 2);
    assert_eq!(trail[0].href.as_deref(), Some("/org/r/tree/src"));
    assert_eq!(trail[1].label, "a.rs");
    assert_eq!(trail[1].href, None);
    assert_eq!(crumbs("r", "a", false)[0].href.as_deref(), Some("/r/tree/a"));
    let header = header_crumbs("org/r");
    assert_eq!(header[0].href.as_deref(), Some("/org"));
    assert_eq!(header[1].href, None);
    assert_eq!(clone_url(Some("h"), "r"), "http://h/r");
    assert_eq!(clone_url(None, "r"), "/r");
}

#[test]
fn tabs_mark_the_active_one() {
    let meta = gather_meta("org/r", None, None, Some("v1\n"), 0);
    let tabs = tab_bar(&meta, Tab::Releases);
    assert_eq!(tabs[0].href, "/org/r");
    assert_eq!(tabs[2].count, Some(1));
    assert!(tabs[2].active);
    assert!(!tabs[0].active);
    assert_eq!(tabs[4].count, None);
}

#[test]
fn the_tree_is_expanded_along_the_selection() {
    assert_eq!(expanded_dirs("a/b"), vec!["", "a", "a/b"]);
    assert_eq!(expanded_dirs(""), vec![""]);
    assert_eq!(head_spec(""), "HEAD");
    assert_eq!(head_spec("a/b"), "HEAD:a/b");
    let listings = vec![
        vec![entry(EntryKind::Tree, "a"), entry(EntryKind::Tree, "z"), entry(EntryKind::Blob, "r")],
        vec![entry(EntryKind::Tree, "b"), entry(EntryKind::Blob, "f")],
        vec![entry(EntryKind::Blob, "g")],
    ];
    let rows = tree_rows("a/b", "a/b/g", listings);
    let shown: Vec<(&str, usize, bool, bool)> = rows
        .iter()
        .map(|r| (r.path.as_str(), r.depth, r.expanded, r.selected))
        .collect();
    assert_eq!(
        shown,
        vec![
            ("a", 0, true, false),
            ("a/b", 1, true, false),
            ("a/b/g", 2, false, true),
            ("a/f", 1, false, false),
            ("z", 0, false, false),
            ("r", 0, false, false),
        ]
    );
    assert_eq!(row_indent(2), 38);
    assert_eq!(row_indent(usize::MAX), usize::MAX);
}

#[test]
fn selections_are_files_or_directories() {
    let file = select("a/b.rs", Some("blob\n")).unwrap();
    assert_eq!(file.file.as_deref(), Some("a/b.rs"));
    assert_eq!(file.dir, "a");
    let dir = select("a", Some("tree")).unwrap();
    assert_eq!(dir.file, None);
    assert_eq!(dir.dir, "a");
    assert_eq!(select("", None).unwrap().dir, "");
    assert!(select("x", None).is_none());
    assert!(select("x", Some("commit")).is_none());
    let meta = gather_meta("r", Some("dev\n"), None, None, 0);
    let page = files_page(
        &meta,
        &strings(&["r.md"]),
        Some("blob\n"),
        vec![vec![entry(EntryKind::Blob, "r.md")]],
    )
    .unwrap();
    assert_eq!(page.head, "dev");
    assert_eq!(page.file.as_deref(), Some("r.md"));
    assert!(page.rows[0].selected);
    assert!(files_page(&meta, &strings(&[".."]), None, vec![]).is_none());
}

#[test]
fn a_readme_is_found() {
    let tree = [
        entry(EntryKind::Tree, "README.md"),
        entry(EntryKind::Blob, "readme.txt"),
        entry(EntryKind::Blob, "ReadMe.ADOC"),
        entry(EntryKind::Blob, "README.md"),
    ];
    assert_eq!(readme(&tree).as_deref(), Some("ReadMe.ADOC"));
    assert_eq!(readme(&tree[..2]), None);
}

#[test]
fn the_overview_shows_a_repository() {
    let meta = gather_meta("org/r", Some("main"), None, Some("v1"), 0);
    let tree = [entry(EntryKind::Tree, "src"), entry(EntryKind::Blob, "x")];
    let page = repo_page(&meta, Some("h"), Some("2 days ago\n"), &tree, None, vec![], &[], 0);
    assert_eq!(page.title, "r");
    assert_eq!(page.clone_command, "git clone http://h/org/r");
    assert_eq!(page.updated.as_deref(), Some("2 days ago"));
    match page.main {
        Overview::Files(rows) => {
            assert_eq!(rows[0].href, "/org/r/tree/src");
            assert!(rows[0].is_dir);
            assert_eq!(rows[1].href, "/org/r/blob/x");
        }
        _ => panic!("the entries should be shown"),
    }
    let readme = Some(("README.md".to_owned(), "<p>".to_owned()));
    let page = repo_page(&meta, None, Some("now"), &tree, readme, vec![], &[], 0);
    assert_eq!(page.main, Overview::Readme("README.md".to_owned(), "<p>".to_owned()));
    let page = repo_page(&meta, None, None, &tree, None, vec![], &[], 0);
    assert_eq!(page.main, Overview::Empty);
    assert_eq!(page.latest, None);
    let dated = format!("{}\0{}\n", hex("b"), "2024-01-02T03:04:05+01:00");
    let newest = release("v1", Some(&dated), Some("First")).unwrap();
    let page = repo_page(&meta, None, Some("x"), &[], None, vec![], &[newest], 1_704_161_045);
    assert_eq!(page.main, Overview::Nothing);
    let latest = page.latest.unwrap();
    assert_eq!(latest.tag, "v1");
    assert_eq!(latest.href, "/org/r/releases");
    assert_eq!(latest.note, "First \u{b7} just now");
}

#[test]
fn files_are_shown_by_kind() {
    assert!(is_binary(b"a\0b"));
    assert!(!is_binary(b"abc"));
    let mut late = vec![b'x'; 8000];
    late.push(0);
    assert!(!is_binary(&late));
    assert_eq!(
        blob_content("x", b"a\0", true, BlobView::Source, None),
        Content::TooLarge
    );
    assert_eq!(
        blob_content("x", b"a\0", false, BlobView::Source, None),
        Content::Binary
    );
    assert_eq!(
        blob_content("r.md", b"# hi", false, BlobView::Rendered, None),
        Content::Document("<h1>hi</h1>\n".to_owned())
    );
    assert_eq!(
        blob_content("r.adoc", b"= hi", false, BlobView::Rendered, Some("<h1/>".to_owned())),
        Content::Document("<h1/>".to_owned())
    );
    match blob_content("r.adoc", b"a\nb", false, BlobView::Rendered, None) {
        Content::Code { lines, source, .. } => {
            assert_eq!(lines, 2);
            assert_eq!(source, "a\nb");
        }
        _ => panic!("the source should be shown"),
    }
    match blob_body("x.unknown", "") {
        Content::Code { lines, highlighted, .. } => {
            assert_eq!(lines, 1);
            assert_eq!(highlighted, None);
        }
        _ => panic!("the source should be shown"),
    }
    let head = pane_head(b"a\nb\n", false);
    assert_eq!(head.lines, Some(2));
    assert_eq!(head.copy.as_deref(), Some("a\nb\n"));
    assert_eq!(pane_head(b"a", true).copy, None);
    assert_eq!(pane_head(b"\0", false).lines, None);
}

#[test]
fn a_blob_page_needs_a_file() {
    let meta = gather_meta("r", None, None, None, 0);
    let page = blob_page(
        &meta,
        &strings(&["docs", "a.md"]),
        Some("blob\n"),
        Some((b"x".to_vec(), false)),
        BlobView::Rendered,
        None,
    )
    .unwrap();
    assert_eq!(page.title, "a.md");
    assert_eq!(page.path, "docs/a.md");
    assert_eq!(page.toggle, Some(("View source", "/r/source/docs/a.md".to_owned())));
    assert_eq!(page.content, Content::Document("<p>x</p>\n".to_owned()));
    let read = || Some((b"x".to_vec(), false));
    let view = BlobView::Source;
    assert!(blob_page(&meta, &[], Some("blob\n"), read(), view, None).is_none());
    assert!(blob_page(&meta, &strings(&["a"]), Some("tree\n"), read(), view, None).is_none());
    assert!(blob_page(&meta, &strings(&["a"]), Some("blob\n"), None, view, None).is_none());
    assert_eq!(
        view_toggle("r", "a.md", b"x", false, BlobView::Source),
        Some(("View rendered", "/r/blob/a.md".to_owned()))
    );
    assert_eq!(view_toggle("r", "a.rs", b"x", false, BlobView::Source), None);
    assert!(tree_view(&meta, &strings(&["a"]), &[]).is_none());
    assert!(tree_view(&meta, &[], &[]).is_some());
}

fn comment(path: &str, projection: Option<Projection>) -> AnchoredComment {
    AnchoredComment {
        path: path.to_owned(),
        lines: Some(LineRange { start: 1, end: 2 }),
        projection,
        author: None,
        seconds: Some(u64::MAX),
        body: "b".to_owned(),
    }
}

#[test]
fn comments_land_where_they_are_projected() {
    let shown = file_comments(
        "a",
        &[
            comment("a", Some(Projection::Current)),
            comment("x", Some(Projection::Relocated { path: "a".to_owned(), lines: None })),
            comment("x", Some(Projection::Outdated { path: "a".to_owned() })),
            comment("a", Some(Projection::FileDeleted)),
            comment("a", None),
            comment("b", Some(Projection::Current)),
        ],
    );
    assert_eq!(shown.len(), 3);
    assert_eq!(shown[0].author, "?");
    assert_eq!(shown[0].seconds, i64::MAX);
    assert_eq!(shown[0].lines, Some(LineRange { start: 1, end: 2 }));
    assert_eq!(shown[1].lines, None);
    assert!(shown[2].outdated);
    assert!(has_comments_card(&shown, None, false));
    assert!(!has_comments_card(&[], None, true));
    assert_eq!(
        line_chip(&LineRange { start: 3, end: 3 }),
        ("#L3".to_owned(), "line 3".to_owned())
    );
    assert_eq!(
        line_chip(&LineRange { start: 3, end: 5 }),
        ("#L3".to_owned(), "lines 3\u{2013}5".to_owned())
    );
}

#[test]
fn a_commit_page_shows_its_patch() {
    let info = format!("{}\0Ann\02024-01-02T03:04:05+01:00\0Subject\0Body\n\n", hex("c"));
    let page = commit_page(
        "cccc",
        Some(&info),
        Some((b"diff --git a b\n@@ -1 +1 @@\n-a\n+b\n c\n".to_vec(), true)),
        1_704_161_045,
    )
    .unwrap();
    assert_eq!(page.info.short, "ccccccc");
    assert_eq!(page.info.author, "Ann");
    assert_eq!(page.info.when.as_deref(), Some("just now"));
    assert_eq!(page.info.body, "Body");
    let classes: Vec<&str> = page.diff.iter().map(|line| line.0).collect();
    assert_eq!(classes, vec!["file", "hunk", "del", "add", "ctx"]);
    assert!(page.truncated);
    assert!(commit_page("xyz", Some(&info), None, 0).is_none());
    assert!(commit_page("cc", None, None, 0).is_none());
    assert!(commit_page("cc", Some("garbage"), None, 0).is_none());
    assert!(commit_info(&hex("c"), 0).unwrap().when.is_none());
    assert!(!is_commit_name(""));
    assert!(!is_commit_name(&"a".repeat(65)));
    assert_eq!(short_oid(&oid("d")), "ddddddd");
    assert!(diff_view(" \n").is_empty());
    assert_eq!(diff_class("index 1..2"), "meta");
    assert_eq!(diff_class("Binary files differ"), "meta");
    assert_eq!(diff_class("+++ b/x"), "file");
    let log = recent_commits(Some("abcdef0123\0Ann\0now\0Hi\n\0x\n"));
    assert_eq!(log.len(), 1);
    assert_eq!(log[0].short, "abcdef0");
    assert_eq!(log[0].subject, "Hi");
}

#[test]
fn the_checks_page_follows_head() {
    let check = CheckDef {
        name: "fmt".to_owned(),
        command: None,
        image: None,
        depends: vec![],
        toolchains: vec![],
    };
    let run = CheckRun {
        name: "fmt".to_owned(),
        status: Status::Running,
        duration_secs: None,
        recording: None,
        exit_code: None,
    };
    let runs = Ok(vec![CommitRecord {
        commit: oid("a"),
        runs: vec![RecordedRun { at: 0, results: vec![run] }],
    }]);
    let head = format!("{}\n", hex("a"));
    let page = checks_page("r", Some(&head), Ok(std::slice::from_ref(&check)), &runs);
    assert_eq!(
        page.head,
        HeadChecks::Rows(vec![(
            "fmt".to_owned(),
            CheckRow::Linked(Status::Running, format!("/r/checks/{}/fmt", hex("a")))
        )])
    );
    assert_eq!(
        page.configured,
        Card::Items(1, vec![("fmt".to_owned(), "(composite)".to_owned())])
    );
    match page.recent {
        RecentRuns::Rows(rows) => {
            assert_eq!(rows.len(), 1);
            assert_eq!(rows[0].short, "aaaaaaa");
        }
        _ => panic!("the run should be shown"),
    }
    let none = Ok(vec![]);
    let page = checks_page("r", Some(&head), Ok(&[check][..]), &none);
    assert_eq!(page.head, HeadChecks::Rows(vec![("fmt".to_owned(), CheckRow::NoRun)]));
    assert_eq!(page.recent, RecentRuns::NoRuns);
    let empty = checks_page("r", None, Ok(&[]), &none);
    assert_eq!(empty.head, HeadChecks::NoChecks);
    assert_eq!(empty.configured, Card::Empty);
    assert_eq!(
        checks_page("r", None, Err("x".to_owned()), &none).head,
        HeadChecks::Unreadable("x".to_owned())
    );
}

#[test]
fn issues_are_split_and_labelled() {
    let issue = |title: &str, state: &str, labels: &[&str]| Issue {
        title: title.to_owned(),
        body: String::new(),
        state: state.to_owned(),
        labels: strings(labels),
        author: String::new(),
    };
    let page = issues_page(&[
        issue("one", "open", &["bug", "a"]),
        issue("two", "closed", &["bug"]),
        issue("three", "open", &[]),
    ]);
    assert_eq!(page.labels, vec!["a", "bug"]);
    assert_eq!(page.closed_count, 1);
    assert_eq!(page.open.len(), 2);
    assert_eq!(page.open[0].0, "one");
}

#[test]
fn keys_and_roles_read_short() {
    assert_eq!(signer_label("ssh-ed25519 AAAA me@host"), "ssh-ed25519 \u{b7} me@host");
    assert_eq!(signer_label("ssh-ed25519 AAAA"), "ssh-ed25519");
    assert_eq!(signer_label(""), "");
    let ca = Member::with_ca("alice".to_owned(), "ssh-rsa B c".to_owned());
    assert_eq!(
        member_rows(&ca),
        vec![("alice".to_owned(), "cert-authority \u{b7} ssh-rsa \u{b7} c".to_owned())]
    );
    let mut keys = TextMap::new();
    keys.insert("aa".to_owned(), "ssh-rsa B".to_owned());
    let leaf = Member::with_keys("bob".to_owned(), keys);
    assert_eq!(member_rows(&leaf), vec![("bob".to_owned(), "ssh-rsa".to_owned())]);
    assert_eq!(role_row(&RoleRules::default()), "no rules");
    assert_eq!(
        role_row(&RoleRules { allow: strings(&["a", "b"]), deny: strings(&["c"]) }),
        "allow a, b \u{b7} deny c"
    );
}

#[test]
fn the_sign_in_page_hands_out_a_command() {
    assert_eq!(
        login_page(None, Some("n".to_owned())),
        LoginPage::Challenge(
            "n".to_owned(),
            "printf %s 'n' | ssh-keygen -Y sign -n git-ents-login -f ~/.ssh/your_web_key".to_owned()
        )
    );
    assert_eq!(login_page(None, None), LoginPage::NoChallenge);
    assert_eq!(
        login_page(Some("l".to_owned()), None),
        LoginPage::SignedIn("l".to_owned())
    );
}
