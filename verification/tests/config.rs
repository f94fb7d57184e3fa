use git_ents::config::{apply_edit, glob_match, or_default, ref_allowed, Config, ConfigEdit, RoleRules};

#[test]
fn glob_match_supports_a_trailing_star() {
    assert!(glob_match("refs/heads/*", "refs/heads/main"));
    assert!(glob_match("refs/heads/*", "refs/heads/"));
    assert!(!glob_match("refs/heads/*", "refs/tags/v1"));
    assert!(glob_match("*", "anything"));
}

#[test]
fn ref_allowed_defaults_to_true_with_no_role_or_unlisted_role() {
    let mut config = Config::default();
    config.roles.insert(
        "readonly".to_owned(),
        RoleRules { allow: vec![], deny: vec!["refs/heads/*".to_owned()] },
    );
    assert!(ref_allowed(&config, None, "refs/heads/main"));
    assert!(ref_allowed(&config, Some("nonexistent"), "refs/heads/main"));
}

#[test]
fn ref_allowed_checks_deny_before_allow() {
    let mut config = Config::default();
    config.roles.insert(
        "release-manager".to_owned(),
        RoleRules {
            allow: vec!["refs/heads/release-*".to_owned()],
            deny: vec!["refs/heads/release-locked".to_owned()],
        },
    );
    assert!(ref_allowed(&config, Some("release-manager"), "refs/heads/release-1.0"));
    assert!(!ref_allowed(&config, Some("release-manager"), "refs/heads/release-locked"));
    assert!(!ref_allowed(&config, Some("release-manager"), "refs/heads/main"));
}

#[test]
fn a_star_matches_in_the_middle() {
    assert!(glob_match("a*c*e", "abcde"));
    assert!(glob_match("a*a", "aa"));
    assert!(!glob_match("a*a", "a"));
    assert!(!glob_match("abc", "abcd"));
}

#[test]
fn an_edit_keeps_the_roles() {
    let mut config = or_default(None);
    assert_eq!(config, Config::default());
    config.roles.insert("r".to_owned(), RoleRules::default());
    let edited = apply_edit(
        config,
        ConfigEdit {
            description: "d".to_owned(),
            homepage: "h".to_owned(),
            topics: vec!["t".to_owned()],
        },
    );
    assert_eq!(edited.description, "d");
    assert_eq!(edited.homepage, "h");
    assert_eq!(edited.topics, vec!["t".to_owned()]);
    assert!(edited.roles.contains_key("r"));
}
