use git_ents::registry::{
    channel_for, describe, json_string_field, latest_sccache_tag, manifest_components,
    manifest_field, manifest_url, manifest_version, recipes, relink_command, resolve, rustup,
    rustup_for_platform, sccache, sccache_release, sccache_target, url_archive, verbose_field, Bin,
    Recipe, RecipeOptions,
};

const MANIFEST: &str = "\
[pkg.cargo]
version = \"0.1\"
[pkg.rustc]
version = \"1.88.0 (abc 2025-01-01)\"
[pkg.rustc.target.x]
url = \"https://r\"
hash = \"h1\"
[pkg.cargo.target.x]
url = \"https://c\"
hash = \"h2\"
[pkg.rust-std.target.x]
url = \"https://s\"
hash = \"h3\"
[pkg.rustc.target.y]
url = \"https://r\"
";

#[test]
fn recipes_are_picked_by_name() {
    let opts = RecipeOptions::default();
    assert_eq!(resolve("rustup", &opts), Ok(Recipe::Rustup));
    assert_eq!(resolve("sccache", &opts), Ok(Recipe::Sccache));
    assert_eq!(resolve("url", &opts), Ok(Recipe::Url));
    assert_eq!(
        resolve("n\"ix", &opts).unwrap_err(),
        "unknown toolchain recipe \"n\\\"ix\" (known: rustup, sccache, url)"
    );
    let names: Vec<&str> = recipes().iter().map(|r| r.name).collect();
    assert_eq!(names, vec!["rustup", "sccache", "url"]);
    assert_eq!(recipes()[0].spec, "a channel or version, e.g. stable, nightly, 1.75.0");
    assert!(recipes()[1].summary.starts_with("Resolves a prebuilt sccache release from GitHub;"));
    assert!(recipes()[2].summary.ends_with("license must be supplied explicitly."));
    assert_eq!(describe("rustup", "stable"), "rustup stable");
}

#[test]
fn options_that_do_not_fit_are_refused() {
    let mut opts = RecipeOptions::default();
    opts.embed = true;
    opts.platform = Some("x".to_owned());
    assert_eq!(
        resolve("rustup", &opts).unwrap_err(),
        "--embed imports this machine's bytes; it cannot target another platform"
    );
    let mut opts = RecipeOptions::default();
    opts.strip = Some(2);
    assert_eq!(
        resolve("rustup", &opts).unwrap_err(),
        "--strip/--dest are layout hints for the url recipe; rustup records its own layout"
    );
    assert_eq!(resolve("url", &opts), Ok(Recipe::Url));
}

#[test]
fn manifests_are_read() {
    assert_eq!(manifest_field(MANIFEST, "pkg.rustc.target.x", "url").as_deref(), Some("https://r"));
    assert_eq!(manifest_field(MANIFEST, "pkg.rustc.target.z", "url"), None);
    assert_eq!(manifest_version(MANIFEST).as_deref(), Some("1.88.0"));
    let found = manifest_components(MANIFEST, "x").unwrap();
    assert_eq!(found.len(), 3);
    assert_eq!(found[2].url, "https://s");
    assert_eq!(found[2].sha256, "h3");
    assert_eq!(found[2].strip, 2);
    assert_eq!(found[2].dest, "");
    assert_eq!(
        manifest_components(MANIFEST, "y").unwrap_err(),
        "the channel manifest has no [pkg.rustc.target.y].hash"
    );
    assert_eq!(
        manifest_components(MANIFEST, "z").unwrap_err(),
        "the channel manifest has no [pkg.rustc.target.z].url"
    );
    assert_eq!(
        manifest_url("stable"),
        "https://static.rust-lang.org/dist/channel-rust-stable.toml"
    );
    assert_eq!(channel_for("1.90.0-nightly"), "nightly");
    assert_eq!(channel_for("1.88.0"), "1.88.0");
}

#[test]
fn rustup_resolves_here_and_elsewhere() {
    let found = rustup_for_platform("stable", "x", MANIFEST).unwrap();
    assert_eq!(found.version.as_deref(), Some("1.88.0"));
    assert_eq!(found.platform.as_deref(), Some("x"));
    assert_eq!(
        rustup_for_platform("stable", "x", "").unwrap_err(),
        "channel-rust-stable.toml has no [pkg.rustc].version"
    );
    let verbose = "rustc 1.88.0\nhost: x\nrelease: 1.88.0\n";
    assert_eq!(verbose_field(verbose, "host").as_deref(), Some("x"));
    let found = rustup("stable", verbose, Some("/src".to_owned()), None, MANIFEST).unwrap();
    assert_eq!(found.src.as_deref(), Some("/src"));
    assert!(matches!(found.bin, Bin::Components(_)));
    let found = rustup("stable", verbose, None, Some("/staged".to_owned()), "").unwrap();
    assert_eq!(found.bin, Bin::Dir("/staged".to_owned()));
    assert_eq!(
        rustup("s", "host: x", None, None, "").unwrap_err(),
        "rustc +s -vV did not report a release"
    );
    assert_eq!(
        rustup("s", "release: 1", None, None, "").unwrap_err(),
        "rustc +s -vV did not report a host"
    );
}

#[test]
fn sccache_is_pinned_or_staged() {
    assert_eq!(
        json_string_field("{\"a\": \"b\", \"tag_name\": \"v1\"}", "tag_name").as_deref(),
        Some("v1")
    );
    assert_eq!(latest_sccache_tag("{\"tag_name\": \"v1\"}"), Ok("v1".to_owned()));
    assert_eq!(
        latest_sccache_tag("{}").unwrap_err(),
        "GitHub's latest sccache release response carried no tag_name"
    );
    assert_eq!(sccache_target("linux", "aarch64"), Ok("aarch64-unknown-linux-musl"));
    assert_eq!(
        sccache_target("plan9", "x86_64").unwrap_err(),
        "the sccache recipe does not know a release asset for plan9/x86_64"
    );
    let release = sccache_release("v0.8.2", None, "macos", "x86_64").unwrap();
    assert_eq!(release.version, "0.8.2");
    assert_eq!(
        release.url,
        "https://github.com/mozilla/sccache/releases/download/v0.8.2/sccache-v0.8.2-x86_64-apple-darwin.tar.gz"
    );
    let pinned = sccache(release, true, "sha".to_owned(), String::new());
    match pinned.bin {
        Bin::Components(v) => {
            assert_eq!(v[0].sha256, "sha");
            assert_eq!(v[0].strip, 1);
            assert_eq!(v[0].dest, "bin");
        }
        _ => panic!("the release should be pinned"),
    }
    let release = sccache_release("v1", Some("t"), "", "").unwrap();
    assert_eq!(release.target, "t");
    let staged = sccache(release, false, String::new(), "/d".to_owned());
    assert_eq!(staged.bin, Bin::Dir("/d".to_owned()));
    assert!(sccache_release("v1", None, "os", "arch").is_err());
}

#[test]
fn archives_are_pinned_by_address() {
    let mut opts = RecipeOptions::default();
    let found = url_archive("https://a", &opts, "sha".to_owned()).unwrap();
    match found.bin {
        Bin::Components(v) => assert_eq!((v[0].strip, v[0].dest.as_str()), (1, "bin")),
        _ => panic!("the archive should be pinned"),
    }
    assert_eq!(found.version, None);
    opts.strip = Some(0);
    opts.dest = Some("lib".to_owned());
    match url_archive("https://a", &opts, "sha".to_owned()).unwrap().bin {
        Bin::Components(v) => assert_eq!((v[0].strip, v[0].dest.as_str()), (0, "lib")),
        _ => panic!("the archive should be pinned"),
    }
    assert_eq!(
        url_archive("", &opts, String::new()).unwrap_err(),
        "the url recipe needs --spec <archive-url>"
    );
    assert_eq!(relink_command("linux").unwrap().0, "patchelf");
    assert_eq!(relink_command("macos").unwrap().1.len(), 3);
    assert!(relink_command("os").unwrap_err().ends_with("path on os"));
}
