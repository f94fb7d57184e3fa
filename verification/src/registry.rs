//! Recipes for `git ents toolchain import --from <recipe>`.
//!
//! A recipe derives what a toolchain consists of, and its license, version and
//! platform, from a local install or from what a distributor already hosts. It
//! only locates and describes; it never installs a toolchain.

use vstd::prelude::*;

use crate::members::{debug_form, debug_text};
use crate::seqs::{first_where, lemma_first_where_is};
use crate::text::{
    after_prefix, before_suffix, chars_of, contains, fields, fields_of, find_char, find_chars,
    find_sub, holds, index_of, is_white, join, joined, lemma_find_sub, lemma_index_of,
    lemma_index_of_is, lemma_lines_after, lemma_lines_front, lines, lines_of, opt_text, same,
    starts, strip_prefix, strip_suffix, text_of, texts, trim, trimmed,
};

verus! {

/// An externally-hosted archive that is part of a toolchain, pinned by its
/// hash.
#[derive(Debug, PartialEq, Eq)]
pub struct Component {
    /// Where the archive is.
    pub url: String,
    /// Its hash.
    pub sha256: String,
    /// How many leading path segments are stripped at extraction.
    pub strip: u8,
    /// The subdirectory of the toolchain it is extracted into.
    pub dest: String,
}

/// Whether a component is one.
pub open spec fn is_component(
    c: Component,
    url: Seq<char>,
    sha256: Seq<char>,
    strip: u8,
    dest: Seq<char>,
) -> bool {
    c.url@ == url && c.sha256@ == sha256 && c.strip == strip && c.dest@ == dest
}

/// How a recipe resolved a toolchain's binaries: a local directory to import as
/// it is, or externally-hosted components to record instead of local bytes.
#[derive(Debug, PartialEq, Eq)]
pub enum Bin {
    /// A directory.
    Dir(String),
    /// Hosted components.
    Components(Vec<Component>),
}

/// What a recipe resolved. A `None` metadata field is one the recipe cannot
/// know.
#[derive(Debug, PartialEq, Eq)]
pub struct Resolved {
    /// The binaries.
    pub bin: Bin,
    /// The sources.
    pub src: Option<String>,
    /// The license.
    pub license: Option<String>,
    /// The version.
    pub version: Option<String>,
    /// The target platform.
    pub platform: Option<String>,
}

/// How a recipe is resolved, beyond its own `spec` selector.
#[derive(Debug, PartialEq, Eq)]
pub struct RecipeOptions {
    /// Import the recipe's actual local bytes instead of recording hosted,
    /// hash-pinned archives. Incompatible with `platform`.
    pub embed: bool,
    /// Resolve for this target triple instead of the local machine's.
    pub platform: Option<String>,
    /// `url` recipe only: leading path segments to strip at extraction
    /// (default 1, a flat release tarball).
    pub strip: Option<u8>,
    /// `url` recipe only: subdirectory of the toolchain to extract into
    /// (default `bin`, so a flat archive's payload lands on `PATH`).
    pub dest: Option<String>,
}

impl Default for RecipeOptions {
    fn default() -> (r: RecipeOptions)
        ensures
            !r.embed,
            r.platform is None,
            r.strip is None,
            r.dest is None,
    {
        RecipeOptions { embed: false, platform: None, strip: None, dest: None }
    }
}

/// A recipe that `git ents toolchain import --from` accepts.
#[derive(Debug, Clone, Copy, PartialEq, Eq)]
pub struct RecipeInfo {
    /// The name passed to `--from`.
    pub name: &'static str,
    /// What the spec selects for this recipe.
    pub spec: &'static str,
    /// What this recipe does, in one line.
    pub summary: &'static str,
}

/// What a spec selects for the rustup recipe.
pub const RUSTUP_SPEC: &'static str =
    "a channel or version, e.g. stable, nightly, 1.75.0";

/// What the rustup recipe does.
pub const RUSTUP_SUMMARY: &'static str =
    "Resolves a rustup-managed toolchain via `rustc +<spec> -vV`; by default points at rust-lang's own hosted, hash-pinned component archives instead of importing local bytes.";

/// What a spec selects for the sccache recipe.
pub const SCCACHE_SPEC: &'static str =
    "a mozilla/sccache release tag, e.g. v0.8.2, or empty for latest";

/// What the sccache recipe does.
pub const SCCACHE_SUMMARY: &'static str =
    "Resolves a prebuilt sccache release from GitHub; with --platform it records the release archive as a hash pin computed at import time (trust on first use \u{2014} GitHub publishes no hash manifest), otherwise it downloads this machine's archive and imports the binary directly.";

/// What a spec selects for the url recipe.
pub const URL_SPEC: &'static str =
    "an archive URL, e.g. https://ziglang.org/download/.../zig-x86_64-linux-0.15.2.tar.xz";

/// What the url recipe does.
pub const URL_SUMMARY: &'static str =
    "Pins any hosted archive as a downloaded toolchain: fetches it once at import time only to compute its sha256 (trust on first use), records url+hash+layout (--strip, --dest), and lets the sandbox fetch the bytes itself. Version, platform, and license must be supplied explicitly.";

/// The names of the recipes.
pub open spec fn recipe_names() -> Seq<Seq<char>> {
    seq!["rustup"@, "sccache"@, "url"@]
}

/// What there is to say of the recipes: of each its name, what a spec selects
/// for it, and what it does.
pub open spec fn recipe_texts() -> Seq<(Seq<char>, Seq<char>, Seq<char>)> {
    seq![
        ("rustup"@, RUSTUP_SPEC@, RUSTUP_SUMMARY@),
        ("sccache"@, SCCACHE_SPEC@, SCCACHE_SUMMARY@),
        ("url"@, URL_SPEC@, URL_SUMMARY@),
    ]
}

/// Every recipe there is.
pub fn recipes() -> (r: Vec<RecipeInfo>)
    ensures
        r@.map_values(
            |recipe: RecipeInfo| (recipe.name@, recipe.spec@, recipe.summary@),
        ) == recipe_texts(),
        r@.map_values(|recipe: RecipeInfo| recipe.name@) == recipe_names(),
{
    let mut r: Vec<RecipeInfo> = Vec::new();
    r.push(RecipeInfo { name: "rustup", spec: RUSTUP_SPEC, summary: RUSTUP_SUMMARY });
    r.push(RecipeInfo { name: "sccache", spec: SCCACHE_SPEC, summary: SCCACHE_SUMMARY });
    r.push(RecipeInfo { name: "url", spec: URL_SPEC, summary: URL_SUMMARY });
    proof {
        assert(r@.map_values(
            |recipe: RecipeInfo| (recipe.name@, recipe.spec@, recipe.summary@),
        ) =~= recipe_texts());
        assert(r@.map_values(|recipe: RecipeInfo| recipe.name@) =~= recipe_names());
    }
    r
}

/// A recipe.
#[derive(Debug, Clone, Copy, PartialEq, Eq, Structural)]
pub enum Recipe {
    /// A rustup-managed toolchain.
    Rustup,
    /// An sccache release.
    Sccache,
    /// A hosted archive.
    Url,
}

/// Which recipe is meant, or why it is refused.
pub open spec fn recipe_of(recipe: Seq<char>, opts: RecipeOptions) -> Result<Recipe, Seq<char>> {
    if opts.embed && opts.platform is Some {
        Err("--embed imports this machine's bytes; it cannot target another platform"@)
    } else if (opts.strip is Some || opts.dest is Some) && recipe != "url"@ {
        Err(
            "--strip/--dest are layout hints for the url recipe; "@ + recipe
                + " records its own layout"@,
        )
    } else if recipe == "rustup"@ {
        Ok(Recipe::Rustup)
    } else if recipe == "sccache"@ {
        Ok(Recipe::Sccache)
    } else if recipe == "url"@ {
        Ok(Recipe::Url)
    } else {
        Err(
            "unknown toolchain recipe "@ + debug_form(recipe) + " (known: "@ + joined(
                recipe_names(),
                ", "@,
            ) + ")"@,
        )
    }
}

/// Picks the recipe to resolve. `--embed` takes this machine's bytes and is
/// therefore refused together with a foreign platform, and the layout hints are
/// for the url recipe alone.
pub fn resolve(recipe: &str, opts: &RecipeOptions) -> (r: Result<Recipe, String>)
    ensures
        match recipe_of(recipe@, *opts) {
            Ok(kind) => r == Ok::<Recipe, String>(kind),
            Err(reason) => r matches Err(message) && message@ == reason,
        },
{
    if opts.embed && opts.platform.is_some() {
        return Err(
            "--embed imports this machine's bytes; it cannot target another platform".to_owned(),
        );
    }
    if (opts.strip.is_some() || opts.dest.is_some()) && !same(recipe, "url") {
        let mut message = "--strip/--dest are layout hints for the url recipe; ".to_owned();
        message.append(recipe);
        message.append(" records its own layout");
        return Err(message);
    }
    if same(recipe, "rustup") {
        Ok(Recipe::Rustup)
    } else if same(recipe, "sccache") {
        Ok(Recipe::Sccache)
    } else if same(recipe, "url") {
        Ok(Recipe::Url)
    } else {
        let mut names: Vec<String> = Vec::new();
        names.push("rustup".to_owned());
        names.push("sccache".to_owned());
        names.push("url".to_owned());
        proof {
            assert(texts(names@) =~= recipe_names());
        }
        let mut message = "unknown toolchain recipe ".to_owned();
        message.append(debug_text(recipe).as_str());
        message.append(" (known: ");
        message.append(join(names.as_slice(), ", ").as_str());
        message.append(")");
        Err(message)
    }
}

/// `<recipe> <spec>`, recorded as a toolchain's provenance.
pub fn describe(recipe: &str, spec: &str) -> (r: String)
    ensures
        r@ == recipe@ + " "@ + spec@,
{
    let mut r = recipe.to_owned();
    r.append(" ");
    r.append(spec);
    r
}

/// The section that a line of a manifest begins, where it begins one.
pub open spec fn section_on(line: Seq<char>) -> Option<Seq<char>> {
    match after_prefix(line, "["@) {
        None => None,
        Some(rest) => before_suffix(rest, "]"@),
    }
}

/// The value of `<key> = "value"` in a section, from a manifest's lines: the
/// first line under the section's header that begins so decides.
pub open spec fn field_in(
    lines: Seq<Seq<char>>,
    inside: bool,
    section: Seq<char>,
    prefix: Seq<char>,
) -> Option<Seq<char>>
    decreases lines.len(),
{
    if lines.len() == 0 {
        None
    } else {
        let line = trimmed(lines[0]);
        match section_on(line) {
            Some(name) => field_in(lines.skip(1), name == section, section, prefix),
            None => match after_prefix(line, prefix) {
                Some(rest) if inside => before_suffix(rest, "\""@),
                _ => field_in(lines.skip(1), inside, section, prefix),
            },
        }
    }
}

/// The value of a key in a section of a manifest.
pub open spec fn field_of(manifest: Seq<char>, section: Seq<char>, key: Seq<char>) -> Option<
    Seq<char>,
> {
    field_in(lines_of(manifest), false, section, key + " = \""@)
}

/// Extracts `<key> = "value"` from `manifest`'s `[section]` table.
pub fn manifest_field(manifest: &str, section: &str, key: &str) -> (r: Option<String>)
    ensures
        opt_text(r) == field_of(manifest@, section@, key@),
{
    let mut prefix = key.to_owned();
    prefix.append(" = \"");
    let all = lines(manifest);
    let ghost seen = texts(all@);
    let mut inside = false;
    let mut i: usize = 0;
    proof {
        assert(seen.skip(0) =~= seen);
    }
    while i < all.len()
        invariant
            i <= all@.len(),
            seen == texts(all@),
            prefix@ == key@ + " = \""@,
            field_in(seen.skip(i as int), inside, section@, prefix@) == field_of(
                manifest@,
                section@,
                key@,
            ),
        decreases all@.len() - i,
    {
        proof {
            assert(seen.skip(i as int)[0] == all@[i as int]@);
            assert(seen.skip(i as int).skip(1) =~= seen.skip(i + 1));
        }
        let line = trim(all[i].as_str());
        i += 1;
        let header = match strip_prefix(line.as_str(), "[") {
            None => None,
            Some(rest) => strip_suffix(rest, "]"),
        };
        match header {
            Some(name) => {
                inside = same(name, section);
            },
            None => {
                if inside {
                    if let Some(rest) = strip_prefix(line.as_str(), prefix.as_str()) {
                        return match strip_suffix(rest, "\"") {
                            Some(value) => Some(value.to_owned()),
                            None => None,
                        };
                    }
                }
            },
        }
    }
    None
}

proof fn lemma_trimmed_is_itself(s: Seq<char>)
    requires
        s.len() > 0,
        !is_white(s[0]),
        !is_white(s.last()),
    ensures
        trimmed(s) == s,
{
}

/// A manifest gives back what stands under a section's header.
pub proof fn law_field_stands_under_its_header(
    section: Seq<char>,
    key: Seq<char>,
    value: Seq<char>,
    rest: Seq<Seq<char>>,
)
    requires
        key.len() > 0,
        !is_white(key[0]),
        key[0] != '[',
    ensures
        field_in(
            seq!["["@ + section + "]"@, key + " = \""@ + value + "\""@] + rest,
            false,
            section,
            key + " = \""@,
        ) == Some(value),
{
    reveal_strlit("[");
    reveal_strlit("]");
    reveal_strlit("\"");
    reveal_strlit(" = \"");
    let header = "["@ + section + "]"@;
    let prefix = key + " = \""@;
    let line = prefix + value + "\""@;
    assert(line =~= key + " = \""@ + value + "\""@);
    let lines = seq![header, line] + rest;
    lemma_trimmed_is_itself(header);
    assert(header.skip(1) =~= section + "]"@);
    assert((section + "]"@).take(section.len() as int) =~= section);
    assert(starts(header, "["@)) by {
        assert(header.take(1) =~= "["@);
    }
    assert((section + "]"@).skip(section.len() as int) =~= "]"@);
    assert(section_on(header) == Some(section));
    assert(line[0] == key[0]);
    lemma_trimmed_is_itself(line);
    assert(after_prefix(line, "["@) is None) by {
        assert(line.take(1)[0] == key[0]);
        assert("["@[0] == '[');
    }
    assert(line.take(prefix.len() as int) =~= prefix);
    assert(line.skip(prefix.len() as int) =~= value + "\""@);
    assert((value + "\""@).take(value.len() as int) =~= value);
    assert((value + "\""@).skip(value.len() as int) =~= "\""@);
    assert(lines[0] == header);
    let below = lines.skip(1);
    assert(below[0] == line);
    assert(field_in(below, true, section, prefix) == Some(value));
    assert(field_in(lines, false, section, prefix) == field_in(below, true, section, prefix));
}

/// The manifest name for a version that rustc reported: nightly builds collapse
/// to the shared `nightly` channel, which has no per-version manifest.
pub fn channel_for(version: &str) -> (r: String)
    ensures
        r@ == (if holds(version@, "nightly"@) {
            "nightly"@
        } else {
            version@
        }),
{
    if contains(version, "nightly") {
        "nightly".to_owned()
    } else {
        version.to_owned()
    }
}

/// Where rust-lang's channel manifest for a channel is.
pub fn manifest_url(channel: &str) -> (r: String)
    ensures
        r@ == "https://static.rust-lang.org/dist/channel-rust-"@ + channel@ + ".toml"@,
{
    let mut url = "https://static.rust-lang.org/dist/channel-rust-".to_owned();
    url.append(channel);
    url.append(".toml");
    url
}

/// A channel's own version: the first word of `[pkg.rustc] version`.
pub open spec fn version_in(manifest: Seq<char>) -> Option<Seq<char>> {
    match field_of(manifest, "pkg.rustc"@, "version"@) {
        None => None,
        Some(raw) => if fields_of(raw).len() > 0 {
            Some(fields_of(raw)[0])
        } else {
            None
        },
    }
}

/// A channel's own version, from its manifest.
pub fn manifest_version(manifest: &str) -> (r: Option<String>)
    ensures
        opt_text(r) == version_in(manifest@),
{
    match manifest_field(manifest, "pkg.rustc", "version") {
        None => None,
        Some(raw) => {
            let words = fields(raw.as_str());
            proof {
                assert(texts(words@).len() == words@.len());
            }
            if words.len() > 0 {
                proof {
                    assert(texts(words@)[0] == words@[0]@);
                }
                Some(words[0].clone())
            } else {
                None
            }
        },
    }
}

/// The section of a package's archive for a target.
pub open spec fn target_section(package: Seq<char>, target: Seq<char>) -> Seq<char> {
    "pkg."@ + package + ".target."@ + target
}

/// Why a package has no archive for a target: what its section lacks.
pub open spec fn missing_in(manifest: Seq<char>, package: Seq<char>, target: Seq<char>) -> Option<
    Seq<char>,
> {
    let section = target_section(package, target);
    if field_of(manifest, section, "url"@) is None {
        Some("the channel manifest has no ["@ + section + "].url"@)
    } else if field_of(manifest, section, "hash"@) is None {
        Some("the channel manifest has no ["@ + section + "].hash"@)
    } else {
        None
    }
}

/// Whether a component is a package's archive for a target.
pub open spec fn is_archive(
    c: Component,
    manifest: Seq<char>,
    package: Seq<char>,
    target: Seq<char>,
) -> bool {
    let section = target_section(package, target);
    is_component(
        c,
        field_of(manifest, section, "url"@)->0,
        field_of(manifest, section, "hash"@)->0,
        2,
        Seq::empty(),
    )
}

fn manifest_component(manifest: &str, package: &str, target: &str) -> (r: Result<Component, String>)
    ensures
        match missing_in(manifest@, package@, target@) {
            Some(reason) => r matches Err(message) && message@ == reason,
            None => r matches Ok(c) && is_archive(c, manifest@, package@, target@),
        },
{
    let mut section = "pkg.".to_owned();
    section.append(package);
    section.append(".target.");
    section.append(target);
    let url = match manifest_field(manifest, section.as_str(), "url") {
        Some(url) => url,
        None => {
            let mut message = "the channel manifest has no [".to_owned();
            message.append(section.as_str());
            message.append("].url");
            return Err(message);
        },
    };
    let sha256 = match manifest_field(manifest, section.as_str(), "hash") {
        Some(hash) => hash,
        None => {
            let mut message = "the channel manifest has no [".to_owned();
            message.append(section.as_str());
            message.append("].hash");
            return Err(message);
        },
    };
    Ok(Component { url, sha256, strip: 2, dest: String::new() })
}

/// Why a channel's manifest holds no toolchain for a target: the first package
/// that has no archive for it.
pub open spec fn incomplete(manifest: Seq<char>, target: Seq<char>) -> Option<Seq<char>> {
    match missing_in(manifest, "rustc"@, target) {
        Some(reason) => Some(reason),
        None => match missing_in(manifest, "cargo"@, target) {
            Some(reason) => Some(reason),
            None => missing_in(manifest, "rust-std"@, target),
        },
    }
}

/// Whether components are the toolchain of a manifest for a target.
pub open spec fn is_toolchain(v: Seq<Component>, manifest: Seq<char>, target: Seq<char>) -> bool {
    &&& v.len() == 3
    &&& is_archive(v[0], manifest, "rustc"@, target)
    &&& is_archive(v[1], manifest, "cargo"@, target)
    &&& is_archive(v[2], manifest, "rust-std"@, target)
}

/// The three components of a channel manifest that together make a working
/// toolchain, resolved for `target`. Every archive unpacks to
/// `<package>-<version>-<target>/<component>/`, so two segments are stripped
/// and the payload carries its own top level.
pub fn manifest_components(manifest: &str, target: &str) -> (r: Result<Vec<Component>, String>)
    ensures
        match incomplete(manifest@, target@) {
            Some(reason) => r matches Err(message) && message@ == reason,
            None => r matches Ok(v) && is_toolchain(v@, manifest@, target@),
        },
{
    let rustc = match manifest_component(manifest, "rustc", target) {
        Ok(c) => c,
        Err(message) => {
            return Err(message);
        },
    };
    let cargo = match manifest_component(manifest, "cargo", target) {
        Ok(c) => c,
        Err(message) => {
            return Err(message);
        },
    };
    let rust_std = match manifest_component(manifest, "rust-std", target) {
        Ok(c) => c,
        Err(message) => {
            return Err(message);
        },
    };
    let mut v: Vec<Component> = Vec::new();
    v.push(rustc);
    v.push(cargo);
    v.push(rust_std);
    Ok(v)
}

/// The license of Rust's own toolchain.
pub const RUST_LICENSE: &'static str = "MIT OR Apache-2.0";

/// Resolves a rustup channel for a foreign platform from its manifest alone: no
/// local toolchain is consulted.
pub fn rustup_for_platform(spec: &str, platform: &str, manifest: &str) -> (r: Result<
    Resolved,
    String,
>)
    ensures
        match version_in(manifest@) {
            None => r matches Err(message) && message@ == "channel-rust-"@ + spec@
                + ".toml has no [pkg.rustc].version"@,
            Some(version) => match incomplete(manifest@, platform@) {
                Some(reason) => r matches Err(message) && message@ == reason,
                None => r matches Ok(found) && (found.bin matches Bin::Components(v)
                    && is_toolchain(v@, manifest@, platform@)) && found.src is None && opt_text(
                    found.license,
                ) == Some(RUST_LICENSE@) && opt_text(found.version) == Some(version) && opt_text(
                    found.platform,
                ) == Some(platform@),
            },
        },
{
    let version = match manifest_version(manifest) {
        Some(version) => version,
        None => {
            let mut message = "channel-rust-".to_owned();
            message.append(spec);
            message.append(".toml has no [pkg.rustc].version");
            return Err(message);
        },
    };
    match manifest_components(manifest, platform) {
        Err(message) => Err(message),
        Ok(components) => Ok(
            Resolved {
                bin: Bin::Components(components),
                src: None,
                license: Some(RUST_LICENSE.to_owned()),
                version: Some(version),
                platform: Some(platform.to_owned()),
            },
        ),
    }
}

/// The value of `<name>: <value>` in `rustc -vV`'s output.
pub open spec fn reported(output: Seq<char>, name: Seq<char>) -> Option<Seq<char>> {
    let all = lines_of(output);
    let i = first_where(all, |line: Seq<char>| starts(line, name + ": "@));
    if i < all.len() {
        after_prefix(all[i], name + ": "@)
    } else {
        None
    }
}

/// Extracts `<name>: <value>` from `rustc -vV`'s line-oriented output.
pub fn verbose_field(output: &str, name: &str) -> (r: Option<String>)
    ensures
        opt_text(r) == reported(output@, name@),
{
    let mut prefix = name.to_owned();
    prefix.append(": ");
    let all = lines(output);
    let ghost seen = texts(all@);
    let ghost p = |line: Seq<char>| starts(line, name@ + ": "@);
    let mut i: usize = 0;
    while i < all.len()
        invariant
            i <= all@.len(),
            prefix@ == name@ + ": "@,
            seen == texts(all@),
            seen == lines_of(output@),
            p == (|line: Seq<char>| starts(line, name@ + ": "@)),
            forall|j: int| 0 <= j < i ==> !p(#[trigger] seen[j]),
        decreases all@.len() - i,
    {
        proof {
            assert(seen[i as int] == all@[i as int]@);
        }
        if let Some(rest) = strip_prefix(all[i].as_str(), prefix.as_str()) {
            proof {
                lemma_first_where_is(seen, p, i as int);
            }
            return Some(rest.to_owned());
        }
        i += 1;
    }
    proof {
        lemma_first_where_is(seen, p, i as int);
    }
    None
}

/// Why `rustc -vV` of a toolchain tells too little of it.
pub open spec fn unreported(spec: Seq<char>, verbose: Seq<char>) -> Option<Seq<char>> {
    if reported(verbose, "release"@) is None {
        Some("rustc +"@ + spec + " -vV did not report a release"@)
    } else if reported(verbose, "host"@) is None {
        Some("rustc +"@ + spec + " -vV did not report a host"@)
    } else {
        None
    }
}

/// A local toolchain's version and platform, from what `rustc -vV` printed.
pub fn rustup_identity(spec: &str, verbose: &str) -> (r: Result<(String, String), String>)
    ensures
        match unreported(spec@, verbose@) {
            Some(reason) => r matches Err(message) && message@ == reason,
            None => r matches Ok(id) && Some(id.0@) == reported(verbose@, "release"@) && Some(
                id.1@,
            ) == reported(verbose@, "host"@),
        },
{
    let version = match verbose_field(verbose, "release") {
        Some(version) => version,
        None => {
            let mut message = "rustc +".to_owned();
            message.append(spec);
            message.append(" -vV did not report a release");
            return Err(message);
        },
    };
    let platform = match verbose_field(verbose, "host") {
        Some(platform) => platform,
        None => {
            let mut message = "rustc +".to_owned();
            message.append(spec);
            message.append(" -vV did not report a host");
            return Err(message);
        },
    };
    Ok((version, platform))
}

/// Resolves a local rustup toolchain: its embedded binaries where a directory
/// was staged for them, else the hosted components that its channel's manifest
/// names for its own platform.
pub fn rustup(
    spec: &str,
    verbose: &str,
    src: Option<String>,
    staged: Option<String>,
    manifest: &str,
) -> (r: Result<Resolved, String>)
    ensures
        match unreported(spec@, verbose@) {
            Some(reason) => r matches Err(message) && message@ == reason,
            None => {
                let version = reported(verbose@, "release"@);
                let platform = reported(verbose@, "host"@)->0;
                if staged is None && incomplete(manifest@, platform) is Some {
                    r matches Err(message) && Some(message@) == incomplete(manifest@, platform)
                } else {
                    r matches Ok(found) && found.src == src && opt_text(found.license) == Some(
                        RUST_LICENSE@,
                    ) && opt_text(found.version) == version && opt_text(found.platform) == Some(
                        platform,
                    ) && match staged {
                        Some(dir) => found.bin == Bin::Dir(dir),
                        None => found.bin matches Bin::Components(v) && is_toolchain(
                            v@,
                            manifest@,
                            platform,
                        ),
                    }
                }
            },
        },
{
    let (version, platform) = match rustup_identity(spec, verbose) {
        Ok(id) => id,
        Err(message) => {
            return Err(message);
        },
    };
    let bin = match staged {
        Some(dir) => Bin::Dir(dir),
        None => match manifest_components(manifest, platform.as_str()) {
            Ok(components) => Bin::Components(components),
            Err(message) => {
                return Err(message);
            },
        },
    };
    Ok(
        Resolved {
            bin,
            src,
            license: Some(RUST_LICENSE.to_owned()),
            version: Some(version),
            platform: Some(platform),
        },
    )
}

/// The value of `"<key>": "value"` in a flat JSON text.
pub open spec fn json_field(body: Seq<char>, key: Seq<char>) -> Option<Seq<char>> {
    let prefix = "\""@ + key + "\": \""@;
    match find_sub(body, prefix) {
        None => None,
        Some(at) => {
            let rest = body.skip(at + prefix.len());
            let end = index_of(rest, '"');
            if end < rest.len() {
                Some(rest.take(end))
            } else {
                None
            }
        },
    }
}

/// Extracts `"<key>": "value"` from a flat JSON response.
pub fn json_string_field(body: &str, key: &str) -> (r: Option<String>)
    ensures
        opt_text(r) == json_field(body@, key@),
{
    let mut prefix = "\"".to_owned();
    prefix.append(key);
    prefix.append("\": \"");
    let v = chars_of(body);
    let p = chars_of(prefix.as_str());
    let n: usize = v.len();
    proof {
        assert(v@.skip(0) =~= v@);
    }
    match find_chars(v.as_slice(), 0, p.as_slice()) {
        None => None,
        Some(at) => {
            let from: usize = at + p.len();
            let end: usize = find_char(v.as_slice(), from, '"');
            let ghost rest = v@.skip(from as int);
            proof {
                lemma_index_of(rest, '"');
            }
            if end < n {
                let value = text_of(v.as_slice(), from, end);
                proof {
                    assert(value@ =~= rest.take(end - from));
                }
                Some(value)
            } else {
                None
            }
        },
    }
}

/// The latest release's tag, from GitHub's answer.
pub fn latest_sccache_tag(body: &str) -> (r: Result<String, &'static str>)
    ensures
        match json_field(body@, "tag_name"@) {
            Some(tag) => r matches Ok(found) && found@ == tag,
            None => r matches Err(message) && message@
                == "GitHub's latest sccache release response carried no tag_name"@,
        },
{
    match json_string_field(body, "tag_name") {
        Some(tag) => Ok(tag),
        None => Err("GitHub's latest sccache release response carried no tag_name"),
    }
}

/// The platform segment of a release asset's name for a machine.
pub open spec fn asset_target(os: Seq<char>, arch: Seq<char>) -> Option<Seq<char>> {
    if os == "linux"@ && arch == "x86_64"@ {
        Some("x86_64-unknown-linux-musl"@)
    } else if os == "linux"@ && arch == "aarch64"@ {
        Some("aarch64-unknown-linux-musl"@)
    } else if os == "macos"@ && arch == "x86_64"@ {
        Some("x86_64-apple-darwin"@)
    } else if os == "macos"@ && arch == "aarch64"@ {
        Some("aarch64-apple-darwin"@)
    } else {
        None
    }
}

/// A machine's operating system and architecture as the platform segment of an
/// sccache release asset's name.
pub fn sccache_target(os: &str, arch: &str) -> (r: Result<&'static str, String>)
    ensures
        match asset_target(os@, arch@) {
            Some(target) => r matches Ok(found) && found@ == target,
            None => r matches Err(message) && message@
                == "the sccache recipe does not know a release asset for "@ + os@ + "/"@ + arch@,
        },
{
    if same(os, "linux") && same(arch, "x86_64") {
        Ok("x86_64-unknown-linux-musl")
    } else if same(os, "linux") && same(arch, "aarch64") {
        Ok("aarch64-unknown-linux-musl")
    } else if same(os, "macos") && same(arch, "x86_64") {
        Ok("x86_64-apple-darwin")
    } else if same(os, "macos") && same(arch, "aarch64") {
        Ok("aarch64-apple-darwin")
    } else {
        let mut message = "the sccache recipe does not know a release asset for ".to_owned();
        message.append(os);
        message.append("/");
        message.append(arch);
        Err(message)
    }
}

/// An sccache release to be fetched.
#[derive(Debug, PartialEq, Eq)]
pub struct Release {
    /// Its version.
    pub version: String,
    /// Its target platform.
    pub target: String,
    /// Where its archive is.
    pub url: String,
}

/// Where a release's archive is.
pub open spec fn release_url(tag: Seq<char>, target: Seq<char>) -> Seq<char> {
    "https://github.com/mozilla/sccache/releases/download/"@ + tag + "/sccache-"@ + tag + "-"@
        + target + ".tar.gz"@
}

/// The sccache release that a tag names for a platform, or for this machine.
pub fn sccache_release(tag: &str, platform: Option<&str>, os: &str, arch: &str) -> (r: Result<
    Release,
    String,
>)
    ensures
        ({
            let target = match platform {
                Some(platform) => Some(platform@),
                None => asset_target(os@, arch@),
            };
            match target {
                None => r matches Err(message) && message@
                    == "the sccache recipe does not know a release asset for "@ + os@ + "/"@
                    + arch@,
                Some(target) => r matches Ok(release) && release.version@ == (match after_prefix(
                    tag@,
                    "v"@,
                ) {
                    Some(version) => version,
                    None => tag@,
                }) && release.target@ == target && release.url@ == release_url(tag@, target),
            }
        }),
{
    let version = match strip_prefix(tag, "v") {
        Some(version) => version.to_owned(),
        None => tag.to_owned(),
    };
    let target = match platform {
        Some(platform) => platform.to_owned(),
        None => match sccache_target(os, arch) {
            Ok(target) => target.to_owned(),
            Err(message) => {
                return Err(message);
            },
        },
    };
    let mut url = "https://github.com/mozilla/sccache/releases/download/".to_owned();
    url.append(tag);
    url.append("/sccache-");
    url.append(tag);
    url.append("-");
    url.append(target.as_str());
    url.append(".tar.gz");
    Ok(Release { version, target, url })
}

/// Resolves an sccache release that was fetched: recorded as a pin of the hash
/// computed here and now where a platform was asked for, else imported from the
/// directory that its binary was staged in.
pub fn sccache(release: Release, pinned: bool, sha256: String, staged: String) -> (r: Resolved)
    ensures
        r.src is None,
        opt_text(r.license) == Some("MPL-2.0"@),
        opt_text(r.version) == Some(release.version@),
        opt_text(r.platform) == Some(release.target@),
        if pinned {
            r.bin matches Bin::Components(v) && v@.len() == 1 && is_component(
                v@[0],
                release.url@,
                sha256@,
                1,
                "bin"@,
            )
        } else {
            r.bin == Bin::Dir(staged)
        },
{
    let bin = if pinned {
        let mut v: Vec<Component> = Vec::new();
        v.push(Component { url: release.url, sha256, strip: 1, dest: "bin".to_owned() });
        Bin::Components(v)
    } else {
        Bin::Dir(staged)
    };
    Resolved {
        bin,
        src: None,
        license: Some("MPL-2.0".to_owned()),
        version: Some(release.version),
        platform: Some(release.target),
    }
}

/// Pins a hosted archive as a one-component downloaded toolchain, given the hash
/// of what was fetched. The recipe knows nothing of what the archive contains,
/// so version, platform, and license are left to the caller.
pub fn url_archive(spec: &str, opts: &RecipeOptions, sha256: String) -> (r: Result<
    Resolved,
    &'static str,
>)
    ensures
        if spec@.len() == 0 {
            r matches Err(message) && message@ == "the url recipe needs --spec <archive-url>"@
        } else {
            r matches Ok(found) && found.src is None && found.license is None && found.version
                is None && found.platform is None && (found.bin matches Bin::Components(v)
                && v@.len() == 1 && is_component(
                v@[0],
                spec@,
                sha256@,
                match opts.strip {
                    Some(strip) => strip,
                    None => 1,
                },
                match opts.dest {
                    Some(dest) => dest@,
                    None => "bin"@,
                },
            ))
        },
{
    if spec.is_empty() {
        return Err("the url recipe needs --spec <archive-url>");
    }
    let strip: u8 = match opts.strip {
        Some(strip) => strip,
        None => 1,
    };
    let dest = match &opts.dest {
        Some(dest) => dest.clone(),
        None => "bin".to_owned(),
    };
    let mut v: Vec<Component> = Vec::new();
    v.push(Component { url: spec.to_owned(), sha256, strip, dest });
    Ok(
        Resolved {
            bin: Bin::Components(v),
            src: None,
            license: None,
            version: None,
            platform: None,
        },
    )
}

/// The command that rewrites a copied binary's runtime library path, given the
/// operating system, to be run with the binary's path after its arguments.
pub fn relink_command(os: &str) -> (r: Result<(&'static str, Vec<String>), String>)
    ensures
        if os@ == "macos"@ {
            r matches Ok(command) && command.0@ == "install_name_tool"@ && texts(command.1@)
                == seq!["-rpath"@, "@loader_path/../lib"@, "@loader_path/lib"@]
        } else if os@ == "linux"@ {
            r matches Ok(command) && command.0@ == "patchelf"@ && texts(command.1@) == seq![
                "--set-rpath"@,
                "$ORIGIN/lib"@,
            ]
        } else {
            r matches Err(message) && message@
                == "the rustup recipe does not know how to relocate a toolchain's runtime library path on "@
                + os@
        },
{
    let mut args: Vec<String> = Vec::new();
    if same(os, "macos") {
        args.push("-rpath".to_owned());
        args.push("@loader_path/../lib".to_owned());
        args.push("@loader_path/lib".to_owned());
        proof {
            assert(texts(args@) =~= seq![
                "-rpath"@,
                "@loader_path/../lib"@,
                "@loader_path/lib"@,
            ]);
        }
        Ok(("install_name_tool", args))
    } else if same(os, "linux") {
        args.push("--set-rpath".to_owned());
        args.push("$ORIGIN/lib".to_owned());
        proof {
            assert(texts(args@) =~= seq!["--set-rpath"@, "$ORIGIN/lib"@]);
        }
        Ok(("patchelf", args))
    } else {
        let mut message =
            "the rustup recipe does not know how to relocate a toolchain's runtime library path on ".to_owned();
        message.append(os);
        Err(message)
    }
}

/// No recipe embeds this machine's bytes for another platform.
pub proof fn law_embedding_is_local(recipe: Seq<char>, opts: RecipeOptions)
    requires
        recipe_of(recipe, opts) is Ok,
    ensures
        !(opts.embed && opts.platform is Some),
{
}

/// Law: each recipe is known by its name; only a download can be laid out by
/// hand, and bytes of this machine are for this machine.
pub proof fn law_recipes_are_known_by_name(recipe: Seq<char>, opts: RecipeOptions)
    ensures
        recipe_of(recipe, opts) == Ok::<Recipe, Seq<char>>(Recipe::Url) <==> recipe == "url"@ && !(
        opts.embed && opts.platform is Some),
        recipe_of(recipe, opts) == Ok::<Recipe, Seq<char>>(Recipe::Rustup) <==> recipe
            == "rustup"@ && !(opts.embed && opts.platform is Some) && opts.strip is None
            && opts.dest is None,
        recipe_of(recipe, opts) == Ok::<Recipe, Seq<char>>(Recipe::Sccache) <==> recipe
            == "sccache"@ && !(opts.embed && opts.platform is Some) && opts.strip is None
            && opts.dest is None,
{
    reveal_strlit("url");
    reveal_strlit("rustup");
    reveal_strlit("sccache");
    assert("url"@.len() == 3 && "rustup"@.len() == 6 && "sccache"@.len() == 7);
}

/// Law: a field is looked for under its own header only: another header ends the
/// section, and a line that is neither a header nor the field is passed over.
pub proof fn law_other_lines_are_passed_over(
    line: Seq<char>,
    rest: Seq<Seq<char>>,
    inside: bool,
    section: Seq<char>,
    prefix: Seq<char>,
)
    ensures
        section_on(trimmed(line)) matches Some(name) && name != section ==> field_in(
            seq![line] + rest,
            inside,
            section,
            prefix,
        ) == field_in(rest, false, section, prefix),
        section_on(trimmed(line)) == Some(section) ==> field_in(
            seq![line] + rest,
            inside,
            section,
            prefix,
        ) == field_in(rest, true, section, prefix),
        section_on(trimmed(line)) is None && (!inside || !starts(trimmed(line), prefix))
            ==> field_in(seq![line] + rest, inside, section, prefix) == field_in(
            rest,
            inside,
            section,
            prefix,
        ),
        field_in(Seq::empty(), inside, section, prefix) is None,
{
    assert((seq![line] + rest).skip(1) =~= rest);
    assert((seq![line] + rest)[0] == line);
}

/// Law: a header is a name in brackets.
pub proof fn law_header_names_its_section(name: Seq<char>, line: Seq<char>)
    ensures
        section_on("["@ + name + "]"@) == Some(name),
        line.len() == 0 || line[0] != '[' ==> section_on(line) is None,
{
    reveal_strlit("[");
    reveal_strlit("]");
    let said = "["@ + name + "]"@;
    assert(said.take(1) =~= "["@);
    let rest = said.skip(1);
    assert(rest =~= name + "]"@);
    assert(rest.skip(rest.len() - 1) =~= "]"@);
    assert(rest.take(rest.len() - 1) =~= name);
    if starts(line, "["@) {
        assert(line.take(1)[0] == '[');
    }
}

/// Law: each part of a toolchain is the archive that the manifest gives for that
/// package and platform, with the hash that it gives, and the two directories
/// around its contents taken off.
pub proof fn law_toolchain_is_the_manifests(
    v: Seq<Component>,
    manifest: Seq<char>,
    target: Seq<char>,
    i: int,
)
    requires
        incomplete(manifest, target) is None,
        is_toolchain(v, manifest, target),
        0 <= i < 3,
    ensures
        v.len() == 3,
        ({
            let package = seq!["rustc"@, "cargo"@, "rust-std"@][i];
            let section = "pkg."@ + package + ".target."@ + target;
            &&& field_of(manifest, section, "url"@) == Some(v[i].url@)
            &&& field_of(manifest, section, "hash"@) == Some(v[i].sha256@)
            &&& v[i].strip == 2
            &&& v[i].dest@.len() == 0
        }),
{
    assert(missing_in(manifest, "rustc"@, target) is None);
    assert(missing_in(manifest, "cargo"@, target) is None);
    assert(missing_in(manifest, "rust-std"@, target) is None);
}

/// Law: the version is the first word that the manifest gives for `rustc`.
pub proof fn law_version_is_rustcs(manifest: Seq<char>)
    ensures
        version_in(manifest) == (match field_of(manifest, "pkg.rustc"@, "version"@) {
            Some(raw) if fields_of(raw).len() > 0 => Some(fields_of(raw)[0]),
            _ => None,
        }),
{
}

/// Law: what `rustc` reports under a name is what follows it on the first line
/// that begins with it.
pub proof fn law_reported_line_is_read(
    before: Seq<Seq<char>>,
    name: Seq<char>,
    value: Seq<char>,
    rest: Seq<char>,
)
    requires
        forall|i: int|
            0 <= i < before.len() ==> !(#[trigger] before[i]).contains('\n') && (before[i].len()
                == 0 || before[i].last() != '\r') && !starts(before[i], name + ": "@),
        !name.contains('\n'),
        !value.contains('\n'),
        value.len() > 0,
        value.last() != '\r',
    ensures
        reported(
            before.map_values(|line: Seq<char>| line.push('\n')).flatten() + name + ": "@ + value
                + "\n"@ + rest,
            name,
        ) == Some(value),
{
    reveal_strlit(": ");
    reveal_strlit("\n");
    let prefix = name + ": "@;
    let line = prefix + value;
    let head = before.map_values(|line: Seq<char>| line.push('\n')).flatten();
    let text = head + name + ": "@ + value + "\n"@ + rest;
    assert forall|j: int| 0 <= j < line.len() implies line[j] != '\n' by {
        if j < name.len() {
            assert(line[j] == name[j]);
            assert(name.contains(name[j]));
        } else if j >= name.len() + 2 {
            assert(line[j] == value[j - name.len() - 2]);
            assert(value.contains(value[j - name.len() - 2]));
        }
    }
    assert(line.last() == value.last());
    lemma_lines_front(line, rest);
    assert(text =~= head + (line + seq!['\n'] + rest));
    lemma_lines_after(before, line + seq!['\n'] + rest);
    let all = lines_of(text);
    assert(all =~= before + (seq![line] + lines_of(rest)));
    let p = |line: Seq<char>| starts(line, name + ": "@);
    let n = before.len() as int;
    assert forall|j: int| 0 <= j < n implies !p(#[trigger] all[j]) by {
        assert(all[j] == before[j]);
    }
    assert(all[n] == line);
    assert(line.take(prefix.len() as int) =~= prefix);
    assert(line.skip(prefix.len() as int) =~= value);
    lemma_first_where_is(all, p, n);
}

/// Law: a field of a JSON answer is the text between the quotes after its key,
/// where that first stands.
pub proof fn law_json_field_is_read(
    before: Seq<char>,
    key: Seq<char>,
    value: Seq<char>,
    after: Seq<char>,
)
    requires
        !value.contains('"'),
        forall|i: int|
            0 <= i < before.len() ==> !#[trigger] starts(
                (before + "\""@ + key + "\": \""@ + value + "\""@ + after).skip(i),
                "\""@ + key + "\": \""@,
            ),
    ensures
        json_field(before + "\""@ + key + "\": \""@ + value + "\""@ + after, key) == Some(value),
{
    reveal_strlit("\"");
    let prefix = "\""@ + key + "\": \""@;
    let body = before + "\""@ + key + "\": \""@ + value + "\""@ + after;
    let n = before.len() as int;
    assert(body =~= before + prefix + value + "\""@ + after);
    lemma_find_sub(body, prefix);
    assert(body.skip(n).take(prefix.len() as int) =~= prefix);
    assert(starts(body.skip(n), prefix));
    assert(holds(body, prefix));
    let at = find_sub(body, prefix)->0;
    if at < n {
        assert(!starts(body.skip(at), prefix));
    }
    assert(at == n);
    let rest = body.skip(n + prefix.len());
    assert(rest =~= value + "\""@ + after);
    assert forall|j: int| 0 <= j < value.len() implies rest[j] != '"' by {
        assert(rest[j] == value[j]);
        assert(value.contains(value[j]));
    }
    lemma_index_of_is(rest, '"', value.len() as int);
    assert(rest.take(value.len() as int) =~= value);
}

/// Law: which release of `sccache` is for which machine, and where it is.
pub proof fn law_sccache_assets(tag: Seq<char>, target: Seq<char>)
    ensures
        asset_target("linux"@, "x86_64"@) == Some("x86_64-unknown-linux-musl"@),
        asset_target("linux"@, "aarch64"@) == Some("aarch64-unknown-linux-musl"@),
        asset_target("macos"@, "x86_64"@) == Some("x86_64-apple-darwin"@),
        asset_target("macos"@, "aarch64"@) == Some("aarch64-apple-darwin"@),
        asset_target("windows"@, "x86_64"@) is None,
        release_url(tag, target) == "https://github.com/mozilla/sccache/releases/download/"@ + tag
            + "/sccache-"@ + tag + "-"@ + target + ".tar.gz"@,
{
    reveal_strlit("linux");
    reveal_strlit("macos");
    reveal_strlit("windows");
    reveal_strlit("x86_64");
    reveal_strlit("aarch64");
    assert("linux"@[0] == 'l' && "macos"@[0] == 'm' && "windows"@[0] == 'w');
    assert("x86_64"@[0] == 'x' && "aarch64"@[0] == 'a');
}

} // verus!
