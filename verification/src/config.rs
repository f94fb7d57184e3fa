//! The repository's metadata, sourced from the `refs/meta/config` ref: its
//! description, homepage and topics, and the ref-push rules of its roles.

use vstd::prelude::*;

use crate::component;
use crate::documents::{Node, Stored};
use crate::keyed::TextMap;
use crate::text::chars_of;

verus! {

/// The ref whose tree holds the repository configuration.
pub const CONFIG_REF: &'static str = "refs/meta/config";

/// The ref-push rules for one role: glob patterns (`*` matches any run of
/// characters) matched against the full ref name (e.g. `refs/heads/*`).
#[derive(Debug, Clone, PartialEq, Eq)]
pub struct RoleRules {
    /// Refs this role may push to. Empty means "every ref not denied",
    /// otherwise a ref must match at least one pattern here.
    pub allow: Vec<String>,
    /// Refs this role may never push to, checked before `allow`.
    pub deny: Vec<String>,
}

impl Default for RoleRules {
    fn default() -> (r: RoleRules)
        ensures
            r.allow@.len() == 0,
            r.deny@.len() == 0,
    {
        RoleRules { allow: Vec::new(), deny: Vec::new() }
    }
}

/// The repository configuration stored at [`CONFIG_REF`].
#[derive(Debug, Clone, PartialEq, Eq)]
pub struct Config {
    /// The repository's description.
    pub description: String,
    /// The repository's homepage URL; `""` when unset.
    pub homepage: String,
    /// The repository's topics.
    pub topics: Vec<String>,
    /// Ref-push rules keyed by role name. A role absent here, or a member with
    /// no role at all, permits every ref.
    pub roles: TextMap<RoleRules>,
}

impl Default for Config {
    fn default() -> (r: Config)
        ensures
            r.description@.len() == 0,
            r.homepage@.len() == 0,
            r.topics@.len() == 0,
            r.roles@ == Map::<Seq<char>, RoleRules>::empty(),
    {
        Config {
            description: String::new(),
            homepage: String::new(),
            topics: Vec::new(),
            roles: TextMap::new(),
        }
    }
}

/// Whether `text` matches `pattern`: a `*` matches any run of characters, and
/// every other character itself.
pub open spec fn globs(pattern: Seq<char>, text: Seq<char>) -> bool
    decreases pattern.len(),
{
    if pattern.len() == 0 {
        text.len() == 0
    } else if pattern[0] == '*' {
        exists|k: int| 0 <= k <= text.len() && globs(pattern.skip(1), #[trigger] text.skip(k))
    } else {
        text.len() > 0 && text[0] == pattern[0] && globs(pattern.skip(1), text.skip(1))
    }
}

/// A star matches nothing, or one character and then what it matches further
/// on.
proof fn lemma_star(pattern: Seq<char>, text: Seq<char>)
    requires
        pattern.len() > 0,
        pattern[0] == '*',
    ensures
        globs(pattern, text) == (globs(pattern.skip(1), text) || (text.len() > 0 && globs(
            pattern,
            text.skip(1),
        ))),
{
    let rest = pattern.skip(1);
    assert(text.skip(0) =~= text);
    if globs(rest, text) {
        assert(globs(rest, text.skip(0)));
    }
    if text.len() > 0 && globs(pattern, text.skip(1)) {
        let k = choose|k: int|
            0 <= k <= text.skip(1).len() && globs(rest, #[trigger] text.skip(1).skip(k));
        assert(text.skip(1).skip(k) =~= text.skip(k + 1));
        assert(globs(rest, text.skip(k + 1)));
    }
    if globs(pattern, text) {
        let k = choose|k: int| 0 <= k <= text.len() && globs(rest, #[trigger] text.skip(k));
        if k > 0 {
            assert(text.skip(1).skip(k - 1) =~= text.skip(k));
            assert(globs(rest, text.skip(1).skip(k - 1)));
        }
    }
}

/// Whether the characters of `text` from `t` on match those of `pattern` from
/// `p` on.
fn glob_from(pattern: &Vec<char>, p: usize, text: &Vec<char>, t: usize) -> (r: bool)
    requires
        p <= pattern@.len(),
        t <= text@.len(),
    ensures
        r == globs(pattern@.skip(p as int), text@.skip(t as int)),
    decreases pattern@.len() - p, text@.len() - t,
{
    let ghost ps = pattern@.skip(p as int);
    let ghost ts = text@.skip(t as int);
    if p == pattern.len() {
        return t == text.len();
    }
    proof {
        assert(ps.skip(1) =~= pattern@.skip(p + 1));
        if t < text@.len() {
            assert(ts.skip(1) =~= text@.skip(t + 1));
        }
    }
    if pattern[p] == '*' {
        proof {
            lemma_star(ps, ts);
        }
        if glob_from(pattern, p + 1, text, t) {
            return true;
        }
        t < text.len() && glob_from(pattern, p, text, t + 1)
    } else {
        t < text.len() && text[t] == pattern[p] && glob_from(pattern, p + 1, text, t + 1)
    }
}

/// Whether `text` matches `pattern`, where `*` in `pattern` matches any run of
/// characters (including none, and including `/`).
pub fn glob_match(pattern: &str, text: &str) -> (r: bool)
    ensures
        r == globs(pattern@, text@),
{
    let p = chars_of(pattern);
    let t = chars_of(text);
    proof {
        assert(p@.skip(0) =~= p@);
        assert(t@.skip(0) =~= t@);
    }
    glob_from(&p, 0, &t, 0)
}

/// Whether any of `patterns` matches `name`.
pub open spec fn any_globs(patterns: Seq<String>, name: Seq<char>) -> bool {
    exists|i: int| 0 <= i < patterns.len() && globs((#[trigger] patterns[i])@, name)
}

/// Whether any of `patterns` matches `name`.
fn any_match(patterns: &Vec<String>, name: &str) -> (r: bool)
    ensures
        r == any_globs(patterns@, name@),
{
    let mut i: usize = 0;
    while i < patterns.len()
        invariant
            i <= patterns@.len(),
            forall|j: int| 0 <= j < i ==> !globs((#[trigger] patterns@[j])@, name@),
        decreases patterns@.len() - i,
    {
        if glob_match(patterns[i].as_str(), name) {
            return true;
        }
        i += 1;
    }
    false
}

/// Whether rules permit pushing to `name`: nothing denied, and something
/// allowed unless everything is.
pub open spec fn rules_permit(rules: RoleRules, name: Seq<char>) -> bool {
    !any_globs(rules.deny@, name) && (rules.allow@.len() == 0 || any_globs(rules.allow@, name))
}

/// Whether `role` may push to `name`: no role, or one without rules, may push
/// anywhere.
pub open spec fn permitted(
    roles: Map<Seq<char>, RoleRules>,
    role: Option<Seq<char>>,
    name: Seq<char>,
) -> bool {
    match role {
        Some(role) => !roles.contains_key(role) || rules_permit(roles[role], name),
        None => true,
    }
}

/// Whether `role`'s rules in `config` permit pushing to `ref_name`. `role`
/// being `None`, or naming a role absent from the configuration, permits every
/// ref.
pub fn ref_allowed(config: &Config, role: Option<&str>, ref_name: &str) -> (r: bool)
    ensures
        r == permitted(
            config.roles@,
            match role {
                Some(role) => Some(role@),
                None => None,
            },
            ref_name@,
        ),
{
    let role = match role {
        Some(role) => role,
        None => {
            return true;
        },
    };
    let rules = match config.roles.get(role) {
        Some(rules) => rules,
        None => {
            return true;
        },
    };
    if any_match(&rules.deny, ref_name) {
        return false;
    }
    rules.allow.len() == 0 || any_match(&rules.allow, ref_name)
}

/// The fields a settings edit may change.
#[derive(Debug, Clone, PartialEq, Eq)]
pub struct ConfigEdit {
    /// The new description.
    pub description: String,
    /// The new homepage.
    pub homepage: String,
    /// The new topics.
    pub topics: Vec<String>,
}

/// Applies a settings edit: the description, the homepage and the topics are
/// replaced, and the roles stay as they are.
pub fn apply_edit(config: Config, edit: ConfigEdit) -> (r: Config)
    ensures
        r.description == edit.description,
        r.homepage == edit.homepage,
        r.topics == edit.topics,
        r.roles == config.roles,
{
    Config {
        description: edit.description,
        homepage: edit.homepage,
        topics: edit.topics,
        roles: config.roles,
    }
}

/// The configuration that a repository has: what is stored, or the default
/// where nothing is.
pub fn or_default(stored: Option<Config>) -> (r: Config)
    ensures
        stored matches Some(config) ==> r == config,
        stored is None ==> r.description@.len() == 0 && r.homepage@.len() == 0 && r.topics@.len()
            == 0 && r.roles@ == Map::<Seq<char>, RoleRules>::empty(),
{
    match stored {
        Some(config) => config,
        None => Config::default(),
    }
}

/// A denied ref is refused even where it is also allowed.
pub proof fn law_deny_beats_allow(
    roles: Map<Seq<char>, RoleRules>,
    role: Seq<char>,
    name: Seq<char>,
)
    requires
        roles.contains_key(role),
        any_globs(roles[role].deny@, name),
    ensures
        !permitted(roles, Some(role), name),
{
}

/// Role rules are opt-in: without a role, or with one that has no rules, every
/// ref may be pushed to.
pub proof fn law_rules_are_opt_in(
    roles: Map<Seq<char>, RoleRules>,
    role: Seq<char>,
    name: Seq<char>,
)
    ensures
        permitted(roles, None, name),
        !roles.contains_key(role) ==> permitted(roles, Some(role), name),
{
}

/// A pattern without a star matches itself and nothing else.
pub proof fn law_plain_pattern_is_exact(pattern: Seq<char>, text: Seq<char>)
    requires
        !pattern.contains('*'),
    ensures
        globs(pattern, text) == (pattern == text),
    decreases pattern.len(),
{
    if pattern.len() > 0 {
        assert(pattern[0] != '*') by {
            assert(pattern.contains(pattern[0]));
        }
        let rest = pattern.skip(1);
        assert(!rest.contains('*')) by {
            if rest.contains('*') {
                let i = choose|i: int| 0 <= i < rest.len() && rest[i] == '*';
                assert(pattern[i + 1] == '*');
            }
        }
        if text.len() > 0 {
            law_plain_pattern_is_exact(rest, text.skip(1));
            if text[0] == pattern[0] && rest == text.skip(1) {
                assert(pattern =~= seq![pattern[0]] + rest);
                assert(text =~= seq![text[0]] + text.skip(1));
            }
        }
    } else if text.len() == 0 {
        assert(pattern =~= text);
    }
}

/// A pattern that ends in its only star matches every text that begins with
/// what comes before the star.
pub proof fn law_trailing_star_is_a_prefix(prefix: Seq<char>, text: Seq<char>)
    requires
        !prefix.contains('*'),
    ensures
        globs(prefix.push('*'), text) == crate::text::starts(text, prefix),
    decreases prefix.len(),
{
    let pattern = prefix.push('*');
    if prefix.len() == 0 {
        assert(pattern.skip(1) =~= seq![]);
        assert(text.skip(text.len() as int) =~= seq![]);
        assert(globs(pattern.skip(1), text.skip(text.len() as int)));
        assert(text.take(0) =~= prefix);
    } else {
        assert(prefix[0] != '*') by {
            assert(prefix.contains(prefix[0]));
        }
        let rest = prefix.skip(1);
        assert(!rest.contains('*')) by {
            if rest.contains('*') {
                let i = choose|i: int| 0 <= i < rest.len() && rest[i] == '*';
                assert(prefix[i + 1] == '*');
            }
        }
        assert(pattern.skip(1) =~= rest.push('*'));
        if text.len() > 0 {
            law_trailing_star_is_a_prefix(rest, text.skip(1));
            if crate::text::starts(text, prefix) {
                assert(text.skip(1).take(rest.len() as int) =~= text.take(
                    prefix.len() as int,
                ).skip(1));
            }
            if text[0] == prefix[0] && crate::text::starts(text.skip(1), rest) {
                assert(text.take(prefix.len() as int) =~= seq![text[0]] + text.skip(1).take(
                    rest.len() as int,
                ));
                assert(prefix =~= seq![prefix[0]] + rest);
            }
            if crate::text::starts(text, prefix) {
                assert(text.take(prefix.len() as int)[0] == text[0]);
            }
        }
    }
}

/// Loads the configuration from what [`CONFIG_REF`] holds: the default where the
/// ref is absent, and `None` where it cannot be read.
pub fn load(node: Option<&Node>) -> (r: Option<Config>)
    ensures
        match node {
            None => r matches Some(config) && config.description@.len() == 0
                && config.homepage@.len() == 0 && config.topics@.len() == 0 && config.roles@
                == Map::<Seq<char>, RoleRules>::empty(),
            Some(node) => match Config::parsed(*node) {
                Some(value) => r matches Some(config) && config.value() == value,
                None => r is None,
            },
        },
{
    match component::load::<Config>(node) {
        Some(stored) => Some(or_default(stored)),
        None => None,
    }
}

/// The ref that a configuration is stored on, and what it holds then.
pub fn store(config: &Config) -> (r: (&'static str, Node))
    ensures
        r.0@ == CONFIG_REF@,
        Config::layout(r.1, config.value()),
{
    component::store(config)
}

/// Law: a role with rules may push to a ref exactly where no pattern that is
/// denied matches its name, and one that is allowed does, or none is.
pub proof fn law_role_is_held_to_its_rules(
    roles: Map<Seq<char>, RoleRules>,
    role: Seq<char>,
    name: Seq<char>,
)
    requires
        roles.contains_key(role),
    ensures
        permitted(roles, Some(role), name) <==> (forall|i: int|
            0 <= i < roles[role].deny@.len() ==> !globs((#[trigger] roles[role].deny@[i])@, name))
            && (roles[role].allow@.len() == 0 || exists|i: int|
            0 <= i < roles[role].allow@.len() && globs(
                (#[trigger] roles[role].allow@[i])@,
                name,
            )),
{
}

/// Law: a star in a pattern stands for anything at all, nothing included, and
/// what is before and after it stands for itself.
pub proof fn law_star_stands_for_anything(before: Seq<char>, after: Seq<char>, text: Seq<char>)
    requires
        !before.contains('*'),
        !after.contains('*'),
    ensures
        globs(before + seq!['*'] + after, text) <==> text.len() >= before.len() + after.len()
            && crate::text::starts(text, before) && crate::text::ends(text, after),
    decreases before.len(),
{
    let pattern = before + seq!['*'] + after;
    if before.len() == 0 {
        assert(pattern[0] == '*');
        assert(pattern.skip(1) =~= after);
        assert(text.take(0) =~= before);
        if crate::text::ends(text, after) {
            let k = text.len() - after.len();
            law_plain_pattern_is_exact(after, text.skip(k));
            assert(globs(pattern.skip(1), text.skip(k)));
        }
        if globs(pattern, text) {
            let k = choose|k: int|
                0 <= k <= text.len() && globs(pattern.skip(1), #[trigger] text.skip(k));
            law_plain_pattern_is_exact(after, text.skip(k));
            assert(text.skip(k) == after);
            assert(text.len() - after.len() == k);
        }
    } else {
        let rest = before.skip(1);
        assert(before.contains(before[0]));
        assert(pattern[0] == before[0]);
        assert(pattern.skip(1) =~= rest + seq!['*'] + after);
        assert(!rest.contains('*')) by {
            if rest.contains('*') {
                let i = choose|i: int| 0 <= i < rest.len() && rest[i] == '*';
                assert(before[i + 1] == '*');
            }
        }
        if text.len() > 0 {
            let tail = text.skip(1);
            law_star_stands_for_anything(rest, after, tail);
            if text.len() >= before.len() + after.len() {
                assert(tail.skip(tail.len() - after.len()) =~= text.skip(text.len() - after.len()));
                if crate::text::starts(text, before) {
                    assert(text.take(before.len() as int)[0] == before[0]);
                    assert(tail.take(rest.len() as int) =~= rest) by {
                        assert forall|i: int| 0 <= i < rest.len() implies tail[i] == rest[i] by {
                            assert(text.take(before.len() as int)[i + 1] == before[i + 1]);
                        }
                    }
                }
                if text[0] == before[0] && crate::text::starts(tail, rest) {
                    assert(text.take(before.len() as int) =~= before) by {
                        assert forall|i: int| 0 <= i < before.len() implies text[i] == before[i] by {
                            if i > 0 {
                                assert(tail.take(rest.len() as int)[i - 1] == rest[i - 1]);
                            }
                        }
                    }
                }
            }
        }
    }
}

} // verus!
