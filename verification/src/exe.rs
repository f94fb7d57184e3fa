//! What each subcommand prints once it is done.

use vstd::prelude::*;

use crate::cli::{
    AccountAction, EffectAction, InboxAction, MembersAction, ToolchainAction,
};
use crate::text::{decimal, opt_text, push_decimal, texts};

verus! {

/// A line made of a word and a name.
pub open spec fn said_of(word: Seq<char>, name: Seq<char>) -> Seq<char> {
    word + " "@ + name
}

fn say(word: &str, name: &str) -> (r: String)
    ensures
        r@ == said_of(word@, name@),
{
    let mut r = word.to_owned();
    r.append(" ");
    r.append(name);
    r
}

/// What is said once a member action that changes something is done; nothing of
/// one that only looks.
pub fn members_done(action: &MembersAction) -> (r: Option<String>)
    ensures
        opt_text(r) == (match *action {
            MembersAction::Add { username, .. } => Some(said_of("enrolled"@, username@)),
            MembersAction::Remove { username, .. } => Some(said_of("removed"@, username@)),
            MembersAction::Revoke { username, .. } => Some(said_of("revoked"@, username@)),
            MembersAction::Unrevoke { username, .. } => Some(said_of("unrevoked"@, username@)),
            MembersAction::List => None,
            MembersAction::Check { .. } => None,
        }),
{
    match action {
        MembersAction::Add { username, .. } => Some(say("enrolled", username.as_str())),
        MembersAction::Remove { username, .. } => Some(say("removed", username.as_str())),
        MembersAction::Revoke { username, .. } => Some(say("revoked", username.as_str())),
        MembersAction::Unrevoke { username, .. } => Some(say("unrevoked", username.as_str())),
        MembersAction::List => None,
        MembersAction::Check { .. } => None,
    }
}

/// What is said of a key that was looked for: the member it is and their state,
/// or that it is none.
pub fn members_check(found: Option<(&str, &str)>) -> (r: String)
    ensures
        r@ == (match found {
            Some(member) => member.0@ + "\t"@ + member.1@,
            None => "not a member"@,
        }),
{
    match found {
        Some((username, state)) => {
            let mut r = username.to_owned();
            r.append("\t");
            r.append(state);
            r
        },
        None => "not a member".to_owned(),
    }
}

/// What is said once an account action is done.
pub fn account_done(action: &AccountAction) -> (r: &'static str)
    ensures
        r@ == "account created"@,
{
    match action {
        AccountAction::Create { .. } => "account created",
    }
}

/// What is said once an effect was defined; nothing of what only looks or runs.
pub fn effect_done(action: &EffectAction) -> (r: Option<String>)
    ensures
        opt_text(r) == (match *action {
            EffectAction::Add { name, .. } => Some(said_of("defined"@, name@)),
            _ => None,
        }),
{
    match action {
        EffectAction::Add { name, .. } => Some(say("defined", name.as_str())),
        _ => None,
    }
}

/// How an effect is shown.
pub fn effect_shown(trigger: &str, run: &str, result: &str) -> (r: Vec<String>)
    ensures
        texts(r@) == seq![
            said_of("trigger:"@, trigger@),
            said_of("run:"@, run@),
            said_of("result:"@, result@),
        ],
{
    let mut r: Vec<String> = Vec::new();
    r.push(say("trigger:", trigger));
    r.push(say("run:", run));
    r.push(say("result:", result));
    proof {
        assert(texts(r@) =~= seq![
            said_of("trigger:"@, trigger@),
            said_of("run:"@, run@),
            said_of("result:"@, result@),
        ]);
    }
    r
}

/// What is said once a toolchain was imported; nothing of what only looks.
pub fn toolchain_done(action: &ToolchainAction) -> (r: Option<String>)
    ensures
        opt_text(r) == (match *action {
            ToolchainAction::Import { name, .. } => Some(said_of("imported"@, name@)),
            _ => None,
        }),
{
    match action {
        ToolchainAction::Import { name, .. } => Some(say("imported", name.as_str())),
        _ => None,
    }
}

/// How a comment is shown.
pub fn comment_shown(path: &str, projection: &str, body: &str) -> (r: Vec<String>)
    ensures
        texts(r@) == seq![
            said_of("path:"@, path@),
            said_of("projection:"@, projection@),
            said_of("body:"@, body@),
        ],
{
    let mut r: Vec<String> = Vec::new();
    r.push(say("path:", path));
    r.push(say("projection:", projection));
    r.push(say("body:", body));
    proof {
        assert(texts(r@) =~= seq![
            said_of("path:"@, path@),
            said_of("projection:"@, projection@),
            said_of("body:"@, body@),
        ]);
    }
    r
}

/// What is said once a comment was made.
pub fn comment_done(id: &str) -> (r: String)
    ensures
        r@ == said_of("commented"@, id@),
{
    say("commented", id)
}

/// What is said once an inbox entry was adopted; nothing of a listing.
pub fn inbox_done(action: &InboxAction) -> (r: Option<String>)
    ensures
        opt_text(r) == (match *action {
            InboxAction::Adopt { entry, .. } => Some(said_of("adopted"@, entry@)),
            InboxAction::List => None,
        }),
{
    match action {
        InboxAction::Adopt { entry, .. } => Some(say("adopted", entry.as_str())),
        InboxAction::List => None,
    }
}

/// What is said once an object was redacted.
pub fn redact_done(oid: &str) -> (r: String)
    ensures
        r@ == said_of("redacted"@, oid@),
{
    say("redacted", oid)
}

/// What the post-receive hook says.
pub fn effects_ran(count: u64) -> (r: String)
    ensures
        r@ == "ran "@ + decimal(count as nat) + " effect(s)"@,
{
    let mut r = "ran ".to_owned();
    push_decimal(&mut r, count);
    r.append(" effect(s)");
    r
}

/// What a reconciliation says.
pub fn reconciled(pending: u64) -> (r: String)
    ensures
        r@ == "reconciled: "@ + decimal(pending as nat) + " pending"@,
{
    let mut r = "reconciled: ".to_owned();
    push_decimal(&mut r, pending);
    r.append(" pending");
    r
}

} // verus!
