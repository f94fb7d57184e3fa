//! Interactive debug sessions into a repository's checks Sprite.
//!
//! A member who can sign in to the web UI can open a read-write shell in the
//! same persistent Sprite a check run used, brokered over a WebSocket so the
//! member never needs a credential of their own.

use vstd::prelude::*;

use crate::members::Member;
use crate::routes::Resolved;
use crate::runner::{sprite_name, sprite_of};
use crate::sessions::{opt_str, session_of, snapshot, Sessions};
use crate::text::{
    decimal, halves, is_digit, lemma_decimal_round_trip, lemma_index_of_is, parse_decimal,
    parsed_decimal, push_decimal, split_once, texts, to_decimal,
};
use crate::web_edit::{key_owner, member_for_public_key};

verus! {

/// Why a debug session is refused: the HTTP status, and the message.
#[derive(Debug, PartialEq, Eq)]
pub struct Refusal {
    /// The status.
    pub status: u16,
    /// The message.
    pub message: String,
}

/// Whether a result is a refusal with a status and a message.
pub open spec fn refused(r: Result<String, Refusal>, status: u16, message: Seq<char>) -> bool {
    r matches Err(refusal) && refusal.status == status && refusal.message@ == message
}

fn refuse(status: u16, message: &str) -> (r: Result<String, Refusal>)
    ensures
        refused(r, status, message@),
{
    Err(Refusal { status, message: message.to_owned() })
}

/// Decides on a member's request for an interactive shell: the Sprite it opens
/// in, or why it is refused. The path must name a repository and nothing in it,
/// somebody must be signed in, and their key must be a member's. Nobody is a
/// member where the members cannot be read; that the store cannot be opened is
/// an error of its own.
pub fn handshake(
    resolved: Option<&Resolved>,
    sessions: &Sessions,
    cookie: Option<&str>,
    members: Result<Option<&[Member]>, String>,
) -> (r: Result<String, Refusal>)
    ensures
        match resolved {
            None => refused(r, 404, "no such repository"@),
            Some(found) => if found.rest@.len() > 0 {
                refused(r, 404, "no such repository"@)
            } else {
                match session_of(sessions@, opt_str(cookie)) {
                    None => refused(r, 401, "sign in to open a debug session"@),
                    Some(session) => match members {
                        Err(error) => refused(r, 500, "cannot open store: "@ + error@),
                        Ok(members) => if members is None || key_owner(
                            members->0@,
                            session.public_key@,
                        ) is None {
                            refused(r, 403, "your web key is not a member of this repository"@)
                        } else {
                            r matches Ok(sprite) && sprite@ == sprite_of(found.repo@)
                        },
                    },
                }
            },
        },
{
    let found = match resolved {
        None => {
            return refuse(404, "no such repository");
        },
        Some(found) => found,
    };
    if found.rest.len() > 0 {
        return refuse(404, "no such repository");
    }
    let session = match snapshot(sessions, cookie) {
        None => {
            return refuse(401, "sign in to open a debug session");
        },
        Some(session) => session,
    };
    let members = match members {
        Err(error) => {
            let mut message = "cannot open store: ".to_owned();
            message.append(error.as_str());
            return refuse(500, message.as_str());
        },
        Ok(members) => members,
    };
    let owned = match members {
        None => false,
        Some(members) => member_for_public_key(members, session.public_key.as_str()).is_some(),
    };
    if !owned {
        return refuse(403, "your web key is not a member of this repository");
    }
    Ok(sprite_name(found.repo.as_str()))
}

/// The arguments of the command that opens a shell in a Sprite.
pub fn shell_args(sprite: &str) -> (r: Vec<String>)
    ensures
        texts(r@) == seq!["exec"@, "--tty"@, "-s"@, sprite@, "--"@, "/bin/bash"@],
{
    let mut r: Vec<String> = Vec::new();
    r.push("exec".to_owned());
    r.push("--tty".to_owned());
    r.push("-s".to_owned());
    r.push(sprite.to_owned());
    r.push("--".to_owned());
    r.push("/bin/bash".to_owned());
    proof {
        assert(texts(r@) =~= seq!["exec"@, "--tty"@, "-s"@, sprite@, "--"@, "/bin/bash"@]);
    }
    r
}

/// The size of a terminal.
#[derive(Debug, Clone, Copy, PartialEq, Eq, Structural)]
pub struct Size {
    /// Its columns.
    pub cols: u16,
    /// Its rows.
    pub rows: u16,
}

/// The size that a resize control frame names: `<cols> <rows>`.
pub open spec fn resize_of(text: Seq<char>) -> Option<(nat, nat)> {
    match halves(text, ' ') {
        None => None,
        Some((cols, rows)) => match (
            parsed_decimal(cols, u16::MAX as nat),
            parsed_decimal(rows, u16::MAX as nat),
        ) {
            (Some(cols), Some(rows)) => Some((cols, rows)),
            _ => None,
        },
    }
}

/// Reads a resize control frame, `"<cols> <rows>"`, as sent by the CLI on
/// connect and whenever its own terminal changes.
pub fn parse_resize(text: &str) -> (r: Option<Size>)
    ensures
        match r {
            Some(size) => resize_of(text@) == Some((size.cols as nat, size.rows as nat)),
            None => resize_of(text@) is None,
        },
{
    match split_once(text, ' ') {
        None => None,
        Some((cols, rows)) => match (
            parse_decimal(cols.as_str(), u16::MAX as u64),
            parse_decimal(rows.as_str(), u16::MAX as u64),
        ) {
            (Some(cols), Some(rows)) => Some(Size { cols: cols as u16, rows: rows as u16 }),
            _ => None,
        },
    }
}

/// The resize control frame that names a size.
pub fn resize_frame(size: Size) -> (r: String)
    ensures
        r@ == frame_of(size),
{
    let mut r = to_decimal(size.cols as u64);
    r.append(" ");
    push_decimal(&mut r, size.rows as u64);
    r
}

/// The resize control frame that names a size.
pub open spec fn frame_of(size: Size) -> Seq<char> {
    decimal(size.cols as nat) + " "@ + decimal(size.rows as nat)
}

/// The broker reads back the size that the CLI sent.
pub proof fn law_resize_round_trip(size: Size)
    ensures
        resize_of(frame_of(size)) == Some((size.cols as nat, size.rows as nat)),
{
    let cols = decimal(size.cols as nat);
    let rows = decimal(size.rows as nat);
    reveal_strlit(" ");
    lemma_decimal_round_trip(size.cols as nat, u16::MAX as nat);
    lemma_decimal_round_trip(size.rows as nat, u16::MAX as nat);
    let frame = frame_of(size);
    assert(frame =~= cols + seq![' '] + rows);
    assert forall|j: int| 0 <= j < cols.len() implies frame[j] != ' ' by {
        assert(frame[j] == cols[j]);
        assert(is_digit(cols[j]));
    }
    lemma_index_of_is(frame, ' ', cols.len() as int);
    assert(frame.take(cols.len() as int) =~= cols);
    assert(frame.skip(1 + cols.len() as int) =~= rows);
}

/// Something that happens to a session: at the shell's end, or at the member's.
#[derive(Debug, PartialEq, Eq)]
pub enum Event {
    /// The shell printed something.
    Output(Vec<u8>),
    /// The shell is gone.
    Ended,
    /// The member typed something.
    Typed(Vec<u8>),
    /// The member sent a control frame.
    Control(String),
    /// The member closed the connection, or it broke.
    Closed,
    /// A frame that says nothing.
    Other,
}

/// What is done about it.
#[derive(Debug, PartialEq, Eq)]
pub enum Action {
    /// Send bytes to the member.
    Send(Vec<u8>),
    /// Hand bytes to the shell.
    Feed(Vec<u8>),
    /// Resize the shell's terminal.
    Resize(Size),
    /// Nothing.
    Ignore,
    /// End the session, and the shell with it.
    Stop,
}

/// One step of a session: bytes go through as they are, a control frame resizes
/// the terminal where it can be read, and either side's end ends it.
pub fn relay(event: Event) -> (r: Action)
    ensures
        match event {
            Event::Output(data) => r == Action::Send(data),
            Event::Typed(data) => r == Action::Feed(data),
            Event::Control(text) => match resize_of(text@) {
                Some((cols, rows)) => r matches Action::Resize(size) && size.cols == cols
                    && size.rows == rows,
                None => r is Ignore,
            },
            Event::Other => r is Ignore,
            Event::Ended | Event::Closed => r is Stop,
        },
{
    match event {
        Event::Output(data) => Action::Send(data),
        Event::Typed(data) => Action::Feed(data),
        Event::Control(text) => match parse_resize(text.as_str()) {
            Some(size) => Action::Resize(size),
            None => Action::Ignore,
        },
        Event::Other => Action::Ignore,
        Event::Ended | Event::Closed => Action::Stop,
    }
}

/// Something that happens to the member's end of a session.
#[derive(Debug, PartialEq, Eq)]
pub enum PumpEvent {
    /// The terminal was typed into.
    Typed(Vec<u8>),
    /// There is no more to type.
    InputEnded,
    /// The shell printed something.
    Output(Vec<u8>),
    /// The broker closed the connection.
    Closed,
    /// The connection broke, with the reason.
    Broken(String),
    /// A frame that says nothing.
    Other,
}

/// What is done about it.
#[derive(Debug, PartialEq, Eq)]
pub enum PumpAction {
    /// Send bytes to the broker.
    Send(Vec<u8>),
    /// Write bytes to the terminal.
    Print(Vec<u8>),
    /// Nothing.
    Ignore,
    /// End the session.
    Finish(Result<(), String>),
}

/// One step of the member's end of a session.
pub fn pump(event: PumpEvent) -> (r: PumpAction)
    ensures
        match event {
            PumpEvent::Typed(data) => r == PumpAction::Send(data),
            PumpEvent::Output(data) => r == PumpAction::Print(data),
            PumpEvent::Other => r is Ignore,
            PumpEvent::InputEnded | PumpEvent::Closed => r == PumpAction::Finish(Ok(())),
            PumpEvent::Broken(error) => r matches PumpAction::Finish(Err(message)) && message@
                == "debug session error: "@ + error@,
        },
{
    match event {
        PumpEvent::Typed(data) => PumpAction::Send(data),
        PumpEvent::Output(data) => PumpAction::Print(data),
        PumpEvent::Other => PumpAction::Ignore,
        PumpEvent::InputEnded | PumpEvent::Closed => PumpAction::Finish(Ok(())),
        PumpEvent::Broken(error) => {
            let mut message = "debug session error: ".to_owned();
            message.append(error.as_str());
            PumpAction::Finish(Err(message))
        },
    }
}

} // verus!
