//! Session-control state machine: the daemon's window is either hidden or
//! visible, and newline-delimited control tokens drive the transitions.

use vstd::prelude::*;

use crate::text::str_eq;

verus! {

/// Whether the daemon currently holds a live window.
#[derive(Clone, Copy, PartialEq, Eq, Structural, Debug)]
pub enum SessionState {
    Hidden,
    Visible,
}

/// A control command, as carried over the local control channel.
#[derive(Clone, Copy, PartialEq, Eq, Structural, Debug)]
pub enum SocketMessage {
    Open,
    Close,
    Toggle,
    Quit,
}

/// What the event loop must do after a command is applied.
#[derive(Clone, Copy, PartialEq, Eq, Structural, Debug)]
pub enum SessionEffect {
    /// Nothing to do: the command was a no-op in the current state.
    NoChange,
    /// Reset the search query, recompute the default list, create a window.
    ShowWindow,
    /// Destroy the window.
    HideWindow,
    /// Terminate the whole process.
    Terminate,
}

/// One step of the session state machine.
pub open spec fn spec_step(state: SessionState, msg: SocketMessage) -> (SessionState, SessionEffect) {
    match msg {
        SocketMessage::Open => if state is Hidden {
            (SessionState::Visible, SessionEffect::ShowWindow)
        } else {
            (SessionState::Visible, SessionEffect::NoChange)
        },
        SocketMessage::Close => if state is Visible {
            (SessionState::Hidden, SessionEffect::HideWindow)
        } else {
            (SessionState::Hidden, SessionEffect::NoChange)
        },
        SocketMessage::Toggle => if state is Hidden {
            (SessionState::Visible, SessionEffect::ShowWindow)
        } else {
            (SessionState::Hidden, SessionEffect::HideWindow)
        },
        SocketMessage::Quit => (state, SessionEffect::Terminate),
    }
}

/// Apply one command to the session state, returning the new state and the
/// effect the event loop must carry out.
pub fn step(state: SessionState, msg: SocketMessage) -> (r: (SessionState, SessionEffect))
    ensures
        r == spec_step(state, msg),
{
    match msg {
        SocketMessage::Open => if matches!(state, SessionState::Hidden) {
            (SessionState::Visible, SessionEffect::ShowWindow)
        } else {
            (SessionState::Visible, SessionEffect::NoChange)
        },
        SocketMessage::Close => if matches!(state, SessionState::Visible) {
            (SessionState::Hidden, SessionEffect::HideWindow)
        } else {
            (SessionState::Hidden, SessionEffect::NoChange)
        },
        SocketMessage::Toggle => if matches!(state, SessionState::Hidden) {
            (SessionState::Visible, SessionEffect::ShowWindow)
        } else {
            (SessionState::Hidden, SessionEffect::HideWindow)
        },
        SocketMessage::Quit => (state, SessionEffect::Terminate),
    }
}

/// `Open` is idempotent: opening once or twice both leave the session visible.
pub proof fn lemma_open_idempotent(state: SessionState)
    ensures
        spec_step(state, SocketMessage::Open).0 is Visible,
        spec_step(spec_step(state, SocketMessage::Open).0, SocketMessage::Open).0 is Visible,
        spec_step(spec_step(state, SocketMessage::Open).0, SocketMessage::Open).1 is NoChange,
{
}

/// `Close` is idempotent: closing once or twice both leave the session hidden.
pub proof fn lemma_close_idempotent(state: SessionState)
    ensures
        spec_step(state, SocketMessage::Close).0 is Hidden,
        spec_step(spec_step(state, SocketMessage::Close).0, SocketMessage::Close).0 is Hidden,
        spec_step(spec_step(state, SocketMessage::Close).0, SocketMessage::Close).1 is NoChange,
{
}

/// `Toggle` applied twice returns to the starting state.
pub proof fn lemma_toggle_involutive(state: SessionState)
    ensures
        spec_step(spec_step(state, SocketMessage::Toggle).0, SocketMessage::Toggle).0 == state,
{
}

/// The command a control-channel token names, if any: `open`/`show`,
/// `close`/`hide`, `toggle` and `quit` are the whole protocol.
pub open spec fn spec_parse_message(s: Seq<char>) -> Option<SocketMessage> {
    if s == "open"@ || s == "show"@ {
        Some(SocketMessage::Open)
    } else if s == "close"@ || s == "hide"@ {
        Some(SocketMessage::Close)
    } else if s == "toggle"@ {
        Some(SocketMessage::Toggle)
    } else if s == "quit"@ {
        Some(SocketMessage::Quit)
    } else {
        None
    }
}

/// Parse one newline-delimited control token into its command.
pub fn parse_message(line: &str) -> (r: Option<SocketMessage>)
    ensures
        r == spec_parse_message(line@),
{
    if str_eq(line, "open") || str_eq(line, "show") {
        Some(SocketMessage::Open)
    } else if str_eq(line, "close") || str_eq(line, "hide") {
        Some(SocketMessage::Close)
    } else if str_eq(line, "toggle") {
        Some(SocketMessage::Toggle)
    } else if str_eq(line, "quit") {
        Some(SocketMessage::Quit)
    } else {
        None
    }
}

/// The canonical token that names a command on the wire: `open`, `close`,
/// `toggle` or `quit`.
pub fn message_token(msg: SocketMessage) -> (r: &'static str)
    ensures
        spec_parse_message(r@) == Some(msg),
        msg is Open ==> r@ == "open"@,
        msg is Close ==> r@ == "close"@,
        msg is Toggle ==> r@ == "toggle"@,
        msg is Quit ==> r@ == "quit"@,
{
    proof {
        reveal_strlit("open");
        reveal_strlit("show");
        reveal_strlit("close");
        reveal_strlit("hide");
        reveal_strlit("toggle");
        reveal_strlit("quit");
    }
    match msg {
        SocketMessage::Open => {
            let r = "open";
            assert(spec_parse_message(r@) == Some(SocketMessage::Open));
            r
        },
        SocketMessage::Close => {
            let r = "close";
            assert(r@.len() == 5);
            assert("open"@.len() == 4);
            assert(r@ != "open"@ && r@ != "show"@);
            assert(spec_parse_message(r@) == Some(SocketMessage::Close));
            r
        },
        SocketMessage::Toggle => {
            let r = "toggle";
            assert(r@.len() == 6);
            assert("open"@.len() == 4 && "show"@.len() == 4 && "close"@.len() == 5 && "hide"@.len()
                == 4);
            assert(r@ != "open"@ && r@ != "show"@ && r@ != "close"@ && r@ != "hide"@);
            assert(spec_parse_message(r@) == Some(SocketMessage::Toggle));
            r
        },
        SocketMessage::Quit => {
            let r = "quit";
            assert(r@.len() == 4 && "close"@.len() == 5 && "toggle"@.len() == 6);
            assert(r@[0] == 'q' && "open"@[0] == 'o' && "show"@[0] == 's' && "hide"@[0] == 'h');
            assert(r@ != "open"@ && r@ != "show"@ && r@ != "close"@ && r@ != "hide"@ && r@
                != "toggle"@);
            assert(spec_parse_message(r@) == Some(SocketMessage::Quit));
            r
        },
    }
}

/// Handle one line received on a control connection: a recognized token
/// drives the state machine and keeps the connection; an unrecognized token
/// leaves the session state untouched, causes no effect, and drops only the
/// offending connection.
pub fn handle_line(state: SessionState, line: &str) -> (r: (SessionState, SessionEffect, bool))
    ensures
        match spec_parse_message(line@) {
            Some(m) => r == (spec_step(state, m).0, spec_step(state, m).1, true),
            None => r == (state, SessionEffect::NoChange, false),
        },
{
    match parse_message(line) {
        Some(m) => {
            let (next, effect) = step(state, m);
            (next, effect, true)
        },
        None => (state, SessionEffect::NoChange, false),
    }
}

} // verus!
