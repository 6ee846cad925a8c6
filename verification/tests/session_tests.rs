use waystart::SessionEffect;
use waystart::SessionState;
use waystart::SocketMessage;
use waystart::handle_line;
use waystart::message_token;
use waystart::parse_message;
use waystart::step;

#[test]
fn open_from_hidden_shows_window() {
    let (next, effect) = step(SessionState::Hidden, SocketMessage::Open);
    assert_eq!(next, SessionState::Visible);
    assert_eq!(effect, SessionEffect::ShowWindow);
}

#[test]
fn open_twice_stays_visible() {
    let (s1, _) = step(SessionState::Hidden, SocketMessage::Open);
    let (s2, e2) = step(s1, SocketMessage::Open);
    assert_eq!(s2, SessionState::Visible);
    assert_eq!(e2, SessionEffect::NoChange);
}

#[test]
fn close_twice_stays_hidden() {
    let (s1, e1) = step(SessionState::Visible, SocketMessage::Close);
    assert_eq!(s1, SessionState::Hidden);
    assert_eq!(e1, SessionEffect::HideWindow);
    let (s2, e2) = step(s1, SocketMessage::Close);
    assert_eq!(s2, SessionState::Hidden);
    assert_eq!(e2, SessionEffect::NoChange);
}

#[test]
fn toggle_twice_returns_to_start() {
    for start in [SessionState::Hidden, SessionState::Visible] {
        let (s1, _) = step(start, SocketMessage::Toggle);
        let (s2, _) = step(s1, SocketMessage::Toggle);
        assert_eq!(s2, start);
        assert_ne!(s1, start);
    }
}

#[test]
fn quit_is_terminal_in_any_state() {
    for start in [SessionState::Hidden, SessionState::Visible] {
        let (_, effect) = step(start, SocketMessage::Quit);
        assert_eq!(effect, SessionEffect::Terminate);
    }
}

#[test]
fn all_protocol_tokens_parse() {
    assert_eq!(parse_message("open"), Some(SocketMessage::Open));
    assert_eq!(parse_message("show"), Some(SocketMessage::Open));
    assert_eq!(parse_message("close"), Some(SocketMessage::Close));
    assert_eq!(parse_message("hide"), Some(SocketMessage::Close));
    assert_eq!(parse_message("toggle"), Some(SocketMessage::Toggle));
    assert_eq!(parse_message("quit"), Some(SocketMessage::Quit));
}

#[test]
fn unknown_tokens_do_not_parse() {
    assert_eq!(parse_message(""), None);
    assert_eq!(parse_message("OPEN"), None);
    assert_eq!(parse_message("open "), None);
    assert_eq!(parse_message("restart"), None);
}

#[test]
fn message_tokens_round_trip() {
    for msg in [
        SocketMessage::Open,
        SocketMessage::Close,
        SocketMessage::Toggle,
        SocketMessage::Quit,
    ] {
        assert_eq!(parse_message(message_token(msg)), Some(msg));
    }
}

#[test]
fn unknown_message_drops_connection_and_keeps_state() {
    for start in [SessionState::Hidden, SessionState::Visible] {
        let (next, effect, keep) = handle_line(start, "frobnicate");
        assert_eq!(next, start);
        assert_eq!(effect, SessionEffect::NoChange);
        assert!(!keep);
    }
}

#[test]
fn known_message_keeps_connection() {
    let (next, effect, keep) = handle_line(SessionState::Hidden, "toggle");
    assert_eq!(next, SessionState::Visible);
    assert_eq!(effect, SessionEffect::ShowWindow);
    assert!(keep);
}

#[test]
fn selection_wraps_at_both_ends() {
    assert_eq!(waystart::select_prev(0, 3), 2);
    assert_eq!(waystart::select_prev(2, 3), 1);
    assert_eq!(waystart::select_next(2, 3), 0);
    assert_eq!(waystart::select_next(0, 3), 1);
    assert_eq!(waystart::select_prev(0, 0), 0);
    assert_eq!(waystart::select_next(0, 0), 0);
}

#[test]
fn canonical_tokens_are_fixed() {
    assert_eq!(message_token(SocketMessage::Open), "open");
    assert_eq!(message_token(SocketMessage::Close), "close");
    assert_eq!(message_token(SocketMessage::Toggle), "toggle");
    assert_eq!(message_token(SocketMessage::Quit), "quit");
}
