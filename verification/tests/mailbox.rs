use packet_radio::config::{MailboxMessage, QsoLogEntry};
use packet_radio::mailbox::{handle_line, should_answer, status_class, MailboxState};

const TS: &str = "2026-07-27 20:45:39";
const PORT: &str = "port-0";

fn run(state: &mut MailboxState, messages: &mut Vec<MailboxMessage>, from: &str, line: &str) -> (String, bool, Option<QsoLogEntry>) {
    handle_line(state, messages, from, PORT, line, TS)
}

#[test]
fn list_shows_messages_sent_by_connecting_station() {
    let mut messages = vec![
        MailboxMessage { id: 1, to: "KD3BFP-5".to_string(), from: "N0CALL-1".to_string(), subject: "Hello".to_string(), body: "hi".to_string(), timestamp: TS.to_string(), read: false },
        MailboxMessage { id: 2, to: "OTHER".to_string(), from: "THIRD-1".to_string(), subject: "Other".to_string(), body: "x".to_string(), timestamp: TS.to_string(), read: false },
    ];
    let mut state = MailboxState::Command;
    let (resp, _, _) = run(&mut state, &mut messages, "N0CALL-1", "L");
    assert!(resp.contains("Hello"));
    assert!(!resp.contains("Other"));
}

#[test]
fn read_only_allows_own_messages() {
    let mut messages = vec![
        MailboxMessage { id: 1, to: "KD3BFP-5".to_string(), from: "N0CALL-1".to_string(), subject: "Test".to_string(), body: "body".to_string(), timestamp: TS.to_string(), read: false },
    ];
    let mut state = MailboxState::Command;
    let (resp, _, _) = run(&mut state, &mut messages, "N0CALL-1", "R 1");
    assert!(resp.contains("body"));
    let mut state2 = MailboxState::Command;
    let (resp2, _, _) = run(&mut state2, &mut messages, "OTHER-1", "R 1");
    assert!(resp2.contains("No such message"));
}

#[test]
fn cq_logs_contact_with_qth() {
    let mut messages = Vec::new();
    let mut state = MailboxState::Command;
    let (prompt_resp, close, entry) = run(&mut state, &mut messages, "N0CALL-1", "CQ");
    assert!(!close);
    assert!(entry.is_none());
    assert!(prompt_resp.to_lowercase().contains("qth"));

    let (resp, close, entry) = run(&mut state, &mut messages, "N0CALL-1", "Pittsburgh, PA");
    assert!(!close);
    assert!(resp.contains("Pittsburgh"));
    assert!(resp.contains("logged"));
    let entry = entry.expect("CQ should produce a QsoLogEntry");
    assert_eq!(entry.location.as_deref(), Some("Pittsburgh, PA"));
    assert_eq!(entry.callsign, "N0CALL-1");
}

#[test]
fn cq_accepts_blank_qth() {
    let mut messages = Vec::new();
    let mut state = MailboxState::Command;
    run(&mut state, &mut messages, "N0CALL-1", "CQ");
    let (resp, _, entry) = run(&mut state, &mut messages, "N0CALL-1", "");
    assert!(resp.contains("logged"));
    assert_eq!(entry.expect("should produce entry").location, None);
}

#[test]
fn bye_signals_close() {
    let mut messages = Vec::new();
    let mut state = MailboxState::Command;
    let (_, close, _) = run(&mut state, &mut messages, "N0CALL-1", "B");
    assert!(close);
}

#[test]
fn unknown_command_reprompts_without_closing() {
    let mut messages = Vec::new();
    let mut state = MailboxState::Command;
    let (resp, close, _) = run(&mut state, &mut messages, "N0CALL-1", "ZZZ");
    assert!(!close);
    assert!(resp.contains("Unknown command"));
}

#[test]
fn should_answer_respects_enabled_flag() {
    assert!(!should_answer(false, "", Some("KD3BFP-5")));
    assert!(!should_answer(false, "KD3BFP-5", Some("KD3BFP-5")));
}

#[test]
fn should_answer_declines_with_no_respond_call() {
    assert!(!should_answer(true, "", Some("KD3BFP-1")));
    assert!(!should_answer(true, "", None));
}

#[test]
fn should_answer_only_matches_configured_callsign() {
    assert!(should_answer(true, "KD3BFP-5", Some("KD3BFP-5")));
    assert!(!should_answer(true, "KD3BFP-5", Some("KD3BFP-6")));
    assert!(should_answer(true, " kd3bfp-5 ", Some("KD3BFP-5")));
    assert!(!should_answer(true, "KD3BFP-5", None));
}

#[test]
fn status_class_prioritizes_unread_over_enabled() {
    assert_eq!(status_class(false, false), None);
    assert_eq!(status_class(true, false), Some("state-success"));
    assert_eq!(status_class(false, true), Some("state-warning"));
    assert_eq!(status_class(true, true), Some("state-warning"));
}

#[test]
fn a_message_is_left_and_read_back() {
    let mut messages = Vec::new();
    let mut state = MailboxState::Command;
    let (resp, close, entry) = run(&mut state, &mut messages, "N0CALL-1", "S KD3BFP-5");
    assert_eq!((resp.as_str(), close, entry), ("Subject: ", false, None));
    assert_eq!(state, MailboxState::AwaitingSubject { to: "KD3BFP-5".to_string() });
    let (resp, _, _) = run(&mut state, &mut messages, "N0CALL-1", " Hello ");
    assert_eq!(resp, "Enter message, end with /EX on its own line.\n");
    for line in ["first", "", "b"] {
        assert_eq!(run(&mut state, &mut messages, "N0CALL-1", line).0, "");
    }
    assert!(messages.is_empty());
    let copy = state.clone();
    assert_eq!(copy, state);
    let (resp, close, entry) = run(&mut state, &mut messages, "N0CALL-1", "/ex");
    assert_eq!((resp.as_str(), close, entry), ("Message saved.\nCmd: ", false, None));
    assert_eq!(state, MailboxState::Command);
    assert_eq!(
        messages,
        vec![MailboxMessage {
            id: 1,
            to: "KD3BFP-5".to_string(),
            from: "N0CALL-1".to_string(),
            subject: "Hello".to_string(),
            body: "first\n\nb".to_string(),
            timestamp: TS.to_string(),
            read: false,
        }]
    );
    let (resp, _, _) = run(&mut state, &mut messages, "N0CALL-1", "R 1");
    assert_eq!(resp, "To: KD3BFP-5\nSubject: Hello\n\nfirst\n\nb\nCmd: ");
    assert!(run(&mut state, &mut messages, "N0CALL-1", "L").0.contains("Hello"));
    let (resp, _, _) = run(&mut state, &mut messages, "OTHER-1", "R 1");
    assert_eq!(resp, "No such message.\nCmd: ");
}

#[test]
fn send_needs_a_recipient() {
    let mut messages = Vec::new();
    for line in ["S", "send", " S  "] {
        let mut state = MailboxState::Command;
        let (resp, close, _) = run(&mut state, &mut messages, "N0CALL-1", line);
        assert_eq!((resp.as_str(), close), ("Usage: S <call>\nCmd: ", false));
        assert_eq!(state, MailboxState::Command);
    }
    let mut state = MailboxState::Command;
    run(&mut state, &mut messages, "N0CALL-1", "send kd3bfp-5");
    assert_eq!(state, MailboxState::AwaitingSubject { to: "KD3BFP-5".to_string() });
    assert!(messages.is_empty());
}

#[test]
fn messages_are_numbered_behind_the_largest() {
    let body = MailboxState::AwaitingBody { to: "A".to_string(), subject: "s".to_string(), lines: vec![] };
    let mut messages = vec![
        MailboxMessage { id: 7, to: "B".to_string(), from: "X".to_string(), subject: "x".to_string(), body: "x".to_string(), timestamp: TS.to_string(), read: true },
        MailboxMessage { id: 3, to: "B".to_string(), from: "X".to_string(), subject: "x".to_string(), body: "x".to_string(), timestamp: TS.to_string(), read: true },
    ];
    let mut state = body.clone();
    run(&mut state, &mut messages, "N0CALL-1", "/EX");
    assert_eq!((messages.len(), messages[2].id, messages[2].body.as_str()), (3, 8, ""));
    messages[0].id = u64::MAX;
    let mut state = body;
    let (resp, _, _) = run(&mut state, &mut messages, "N0CALL-1", "/EX");
    assert_eq!((resp.as_str(), messages.len()), ("No room for the message.\nCmd: ", 3));
    assert_eq!(state, MailboxState::Command);
}
