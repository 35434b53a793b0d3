//! Tests for the terminal input state machine and the chat context manager.

use sshllm::chat::{ChatSession, InputAction, HISTORY_CAP};
use sshllm::llm::Role;
use sshllm::summary::UserSummary;
use sshllm::terminal::{InputEvent, TerminalInput};
use sshllm::Config;

fn test_config(prompt: &str) -> Config {
    Config {
        port: 2222,
        api_base_url: "http://localhost:8000/v1".to_string(),
        model: "default".to_string(),
        api_key: None,
        system_prompt: prompt.to_string(),
        logs_dir: "logs".to_string(),
        host_key_path: None,
    }
}

fn fresh_session(prompt: &str, name: Option<&str>, sessions: u32) -> ChatSession {
    ChatSession::new(
        &test_config(prompt),
        UserSummary {
            name: name.map(|s| s.to_string()),
            total_sessions: sessions,
        },
        Vec::new(),
    )
}

#[test]
fn two_chunks_yield_one_completed_line() {
    let mut term = TerminalInput::new();
    let mut lines: Vec<String> = Vec::new();
    for ev in term.feed_bytes(b"hello\r") {
        if let InputEvent::Line(s) = ev {
            lines.push(s);
        }
    }
    for ev in term.feed_bytes(b"\n") {
        if let InputEvent::Line(s) = ev {
            lines.push(s);
        }
    }
    assert_eq!(lines.len(), 1);
    assert_eq!(lines[0], "hello");
}

#[test]
fn erase_count_never_exceeds_echo_count() {
    let mut term = TerminalInput::new();
    // More backspaces than buffered characters, interleaved with terminators.
    let evs = term.feed_bytes(b"ab\x7f\x7f\x7f\x7fcd\r\x7fz\x08\x08\x08");
    let mut echoes = 0;
    let mut erases = 0;
    for ev in evs {
        match ev {
            InputEvent::Echo(_) => echoes += 1,
            InputEvent::Erase => erases += 1,
            _ => {}
        }
    }
    assert!(erases <= echoes);
    assert_eq!(echoes, 5);
    assert_eq!(erases, 3);
}

#[test]
fn backspace_on_empty_buffer_is_ignored() {
    let mut term = TerminalInput::new();
    let evs = term.feed_bytes(b"\x7f\x08");
    assert!(evs.iter().all(|e| matches!(e, InputEvent::Ignored)));
}

#[test]
fn interrupt_stops_the_chunk() {
    let mut term = TerminalInput::new();
    let evs = term.feed_bytes(b"ab\x03cd");
    assert_eq!(evs.len(), 3);
    assert!(matches!(evs[0], InputEvent::Echo(b'a')));
    assert!(matches!(evs[1], InputEvent::Echo(b'b')));
    assert!(matches!(evs[2], InputEvent::Interrupt));
}

#[test]
fn line_content_is_trimmed_and_blank_lines_are_blank() {
    let mut term = TerminalInput::new();
    let evs = term.feed_bytes(b"  hi there  \r");
    match evs.last().unwrap() {
        InputEvent::Line(s) => assert_eq!(s, "hi there"),
        other => panic!("expected a completed line, got {:?}", other),
    }
    let evs = term.feed_bytes(b"   \n");
    assert!(matches!(evs.last().unwrap(), InputEvent::Blank));
}

#[test]
fn non_printable_bytes_are_ignored() {
    let mut term = TerminalInput::new();
    let evs = term.feed_bytes(&[0x01, 0x1b, 0x80, 0xff]);
    assert!(evs.iter().all(|e| matches!(e, InputEvent::Ignored)));
}

#[test]
fn empty_input_replies_empty_without_side_effects() {
    let mut session = fresh_session("base", None, 1);
    let act = session.process_input("   ");
    match act {
        InputAction::Reply(r) => assert_eq!(r, ""),
        other => panic!("expected an empty reply, got {:?}", other),
    }
    assert_eq!(session.messages.len(), 0);
}

#[test]
fn chat_turn_builds_prompt_and_records_user_message() {
    let mut session = fresh_session("base prompt", Some("Ada"), 3);
    let act = session.process_input("  hello there  ");
    match act {
        InputAction::CallBackend { prompt } => {
            assert_eq!(prompt.len(), 2);
            assert_eq!(prompt[0].role, Role::System);
            assert_eq!(
                prompt[0].content,
                "base prompt\n\nThe user's name is Ada. Address them by name occasionally.\nThis is session #3 with this user."
            );
            assert_eq!(prompt[1].role, Role::User);
            assert_eq!(prompt[1].content, "hello there");
        }
        other => panic!("expected a backend call, got {:?}", other),
    }
    assert_eq!(session.messages.len(), 1);
    assert_eq!(session.messages[0].role, Role::User);
    assert_eq!(session.messages[0].content, "hello there");
}

#[test]
fn second_prompt_contains_first_reply_in_order() {
    let mut session = fresh_session("base", None, 1);
    match session.process_input("first question") {
        InputAction::CallBackend { .. } => {}
        other => panic!("expected a backend call, got {:?}", other),
    }
    session.record_reply("first answer");
    match session.process_input("second question") {
        InputAction::CallBackend { prompt } => {
            assert_eq!(prompt.len(), 4);
            assert_eq!(prompt[1].role, Role::User);
            assert_eq!(prompt[1].content, "first question");
            assert_eq!(prompt[2].role, Role::Assistant);
            assert_eq!(prompt[2].content, "first answer");
            assert_eq!(prompt[3].role, Role::User);
            assert_eq!(prompt[3].content, "second question");
        }
        other => panic!("expected a backend call, got {:?}", other),
    }
}

#[test]
fn failed_backend_leaves_user_message_and_no_phantom_assistant() {
    let mut session = fresh_session("base", None, 1);
    match session.process_input("doomed question") {
        InputAction::CallBackend { .. } => {}
        other => panic!("expected a backend call, got {:?}", other),
    }
    // The backend failed: nothing is recorded.
    assert_eq!(session.messages.len(), 1);
    assert_eq!(session.messages[0].role, Role::User);
    match session.process_input("next question") {
        InputAction::CallBackend { prompt } => {
            let assistants: Vec<_> = prompt
                .iter()
                .filter(|m| m.role == Role::Assistant)
                .collect();
            assert!(assistants.is_empty());
        }
        other => panic!("expected a backend call, got {:?}", other),
    }
}

#[test]
fn cap_evicts_oldest_two_of_41_turns() {
    let mut session = fresh_session("base", None, 1);
    // 20 completed turns fill the window to its cap of 40; the 41st append
    // and its reply push past it, evicting the earliest two entries.
    for i in 0..21 {
        match session.process_input(&format!("question {}", i)) {
            InputAction::CallBackend { .. } => {}
            other => panic!("expected a backend call, got {:?}", other),
        }
        session.record_reply(&format!("answer {}", i));
    }
    assert_eq!(session.messages.len(), HISTORY_CAP);
    // The earliest two entries are gone; relative order is preserved.
    assert_eq!(session.messages[0].content, "question 1");
    assert_eq!(session.messages[1].content, "answer 1");
    assert_eq!(session.messages[38].content, "question 20");
    assert_eq!(session.messages[39].content, "answer 20");
}

#[test]
fn clear_empties_history_but_not_summary() {
    let mut session = fresh_session("base", Some("Ada"), 7);
    match session.process_input("hello") {
        InputAction::CallBackend { .. } => {}
        other => panic!("expected a backend call, got {:?}", other),
    }
    session.record_reply("hi");
    assert_eq!(session.messages.len(), 2);
    match session.process_input("/clear") {
        InputAction::Reply(r) => assert_eq!(r, "Chat history cleared."),
        other => panic!("expected a reply, got {:?}", other),
    }
    assert_eq!(session.messages.len(), 0);
    assert_eq!(session.user_summary.total_sessions, 7);
    assert_eq!(session.user_summary.name.as_deref(), Some("Ada"));
}

#[test]
fn set_name_confirms_and_welcome_uses_it() {
    let mut session = fresh_session("base", None, 1);
    match session.process_input("/set-name Ada") {
        InputAction::PersistName { name, reply } => {
            assert_eq!(name, "Ada");
            assert!(reply.contains("Ada"));
            assert_eq!(reply, "Nice to meet you, Ada!");
        }
        other => panic!("expected a persist-name action, got {:?}", other),
    }
    // A later session started with the stored name greets by name.
    let next = fresh_session("base", Some("Ada"), 2);
    let welcome = next.welcome_message();
    assert!(welcome.contains("Ada"));
    assert_eq!(welcome, "Welcome back, Ada! How can I help you today?");
}

#[test]
fn set_name_without_argument_shows_usage() {
    let mut session = fresh_session("base", None, 1);
    match session.process_input("/set-name") {
        InputAction::Reply(r) => assert_eq!(r, "Usage: /set-name <your name>"),
        other => panic!("expected a usage reply, got {:?}", other),
    }
    assert!(session.user_summary.name.is_none());
}

#[test]
fn commands_are_case_insensitive_and_quit_exits() {
    let mut session = fresh_session("base", None, 1);
    assert!(matches!(session.process_input("/QUIT"), InputAction::Quit));
    assert!(matches!(session.process_input("/Exit"), InputAction::Quit));
    match session.process_input("/HELP") {
        InputAction::Reply(r) => assert!(r.contains("/set-name")),
        other => panic!("expected the help text, got {:?}", other),
    }
}

#[test]
fn unknown_command_is_guidance_without_state_change() {
    let mut session = fresh_session("base", None, 1);
    match session.process_input("/frobnicate now") {
        InputAction::Reply(r) => {
            assert_eq!(r, "Unknown command. Type /help for available commands.")
        }
        other => panic!("expected guidance, got {:?}", other),
    }
    assert_eq!(session.messages.len(), 0);
}

#[test]
fn history_reload_normalizes_roles_and_drops_unknown() {
    let history = vec![
        ("user".to_string(), "q1".to_string()),
        ("ai".to_string(), "a1".to_string()),
        ("assistant".to_string(), "a2".to_string()),
        ("system".to_string(), "dropped".to_string()),
        ("garbage".to_string(), "dropped".to_string()),
    ];
    let session = ChatSession::new(
        &test_config("base"),
        UserSummary { name: None, total_sessions: 1 },
        history,
    );
    assert_eq!(session.messages.len(), 3);
    assert_eq!(session.messages[0].role, Role::User);
    assert_eq!(session.messages[0].content, "q1");
    assert_eq!(session.messages[1].role, Role::Assistant);
    assert_eq!(session.messages[1].content, "a1");
    assert_eq!(session.messages[2].role, Role::Assistant);
    assert_eq!(session.messages[2].content, "a2");
}

#[test]
fn welcome_without_name_invites_introduction() {
    let session = fresh_session("base", None, 1);
    assert_eq!(
        session.welcome_message(),
        "Welcome! Type /set-name <your name> to introduce yourself, or just start chatting!"
    );
}

#[test]
fn system_prompt_is_bare_for_first_anonymous_session() {
    let session = fresh_session("just the base", None, 1);
    assert_eq!(session.system_prompt(), "just the base");
}
