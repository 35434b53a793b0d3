//! Tests for the summary and transcript formats, paths, fingerprints, the
//! backend-call helpers, and the connection registry.

use sshllm::auth::fingerprint_of_key;
use sshllm::llm::{bearer_value, chat_completions_url, extract_reply};
use sshllm::logger::ClientLogger;
use sshllm::registry::Registry;
use sshllm::summary::{parse_summary, render_summary, set_user_name, update_session_start, UserSummary};
use sshllm::transcript::{parse_transcript, transcript_line};

use sha2::Digest;

#[test]
fn summary_save_then_load_round_trips_name_and_count() {
    let summary = UserSummary {
        name: Some("Ada Lovelace".to_string()),
        total_sessions: 12,
    };
    let text = render_summary(&summary, "2024-05-06T07:08:09+00:00");
    let back = parse_summary(&text);
    assert_eq!(back.name.as_deref(), Some("Ada Lovelace"));
    assert_eq!(back.total_sessions, 12);
}

#[test]
fn n_consecutive_session_starts_count_to_n() {
    let mut stored: Option<String> = None;
    let mut last = UserSummary::default();
    for expected in 1..=5u32 {
        last = update_session_start(stored.as_deref());
        assert_eq!(last.total_sessions, expected);
        stored = Some(render_summary(&last, "2024-05-06T07:08:09+00:00"));
    }
    assert_eq!(last.total_sessions, 5);
}

#[test]
fn missing_file_defaults_to_zero_sessions_and_no_name() {
    let s = update_session_start(None);
    assert_eq!(s.total_sessions, 1);
    assert!(s.name.is_none());
}

#[test]
fn parse_summary_ignores_unknown_keys_and_junk() {
    let s = parse_summary("color: blue\nname: Grace\nnonsense line\ntotal_sessions: 4\n");
    assert_eq!(s.name.as_deref(), Some("Grace"));
    assert_eq!(s.total_sessions, 4);
}

#[test]
fn parse_summary_keys_are_case_insensitive_and_later_lines_win() {
    let s = parse_summary("Name: First\nNAME: Second\nTotal_Sessions: 9\n");
    assert_eq!(s.name.as_deref(), Some("Second"));
    assert_eq!(s.total_sessions, 9);
}

#[test]
fn malformed_session_counts_read_as_zero() {
    assert_eq!(parse_summary("total_sessions: many\n").total_sessions, 0);
    assert_eq!(parse_summary("total_sessions: \n").total_sessions, 0);
    assert_eq!(parse_summary("total_sessions: 99999999999\n").total_sessions, 0);
    assert_eq!(parse_summary("total_sessions: 4294967295\n").total_sessions, u32::MAX);
}

#[test]
fn session_count_accepts_a_leading_plus_sign() {
    assert_eq!(parse_summary("total_sessions: +5\n").total_sessions, 5);
}

#[test]
fn session_count_saturates_at_the_maximum() {
    let text = format!("total_sessions: {}\n", u32::MAX);
    let s = update_session_start(Some(&text));
    assert_eq!(s.total_sessions, u32::MAX);
}

#[test]
fn names_with_colons_round_trip_intact() {
    let summary = UserSummary {
        name: Some("He:llo [there]".to_string()),
        total_sessions: 2,
    };
    let text = render_summary(&summary, "2024-05-06T07:08:09+00:00");
    assert_eq!(parse_summary(&text).name.as_deref(), Some("He:llo [there]"));
}

#[test]
fn set_user_name_keeps_the_stored_count() {
    let text = "name: Old\ntotal_sessions: 8\nlast_seen: whenever\n";
    let s = set_user_name(Some(text), "New Name");
    assert_eq!(s.name.as_deref(), Some("New Name"));
    assert_eq!(s.total_sessions, 8);
}

#[test]
fn transcript_line_has_the_exact_format() {
    let line = transcript_line("12:34:56", "user", "hello: world] ok");
    assert_eq!(line, "[12:34:56] user: hello: world] ok\n");
}

#[test]
fn transcript_round_trips_and_clear_does_not_touch_it() {
    let mut text = String::new();
    text.push_str(&transcript_line("10:00:00", "user", "first"));
    text.push_str(&transcript_line("10:00:05", "assistant", "second"));
    let history = parse_transcript(&text);
    assert_eq!(
        history,
        vec![
            ("user".to_string(), "first".to_string()),
            ("assistant".to_string(), "second".to_string()),
        ]
    );
    // Re-reading the same text after a /clear of the in-memory history still
    // yields the prior lines: the transcript is untouched by clear.
    let again = parse_transcript(&text);
    assert_eq!(again, history);
}

#[test]
fn transcript_reload_drops_malformed_lines() {
    let text = "[10:00:00] user: ok\nno brackets here\n[no close\n[10:00:01] nocolon\n";
    let history = parse_transcript(text);
    assert_eq!(history, vec![("user".to_string(), "ok".to_string())]);
}

#[test]
fn transcript_reload_keeps_only_the_most_recent_twenty() {
    let mut text = String::new();
    for i in 0..25 {
        text.push_str(&transcript_line("09:00:00", "user", &format!("m{}", i)));
    }
    let history = parse_transcript(&text);
    assert_eq!(history.len(), 20);
    assert_eq!(history[0].1, "m5");
    assert_eq!(history[19].1, "m24");
}

#[test]
fn logger_paths_are_under_the_identity_directory() {
    let logger = ClientLogger::new("logs", "key_ab12");
    assert_eq!(logger.base_dir, "logs/key_ab12");
    assert_eq!(logger.summary_path(), "logs/key_ab12/summary.txt");
    assert_eq!(logger.chat_log_path("2024-01-02"), "logs/key_ab12/chat_2024-01-02.log");
}

#[test]
fn log_message_produces_a_parseable_line() {
    let logger = ClientLogger::new("logs", "10.0.0.1");
    let (path, line) = logger.log_message("user", "hi");
    assert!(path.starts_with("logs/10.0.0.1/chat_"));
    assert!(path.ends_with(".log"));
    let history = parse_transcript(&line);
    assert_eq!(history, vec![("user".to_string(), "hi".to_string())]);
}

#[test]
fn fingerprint_matches_a_directly_computed_digest() {
    let key = b"ssh-ed25519 AAAA test key material";
    let expected = format!("key_{}", hex::encode(sha2::Sha256::digest(key)));
    assert_eq!(fingerprint_of_key(key), expected);
}

#[test]
fn fingerprint_of_known_input_is_the_known_digest() {
    assert_eq!(
        fingerprint_of_key(b"abc"),
        "key_ba7816bf8f01cfea414140de5dae2223b00361a396177a9cb410ff61f20015ad"
    );
}

#[test]
fn chat_completions_url_appends_the_endpoint() {
    assert_eq!(
        chat_completions_url("http://localhost:8000/v1"),
        "http://localhost:8000/v1/chat/completions"
    );
}

#[test]
fn bearer_value_prefixes_the_credential() {
    assert_eq!(bearer_value("tok"), "Bearer tok");
}

#[test]
fn extract_reply_takes_the_first_choice_or_errors() {
    assert_eq!(
        extract_reply(vec!["one".to_string(), "two".to_string()]),
        Ok("one".to_string())
    );
    assert_eq!(
        extract_reply(Vec::new()),
        Err("No response from LLM".to_string())
    );
}

#[test]
fn crlf_normalization_doubles_bare_newlines() {
    assert_eq!(sshllm::text::crlf_lines("a\nb\n\nc"), "a\r\nb\r\n\r\nc");
    assert_eq!(sshllm::text::crlf_lines("no newline"), "no newline");
    assert_eq!(sshllm::text::crlf_lines(""), "");
}

#[test]
fn registry_open_get_close_lifecycle() {
    let mut reg = Registry::new();
    assert!(!reg.contains(7));
    reg.open(7, "10.1.2.3".to_string());
    assert!(reg.contains(7));
    assert_eq!(reg.get(7).unwrap().identity, "10.1.2.3");
    let mut st = reg.take(7).unwrap();
    let _ = st.term.feed_bytes(b"abc");
    reg.put(7, st);
    assert!(reg.contains(7));
    reg.close(7);
    assert!(!reg.contains(7));
    assert!(reg.get(7).is_none());
}
