use synapse::message::{Message, Role};
use synapse::session::{SessionSummary, StoredMessage};
use synapse::telegram::commands::{
    delete_reply, format_history, format_session_list, new_session_reply, parse_callback_data,
    parse_session_arg, session_at, session_buttons, switch_reply,
};
use synapse::telegram::handlers::{
    active_session_of, chat_conversation, chat_id_of_session_name, chat_session_cap, chunk_message, config_allows, is_authorized,
    tg_session_name, ChatSessions, DeleteOutcome,
};
use synapse::telegram::startup::{chat_map_from_sessions, resolve_bot_token};
use synapse::config::{Config, TelegramConfig};
use synapse::text::truncate;

fn new_id() -> u128 {
    uuid::Uuid::new_v4().as_u128()
}

fn make_stored_message(role: Role, content: &str) -> StoredMessage {
    StoredMessage::new(new_id(), role, content)
}

fn summary(id: u128, preview: Option<&str>, msg_count: u32) -> SessionSummary {
    SessionSummary {
        id,
        name: Some("tg:123".to_string()),
        provider: "deepseek".to_string(),
        model: "deepseek-chat".to_string(),
        created_at: 1_700_000_000_000_000,
        updated_at: 1_700_000_000_000_000,
        message_count: msg_count,
        preview: preview.map(|s| s.to_string()),
    }
}

#[test]
fn commands_test_truncate_content_short() {
    let content = "0123456789";
    let result = truncate(content, 150);
    assert_eq!(result, content);
    assert!(!result.ends_with("..."));
}

#[test]
fn commands_test_truncate_content_exact_limit() {
    let content = "a".repeat(150);
    let result = truncate(&content, 150);
    assert_eq!(result, content);
    assert!(!result.ends_with("..."), "Exact limit should not be truncated");
}

#[test]
fn commands_test_truncate_content_over_limit() {
    let content = "a".repeat(151);
    let result = truncate(&content, 150);
    assert_eq!(result.chars().count(), 150);
    assert!(result.ends_with("..."));
}

#[test]
fn commands_test_truncate_content_long() {
    let content = "b".repeat(500);
    let result = truncate(&content, 150);
    assert_eq!(result.chars().count(), 150);
    assert!(result.ends_with("..."));
}

#[test]
fn commands_test_truncate_content_empty() {
    let result = truncate("", 150);
    assert_eq!(result, "");
    assert!(!result.ends_with("..."));
}

#[test]
fn commands_test_format_history_filters_system_and_tool() {
    let messages = vec![
        make_stored_message(Role::User, "user msg"),
        make_stored_message(Role::Assistant, "assistant msg"),
        make_stored_message(Role::System, "system prompt"),
        make_stored_message(Role::Tool, "tool result"),
    ];
    let output = format_history(&messages);
    assert!(output.contains("You"), "Should contain 'You'");
    assert!(output.contains("Assistant"), "Should contain 'Assistant'");
    assert!(!output.contains("System"), "Should NOT contain 'System'");
    assert!(!output.contains("Tool"), "Should NOT contain 'Tool'");
}

#[test]
fn commands_test_format_history_keeps_user_and_assistant() {
    let mut messages = Vec::new();
    for i in 0..3 {
        messages.push(make_stored_message(Role::User, &format!("user {}", i)));
        messages.push(make_stored_message(Role::Assistant, &format!("assistant {}", i)));
    }
    let output = format_history(&messages);
    for i in 0..3 {
        assert!(output.contains(&format!("user {}", i)));
        assert!(output.contains(&format!("assistant {}", i)));
    }
}

#[test]
fn commands_test_format_history_last_10_limit() {
    let mut messages: Vec<StoredMessage> = Vec::new();
    for i in 1..=5 {
        let role = if i % 2 == 0 { Role::Assistant } else { Role::User };
        messages.push(make_stored_message(role, &format!("early-{}", i)));
    }
    for i in 1..=10 {
        let role = if i % 2 == 0 { Role::Assistant } else { Role::User };
        messages.push(make_stored_message(role, &format!("recent-{}", i)));
    }
    let output = format_history(&messages);
    for i in 1..=5 {
        assert!(!output.contains(&format!("early-{}", i)), "early-{} should be absent (not in last 10)", i);
    }
    for i in 1..=10 {
        assert!(output.contains(&format!("recent-{}", i)), "recent-{} should be present (in last 10)", i);
    }
}

#[test]
fn commands_test_format_history_fewer_than_10() {
    let messages = vec![
        make_stored_message(Role::User, "first"),
        make_stored_message(Role::Assistant, "second"),
        make_stored_message(Role::User, "third"),
    ];
    let output = format_history(&messages);
    assert!(output.contains("first"));
    assert!(output.contains("second"));
    assert!(output.contains("third"));
}

#[test]
fn commands_test_format_history_empty() {
    let messages = vec![
        make_stored_message(Role::System, "system only"),
        make_stored_message(Role::Tool, "tool only"),
    ];
    let output = format_history(&messages);
    assert_eq!(output, "", "Only System/Tool messages should yield empty string");
}

#[test]
fn commands_test_format_history_truncates_long_content() {
    let long_content = "x".repeat(200);
    let messages = vec![make_stored_message(Role::Assistant, &long_content)];
    let output = format_history(&messages);
    assert!(output.contains("..."), "Long content should be truncated with ...");
    let content_line = output.lines().nth(1).unwrap_or("");
    assert!(content_line.chars().count() <= 153, "Truncated content portion should be at most 153 chars (150 + ...)");
}

#[test]
fn commands_test_parse_session_arg_empty() {
    assert_eq!(parse_session_arg(""), Ok(None));
}

#[test]
fn commands_test_parse_session_arg_whitespace() {
    assert_eq!(parse_session_arg("  "), Ok(None));
}

#[test]
fn commands_test_parse_session_arg_numeric() {
    assert_eq!(parse_session_arg("3"), Ok(Some(3)));
}

#[test]
fn commands_test_parse_session_arg_zero() {
    assert_eq!(parse_session_arg("0"), Ok(Some(0)));
}

#[test]
fn commands_test_parse_session_arg_non_numeric() {
    let result = parse_session_arg("abc");
    assert!(result.is_err());
    assert!(result.unwrap_err().contains("Invalid argument"));
}

#[test]
fn commands_test_parse_session_arg_negative() {
    let result = parse_session_arg("-1");
    assert!(result.is_err());
    assert!(result.unwrap_err().contains("Invalid argument"));
}

#[test]
fn commands_test_defensive_guard_slash_detection() {
    assert!("/".starts_with('/'));
    assert!("/foo".starts_with('/'));
    assert!("/switch".starts_with('/'));
    assert!(!"hello".starts_with('/'));
}

#[test]
fn commands_test_chat_sessions_active_session_id_non_empty() {
    let id = new_id();
    let cs = ChatSessions::new(id);
    assert_eq!(cs.active_session_id(), Some(id));
}

#[test]
fn commands_test_chat_sessions_active_session_id_empty() {
    let cs = ChatSessions { sessions: vec![], active_idx: 0 };
    assert_eq!(cs.active_session_id(), None);
}

#[test]
fn commands_test_chat_sessions_active_session_id_multiple() {
    let id0 = new_id();
    let id1 = new_id();
    let cs = ChatSessions { sessions: vec![id0, id1], active_idx: 1 };
    assert_eq!(cs.active_session_id(), Some(id1));
}

#[test]
fn commands_test_session_cap_evicts_last_when_at_cap() {
    let id_old = new_id();
    let id_new = new_id();
    let mut cs = ChatSessions::new(id_old);
    let cap = 1usize;
    let evicted_id = cs.evict_oldest(cap);
    cs.add_new(id_new);
    assert_eq!(evicted_id, Some(id_old));
    assert_eq!(cs.sessions.len(), 1);
    assert_eq!(cs.sessions[0], id_new);
    assert_eq!(cs.active_idx, 0);
}

#[test]
fn commands_test_session_cap_no_eviction_when_below_cap() {
    let id_existing = new_id();
    let id_new = new_id();
    let mut cs = ChatSessions::new(id_existing);
    let cap = 10usize;
    let evicted_id = cs.evict_oldest(cap);
    cs.add_new(id_new);
    assert_eq!(evicted_id, None);
    assert_eq!(cs.sessions.len(), 2);
    assert_eq!(cs.sessions[0], id_new);
}

#[test]
fn commands_test_index_validation_zero_is_invalid() {
    let sessions = [summary(new_id(), None, 0)];
    let n = 0usize;
    assert!(n == 0 || n > sessions.len());
    assert!(session_at(&sessions, n).is_err());
}

#[test]
fn commands_test_index_validation_valid_index() {
    let sessions = [summary(new_id(), None, 0), summary(new_id(), None, 0)];
    let n = 1usize;
    assert!(n >= 1 && n <= sessions.len());
    assert_eq!(session_at(&sessions, n), Ok(sessions[0].id));
}

#[test]
fn commands_test_index_validation_exceeds_count() {
    let sessions = [summary(new_id(), None, 0)];
    let n = 99usize;
    assert!(n == 0 || n > sessions.len());
    assert_eq!(
        session_at(&sessions, n),
        Err("Invalid session index 99. Use /list to see available sessions.".to_string())
    );
}

#[test]
fn commands_test_delete_active_session_switches_to_index_0() {
    let id0 = new_id();
    let id1 = new_id();
    let mut cs = ChatSessions { sessions: vec![id0, id1], active_idx: 0 };
    let outcome = cs.remove_session(id0);
    assert_eq!(outcome, DeleteOutcome::SwitchedToFirst);
    assert_eq!(cs.active_idx, 0);
    assert_eq!(cs.active_session_id(), Some(id1));
}

#[test]
fn commands_test_delete_non_active_below_active_decrements_active_idx() {
    let id0 = new_id();
    let id1 = new_id();
    let id2 = new_id();
    let mut cs = ChatSessions { sessions: vec![id0, id1, id2], active_idx: 2 };
    let outcome = cs.remove_session(id0);
    assert_eq!(outcome, DeleteOutcome::Kept);
    assert_eq!(cs.active_idx, 1);
    assert_eq!(cs.active_session_id(), Some(id2));
}

#[test]
fn commands_test_delete_non_active_above_active_no_change() {
    let id0 = new_id();
    let id1 = new_id();
    let id2 = new_id();
    let mut cs = ChatSessions { sessions: vec![id0, id1, id2], active_idx: 0 };
    let outcome = cs.remove_session(id2);
    assert_eq!(outcome, DeleteOutcome::Kept);
    assert_eq!(cs.active_idx, 0);
    assert_eq!(cs.active_session_id(), Some(id0));
}

#[test]
fn tests_test_truncate_content_short() {
    let content = "0123456789";
    let result = truncate(content, 150);
    assert_eq!(result, content);
    assert!(!result.ends_with("..."));
}

#[test]
fn tests_test_truncate_content_exact_limit() {
    let content = "a".repeat(150);
    let result = truncate(&content, 150);
    assert_eq!(result, content);
    assert!(!result.ends_with("..."), "Exact limit should not be truncated");
}

#[test]
fn tests_test_truncate_content_over_limit() {
    let content = "a".repeat(151);
    let result = truncate(&content, 150);
    assert_eq!(result.chars().count(), 150);
    assert!(result.ends_with("..."));
}

#[test]
fn tests_test_truncate_content_long() {
    let content = "b".repeat(500);
    let result = truncate(&content, 150);
    assert_eq!(result.chars().count(), 150);
    assert!(result.ends_with("..."));
}

#[test]
fn tests_test_truncate_content_empty() {
    let result = truncate("", 150);
    assert_eq!(result, "");
    assert!(!result.ends_with("..."));
}

#[test]
fn tests_test_format_history_filters_system_and_tool() {
    let messages = vec![
        make_stored_message(Role::User, "user msg"),
        make_stored_message(Role::Assistant, "assistant msg"),
        make_stored_message(Role::System, "system prompt"),
        make_stored_message(Role::Tool, "tool result"),
    ];
    let output = format_history(&messages);
    assert!(output.contains("You"), "Should contain 'You'");
    assert!(output.contains("Assistant"), "Should contain 'Assistant'");
    assert!(!output.contains("System"), "Should NOT contain 'System'");
    assert!(!output.contains("Tool"), "Should NOT contain 'Tool'");
}

#[test]
fn tests_test_format_history_keeps_user_and_assistant() {
    let mut messages = Vec::new();
    for i in 0..3 {
        messages.push(make_stored_message(Role::User, &format!("user {}", i)));
        messages.push(make_stored_message(Role::Assistant, &format!("assistant {}", i)));
    }
    let output = format_history(&messages);
    for i in 0..3 {
        assert!(output.contains(&format!("user {}", i)));
        assert!(output.contains(&format!("assistant {}", i)));
    }
}

#[test]
fn tests_test_format_history_last_10_limit() {
    let mut messages: Vec<StoredMessage> = Vec::new();
    for i in 1..=5 {
        let role = if i % 2 == 0 { Role::Assistant } else { Role::User };
        messages.push(make_stored_message(role, &format!("early-{}", i)));
    }
    for i in 1..=10 {
        let role = if i % 2 == 0 { Role::Assistant } else { Role::User };
        messages.push(make_stored_message(role, &format!("recent-{}", i)));
    }
    let output = format_history(&messages);
    for i in 1..=5 {
        assert!(!output.contains(&format!("early-{}", i)), "early-{} should be absent (not in last 10)", i);
    }
    for i in 1..=10 {
        assert!(output.contains(&format!("recent-{}", i)), "recent-{} should be present (in last 10)", i);
    }
}

#[test]
fn tests_test_format_history_fewer_than_10() {
    let messages = vec![
        make_stored_message(Role::User, "first"),
        make_stored_message(Role::Assistant, "second"),
        make_stored_message(Role::User, "third"),
    ];
    let output = format_history(&messages);
    assert!(output.contains("first"));
    assert!(output.contains("second"));
    assert!(output.contains("third"));
}

#[test]
fn tests_test_format_history_empty() {
    let messages = vec![
        make_stored_message(Role::System, "system only"),
        make_stored_message(Role::Tool, "tool only"),
    ];
    let output = format_history(&messages);
    assert_eq!(output, "", "Only System/Tool messages should yield empty string");
}

#[test]
fn tests_test_format_history_truncates_long_content() {
    let long_content = "x".repeat(200);
    let messages = vec![make_stored_message(Role::Assistant, &long_content)];
    let output = format_history(&messages);
    assert!(output.contains("..."), "Long content should be truncated with ...");
    let content_line = output.lines().nth(1).unwrap_or("");
    assert!(content_line.chars().count() <= 153, "Truncated content portion should be at most 153 chars (150 + ...)");
}

#[test]
fn tests_test_parse_session_arg_empty() {
    assert_eq!(parse_session_arg(""), Ok(None));
}

#[test]
fn tests_test_parse_session_arg_whitespace() {
    assert_eq!(parse_session_arg("  "), Ok(None));
}

#[test]
fn tests_test_parse_session_arg_numeric() {
    assert_eq!(parse_session_arg("3"), Ok(Some(3)));
}

#[test]
fn tests_test_parse_session_arg_zero() {
    assert_eq!(parse_session_arg("0"), Ok(Some(0)));
}

#[test]
fn tests_test_parse_session_arg_non_numeric() {
    let result = parse_session_arg("abc");
    assert!(result.is_err());
    assert!(result.unwrap_err().contains("Invalid argument"));
}

#[test]
fn tests_test_parse_session_arg_negative() {
    let result = parse_session_arg("-1");
    assert!(result.is_err());
    assert!(result.unwrap_err().contains("Invalid argument"));
}

#[test]
fn tests_test_defensive_guard_slash_detection() {
    assert!("/".starts_with('/'));
    assert!("/foo".starts_with('/'));
    assert!("/switch".starts_with('/'));
    assert!(!"hello".starts_with('/'));
}

#[test]
fn tests_test_chat_sessions_active_session_id_non_empty() {
    let id = new_id();
    let cs = ChatSessions::new(id);
    assert_eq!(cs.active_session_id(), Some(id));
}

#[test]
fn tests_test_chat_sessions_active_session_id_empty() {
    let cs = ChatSessions { sessions: vec![], active_idx: 0 };
    assert_eq!(cs.active_session_id(), None);
}

#[test]
fn tests_test_chat_sessions_active_session_id_multiple() {
    let id0 = new_id();
    let id1 = new_id();
    let cs = ChatSessions { sessions: vec![id0, id1], active_idx: 1 };
    assert_eq!(cs.active_session_id(), Some(id1));
}

#[test]
fn tests_test_session_cap_evicts_last_when_at_cap() {
    let id_old = new_id();
    let id_new = new_id();
    let mut cs = ChatSessions::new(id_old);
    let cap = 1usize;
    let evicted_id = cs.evict_oldest(cap);
    cs.add_new(id_new);
    assert_eq!(evicted_id, Some(id_old));
    assert_eq!(cs.sessions.len(), 1);
    assert_eq!(cs.sessions[0], id_new);
    assert_eq!(cs.active_idx, 0);
}

#[test]
fn tests_test_session_cap_no_eviction_when_below_cap() {
    let id_existing = new_id();
    let id_new = new_id();
    let mut cs = ChatSessions::new(id_existing);
    let cap = 10usize;
    let evicted_id = cs.evict_oldest(cap);
    cs.add_new(id_new);
    assert_eq!(evicted_id, None);
    assert_eq!(cs.sessions.len(), 2);
    assert_eq!(cs.sessions[0], id_new);
}

#[test]
fn tests_test_index_validation_zero_is_invalid() {
    let sessions = [summary(new_id(), None, 0)];
    let n = 0usize;
    assert!(n == 0 || n > sessions.len());
    assert!(session_at(&sessions, n).is_err());
}

#[test]
fn tests_test_index_validation_valid_index() {
    let sessions = [summary(new_id(), None, 0), summary(new_id(), None, 0)];
    let n = 1usize;
    assert!(n >= 1 && n <= sessions.len());
    assert_eq!(session_at(&sessions, n), Ok(sessions[0].id));
}

#[test]
fn tests_test_index_validation_exceeds_count() {
    let sessions = [summary(new_id(), None, 0)];
    let n = 99usize;
    assert!(n == 0 || n > sessions.len());
    assert_eq!(
        session_at(&sessions, n),
        Err("Invalid session index 99. Use /list to see available sessions.".to_string())
    );
}

#[test]
fn tests_test_delete_active_session_switches_to_index_0() {
    let id0 = new_id();
    let id1 = new_id();
    let mut cs = ChatSessions { sessions: vec![id0, id1], active_idx: 0 };
    let outcome = cs.remove_session(id0);
    assert_eq!(outcome, DeleteOutcome::SwitchedToFirst);
    assert_eq!(cs.active_idx, 0);
    assert_eq!(cs.active_session_id(), Some(id1));
}

#[test]
fn tests_test_delete_non_active_below_active_decrements_active_idx() {
    let id0 = new_id();
    let id1 = new_id();
    let id2 = new_id();
    let mut cs = ChatSessions { sessions: vec![id0, id1, id2], active_idx: 2 };
    let outcome = cs.remove_session(id0);
    assert_eq!(outcome, DeleteOutcome::Kept);
    assert_eq!(cs.active_idx, 1);
    assert_eq!(cs.active_session_id(), Some(id2));
}

#[test]
fn tests_test_delete_non_active_above_active_no_change() {
    let id0 = new_id();
    let id1 = new_id();
    let id2 = new_id();
    let mut cs = ChatSessions { sessions: vec![id0, id1, id2], active_idx: 0 };
    let outcome = cs.remove_session(id2);
    assert_eq!(outcome, DeleteOutcome::Kept);
    assert_eq!(cs.active_idx, 0);
    assert_eq!(cs.active_session_id(), Some(id0));
}

#[test]
fn test_parse_callback_data_valid_switch() {
    assert_eq!(parse_callback_data("switch:2"), Some(("switch".to_string(), 2)));
}

#[test]
fn test_parse_callback_data_valid_delete() {
    assert_eq!(parse_callback_data("delete:1"), Some(("delete".to_string(), 1)));
}

#[test]
fn test_parse_callback_data_invalid_no_colon() {
    assert_eq!(parse_callback_data("switch2"), None);
}

#[test]
fn test_parse_callback_data_invalid_non_numeric() {
    assert_eq!(parse_callback_data("switch:abc"), None);
}

#[test]
fn test_build_session_keyboard_callback_data() {
    let s1 = summary(new_id(), Some("Session A"), 5);
    let s2 = summary(new_id(), Some("Session B"), 3);
    let rows = session_buttons("switch", &[s1, s2], None);
    assert_eq!(rows.len(), 2);
    assert_eq!(rows[0].1, "switch:1");
    assert_eq!(rows[1].1, "switch:2");
}

#[test]
fn test_build_session_keyboard_active_marker() {
    let id2 = new_id();
    let s1 = summary(new_id(), Some("First"), 1);
    let s2 = summary(id2, Some("Second"), 2);
    let rows = session_buttons("switch", &[s1, s2], Some(id2));
    let label1 = &rows[0].0;
    let label2 = &rows[1].0;
    assert!(label2.contains('*'), "Second button should have '*' marker");
    assert!(!label1.contains('*'), "First button should not have '*' marker");
}

#[test]
fn test_build_session_keyboard_empty_sessions() {
    let rows = session_buttons("delete", &[], None);
    assert!(rows.is_empty(), "Empty sessions should produce no keyboard rows");
}

#[test]
fn keyboard_label_and_list_line_exact() {
    let id = new_id();
    let s = summary(id, Some("A fairly long first message here"), 4);
    let rows = session_buttons("delete", &[s.clone()], Some(id));
    assert_eq!(rows[0].0, "1. [*] 2023-11-14 | 4 msgs | A fairly long fir...");
    assert_eq!(rows[0].1, "delete:1");
    let list = format_session_list(&[s], None);
    assert_eq!(list, "1. [ ] 2023-11-14 22:13 | 4 msgs | A fairly long first message here\n");
}

#[test]
fn replies_text() {
    assert_eq!(switch_reply(3), "Switched to session 3.");
    assert_eq!(delete_reply(2, DeleteOutcome::Emptied), "Session 2 deleted. New session created.");
    assert_eq!(delete_reply(2, DeleteOutcome::SwitchedToFirst), "Session 2 deleted. Switched to session 1.");
    assert_eq!(delete_reply(2, DeleteOutcome::Kept), "Session 2 deleted.");
    assert_eq!(new_session_reply(false), "New session created.");
    assert_eq!(
        new_session_reply(true),
        "New session created. Oldest session removed to stay within the session limit."
    );
}

#[test]
fn history_entry_exact() {
    let mut m = make_stored_message(Role::User, "hi");
    m.timestamp = 0;
    assert_eq!(format_history(&[m]), "[You] 1970-01-01 00:00\nhi\n\n");
}

#[test]
fn test_is_authorized_user_in_list() {
    let allowed = vec![123456789u64, 987654321u64];
    assert!(is_authorized(123456789, &allowed));
}

#[test]
fn test_is_authorized_user_not_in_list() {
    let allowed = vec![123456789u64];
    assert!(!is_authorized(999999999, &allowed));
}

#[test]
fn test_is_authorized_empty_list() {
    let allowed: Vec<u64> = vec![];
    assert!(!is_authorized(123456789, &allowed));
}

#[test]
fn test_chunk_short_message() {
    let text = "Hello, world!";
    let chunks = chunk_message(text);
    assert_eq!(chunks.len(), 1);
    assert_eq!(chunks[0], text);
}

#[test]
fn test_chunk_long_message() {
    let text = "a".repeat(5000);
    let chunks = chunk_message(&text);
    assert!(chunks.len() > 1);
    for chunk in &chunks {
        assert!(chunk.len() <= 4096);
    }
    let joined: String = chunks.join("");
    assert_eq!(joined, text);
}

#[test]
fn test_chunk_at_boundary() {
    let part1 = "a".repeat(3000);
    let part2 = "b".repeat(3000);
    let text = format!("{}\n\n{}", part1, part2);
    let chunks = chunk_message(&text);
    assert!(chunks.len() >= 2);
    for chunk in &chunks {
        assert!(chunk.len() <= 4096);
    }
}

#[test]
fn test_chunk_message_multibyte() {
    let text = "Привет мир ".repeat(400);
    let chunks = chunk_message(&text);
    assert!(chunks.len() >= 2);
    for chunk in chunks {
        assert!(chunk.len() <= 4096);
        let _ = chunk.chars().count();
    }
}

#[test]
fn chunk_message_cuts_after_first_newline_of_blank_line() {
    let text = format!("{}\n\n{}", "a".repeat(3000), "b".repeat(3000));
    let chunks = chunk_message(&text);
    assert_eq!(chunks, vec![format!("{}\n", "a".repeat(3000)), "b".repeat(3000)]);
}

#[test]
fn chunk_message_hard_split_falls_on_a_character_boundary() {
    let text = "a".to_string() + &"é".repeat(2048);
    let chunks = chunk_message(&text);
    assert_eq!(chunks, vec!["a".to_string() + &"é".repeat(2047), "é".to_string()]);
    let text = "é".repeat(3000);
    let chunks = chunk_message(&text);
    assert_eq!(chunks[0].len(), 4096);
    let text = "\u{4E2D}".repeat(2000);
    let chunks = chunk_message(&text);
    assert_eq!(chunks.len(), 2);
    assert_eq!(chunks[0].len(), 4095);
    assert_eq!(chunks.concat(), text);
}

#[test]
fn session_names_and_chat_map() {
    assert_eq!(tg_session_name(-1001234), "tg:-1001234");
    assert_eq!(chat_id_of_session_name("tg:42"), Some(42));
    assert_eq!(chat_id_of_session_name("tg:x"), None);
    assert_eq!(chat_id_of_session_name("cli"), None);
    let a = new_id();
    let b = new_id();
    let c = new_id();
    let mut s1 = summary(a, None, 0);
    s1.name = Some("tg:7".to_string());
    let mut s2 = summary(b, None, 0);
    s2.name = Some("other".to_string());
    let mut s3 = summary(c, None, 0);
    s3.name = Some("tg:7".to_string());
    let map = chat_map_from_sessions(&[s1, s2, s3]);
    assert_eq!(map.len(), 1);
    assert_eq!(map[&7].sessions, vec![a, c]);
    assert_eq!(map[&7].active_idx, 0);
}

#[test]
fn bot_token_sources() {
    let config = Config {
        telegram: Some(TelegramConfig { token: Some("config-token".to_string()), ..TelegramConfig::default() }),
        ..Config::default()
    };
    assert_eq!(resolve_bot_token(Some("env-token-value".to_string()), &config).unwrap(), "env-token-value");
    assert_eq!(resolve_bot_token(Some(String::new()), &config).unwrap(), "config-token");
    assert!(resolve_bot_token(None, &Config::default()).unwrap_err().contains("Bot token required"));
}

#[test]
fn allow_list_and_cap_from_config() {
    assert!(!config_allows(123, &Config::default()));
    assert_eq!(chat_session_cap(&Config::default()), 10);
    let config = Config {
        telegram: Some(TelegramConfig {
            allowed_users: vec![123, 456],
            max_sessions_per_chat: 3,
            ..TelegramConfig::default()
        }),
        ..Config::default()
    };
    assert!(config_allows(456, &config));
    assert!(!config_allows(789, &config));
    assert_eq!(chat_session_cap(&config), 3);
}

#[test]
fn new_session_stays_within_cap() {
    let mut cs = ChatSessions::new(1);
    cs.add_new(2);
    cs.add_new(3);
    assert_eq!(cs.evict_oldest(3), Some(1));
    cs.add_new(4);
    assert_eq!(cs.sessions, vec![4, 3, 2]);
    assert_eq!(cs.active_session_id(), Some(4));
    assert_eq!(cs.evict_oldest(5), None);
    assert_eq!(cs.sessions.len(), 3);
}

#[test]
fn cut_message_keeps_all_but_newlines() {
    let text = format!("{}\n\n\n{}\n{}", "a".repeat(3000), "b ".repeat(1500), "c".repeat(2000));
    let pieces = chunk_message(&text);
    assert!(pieces.len() >= 2);
    for p in &pieces {
        assert!(p.len() <= 4096);
    }
    assert_eq!(pieces.concat().replace('\n', ""), text.replace('\n', ""));
}

#[test]
fn chat_conversation_appends_the_user_text() {
    let stored = vec![
        make_stored_message(Role::User, "hi"),
        make_stored_message(Role::Assistant, "hello"),
    ];
    let conv = chat_conversation(&stored, "next");
    assert_eq!(
        conv,
        vec![
            Message::new(Role::User, "hi"),
            Message::new(Role::Assistant, "hello"),
            Message::new(Role::User, "next"),
        ]
    );
    assert_eq!(chat_conversation(&[], "only"), vec![Message::new(Role::User, "only")]);
}

#[test]
fn active_session_of_looks_up_the_chat() {
    let mut map = std::collections::HashMap::new();
    map.insert(5i64, ChatSessions::new(42));
    map.insert(6i64, ChatSessions { sessions: vec![], active_idx: 0 });
    assert_eq!(active_session_of(&map, 5), Some(42));
    assert_eq!(active_session_of(&map, 6), None);
    assert_eq!(active_session_of(&map, 7), None);
}
