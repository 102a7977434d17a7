use synapse::agent::AgentError;
use synapse::cli::app::{
    handle_key_event, status_text, DisplayMessage, Key, KeyAction, KeyInput, LineKind, ReplApp,
    TurnOutcome,
};
use synapse::cli::commands::{list_header, session_row};
use synapse::message::{Message, Role};
use synapse::provider::{ProviderError, StreamEvent};
use synapse::session::SessionSummary;

fn new_app() -> ReplApp {
    ReplApp::new(uuid::Uuid::new_v4().as_u128(), "test", "test")
}

fn press(key: Key) -> KeyInput {
    KeyInput::Press { key, control: false }
}

#[test]
fn test_repl_app_new() {
    let id = uuid::Uuid::new_v4().as_u128();
    let app = ReplApp::new(id, "deepseek", "deepseek-chat");
    assert!(app.messages.is_empty());
    assert!(app.input.is_empty());
    assert_eq!(app.cursor_position, 0);
    assert_eq!(app.scroll_offset, 0);
    assert!(app.auto_scroll);
    assert!(!app.is_streaming);
    assert_eq!(app.session_id, id);
    assert!(app.status_message.is_none());
    assert_eq!(app.provider_name, "deepseek");
    assert_eq!(app.model_name, "deepseek-chat");
}

#[test]
fn test_insert_char() {
    let mut app = new_app();
    app.insert_char('h');
    app.insert_char('i');
    assert_eq!(app.input, "hi");
    assert_eq!(app.cursor_position, 2);
}

#[test]
fn test_insert_char_at_position() {
    let mut app = new_app();
    app.insert_char('a');
    app.insert_char('c');
    app.move_cursor_left();
    app.insert_char('b');
    assert_eq!(app.input, "abc");
    assert_eq!(app.cursor_position, 2);
}

#[test]
fn test_delete_char_before_cursor() {
    let mut app = new_app();
    app.insert_char('a');
    app.insert_char('b');
    app.insert_char('c');
    app.delete_char_before_cursor();
    assert_eq!(app.input, "ab");
    assert_eq!(app.cursor_position, 2);
}

#[test]
fn test_delete_char_at_beginning() {
    let mut app = new_app();
    app.insert_char('a');
    app.move_cursor_home();
    app.delete_char_before_cursor();
    assert_eq!(app.input, "a");
    assert_eq!(app.cursor_position, 0);
}

#[test]
fn test_cursor_movement() {
    let mut app = new_app();
    app.insert_char('a');
    app.insert_char('b');
    app.insert_char('c');
    assert_eq!(app.cursor_position, 3);
    app.move_cursor_left();
    assert_eq!(app.cursor_position, 2);
    app.move_cursor_left();
    assert_eq!(app.cursor_position, 1);
    app.move_cursor_right();
    assert_eq!(app.cursor_position, 2);
    app.move_cursor_home();
    assert_eq!(app.cursor_position, 0);
    app.move_cursor_end();
    assert_eq!(app.cursor_position, 3);
}

#[test]
fn test_cursor_bounds() {
    let mut app = new_app();
    app.move_cursor_left();
    assert_eq!(app.cursor_position, 0);
    app.insert_char('a');
    app.move_cursor_right();
    assert_eq!(app.cursor_position, 1);
}

#[test]
fn test_take_input() {
    let mut app = new_app();
    app.insert_char('h');
    app.insert_char('i');
    let input = app.take_input();
    assert_eq!(input, "hi");
    assert!(app.input.is_empty());
    assert_eq!(app.cursor_position, 0);
}

#[test]
fn test_is_quit_command() {
    assert!(ReplApp::is_quit_command("/quit"));
    assert!(ReplApp::is_quit_command("  /quit  "));
    assert!(!ReplApp::is_quit_command("/quit now"));
    assert!(!ReplApp::is_quit_command("quit"));
    assert!(!ReplApp::is_quit_command("hello"));
}

#[test]
fn test_scroll() {
    let mut app = new_app();
    assert!(app.auto_scroll);
    app.scroll_down();
    assert_eq!(app.scroll_offset, 1);
    assert!(app.auto_scroll);
    app.scroll_down();
    assert_eq!(app.scroll_offset, 2);
    app.scroll_up();
    assert_eq!(app.scroll_offset, 1);
    assert!(!app.auto_scroll);
    app.scroll_up();
    assert_eq!(app.scroll_offset, 0);
    app.scroll_up();
    assert_eq!(app.scroll_offset, 0);
}

#[test]
fn test_scroll_page() {
    let mut app = new_app();
    assert!(app.auto_scroll);
    app.scroll_page_down(10);
    assert_eq!(app.scroll_offset, 10);
    assert!(app.auto_scroll);
    app.scroll_page_down(10);
    assert_eq!(app.scroll_offset, 20);
    app.scroll_page_up(15);
    assert_eq!(app.scroll_offset, 5);
    assert!(!app.auto_scroll);
    app.scroll_page_up(10);
    assert_eq!(app.scroll_offset, 0);
}

#[test]
fn test_append_stream_delta() {
    let mut app = new_app();
    app.append_stream_delta("Hello");
    assert_eq!(app.messages.len(), 1);
    assert_eq!(app.messages[0].role, Role::Assistant);
    assert_eq!(app.messages[0].content, "Hello");
    app.append_stream_delta(", world!");
    assert_eq!(app.messages.len(), 1);
    assert_eq!(app.messages[0].content, "Hello, world!");
}

#[test]
fn test_append_stream_delta_after_user_message() {
    let mut app = new_app();
    app.messages.push(DisplayMessage { role: Role::User, content: "Hello".to_string() });
    app.append_stream_delta("Hi");
    assert_eq!(app.messages.len(), 2);
    assert_eq!(app.messages[1].role, Role::Assistant);
    assert_eq!(app.messages[1].content, "Hi");
}

#[test]
fn test_last_assistant_content() {
    let mut app = new_app();
    assert_eq!(app.last_assistant_content(), None);
    app.messages.push(DisplayMessage { role: Role::User, content: "Hello".to_string() });
    assert_eq!(app.last_assistant_content(), None);
    app.messages.push(DisplayMessage { role: Role::Assistant, content: "Hi there".to_string() });
    assert_eq!(app.last_assistant_content(), Some("Hi there"));
}

#[test]
fn test_build_history_lines_empty() {
    let app = new_app();
    let lines = app.build_history_lines();
    assert!(lines.is_empty());
}

#[test]
fn test_build_history_lines_with_messages() {
    let mut app = new_app();
    app.messages.push(DisplayMessage { role: Role::User, content: "Hello".to_string() });
    app.messages.push(DisplayMessage { role: Role::Assistant, content: "Hi!".to_string() });
    let lines = app.build_history_lines();
    assert_eq!(lines.len(), 6);
}

#[test]
fn test_build_history_lines_with_tool_message() {
    let mut app = new_app();
    app.messages.push(DisplayMessage { role: Role::Tool, content: "Tool output".to_string() });
    let lines = app.build_history_lines();
    assert_eq!(lines.len(), 3);
}

#[test]
fn test_auto_scroll_disabled_on_scroll_up() {
    let mut app = new_app();
    assert!(app.auto_scroll);
    app.scroll_offset = 10;
    app.scroll_up();
    assert!(!app.auto_scroll);
    assert_eq!(app.scroll_offset, 9);
}

#[test]
fn test_auto_scroll_enabled_on_message_submit() {
    let mut app = new_app();
    app.scroll_offset = 10;
    app.scroll_up();
    assert!(!app.auto_scroll);
    app.start_streaming();
    assert!(app.auto_scroll);
}

#[test]
fn test_no_duplicate_messages_on_session_resume() {
    let mut app = new_app();
    app.messages.push(DisplayMessage { role: Role::User, content: "Hello".to_string() });
    app.messages.push(DisplayMessage { role: Role::Assistant, content: "Hi there!".to_string() });
    app.begin_turn("Follow up question");
    let conv_messages: Vec<Message> = app.conversation();
    assert_eq!(conv_messages.len(), 3);
    assert_eq!(conv_messages[0].role, Role::User);
    assert_eq!(conv_messages[0].content, "Hello");
    assert_eq!(conv_messages[1].role, Role::Assistant);
    assert_eq!(conv_messages[1].content, "Hi there!");
    assert_eq!(conv_messages[2].role, Role::User);
    assert_eq!(conv_messages[2].content, "Follow up question");
}

#[test]
fn test_insert_multibyte_char() {
    let mut app = new_app();
    app.insert_char('a');
    app.insert_char('\u{00E9}');
    app.insert_char('b');
    assert_eq!(app.input, "a\u{00E9}b");
    assert_eq!(app.cursor_position, 4);
    app.move_cursor_left();
    assert_eq!(app.cursor_position, 3);
    app.move_cursor_left();
    assert_eq!(app.cursor_position, 1);
    app.delete_char_before_cursor();
    assert_eq!(app.input, "\u{00E9}b");
    assert_eq!(app.cursor_position, 0);
}

#[test]
fn test_handle_key_event_ctrl_c() {
    let mut app = new_app();
    let key = KeyInput::Press { key: Key::Char('c'), control: true };
    let action = handle_key_event(&mut app, key, 20);
    assert!(matches!(action, KeyAction::Exit));
}

#[test]
fn test_handle_key_event_enter_empty() {
    let mut app = new_app();
    let action = handle_key_event(&mut app, press(Key::Enter), 20);
    assert!(matches!(action, KeyAction::Continue));
}

#[test]
fn test_handle_key_event_enter_with_input() {
    let mut app = new_app();
    app.insert_char('h');
    app.insert_char('i');
    let action = handle_key_event(&mut app, press(Key::Enter), 20);
    assert!(matches!(action, KeyAction::Submit(s) if s == "hi"));
}

#[test]
fn test_handle_key_event_quit_command() {
    let mut app = new_app();
    for c in "/quit".chars() {
        app.insert_char(c);
    }
    let action = handle_key_event(&mut app, press(Key::Enter), 20);
    assert!(matches!(action, KeyAction::Exit));
}

#[test]
fn test_handle_key_event_char_input() {
    let mut app = new_app();
    let action = handle_key_event(&mut app, press(Key::Char('a')), 20);
    assert!(matches!(action, KeyAction::Continue));
    assert_eq!(app.input, "a");
}

#[test]
fn test_handle_key_event_ignored_while_streaming() {
    let mut app = new_app();
    app.is_streaming = true;
    let action = handle_key_event(&mut app, press(Key::Char('a')), 20);
    assert!(matches!(action, KeyAction::Continue));
    assert!(app.input.is_empty());
    let key = KeyInput::Press { key: Key::Char('c'), control: true };
    let action = handle_key_event(&mut app, key, 20);
    assert!(matches!(action, KeyAction::Exit));
}

#[test]
fn test_scroll_keys_work_during_streaming() {
    let mut app = new_app();
    app.is_streaming = true;
    app.scroll_offset = 5;
    let action = handle_key_event(&mut app, press(Key::Up), 20);
    assert!(matches!(action, KeyAction::Continue));
    assert_eq!(app.scroll_offset, 4);
    let action = handle_key_event(&mut app, press(Key::Down), 20);
    assert!(matches!(action, KeyAction::Continue));
    assert_eq!(app.scroll_offset, 5);
    let action = handle_key_event(&mut app, press(Key::PageUp), 20);
    assert!(matches!(action, KeyAction::Continue));
    assert_eq!(app.scroll_offset, 0);
    let action = handle_key_event(&mut app, press(Key::PageDown), 20);
    assert!(matches!(action, KeyAction::Continue));
    assert_eq!(app.scroll_offset, 18);
}

#[test]
fn test_handle_key_event_release_ignored() {
    let mut app = new_app();
    let action = handle_key_event(&mut app, KeyInput::NotPress, 20);
    assert!(matches!(action, KeyAction::Continue));
    assert!(app.input.is_empty());
}

#[test]
fn history_lines_exact() {
    let mut app = new_app();
    app.messages.push(DisplayMessage { role: Role::User, content: "a\r\nb\n".to_string() });
    app.messages.push(DisplayMessage { role: Role::Assistant, content: String::new() });
    app.is_streaming = true;
    let lines: Vec<(String, LineKind)> = app.build_history_lines().into_iter().map(|l| (l.text, l.kind)).collect();
    assert_eq!(
        lines,
        vec![
            ("[USER]".to_string(), LineKind::Label(Role::User)),
            ("  a".to_string(), LineKind::Body),
            ("  b".to_string(), LineKind::Body),
            (String::new(), LineKind::Body),
            ("[ASSISTANT]".to_string(), LineKind::Label(Role::Assistant)),
            ("  ".to_string(), LineKind::Body),
            (String::new(), LineKind::Body),
            ("  ...".to_string(), LineKind::Indicator),
        ]
    );
}

#[test]
fn stream_events_drive_the_turn() {
    let mut app = new_app();
    app.begin_turn("hi");
    app.start_streaming();
    assert!(matches!(app.on_stream_event(Some(Ok(StreamEvent::TextDelta("Hel".to_string())))), TurnOutcome::Continue));
    assert!(matches!(app.on_stream_event(Some(Ok(StreamEvent::TextDelta("lo".to_string())))), TurnOutcome::Continue));
    assert_eq!(app.last_assistant_content(), Some("Hello"));
    assert!(matches!(app.on_stream_event(Some(Ok(StreamEvent::Done))), TurnOutcome::Finished(Some(t)) if t == "Hello"));
    assert!(!app.is_streaming);
    app.start_streaming();
    let err = AgentError::Provider(ProviderError::RequestFailed("down".to_string()));
    assert!(matches!(app.on_stream_event(Some(Err(err))), TurnOutcome::Failed));
    assert_eq!(app.status_message, Some("Agent error: provider error: request failed: down".to_string()));
    assert_eq!(status_text(&app), "Agent error: provider error: request failed: down");
    app.status_message = None;
    let id = uuid::Uuid::from_u128(app.session_id).to_string();
    assert_eq!(status_text(&app), format!(" Session: {} | Provider: test | Model: test | /quit to exit", &id[..8]));
}

#[test]
fn session_list_columns() {
    let id = uuid::Uuid::new_v4();
    let s = SessionSummary {
        id: id.as_u128(),
        name: None,
        provider: "deepseek".to_string(),
        model: "deepseek-chat".to_string(),
        created_at: 0,
        updated_at: 0,
        message_count: 12,
        preview: Some("line one\nline two".to_string()),
    };
    assert_eq!(
        session_row(&s),
        format!("{:<36}  {:<15}  {:<15}  {:<10}  {}", id, "deepseek", "deepseek-chat", 12, "line one line two")
    );
    assert_eq!(
        list_header(),
        format!("{:<36}  {:<15}  {:<15}  {:<10}  PREVIEW", "ID", "PROVIDER", "MODEL", "MESSAGES")
    );
}

#[test]
fn scroll_follows_then_stays_within_history() {
    let mut app = ReplApp::new(1, "p", "m");
    app.clamp_scroll(50, 20);
    assert_eq!(app.scroll_offset, 30);
    app.scroll_up();
    app.scroll_up();
    app.clamp_scroll(60, 20);
    assert_eq!(app.scroll_offset, 28);
    app.scroll_offset = 100;
    app.clamp_scroll(60, 20);
    assert_eq!(app.scroll_offset, 40);
    app.clamp_scroll(5, 20);
    assert_eq!(app.scroll_offset, 0);
}

#[test]
fn stream_event_shows_text_and_keeps_messages_otherwise() {
    let mut app = ReplApp::new(1, "p", "m");
    app.begin_turn("hi");
    app.start_streaming();
    app.on_stream_event(Some(Ok(StreamEvent::TextDelta("Hel".to_string()))));
    app.on_stream_event(Some(Ok(StreamEvent::TextDelta("lo".to_string()))));
    assert_eq!(app.messages.len(), 2);
    assert_eq!(app.messages[1].role, Role::Assistant);
    assert_eq!(app.messages[1].content, "Hello");
    app.on_stream_event(Some(Ok(StreamEvent::ReasoningDelta("hmm".to_string()))));
    assert_eq!(app.messages[1].content, "Hello");
}

#[test]
fn left_then_right_restores_cursor() {
    let mut app = ReplApp::new(1, "p", "m");
    app.insert_char('é');
    app.insert_char('ß');
    app.insert_char('a');
    let before = app.cursor_position;
    app.move_cursor_left();
    app.move_cursor_left();
    assert_eq!(app.cursor_position, 2);
    app.move_cursor_right();
    app.move_cursor_right();
    assert_eq!(app.cursor_position, before);
}

#[test]
fn session_row_shows_the_hyphenated_uuid() {
    let s = SessionSummary {
        id: 0x67e5504410b1426f9247bb680e5fe0c8,
        name: None,
        provider: "openai".to_string(),
        model: "gpt-4o".to_string(),
        created_at: 0,
        updated_at: 0,
        message_count: 3,
        preview: None,
    };
    let row = session_row(&s);
    assert!(row.starts_with("67e55044-10b1-426f-9247-bb680e5fe0c8  openai"), "{}", row);
}
