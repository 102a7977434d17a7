use synapse::agent::{
    final_stream_events, with_system_prompt, AgentAction, AgentError, AgentLoop, MAX_ITERATIONS,
};
use synapse::config::{
    choose_config_path, Config, ConfigError, LoggingConfig, McpSettings, Rotation, SessionConfig,
    TelegramConfig,
};
use synapse::mcp::{resolve_config_path, tool_result_text, McpClient, McpError, ToolDefinition};
use synapse::message::{Message, Role, ToolCallData};
use synapse::provider::factory::{
    create_provider, get_api_key, is_reasoning_model, provider_kind, resolve_reasoning_effort,
    DeepSeekProvider, OpenAiProvider, ProviderChoice, ProviderKind, DEFAULT_REASONING_EFFORT,
};
use synapse::provider::{MockProvider, ProviderError, StreamEvent};
use synapse::session::{Session, StoredMessage};
use synapse::storage::{
    cleanup_excess, cleanup_result, database_url, parse_role, retention_cutoff, sqlite_file,
    summary_preview, CleanupResult, StorageError, MICROS_PER_DAY,
};

fn make_config(provider: &str, api_key: Option<&str>) -> Config {
    Config {
        provider: provider.to_string(),
        model: "test-model".to_string(),
        api_key: api_key.map(|s| s.to_string()),
        max_tokens: 4096,
        system_prompt: None,
        system_prompt_file: None,
        session: None,
        mcp: None,
        telegram: None,
        logging: None,
        reasoning_effort: None,
        cli: None,
    }
}

fn make_deepseek_config(model: &str, effort: Option<&str>, with_mcp: bool) -> Config {
    Config {
        provider: "deepseek".to_string(),
        model: model.to_string(),
        api_key: Some("test-key".to_string()),
        max_tokens: 4096,
        system_prompt: None,
        system_prompt_file: None,
        session: None,
        mcp: if with_mcp {
            Some(McpSettings { config_path: Some("/fake/mcp.json".to_string()) })
        } else {
            None
        },
        telegram: None,
        logging: None,
        reasoning_effort: effort.map(|s| s.to_string()),
        cli: None,
    }
}

#[test]
fn test_default_config() {
    let config = Config::default();
    assert_eq!(config.provider, "deepseek");
    assert_eq!(config.api_key, None);
    assert_eq!(config.model, "deepseek-chat");
}

#[test]
fn test_session_config_defaults() {
    let config = SessionConfig::default();
    assert_eq!(config.database_url, None);
    assert_eq!(config.max_sessions, 100);
    assert_eq!(config.retention_days, 90);
    assert!(config.auto_cleanup);
}

#[test]
fn test_telegram_config_default() {
    let tg = TelegramConfig::default();
    assert!(tg.token.is_none());
    assert!(tg.allowed_users.is_empty());
    assert_eq!(tg.max_sessions_per_chat, 10);
}

#[test]
fn test_config_default_system_prompt() {
    let config = Config::default();
    assert_eq!(config.system_prompt, None);
}

#[test]
fn test_logging_config_defaults() {
    let lc = LoggingConfig::default();
    assert_eq!(lc.directory, "logs");
    assert_eq!(lc.max_files, 7);
    assert_eq!(lc.rotation, Rotation::Daily);
}

#[test]
fn test_mcp_error_display() {
    let err = McpError::ConfigError("bad config".to_string());
    assert_eq!(err.to_string(), "MCP config error: bad config");

    let err = McpError::ConnectionError {
        server: "fs-server".to_string(),
        message: "connection refused".to_string(),
    };
    assert_eq!(err.to_string(), "MCP connection error for server 'fs-server': connection refused");

    let err = McpError::ToolError("tool not found".to_string());
    assert_eq!(err.to_string(), "MCP tool error: tool not found");

    let err = McpError::IoError("file not found".to_string());
    assert_eq!(err.to_string(), "MCP IO error: file not found");
}

fn tool(name: &str) -> ToolDefinition {
    ToolDefinition { name: name.to_string(), description: None, input_schema: "{}".to_string() }
}

#[test]
fn test_mcp_client_no_servers() {
    let client = McpClient::empty();
    assert!(!client.has_tools());
    assert!(client.tool_definitions().is_empty());
}

#[test]
fn test_has_tools_empty() {
    let client = McpClient::empty();
    assert!(!client.has_tools());
}

#[test]
fn test_has_tools_populated() {
    let client = McpClient::with_test_tools(vec![ToolDefinition {
        name: "test_tool".to_string(),
        description: Some("A test tool".to_string()),
        input_schema: "{}".to_string(),
    }]);
    assert!(client.has_tools());
    assert_eq!(client.tool_definitions().len(), 1);
}

#[test]
fn mcp_routing_errors() {
    let client = McpClient::with_test_tools(vec![tool("get_weather")]);
    assert!(matches!(client.route("nope"), Err(McpError::ToolError(m)) if m == "unknown tool: nope"));
    assert!(matches!(client.route("get_weather"),
        Err(McpError::ToolError(m)) if m == "server 'test-server' not connected"));
    let mut client = McpClient::empty();
    client.add_server("a", vec![tool("x"), tool("y")]);
    client.add_server("b", vec![tool("y")]);
    assert_eq!(client.route("x").unwrap(), "a");
    assert_eq!(client.route("y").unwrap(), "b");
    assert_eq!(client.tool_definitions().len(), 3);
}

#[test]
fn mcp_tool_result_lines_and_config_path() {
    assert_eq!(tool_result_text(&["a".to_string(), "b".to_string()]), "a\nb");
    assert_eq!(tool_result_text(&[]), "");
    assert_eq!(
        resolve_config_path(Some("/env.json".to_string()), Some("/cfg.json".to_string()), None),
        Some("/env.json".to_string())
    );
    assert_eq!(
        resolve_config_path(Some(String::new()), Some("/cfg.json".to_string()), None),
        Some("/cfg.json".to_string())
    );
    assert_eq!(
        resolve_config_path(None, None, Some("/home/u".to_string())),
        Some("/home/u/.config/synapse/mcp_servers.json".to_string())
    );
    assert_eq!(resolve_config_path(None, None, None), None);
}

#[test]
fn test_message_new_with_str() {
    let msg = Message::new(Role::User, "Hello");
    assert_eq!(msg.role, Role::User);
    assert_eq!(msg.content, "Hello");
    assert!(msg.tool_calls.is_none());
    assert!(msg.tool_call_id.is_none());
}

#[test]
fn test_message_new_with_string() {
    let msg = Message::new(Role::Assistant, &String::from("Response"));
    assert_eq!(msg.role, Role::Assistant);
    assert_eq!(msg.content, "Response");
}

#[test]
fn test_role_equality() {
    assert_eq!(Role::System, Role::System);
    assert_ne!(Role::User, Role::Assistant);
}

#[test]
fn test_message_clone() {
    let original = Message::new(Role::System, "Instructions");
    let cloned = original.clone();
    assert_eq!(original, cloned);
}

#[test]
fn test_role_copy() {
    let role = Role::User;
    let copied = role;
    assert_eq!(role, copied);
}

#[test]
fn test_message_new_backward_compatible() {
    let msg = Message::new(Role::User, "hello");
    assert_eq!(msg.role, Role::User);
    assert_eq!(msg.content, "hello");
    assert!(msg.tool_calls.is_none());
    assert!(msg.tool_call_id.is_none());
}

#[test]
fn test_message_tool_result() {
    let msg = Message::tool_result("call_1", "result text");
    assert_eq!(msg.role, Role::Tool);
    assert_eq!(msg.tool_call_id, Some("call_1".to_string()));
    assert_eq!(msg.content, "result text");
    assert!(msg.tool_calls.is_none());
}

#[test]
fn test_tool_call_data_clone() {
    let tool_call = ToolCallData {
        id: "call_1".to_string(),
        name: "test_tool".to_string(),
        input: "{\"key\":\"value\"}".to_string(),
    };
    let cloned = tool_call.clone();
    assert_eq!(tool_call, cloned);
    assert_eq!(tool_call.duplicate(), tool_call);
}

#[test]
fn role_names_round_trip() {
    for role in [Role::System, Role::User, Role::Assistant, Role::Tool] {
        assert_eq!(Role::parse(role.as_str()), Ok(role));
    }
    assert_eq!(Role::parse("robot"), Err("unknown role: robot".to_string()));
}

#[test]
fn test_stream_event_variants() {
    let text_delta = StreamEvent::TextDelta("Hello".to_string());
    assert!(matches!(text_delta, StreamEvent::TextDelta(s) if s == "Hello"));
    let done = StreamEvent::Done;
    assert!(matches!(done, StreamEvent::Done));
}

#[test]
fn test_stream_event_debug() {
    let event = StreamEvent::TextDelta("test".to_string());
    let debug = format!("{:?}", event);
    assert!(debug.contains("TextDelta"));
    assert!(debug.contains("test"));
}

#[test]
fn test_stream_event_clone() {
    let original = StreamEvent::TextDelta("clone me".to_string());
    let cloned = original.clone();
    assert!(matches!(cloned, StreamEvent::TextDelta(s) if s == "clone me"));
}

#[test]
fn test_stream_event_reasoning_delta() {
    let event = StreamEvent::ReasoningDelta("step 1: consider the problem".to_string());
    assert!(matches!(event, StreamEvent::ReasoningDelta(ref s) if s == "step 1: consider the problem"));
    let cloned = event.clone();
    assert!(matches!(cloned, StreamEvent::ReasoningDelta(ref s) if s == "step 1: consider the problem"));
    let debug = format!("{:?}", cloned);
    assert!(debug.contains("ReasoningDelta"));
    assert!(debug.contains("step 1"));
}

#[test]
fn test_deepseek_provider_new() {
    let provider = DeepSeekProvider::new("test-key", "test-model", 4096, None);
    assert_eq!(provider.0.api_key, "test-key");
    assert_eq!(provider.0.model, "test-model");
    assert_eq!(provider.0.max_tokens, 4096);
}

#[test]
fn test_is_reasoning_model_known_and_unknown() {
    assert!(is_reasoning_model("deepseek-v4-pro"));
    assert!(!is_reasoning_model("deepseek-chat"));
    assert!(!is_reasoning_model("gpt-4o"));
    assert!(!is_reasoning_model(""));
    assert!(!is_reasoning_model("deepseek-v4-pro-extra"));
}

#[test]
fn test_deepseek_provider_v4_pro_enables_reasoning() {
    let provider = DeepSeekProvider::new("test-key", "deepseek-v4-pro", 4096, None);
    assert!(provider.0.reasoning.is_some());
    assert_eq!(provider.0.reasoning.as_ref().unwrap().effort, DEFAULT_REASONING_EFFORT);
}

#[test]
fn test_deepseek_provider_chat_does_not_enable_reasoning() {
    let provider = DeepSeekProvider::new("test-key", "deepseek-chat", 4096, None);
    assert!(provider.0.reasoning.is_none());
}

#[test]
fn test_deepseek_provider_v4_pro_with_explicit_effort() {
    let provider = DeepSeekProvider::new("test-key", "deepseek-v4-pro", 4096, Some("max".to_string()));
    assert!(provider.0.reasoning.is_some());
    assert_eq!(provider.0.reasoning.as_ref().unwrap().effort, "max");
}

#[test]
fn test_openai_provider_new() {
    let provider = OpenAiProvider::new("test-key", "gpt-4o", 4096);
    assert_eq!(provider.0.api_key, "test-key");
    assert_eq!(provider.0.model, "gpt-4o");
    assert_eq!(provider.0.max_tokens, 4096);
    assert!(provider.0.reasoning.is_none());
}

#[test]
fn test_create_provider_unknown() {
    let config = make_config("invalid", Some("key"));
    let result = create_provider(&config, None);
    assert!(matches!(result, Err(ProviderError::UnknownProvider(name)) if name == "invalid"));
}

#[test]
fn test_factory_explicit_effort_overrides_mcp_escalation() {
    let config = make_deepseek_config("deepseek-v4-pro", Some("low"), true);
    let (effort, auto_escalated) = resolve_reasoning_effort(&config);
    assert_eq!(effort, "low");
    assert!(!auto_escalated, "explicit always wins, no auto-escalation");
}

#[test]
fn test_factory_auto_escalates_to_max_with_mcp() {
    let config = make_deepseek_config("deepseek-v4-pro", None, true);
    let (effort, auto_escalated) = resolve_reasoning_effort(&config);
    assert_eq!(effort, "max");
    assert!(auto_escalated);
}

#[test]
fn test_factory_no_mcp_no_explicit_uses_high() {
    let config = make_deepseek_config("deepseek-v4-pro", None, false);
    let (effort, auto_escalated) = resolve_reasoning_effort(&config);
    assert_eq!(effort, "high");
    assert!(!auto_escalated);
}

#[test]
fn test_factory_passes_reasoning_effort() {
    let config = make_deepseek_config("deepseek-v4-pro", Some("low"), false);
    let result = create_provider(&config, None);
    assert!(result.is_ok());
    match result.unwrap() {
        ProviderChoice::DeepSeek(p) => assert_eq!(p.0.reasoning.unwrap().effort, "low"),
        _ => panic!("expected DeepSeek"),
    }
}

#[test]
fn api_key_sources_in_order() {
    let config = make_config("deepseek", Some("config-key-value"));
    assert_eq!(get_api_key(ProviderKind::DeepSeek, &config, Some("env-key-value".to_string())).unwrap(), "env-key-value");
    assert_eq!(get_api_key(ProviderKind::DeepSeek, &config, Some(String::new())).unwrap(), "config-key-value");
    let config = make_config("anthropic", None);
    let err = get_api_key(ProviderKind::Anthropic, &config, None).unwrap_err();
    assert_eq!(
        err,
        ProviderError::MissingApiKey("Set ANTHROPIC_API_KEY environment variable or add api_key to config.toml".to_string())
    );
    assert_eq!(provider_kind("openai"), Ok(ProviderKind::OpenAi));
}

#[test]
fn test_session_new() {
    let session = Session::new("deepseek", "deepseek-chat");
    assert_ne!(session.id, 0);
    assert_eq!(session.name, None);
    assert_eq!(session.provider, "deepseek");
    assert_eq!(session.model, "deepseek-chat");
    assert_eq!(session.system_prompt, None);
    assert_eq!(session.created_at, session.updated_at);
}

#[test]
fn test_session_with_name() {
    let session = Session::new("anthropic", "opus-3").with_name("My Chat");
    assert_eq!(session.name, Some("My Chat".to_string()));
}

#[test]
fn test_session_with_system_prompt() {
    let session = Session::new("openai", "gpt-4").with_system_prompt("You are a helpful assistant.");
    assert_eq!(session.system_prompt, Some("You are a helpful assistant.".to_string()));
}

#[test]
fn test_session_field_access() {
    let session = Session::new("test-provider", "test-model")
        .with_name("Test Session")
        .with_system_prompt("Test prompt");
    assert_eq!(session.provider, "test-provider");
    assert_eq!(session.model, "test-model");
    assert_eq!(session.name.as_deref(), Some("Test Session"));
    assert_eq!(session.system_prompt.as_deref(), Some("Test prompt"));
}

#[test]
fn test_session_clone() {
    let original = Session::new("provider", "model").with_name("Test");
    let cloned = original.clone();
    assert_eq!(original, cloned);
}

#[test]
fn test_stored_message_new() {
    let session_id = uuid::Uuid::new_v4().as_u128();
    let msg = StoredMessage::new(session_id, Role::User, "Hello!");
    assert_ne!(msg.id, 0);
    assert_eq!(msg.session_id, session_id);
    assert_eq!(msg.role, Role::User);
    assert_eq!(msg.content, "Hello!");
    assert!(msg.tool_calls.is_none());
    assert!(msg.tool_results.is_none());
}

#[test]
fn test_stored_message_field_access() {
    let session_id = uuid::Uuid::new_v4().as_u128();
    let msg = StoredMessage::new(session_id, Role::Assistant, "I'm doing well!");
    assert_eq!(msg.session_id, session_id);
    assert_eq!(msg.role, Role::Assistant);
    assert_eq!(msg.content, "I'm doing well!");
}

#[test]
fn test_stored_message_clone() {
    let session_id = uuid::Uuid::new_v4().as_u128();
    let original = StoredMessage::new(session_id, Role::User, "Test");
    let cloned = original.clone();
    assert_eq!(original, cloned);
}

#[test]
fn test_stored_message_with_tool_calls() {
    let session_id = uuid::Uuid::new_v4().as_u128();
    let msg = StoredMessage::new(session_id, Role::Assistant, "").with_tool_calls("[{\"id\":\"call_1\"}]");
    assert_eq!(msg.tool_calls, Some("[{\"id\":\"call_1\"}]".to_string()));
}

#[test]
fn test_stored_message_with_tool_results() {
    let session_id = uuid::Uuid::new_v4().as_u128();
    let msg = StoredMessage::new(session_id, Role::Tool, "").with_tool_results("{\"result\":\"ok\"}");
    assert_eq!(msg.tool_results, Some("{\"result\":\"ok\"}".to_string()));
}

#[test]
fn session_ids_are_version_7() {
    let session = Session::new("p", "m");
    assert_eq!(uuid::Uuid::from_u128(session.id).get_version_num(), 7);
}

#[test]
fn test_storage_error_display() {
    let db_err = StorageError::Database("connection failed".to_string());
    assert_eq!(db_err.to_string(), "database error: connection failed");
    let id = uuid::Uuid::new_v4();
    let not_found = StorageError::NotFound(id.as_u128());
    assert_eq!(not_found.to_string(), format!("session not found: {}", id));
    let migration_err = StorageError::Migration("version mismatch".to_string());
    assert_eq!(migration_err.to_string(), "migration error: version mismatch");
    let invalid_err = StorageError::InvalidData("corrupt record".to_string());
    assert_eq!(invalid_err.to_string(), "invalid data: corrupt record");
}

#[test]
fn test_cleanup_result_default() {
    let result = CleanupResult::default();
    assert_eq!(result.sessions_deleted, 0);
    assert_eq!(result.by_max_limit, 0);
    assert_eq!(result.by_retention, 0);
}

#[test]
fn test_cleanup_result_construction() {
    let result = CleanupResult { sessions_deleted: 5, by_max_limit: 3, by_retention: 2 };
    assert_eq!(result.sessions_deleted, 5);
    assert_eq!(result.by_max_limit, 3);
    assert_eq!(result.by_retention, 2);
}

#[test]
fn test_cleanup_result_clone() {
    let original = CleanupResult { sessions_deleted: 10, by_max_limit: 6, by_retention: 4 };
    let cloned = original.clone();
    assert_eq!(original, cloned);
}

#[test]
fn cleanup_excess_and_sum() {
    assert_eq!(cleanup_excess(105, 100), Some(5));
    assert_eq!(cleanup_excess(100, 100), None);
    assert_eq!(cleanup_excess(3, 10), None);
    assert_eq!(cleanup_result(2, 3), CleanupResult { sessions_deleted: 5, by_max_limit: 3, by_retention: 2 });
}

#[test]
fn zero_limits_keep_everything() {
    assert_eq!(cleanup_excess(500, 0), None);
    assert_eq!(cleanup_excess(2, 1), Some(1));
    assert_eq!(cleanup_excess(5, u32::MAX), None);
    assert_eq!(cleanup_excess(i32::MAX, 2_147_483_648), None);
    assert_eq!(cleanup_excess(i32::MAX, 2_147_483_647), None);
    assert_eq!(cleanup_excess(i32::MAX, 1), Some(i32::MAX - 1));
    let now: i64 = 1_700_000_000_000_000;
    assert_eq!(retention_cutoff(now, 0), None);
    assert_eq!(retention_cutoff(now, 90), Some(now - 90 * MICROS_PER_DAY));
    assert_eq!(retention_cutoff(now, 1), Some(1_699_913_600_000_000));
}

#[test]
fn test_role_to_string() {
    assert_eq!(Role::System.as_str(), "system");
    assert_eq!(Role::User.as_str(), "user");
    assert_eq!(Role::Assistant.as_str(), "assistant");
    assert_eq!(Role::Tool.as_str(), "tool");
}

#[test]
fn test_parse_role() {
    assert!(matches!(parse_role("system"), Ok(Role::System)));
    assert!(matches!(parse_role("user"), Ok(Role::User)));
    assert!(matches!(parse_role("assistant"), Ok(Role::Assistant)));
    assert!(matches!(parse_role("tool"), Ok(Role::Tool)));
    assert!(matches!(parse_role("invalid"), Err(StorageError::InvalidData(_))));
}

#[test]
fn database_url_resolution() {
    assert_eq!(database_url(Some("sqlite:/a.db".to_string()), Some("sqlite:/b.db".to_string()), None).unwrap(), "sqlite:/a.db");
    assert_eq!(database_url(None, Some("sqlite:/b.db".to_string()), None).unwrap(), "sqlite:/b.db");
    assert_eq!(
        database_url(None, None, Some("/home/u".to_string())).unwrap(),
        "sqlite:/home/u/.config/synapse/sessions.db"
    );
    assert_eq!(
        database_url(None, None, None),
        Err(StorageError::Database("could not determine home directory".to_string()))
    );
    assert_eq!(sqlite_file("sqlite:/x/y.db"), "/x/y.db");
    assert_eq!(sqlite_file("/x/y.db"), "/x/y.db");
    assert_eq!(summary_preview(Some("x".repeat(60))), Some(format!("{}...", "x".repeat(47))));
    assert_eq!(summary_preview(None), None);
}

#[test]
fn mock_provider_answers_last_in_first_out() {
    let mut p = MockProvider::new().with_response("first").with_response("second");
    assert_eq!(p.complete().content, "second");
    assert_eq!(p.complete().content, "first");
    assert_eq!(p.complete().content, "Mock response");
    let mut p = MockProvider::new().with_stream_tokens(vec!["Hello", " ", "world"]);
    assert_eq!(
        p.stream(),
        vec![
            StreamEvent::TextDelta("Hello".to_string()),
            StreamEvent::TextDelta(" ".to_string()),
            StreamEvent::TextDelta("world".to_string()),
            StreamEvent::Done
        ]
    );
    let mut p = MockProvider::new().with_response("whole");
    assert_eq!(p.stream(), vec![StreamEvent::TextDelta("whole".to_string()), StreamEvent::Done]);
}

fn call(id: &str, name: &str) -> ToolCallData {
    ToolCallData { id: id.to_string(), name: name.to_string(), input: "{}".to_string() }
}

#[test]
fn agent_loop_runs_tools_then_finishes() {
    let mut provider = MockProvider::new()
        .with_response("The weather in London is sunny.")
        .with_tool_call_response(vec![call("call_1", "get_weather"), call("call_2", "list_files")]);
    let mut messages = vec![Message::new(Role::User, "What's the weather?")];
    let (mut run, mut action) = AgentLoop::start(true);
    let mut provider_calls = 0;
    let outcome = loop {
        action = match action {
            AgentAction::CallProvider { with_tools } => {
                assert!(with_tools);
                provider_calls += 1;
                let response = provider.complete();
                run.on_response(&mut messages, response)
            }
            AgentAction::CallTool(c) => {
                let result = if c.name == "get_weather" {
                    Ok("sunny".to_string())
                } else {
                    Err(McpError::ToolError("unknown tool: list_files".to_string()))
                };
                run.on_tool_result(&mut messages, result)
            }
            AgentAction::Finish(m) => break Ok(m),
            AgentAction::Fail(e) => break Err(e),
        };
    };
    let msg = outcome.unwrap();
    assert_eq!(msg.content, "The weather in London is sunny.");
    assert_eq!(provider_calls, 2);
    assert_eq!(messages.len(), 4);
    assert_eq!(messages[2].content, "sunny");
    assert_eq!(messages[2].tool_call_id, Some("call_1".to_string()));
    assert_eq!(messages[3].content, "Error: MCP tool error: unknown tool: list_files");
}

#[test]
fn agent_loop_gives_up_after_max_iterations() {
    let mut provider = MockProvider::new();
    for i in 0..11 {
        provider = provider.with_tool_call_response(vec![call(&format!("call_{}", i), "infinite_tool")]);
    }
    let mut messages = vec![Message::new(Role::User, "Loop forever")];
    let (mut run, mut action) = AgentLoop::start(true);
    let mut provider_calls = 0;
    let outcome = loop {
        action = match action {
            AgentAction::CallProvider { .. } => {
                provider_calls += 1;
                let response = provider.complete();
                run.on_response(&mut messages, response)
            }
            AgentAction::CallTool(_) => run.on_tool_result(&mut messages, Ok("x".to_string())),
            AgentAction::Finish(m) => break Ok(m),
            AgentAction::Fail(e) => break Err(e),
        };
    };
    assert!(matches!(outcome, Err(AgentError::MaxIterationsExceeded)));
    assert_eq!(provider_calls, MAX_ITERATIONS);
}

#[test]
fn agent_errors_and_final_events() {
    assert_eq!(
        AgentError::Provider(ProviderError::RequestFailed("x".to_string())).to_string(),
        "provider error: request failed: x"
    );
    assert_eq!(AgentError::MaxIterationsExceeded.to_string(), "max tool call iterations exceeded");
    assert_eq!(
        final_stream_events(Message::new(Role::Assistant, "hi")),
        vec![StreamEvent::TextDelta("hi".to_string()), StreamEvent::Done]
    );
    assert_eq!(final_stream_events(Message::new(Role::Assistant, "")), vec![StreamEvent::Done]);
}

#[test]
fn system_prompt_goes_first() {
    let conv = vec![Message::new(Role::User, "Hi"), Message::new(Role::Assistant, "Hello")];
    let sent = with_system_prompt(&Some("Be brief.".to_string()), &conv);
    assert_eq!(sent.len(), 3);
    assert_eq!(sent[0], Message::new(Role::System, "Be brief."));
    assert_eq!(&sent[1..], &conv[..]);
    assert_eq!(with_system_prompt(&None, &conv), conv);
}

/// The prompt a configuration ends with once its prompt file holds `content`.
fn resolved_prompt(mut config: Config, content: &str) -> Option<String> {
    if config.system_prompt_file_to_read().is_some() {
        config.apply_system_prompt_text(content);
    }
    config.system_prompt
}

#[test]
fn test_resolve_system_prompt_from_file() {
    let config = Config { system_prompt_file: Some("prompt.md".to_string()), ..Config::default() };
    assert_eq!(
        resolved_prompt(config, "You are a helpful assistant.\n"),
        Some("You are a helpful assistant.".to_string())
    );
}

#[test]
fn test_resolve_system_prompt_inline_takes_priority() {
    let config = Config {
        system_prompt: Some("Inline wins.".to_string()),
        system_prompt_file: Some("prompt.md".to_string()),
        ..Config::default()
    };
    assert_eq!(config.system_prompt_file_to_read(), None);
    assert_eq!(resolved_prompt(config, "From file.\n"), Some("Inline wins.".to_string()));
}

#[test]
fn test_resolve_system_prompt_neither_set() {
    let config = Config::default();
    assert_eq!(config.system_prompt_file_to_read(), None);
    assert_eq!(resolved_prompt(config, ""), None);
}

#[test]
fn test_resolve_system_prompt_empty_file() {
    let config = Config { system_prompt_file: Some("empty.md".to_string()), ..Config::default() };
    assert_eq!(resolved_prompt(config, "   \n\t\n  "), None);
}

#[test]
fn test_resolve_system_prompt_trims_whitespace() {
    let config = Config { system_prompt_file: Some("ws.md".to_string()), ..Config::default() };
    assert_eq!(
        resolved_prompt(config, "\n  You are a coding assistant.  \n\n"),
        Some("You are a coding assistant.".to_string())
    );
}

#[test]
fn config_search_order() {
    let home = Some("/home/u/.config/synapse/config.toml".to_string());
    assert_eq!(choose_config_path(Some("/x.toml".to_string()), true, home.clone(), true), Ok("/x.toml".to_string()));
    assert_eq!(choose_config_path(None, true, home.clone(), true), Ok("config.toml".to_string()));
    assert_eq!(choose_config_path(None, false, home.clone(), true), home.clone().ok_or(ConfigError::NotFound));
    assert_eq!(choose_config_path(None, false, home, false), Err(ConfigError::NotFound));
    assert_eq!(choose_config_path(None, false, None, true), Err(ConfigError::NotFound));
}
