use std::collections::HashMap;

use synapse::agent::{AgentAction, AgentError, AgentLoop};
use synapse::config::{Config, TelegramConfig};
use synapse::mcp::{McpClient, McpError, ToolDefinition};
use synapse::message::{Message, Role, ToolCallData};
use synapse::provider::factory::{create_provider, get_api_key, ProviderChoice, ProviderKind};
use synapse::provider::openai_compat::{api_message, response_message, ChoiceMessage};
use synapse::provider::{MockProvider, ProviderError, StreamEvent};
use synapse::session::SessionSummary;
use synapse::telegram::handlers::ChatSessions;
use synapse::telegram::startup::{chat_map_from_sessions, resolve_bot_token};

fn config_for(provider: &str, api_key: Option<&str>) -> Config {
    Config {
        provider: provider.to_string(),
        model: "test-model".to_string(),
        api_key: api_key.map(|s| s.to_string()),
        ..Config::default()
    }
}

// --- provider selection, with the key variable's value passed in ---

#[test]
fn test_create_provider_deepseek() {
    let config = config_for("deepseek", None);
    let result = create_provider(&config, Some("test-deepseek-key".to_string()));
    assert!(matches!(result, Ok(ProviderChoice::DeepSeek(_))));
}

#[test]
fn test_create_provider_anthropic() {
    let config = config_for("anthropic", None);
    let result = create_provider(&config, Some("test-anthropic-key".to_string()));
    assert!(matches!(result, Ok(ProviderChoice::Anthropic(_))));
}

#[test]
fn test_create_provider_openai() {
    let config = config_for("openai", None);
    let result = create_provider(&config, Some("test-openai-key".to_string()));
    assert!(matches!(result, Ok(ProviderChoice::OpenAi(_))));
}

#[test]
fn test_get_api_key_from_env() {
    let config = config_for("deepseek", None);
    let result = get_api_key(ProviderKind::DeepSeek, &config, Some("env-key-value".to_string()));
    assert_eq!(result.unwrap(), "env-key-value");
}

#[test]
fn test_get_api_key_from_config() {
    let config = config_for("deepseek", Some("config-key-value"));
    let result = get_api_key(ProviderKind::DeepSeek, &config, None);
    assert_eq!(result.unwrap(), "config-key-value");
}

#[test]
fn test_env_var_takes_precedence() {
    let config = config_for("deepseek", Some("config-key-value"));
    let result = get_api_key(ProviderKind::DeepSeek, &config, Some("env-key-value".to_string()));
    assert_eq!(result.unwrap(), "env-key-value");
}

#[test]
fn test_get_api_key_missing() {
    let config = config_for("deepseek", None);
    let result = get_api_key(ProviderKind::DeepSeek, &config, None);
    assert!(matches!(result, Err(ProviderError::MissingApiKey(msg)) if msg.contains("DEEPSEEK_API_KEY")));
}

#[test]
fn test_get_api_key_missing_anthropic() {
    let config = config_for("anthropic", None);
    let result = get_api_key(ProviderKind::Anthropic, &config, None);
    assert!(matches!(result, Err(ProviderError::MissingApiKey(msg)) if msg.contains("ANTHROPIC_API_KEY")));
}

#[test]
fn test_get_api_key_missing_openai() {
    let config = config_for("openai", None);
    let result = get_api_key(ProviderKind::OpenAi, &config, None);
    assert!(matches!(result, Err(ProviderError::MissingApiKey(msg)) if msg.contains("OPENAI_API_KEY")));
}

// --- bot token, with the variable's value passed in ---

fn config_with_token(token: &str) -> Config {
    Config {
        telegram: Some(TelegramConfig { token: Some(token.to_string()), ..TelegramConfig::default() }),
        ..Config::default()
    }
}

#[test]
fn test_resolve_token_env_var() {
    let config = config_with_token("config-token");
    let result = resolve_bot_token(Some("env-token-value".to_string()), &config);
    assert_eq!(result.unwrap(), "env-token-value");
}

#[test]
fn test_resolve_token_config() {
    let config = config_with_token("config-token");
    let result = resolve_bot_token(None, &config);
    assert_eq!(result.unwrap(), "config-token");
}

#[test]
fn test_resolve_token_none() {
    let result = resolve_bot_token(None, &Config::default());
    assert!(result.is_err());
    assert!(result.unwrap_err().contains("TELEGRAM_BOT_TOKEN"));
}

#[test]
fn test_resolve_token_empty_env_var() {
    let config = config_with_token("fallback-config-token");
    let result = resolve_bot_token(Some(String::new()), &config);
    assert_eq!(result.unwrap(), "fallback-config-token");
}

// --- chat map rebuilt from stored sessions ---

const NOW: i64 = 1_700_000_000_000_000;
const HOUR: i64 = 3_600_000_000;

fn stored(id: u128, name: Option<&str>, provider: &str, updated_at: i64, count: u32) -> SessionSummary {
    SessionSummary {
        id,
        name: name.map(|s| s.to_string()),
        provider: provider.to_string(),
        model: "deepseek-chat".to_string(),
        created_at: NOW - HOUR,
        updated_at,
        message_count: count,
        preview: None,
    }
}

fn chat_map(sessions: &[SessionSummary]) -> HashMap<i64, ChatSessions> {
    chat_map_from_sessions(sessions).into_iter().collect()
}

#[test]
fn test_rebuild_chat_map_empty() {
    assert!(chat_map(&[]).is_empty());
}

#[test]
fn test_rebuild_chat_map_with_telegram_sessions() {
    let map = chat_map(&[
        stored(1, Some("tg:111222333"), "deepseek", NOW, 0),
        stored(2, Some("tg:444555666"), "deepseek", NOW, 0),
    ]);
    assert_eq!(map.len(), 2);
    let cs1 = map.get(&111222333i64).unwrap();
    assert_eq!(cs1.sessions, vec![1]);
    assert_eq!(cs1.active_idx, 0);
    let cs2 = map.get(&444555666i64).unwrap();
    assert_eq!(cs2.sessions, vec![2]);
    assert_eq!(cs2.active_idx, 0);
}

#[test]
fn test_rebuild_chat_map_ignores_non_telegram() {
    let map = chat_map(&[
        stored(10, Some("tg:123456789"), "deepseek", NOW, 5),
        stored(11, Some("My CLI session"), "deepseek", NOW, 10),
        stored(12, None, "anthropic", NOW, 0),
    ]);
    assert_eq!(map.len(), 1);
    let cs = map.get(&123456789i64).unwrap();
    assert_eq!(cs.sessions, vec![10]);
    assert_eq!(cs.active_idx, 0);
}

#[test]
fn test_rebuild_chat_map_multi_session_per_chat() {
    let map = chat_map(&[
        stored(20, Some("tg:999888777"), "deepseek", NOW, 3),
        stored(21, Some("tg:999888777"), "deepseek", NOW - HOUR, 5),
    ]);
    assert_eq!(map.len(), 1);
    let cs = map.get(&999888777i64).unwrap();
    assert_eq!(cs.sessions.len(), 2);
    assert_eq!(cs.sessions[0], 20);
    assert_eq!(cs.sessions[1], 21);
    assert_eq!(cs.active_idx, 0);
}

// --- mock provider ---

#[test]
fn test_mock_provider_default_response() {
    let mut provider = MockProvider::new();
    let response = provider.complete();
    assert_eq!(response.role, Role::Assistant);
    assert_eq!(response.content, "Mock response");
}

#[test]
fn test_mock_provider_configured_response() {
    let mut provider = MockProvider::new().with_response("Custom response");
    let response = provider.complete();
    assert_eq!(response.role, Role::Assistant);
    assert_eq!(response.content, "Custom response");
}

#[test]
fn test_mock_provider_multiple_responses() {
    let mut provider = MockProvider::new().with_response("First").with_response("Second");
    assert_eq!(provider.complete().content, "Second");
    assert_eq!(provider.complete().content, "First");
    assert_eq!(provider.complete().content, "Mock response");
}

#[test]
fn test_mock_provider_with_string() {
    let text = String::from("String response");
    let mut provider = MockProvider::new().with_response(&text);
    assert_eq!(provider.complete().content, "String response");
}

fn text_deltas(events: &[StreamEvent]) -> Vec<String> {
    events
        .iter()
        .filter_map(|e| match e {
            StreamEvent::TextDelta(t) => Some(t.clone()),
            _ => None,
        })
        .collect()
}

#[test]
fn test_mock_stream_tokens() {
    let mut provider = MockProvider::new().with_stream_tokens(vec!["Hello", " ", "world", "!"]);
    let events = provider.stream();
    assert_eq!(text_deltas(&events), vec!["Hello", " ", "world", "!"]);
}

#[test]
fn test_mock_stream_fallback() {
    let mut provider = MockProvider::new().with_response("Fallback response");
    let events = provider.stream();
    assert_eq!(text_deltas(&events), vec!["Fallback response"]);
    assert_eq!(events.last(), Some(&StreamEvent::Done));
}

#[test]
fn test_mock_stream_ends_with_done() {
    let mut provider = MockProvider::new().with_stream_tokens(vec!["test"]);
    let events = provider.stream();
    assert_eq!(events.last(), Some(&StreamEvent::Done));
}

#[test]
fn test_mock_with_tool_call_response() {
    let mut provider = MockProvider::new()
        .with_response("Final text response")
        .with_tool_call_response(vec![ToolCallData {
            id: "call_1".to_string(),
            name: "get_weather".to_string(),
            input: "{\"location\":\"London\"}".to_string(),
        }]);
    let r1 = provider.complete();
    let calls = r1.tool_calls.unwrap();
    assert_eq!(calls.len(), 1);
    assert_eq!(calls[0].name, "get_weather");
    assert_eq!(calls[0].id, "call_1");
    let r2 = provider.complete();
    assert_eq!(r2.content, "Final text response");
    assert!(r2.tool_calls.is_none());
}

// --- the agent loop driven by the mock provider and an MCP registry ---

fn tool_def(name: &str) -> ToolDefinition {
    ToolDefinition { name: name.to_string(), description: None, input_schema: "{}".to_string() }
}

fn tool_call(id: &str, name: &str, input: &str) -> ToolCallData {
    ToolCallData { id: id.to_string(), name: name.to_string(), input: input.to_string() }
}

/// Run the loop: the registry answers each tool call with the error of its routing,
/// since none of its servers is connected.
fn run_agent(
    provider: &mut MockProvider,
    client: Option<&McpClient>,
    messages: &mut Vec<Message>,
) -> Result<Message, AgentError> {
    let has_tools = client.map(|c| c.has_tools()).unwrap_or(false);
    let (mut state, mut action) = AgentLoop::start(has_tools);
    loop {
        action = match action {
            AgentAction::CallProvider { .. } => {
                let response = provider.complete();
                state.on_response(messages, response)
            }
            AgentAction::CallTool(call) => {
                let result: Result<String, McpError> = match client {
                    Some(c) => c.route(&call.name).map(|server| format!("routed to {}", server)),
                    None => Err(McpError::ToolError("no MCP client available".to_string())),
                };
                state.on_tool_result(messages, result)
            }
            AgentAction::Finish(m) => return Ok(m),
            AgentAction::Fail(e) => return Err(e),
        };
    }
}

#[test]
fn test_agent_complete_no_tools() {
    let mut provider = MockProvider::new().with_response("Hello from agent!");
    let mut messages = vec![Message::new(Role::User, "Hi")];
    let response = run_agent(&mut provider, None, &mut messages).unwrap();
    assert_eq!(response.content, "Hello from agent!");
    assert_eq!(response.role, Role::Assistant);
}

#[test]
fn test_agent_complete_with_tool_call() {
    let mut provider = MockProvider::new()
        .with_response("The weather in London is sunny.")
        .with_tool_call_response(vec![tool_call("call_1", "get_weather", "{\"location\":\"London\"}")]);
    let client = McpClient::with_test_tools(vec![tool_def("get_weather")]);
    let mut messages = vec![Message::new(Role::User, "What's the weather?")];
    let msg = run_agent(&mut provider, Some(&client), &mut messages).unwrap();
    assert_eq!(msg.content, "The weather in London is sunny.");
    assert!(messages.len() >= 3);
}

#[test]
fn test_agent_complete_multiple_tool_calls() {
    let mut provider = MockProvider::new()
        .with_response("Weather: sunny. Files: a.txt, b.txt")
        .with_tool_call_response(vec![
            tool_call("call_1", "get_weather", "{\"location\":\"London\"}"),
            tool_call("call_2", "list_files", "{\"path\":\"/tmp\"}"),
        ]);
    let client = McpClient::with_test_tools(vec![tool_def("get_weather"), tool_def("list_files")]);
    let mut messages = vec![Message::new(Role::User, "Weather and files?")];
    let msg = run_agent(&mut provider, Some(&client), &mut messages).unwrap();
    assert_eq!(msg.content, "Weather: sunny. Files: a.txt, b.txt");
    assert!(messages.len() >= 4);
}

#[test]
fn test_agent_complete_max_iterations() {
    let mut provider = MockProvider::new();
    for i in 0..11 {
        provider = provider.with_tool_call_response(vec![tool_call(&format!("call_{}", i), "infinite_tool", "{}")]);
    }
    let client = McpClient::with_test_tools(vec![tool_def("infinite_tool")]);
    let mut messages = vec![Message::new(Role::User, "Loop forever")];
    let result = run_agent(&mut provider, Some(&client), &mut messages);
    assert!(matches!(result, Err(AgentError::MaxIterationsExceeded)));
}

#[test]
fn test_agent_stream_no_tools() {
    let mut provider = MockProvider::new().with_stream_tokens(vec!["Hello", " ", "world"]);
    let events = provider.stream();
    assert_eq!(text_deltas(&events), vec!["Hello", " ", "world"]);
}

#[test]
fn test_agent_complete_tool_error_forwarded() {
    let mut provider = MockProvider::new()
        .with_response("I encountered an error with the tool.")
        .with_tool_call_response(vec![tool_call("call_1", "nonexistent_tool", "{}")]);
    let client = McpClient::with_test_tools(vec![tool_def("other_tool")]);
    let mut messages = vec![Message::new(Role::User, "Use the tool")];
    let msg = run_agent(&mut provider, Some(&client), &mut messages).unwrap();
    assert_eq!(msg.content, "I encountered an error with the tool.");
    let tool_result = messages.iter().find(|m| m.role == Role::Tool).unwrap();
    assert!(tool_result.content.contains("Error"));
    assert_eq!(tool_result.content, "Error: MCP tool error: unknown tool: nonexistent_tool");
}

#[test]
fn test_call_tool_unknown_name() {
    let client = McpClient::empty();
    match client.route("nonexistent_tool") {
        Err(McpError::ToolError(msg)) => assert!(msg.contains("unknown tool")),
        other => panic!("Expected ToolError, got: {:?}", other),
    }
}

// --- roles and messages on the wire ---

#[test]
fn test_role_serialization() {
    assert_eq!(format!("\"{}\"", Role::System.as_str()), "\"system\"");
    assert_eq!(format!("\"{}\"", Role::User.as_str()), "\"user\"");
    assert_eq!(format!("\"{}\"", Role::Assistant.as_str()), "\"assistant\"");
    assert_eq!(format!("\"{}\"", Role::Tool.as_str()), "\"tool\"");
}

fn role_of_json(text: &str) -> Role {
    let name: String = serde_json::from_str(text).unwrap();
    Role::parse(&name).unwrap()
}

#[test]
fn test_role_deserialization() {
    assert_eq!(role_of_json("\"system\""), Role::System);
    assert_eq!(role_of_json("\"user\""), Role::User);
    assert_eq!(role_of_json("\"assistant\""), Role::Assistant);
    assert_eq!(role_of_json("\"tool\""), Role::Tool);
}

#[test]
fn test_role_tool_serialization() {
    let serialized = format!("\"{}\"", Role::Tool.as_str());
    assert_eq!(serialized, "\"tool\"");
    assert_eq!(role_of_json("\"tool\""), Role::Tool);
}

#[test]
fn test_message_with_tool_calls() {
    let tool_calls = vec![
        tool_call("call_1", "get_weather", "{\"location\":\"London\"}"),
        tool_call("call_2", "list_files", "{\"path\":\"/tmp\"}"),
    ];
    let mut msg = Message::new(Role::Assistant, "");
    msg.tool_calls = Some(tool_calls);
    // Out through the wire form of a request message, back through a response choice.
    let wire = api_message(&msg);
    let choice = ChoiceMessage { content: wire.content, tool_calls: wire.tool_calls, reasoning_content: None };
    let back = response_message(&[choice]).unwrap();
    let deserialized = back.tool_calls.unwrap();
    assert_eq!(deserialized.len(), 2);
    assert_eq!(deserialized[0].id, "call_1");
    assert_eq!(deserialized[0].name, "get_weather");
    assert_eq!(deserialized[1].id, "call_2");
    assert_eq!(deserialized[1].name, "list_files");
}

#[test]
fn test_session_summary_construction() {
    let id: u128 = 0x0190_0000_0000_7000_8000_0000_0000_0001;
    let summary = SessionSummary {
        id,
        name: Some("Test".to_string()),
        provider: "deepseek".to_string(),
        model: "deepseek-chat".to_string(),
        created_at: NOW,
        updated_at: NOW,
        message_count: 5,
        preview: Some("Hello, how are you?".to_string()),
    };
    assert_eq!(summary.id, id);
    assert_eq!(summary.name, Some("Test".to_string()));
    assert_eq!(summary.message_count, 5);
    assert_eq!(summary.preview, Some("Hello, how are you?".to_string()));
}
