use synapse::mcp::ToolDefinition;
use synapse::message::{Message, Role, ToolCallData};
use synapse::provider::anthropic::{response_message as anthropic_response, status_error as anthropic_status_error, AnthropicProvider, ApiContent, ContentBlock};
use synapse::provider::openai_compat::{
    build_api_messages, complete_status_error, response_message, sse_step, stream_status_error,
    to_oai_tools, ChoiceMessage, OaiToolCall, OaiToolCallFunction, OpenAiCompatProvider,
    ReasoningSettings, StreamDelta,
};
use synapse::provider::{ProviderError, StreamEvent};

#[test]
fn test_system_message_extraction() {
    let messages = [
        Message::new(Role::System, "You are a helpful assistant."),
        Message::new(Role::User, "Hello"),
    ];
    let system = AnthropicProvider::extract_system(&messages);
    assert_eq!(system, Some("You are a helpful assistant.".to_string()));
    let api_messages = AnthropicProvider::build_api_messages(&messages);
    assert_eq!(api_messages.len(), 1);
}

#[test]
fn test_system_message_extraction_multiple() {
    let messages = [
        Message::new(Role::System, "System prompt 1"),
        Message::new(Role::System, "System prompt 2"),
        Message::new(Role::User, "Hello"),
    ];
    let system = AnthropicProvider::extract_system(&messages);
    assert_eq!(system, Some("System prompt 1\n\nSystem prompt 2".to_string()));
}

#[test]
fn test_anthropic_provider_new() {
    let provider = AnthropicProvider::new("test-key", "test-model");
    assert_eq!(provider.api_key, "test-key");
    assert_eq!(provider.model, "test-model");
}

#[test]
fn anthropic_test_tool_role_message_serialization() {
    let messages = vec![
        Message::new(Role::User, "What's the weather?"),
        Message::tool_result("call_1", "Sunny, 20C"),
    ];
    let api_messages = AnthropicProvider::build_api_messages(&messages);
    assert_eq!(api_messages.len(), 2);
    assert_eq!(api_messages[1].role, "user");
    if let ApiContent::Blocks(blocks) = &api_messages[1].content {
        assert_eq!(blocks[0].content_type, "tool_result");
        assert_eq!(blocks[0].tool_use_id, Some("call_1".to_string()));
        assert_eq!(blocks[0].content, Some("Sunny, 20C".to_string()));
    } else {
        panic!("Expected Blocks content for tool result");
    }
}

fn block(t: &str) -> ContentBlock {
    ContentBlock { content_type: t.to_string(), text: None, id: None, name: None, input: None, tool_use_id: None, content: None }
}

#[test]
fn anthropic_response_blocks_become_message() {
    let mut text = block("text");
    text.text = Some("I'll check the weather.".to_string());
    let mut call = block("tool_use");
    call.id = Some("call_1".to_string());
    call.name = Some("get_weather".to_string());
    call.input = Some("{\"location\":\"London\"}".to_string());
    let mut no_input = block("tool_use");
    no_input.id = Some("call_2".to_string());
    no_input.name = Some("now".to_string());
    let msg = anthropic_response(&[text, call, no_input]);
    assert_eq!(msg.role, Role::Assistant);
    assert_eq!(msg.content, "I'll check the weather.");
    let calls = msg.tool_calls.unwrap();
    assert_eq!(calls.len(), 2);
    assert_eq!(calls[0].input, "{\"location\":\"London\"}");
    assert_eq!(calls[1].input, "{}");
    let msg = anthropic_response(&[block("text")]);
    assert_eq!(msg.content, "");
    assert!(msg.tool_calls.is_none());
}

#[test]
fn tests_test_tool_role_message_serialization() {
    let messages = vec![Message::tool_result("call_1", "Sunny, 20C")];
    let api_messages = build_api_messages(&messages);
    assert_eq!(api_messages[0].role, "tool");
    assert_eq!(api_messages[0].tool_call_id, Some("call_1".to_string()));
    assert_eq!(api_messages[0].content, Some("Sunny, 20C".to_string()));
}

#[test]
fn test_to_oai_tools_empty() {
    let result = to_oai_tools(&[]);
    assert!(result.is_none());
}

#[test]
fn test_outbound_message_drops_reasoning_for_text_only() {
    let assistant_msg = Message::new(Role::Assistant, "Here is the answer").with_reasoning("My reasoning".to_string());
    assert!(assistant_msg.tool_calls.is_none());
    let messages = vec![Message::new(Role::User, "Question"), assistant_msg];
    let api_messages = build_api_messages(&messages);
    assert_eq!(api_messages.len(), 2);
    assert!(api_messages[1].reasoning_content.is_none(), "reasoning_content must be dropped for text-only assistant turns");
}

#[test]
fn outbound_tool_call_keeps_reasoning_and_arguments() {
    let mut assistant_msg = Message::new(Role::Assistant, "").with_reasoning("think".to_string());
    assistant_msg.tool_calls = Some(vec![ToolCallData {
        id: "call_1".to_string(),
        name: "get_weather".to_string(),
        input: "{\"location\":\"London\"}".to_string(),
    }]);
    let api = build_api_messages(&[assistant_msg]);
    assert_eq!(api[0].reasoning_content, Some("think".to_string()));
    let calls = api[0].tool_calls.as_ref().unwrap();
    assert_eq!(calls[0].call_type, "function");
    assert_eq!(calls[0].function.arguments, "{\"location\":\"London\"}");
}

#[test]
fn request_fields_follow_settings() {
    let p = OpenAiCompatProvider::new("https://x", "k", "m", 100)
        .with_reasoning(ReasoningSettings { effort: "max".to_string() });
    let tools = vec![ToolDefinition { name: "t".to_string(), description: Some("d".to_string()), input_schema: "{}".to_string() }];
    let r = p.request(&[Message::new(Role::User, "hi")], &tools);
    assert_eq!(r.tool_choice, Some("auto".to_string()));
    assert_eq!(r.tools.as_ref().unwrap()[0].function.name, "t");
    assert_eq!(r.thinking.unwrap().kind, "enabled");
    assert_eq!(r.reasoning_effort, Some("max".to_string()));
    let plain = OpenAiCompatProvider::new("https://x", "k", "m", 100);
    let r = plain.request(&[], &[]);
    assert!(r.tools.is_none() && r.tool_choice.is_none() && r.thinking.is_none());
    let s = plain.streaming_request(&[]);
    assert!(s.stream);
}

#[test]
fn response_choice_becomes_message() {
    assert_eq!(
        response_message(&[]).unwrap_err(),
        ProviderError::ProviderError { message: "no choices in response".to_string() }
    );
    let choice = ChoiceMessage {
        content: None,
        reasoning_content: Some("why".to_string()),
        tool_calls: Some(vec![
            OaiToolCall {
                id: "call_1".to_string(),
                call_type: "function".to_string(),
                function: OaiToolCallFunction { name: "f".to_string(), arguments: "{ \"b\": 1, \"a\": 2 }".to_string() },
            },
            OaiToolCall {
                id: "call_2".to_string(),
                call_type: "function".to_string(),
                function: OaiToolCallFunction { name: "g".to_string(), arguments: "not json".to_string() },
            },
        ]),
    };
    let msg = response_message(&[choice]).unwrap();
    assert_eq!(msg.content, "");
    assert_eq!(msg.reasoning_content, Some("why".to_string()));
    let calls = msg.tool_calls.unwrap();
    assert_eq!(calls[0].input, "{\"a\":2,\"b\":1}");
    assert_eq!(calls[1].input, "{}");
}

#[test]
fn sse_steps() {
    let done = sse_step("[DONE]", Ok(None));
    assert!(done.finished);
    assert_eq!(done.events, vec![Ok(StreamEvent::Done)]);
    let delta = StreamDelta { content: Some("Hi".to_string()), reasoning_content: Some("hmm".to_string()) };
    let step = sse_step("{...}", Ok(Some(delta)));
    assert!(!step.finished);
    assert_eq!(
        step.events,
        vec![Ok(StreamEvent::ReasoningDelta("hmm".to_string())), Ok(StreamEvent::TextDelta("Hi".to_string()))]
    );
    let empty = StreamDelta { content: Some(String::new()), reasoning_content: None };
    assert!(sse_step("{...}", Ok(Some(empty))).events.is_empty());
    let bad = sse_step("{", Err("EOF".to_string()));
    assert!(bad.finished);
    assert_eq!(bad.events, vec![Err(ProviderError::ProviderError { message: "Failed to parse SSE: EOF".to_string() })]);
}

#[test]
fn http_status_errors() {
    assert_eq!(complete_status_error(200, "200 OK", None, None), None);
    assert_eq!(
        complete_status_error(401, "401 Unauthorized", None, None),
        Some(ProviderError::AuthenticationError("Invalid API key".to_string()))
    );
    assert_eq!(
        complete_status_error(500, "500 Internal Server Error", None, Some("boom".to_string())),
        Some(ProviderError::RequestFailed("HTTP 500 Internal Server Error: boom".to_string()))
    );
    assert_eq!(
        stream_status_error(429, "429 Too Many Requests"),
        Some(ProviderError::RequestFailed("HTTP 429 Too Many Requests".to_string()))
    );
    assert_eq!(stream_status_error(204, "204 No Content"), None);
}

#[test]
fn test_assistant_tool_call_message_serialization() {
    let mut assistant_msg = Message::new(Role::Assistant, "");
    assistant_msg.tool_calls = Some(vec![ToolCallData {
        id: "call_1".to_string(),
        name: "get_weather".to_string(),
        input: "{\"location\":\"London\"}".to_string(),
    }]);
    let messages = vec![Message::new(Role::User, "What's the weather?"), assistant_msg];
    let api_messages = build_api_messages(&messages);
    assert_eq!(api_messages.len(), 2);
    assert_eq!(api_messages[1].role, "assistant");
    let tool_calls = api_messages[1].tool_calls.as_ref().unwrap();
    assert_eq!(tool_calls.len(), 1);
    assert_eq!(tool_calls[0].id, "call_1");
    assert_eq!(tool_calls[0].call_type, "function");
    assert_eq!(tool_calls[0].function.name, "get_weather");
    let args: serde_json::Value = serde_json::from_str(&tool_calls[0].function.arguments).unwrap();
    assert_eq!(args["location"], "London");
}

#[test]
fn test_to_oai_tools_conversion() {
    let tools = vec![ToolDefinition {
        name: "test_tool".to_string(),
        description: Some("A test tool".to_string()),
        input_schema: "{\"type\":\"object\"}".to_string(),
    }];
    let result = to_oai_tools(&tools).unwrap();
    assert_eq!(result.len(), 1);
    assert_eq!(result[0].tool_type, "function");
    assert_eq!(result[0].function.name, "test_tool");
}

#[test]
fn test_outbound_message_includes_reasoning_for_tool_calls() {
    let mut assistant_msg =
        Message::new(Role::Assistant, "").with_reasoning("I need to call a tool first".to_string());
    assistant_msg.tool_calls = Some(vec![ToolCallData {
        id: "call_1".to_string(),
        name: "search".to_string(),
        input: "{\"query\":\"Rust\"}".to_string(),
    }]);
    let messages = vec![Message::new(Role::User, "Search for Rust"), assistant_msg];
    let api_messages = build_api_messages(&messages);
    assert_eq!(api_messages.len(), 2);
    assert!(api_messages[0].reasoning_content.is_none());
    assert_eq!(api_messages[1].reasoning_content, Some("I need to call a tool first".to_string()));
}

#[test]
fn anthropic_status_errors() {
    assert_eq!(anthropic_status_error(200, "200 OK", None, None), None);
    assert_eq!(
        anthropic_status_error(401, "401 Unauthorized", None, None),
        Some(ProviderError::AuthenticationError("invalid x-api-key".to_string()))
    );
    assert_eq!(
        anthropic_status_error(401, "401 Unauthorized", Some("bad key".to_string()), None),
        Some(ProviderError::AuthenticationError("bad key".to_string()))
    );
    assert_eq!(
        anthropic_status_error(529, "529 <unknown status code>", None, None),
        Some(ProviderError::RequestFailed("HTTP 529 <unknown status code>: unknown error".to_string()))
    );
}
