//! The OpenAI-compatible Chat Completions wire format shared by DeepSeek and OpenAI:
//! requests built from a conversation, responses and stream chunks turned back into
//! messages and events, and HTTP failures turned into errors.

use vstd::prelude::*;
use vstd::string::*;

use crate::chars::concat;
use crate::mcp::{opt_view, ToolDefinition};
use crate::message::{role_name, Message, Role, ToolCallData};
use crate::provider::{ProviderError, StreamEvent};

verus! {

/// The data line that ends a stream.
pub const SSE_DONE_MARKER: &'static str = "[DONE]";

/// DeepSeek's reasoning mode settings.
#[derive(Debug, Clone)]
pub struct ReasoningSettings {
    /// Reasoning effort ("high" or "max").
    pub effort: String,
}

/// The `thinking` field of a request.
#[derive(Debug, Clone)]
pub struct ThinkingConfig {
    /// Always "enabled" when present.
    pub kind: String,
}

/// The function of a tool call on the wire.
#[derive(Debug, Clone)]
pub struct OaiToolCallFunction {
    pub name: String,
    /// The arguments as JSON text.
    pub arguments: String,
}

/// A tool call on the wire.
#[derive(Debug, Clone)]
pub struct OaiToolCall {
    pub id: String,
    /// Always "function".
    pub call_type: String,
    pub function: OaiToolCallFunction,
}

/// A message on the wire.
#[derive(Debug, Clone)]
pub struct ApiMessage {
    pub role: String,
    pub content: Option<String>,
    pub tool_calls: Option<Vec<OaiToolCall>>,
    pub tool_call_id: Option<String>,
    pub reasoning_content: Option<String>,
}

/// A function offered to the model.
#[derive(Debug, Clone)]
pub struct OaiFunction {
    pub name: String,
    pub description: Option<String>,
    /// The JSON Schema of its parameters, as JSON text.
    pub parameters: String,
}

/// A tool offered to the model.
#[derive(Debug, Clone)]
pub struct OaiTool {
    /// Always "function".
    pub tool_type: String,
    pub function: OaiFunction,
}

/// A completion request.
#[derive(Debug)]
pub struct ApiRequest {
    pub model: String,
    pub messages: Vec<ApiMessage>,
    pub max_tokens: u32,
    pub tools: Option<Vec<OaiTool>>,
    pub tool_choice: Option<String>,
    pub thinking: Option<ThinkingConfig>,
    pub reasoning_effort: Option<String>,
}

/// A streaming completion request.
#[derive(Debug)]
pub struct StreamingApiRequest {
    pub model: String,
    pub messages: Vec<ApiMessage>,
    pub max_tokens: u32,
    pub stream: bool,
    pub tools: Option<Vec<OaiTool>>,
    pub thinking: Option<ThinkingConfig>,
    pub reasoning_effort: Option<String>,
}

/// The message of a response choice.
#[derive(Debug, Clone)]
pub struct ChoiceMessage {
    pub content: Option<String>,
    pub tool_calls: Option<Vec<OaiToolCall>>,
    pub reasoning_content: Option<String>,
}

/// The delta of a stream chunk's first choice.
#[derive(Debug, Clone)]
pub struct StreamDelta {
    pub content: Option<String>,
    pub reasoning_content: Option<String>,
}

/// A tool call goes on the wire as a function call with its arguments as JSON text.
pub open spec fn oai_call_matches(o: OaiToolCall, t: ToolCallData) -> bool {
    &&& o.id == t.id
    &&& o.call_type@ == "function"@
    &&& o.function.name == t.name
    &&& o.function.arguments == t.input
}

/// The tool calls of a message go on the wire when there are any.
pub open spec fn calls_on_wire(wire: Option<Vec<OaiToolCall>>, calls: Option<Vec<ToolCallData>>) -> bool {
    match calls {
        Some(tc) => if tc@.len() > 0 {
            match wire {
                Some(oc) => oc@.len() == tc@.len() && forall|j: int|
                    0 <= j < tc@.len() ==> #[trigger] oai_call_matches(oc@[j], tc@[j]),
                None => false,
            }
        } else {
            wire is None
        },
        None => wire is None,
    }
}

/// How a message goes on the wire: its role name and content; its tool calls when there
/// are any; its tool call id; and its reasoning only on an assistant message with tool
/// calls.
pub open spec fn api_message_matches(a: ApiMessage, m: Message) -> bool {
    &&& a.role@ == role_name(m.role)
    &&& a.content == Some(m.content)
    &&& calls_on_wire(a.tool_calls, m.tool_calls)
    &&& a.tool_call_id == m.tool_call_id
    &&& a.reasoning_content == (if m.role == Role::Assistant && m.tool_calls is Some
        && m.reasoning_content is Some {
        m.reasoning_content
    } else {
        None
    })
}

fn copy_text(s: &Option<String>) -> (r: Option<String>)
    ensures
        r == *s,
{
    match s {
        Some(t) => Some(t.clone()),
        None => None,
    }
}

fn oai_calls(calls: &Vec<ToolCallData>) -> (r: Vec<OaiToolCall>)
    ensures
        r@.len() == calls@.len(),
        forall|j: int| 0 <= j < calls@.len() ==> #[trigger] oai_call_matches(r@[j], calls@[j]),
{
    let mut out: Vec<OaiToolCall> = Vec::new();
    let mut i: usize = 0;
    while i < calls.len()
        invariant
            i <= calls@.len(),
            out@.len() == i,
            forall|j: int| 0 <= j < i ==> #[trigger] oai_call_matches(out@[j], calls@[j]),
        decreases calls.len() - i,
    {
        let c = &calls[i];
        out.push(
            OaiToolCall {
                id: c.id.clone(),
                call_type: String::from_str("function"),
                function: OaiToolCallFunction { name: c.name.clone(), arguments: c.input.clone() },
            },
        );
        i = i + 1;
    }
    out
}

/// The wire form of one message.
pub fn api_message(m: &Message) -> (r: ApiMessage)
    ensures
        api_message_matches(r, *m),
{
    let tool_calls = match &m.tool_calls {
        Some(tc) => {
            if tc.len() > 0 {
                Some(oai_calls(tc))
            } else {
                None
            }
        },
        None => None,
    };
    let reasoning_content = if m.role == Role::Assistant && m.tool_calls.is_some()
        && m.reasoning_content.is_some() {
        copy_text(&m.reasoning_content)
    } else {
        None
    };
    ApiMessage {
        role: String::from_str(m.role.as_str()),
        content: Some(m.content.clone()),
        tool_calls,
        tool_call_id: copy_text(&m.tool_call_id),
        reasoning_content,
    }
}

/// The wire form of a conversation, message for message.
pub fn build_api_messages(messages: &[Message]) -> (r: Vec<ApiMessage>)
    ensures
        r@.len() == messages@.len(),
        forall|i: int| 0 <= i < messages@.len() ==> #[trigger] api_message_matches(r@[i], messages@[i]),
{
    let mut out: Vec<ApiMessage> = Vec::new();
    let mut i: usize = 0;
    while i < messages.len()
        invariant
            i <= messages@.len(),
            out@.len() == i,
            forall|j: int| 0 <= j < i ==> #[trigger] api_message_matches(out@[j], messages@[j]),
        decreases messages.len() - i,
    {
        out.push(api_message(&messages[i]));
        i = i + 1;
    }
    out
}

/// A tool goes on the wire as a function with its schema as parameters.
pub open spec fn oai_tool_matches(o: OaiTool, t: ToolDefinition) -> bool {
    &&& o.tool_type@ == "function"@
    &&& o.function.name == t.name
    &&& o.function.description == t.description
    &&& o.function.parameters == t.input_schema
}

/// The tools offered to the model: none for an empty list, else one function per tool.
pub fn to_oai_tools(tools: &[ToolDefinition]) -> (r: Option<Vec<OaiTool>>)
    ensures
        tools@.len() == 0 ==> r is None,
        tools@.len() > 0 ==> (r matches Some(v) && v@.len() == tools@.len() && forall|i: int|
            0 <= i < tools@.len() ==> #[trigger] oai_tool_matches(v@[i], tools@[i])),
{
    if tools.len() == 0 {
        return None;
    }
    let mut out: Vec<OaiTool> = Vec::new();
    let mut i: usize = 0;
    while i < tools.len()
        invariant
            i <= tools@.len(),
            out@.len() == i,
            forall|j: int| 0 <= j < i ==> #[trigger] oai_tool_matches(out@[j], tools@[j]),
        decreases tools.len() - i,
    {
        let t = &tools[i];
        out.push(
            OaiTool {
                tool_type: String::from_str("function"),
                function: OaiFunction {
                    name: t.name.clone(),
                    description: copy_text(&t.description),
                    parameters: t.input_schema.clone(),
                },
            },
        );
        i = i + 1;
    }
    Some(out)
}

/// The settings of an OpenAI-compatible endpoint: where it is, the key, the model, the
/// token budget and, for DeepSeek's reasoning models, the reasoning effort.
#[derive(Debug, Clone)]
pub struct OpenAiCompatProvider {
    pub base_url: String,
    pub api_key: String,
    pub model: String,
    pub max_tokens: u32,
    pub reasoning: Option<ReasoningSettings>,
}

/// The effort of optional reasoning settings.
pub open spec fn effort_of(r: Option<ReasoningSettings>) -> Option<String> {
    match r {
        Some(s) => Some(s.effort),
        None => None,
    }
}

impl OpenAiCompatProvider {
    /// Settings for an endpoint, without reasoning.
    pub fn new(base_url: &str, api_key: &str, model: &str, max_tokens: u32) -> (r: OpenAiCompatProvider)
        ensures
            r.base_url@ == base_url@,
            r.api_key@ == api_key@,
            r.model@ == model@,
            r.max_tokens == max_tokens,
            r.reasoning is None,
    {
        OpenAiCompatProvider {
            base_url: String::from_str(base_url),
            api_key: String::from_str(api_key),
            model: String::from_str(model),
            max_tokens,
            reasoning: None,
        }
    }

    /// The same settings with reasoning enabled.
    pub fn with_reasoning(self, settings: ReasoningSettings) -> (r: OpenAiCompatProvider)
        ensures
            r.reasoning == Some(settings),
            r.base_url == self.base_url,
            r.api_key == self.api_key,
            r.model == self.model,
            r.max_tokens == self.max_tokens,
    {
        OpenAiCompatProvider { reasoning: Some(settings), ..self }
    }

    fn reasoning_fields(&self) -> (r: (Option<ThinkingConfig>, Option<String>))
        ensures
            self.reasoning is Some ==> (r.0 matches Some(t) && t.kind@ == "enabled"@),
            self.reasoning is None ==> r.0 is None,
            r.1 == effort_of(self.reasoning),
    {
        match &self.reasoning {
            Some(s) => (Some(ThinkingConfig { kind: String::from_str("enabled") }), Some(s.effort.clone())),
            None => (None, None),
        }
    }

    /// The request for a completion, offering `tools` when there are any (with
    /// `tool_choice` "auto"), and DeepSeek's thinking fields when reasoning is on.
    pub fn request(&self, messages: &[Message], tools: &[ToolDefinition]) -> (r: ApiRequest)
        ensures
            r.model == self.model,
            r.max_tokens == self.max_tokens,
            r.messages@.len() == messages@.len(),
            forall|i: int| 0 <= i < messages@.len() ==> #[trigger] api_message_matches(r.messages@[i], messages@[i]),
            tools@.len() == 0 ==> r.tools is None && r.tool_choice is None,
            tools@.len() > 0 ==> (r.tools matches Some(v) && v@.len() == tools@.len() && forall|i: int|
                0 <= i < tools@.len() ==> #[trigger] oai_tool_matches(v@[i], tools@[i])),
            tools@.len() > 0 ==> (r.tool_choice matches Some(c) && c@ == "auto"@),
            self.reasoning is Some ==> (r.thinking matches Some(t) && t.kind@ == "enabled"@),
            self.reasoning is None ==> r.thinking is None,
            r.reasoning_effort == effort_of(self.reasoning),
    {
        let (thinking, reasoning_effort) = self.reasoning_fields();
        ApiRequest {
            model: self.model.clone(),
            messages: build_api_messages(messages),
            max_tokens: self.max_tokens,
            tools: to_oai_tools(tools),
            tool_choice: if tools.len() == 0 {
                None
            } else {
                Some(String::from_str("auto"))
            },
            thinking,
            reasoning_effort,
        }
    }

    /// The request for a streamed completion (without tools).
    pub fn streaming_request(&self, messages: &[Message]) -> (r: StreamingApiRequest)
        ensures
            r.model == self.model,
            r.max_tokens == self.max_tokens,
            r.stream,
            r.tools is None,
            r.messages@.len() == messages@.len(),
            forall|i: int| 0 <= i < messages@.len() ==> #[trigger] api_message_matches(r.messages@[i], messages@[i]),
            self.reasoning is Some ==> (r.thinking matches Some(t) && t.kind@ == "enabled"@),
            self.reasoning is None ==> r.thinking is None,
            r.reasoning_effort == effort_of(self.reasoning),
    {
        let (thinking, reasoning_effort) = self.reasoning_fields();
        StreamingApiRequest {
            model: self.model.clone(),
            messages: build_api_messages(messages),
            max_tokens: self.max_tokens,
            stream: true,
            tools: None,
            thinking,
            reasoning_effort,
        }
    }
}

/// The JSON text `serde_json` writes back for the value it reads from `text`, or `None`
/// when `text` is not JSON.
pub uninterp spec fn json_normal_form(text: Seq<char>) -> Option<Seq<char>>;

/// Parses `text` with `serde_json::from_str::<serde_json::Value>` and writes the value
/// back with `to_string`; `None` when the text is not JSON. The contract names the
/// result: the same text always gives the same result.
#[verifier::external_body]
fn normalize_json(text: &str) -> (r: Option<String>)
    ensures
        opt_view(r) == json_normal_form(text@),
{
    serde_json::from_str::<serde_json::Value>(text).ok().map(|v| v.to_string())
}

/// The input a tool call's arguments become: the arguments as `serde_json` writes them, or
/// `{}` when they are not JSON.
pub open spec fn call_input(arguments: Seq<char>) -> Seq<char> {
    match json_normal_form(arguments) {
        Some(t) => t,
        None => "{}"@,
    }
}

/// A tool call of a response becomes a tool call of the message.
pub open spec fn parsed_call_matches(t: ToolCallData, o: OaiToolCall) -> bool {
    &&& t.id == o.id
    &&& t.name == o.function.name
    &&& t.input@ == call_input(o.function.arguments@)
}

fn parse_calls(calls: &Vec<OaiToolCall>) -> (r: Vec<ToolCallData>)
    ensures
        r@.len() == calls@.len(),
        forall|j: int| 0 <= j < calls@.len() ==> #[trigger] parsed_call_matches(r@[j], calls@[j]),
{
    let mut out: Vec<ToolCallData> = Vec::new();
    let mut i: usize = 0;
    while i < calls.len()
        invariant
            i <= calls@.len(),
            out@.len() == i,
            forall|j: int| 0 <= j < i ==> #[trigger] parsed_call_matches(out@[j], calls@[j]),
        decreases calls.len() - i,
    {
        let c = &calls[i];
        let input = match normalize_json(c.function.arguments.as_str()) {
            Some(t) => t,
            None => String::from_str("{}"),
        };
        out.push(ToolCallData { id: c.id.clone(), name: c.function.name.clone(), input });
        i = i + 1;
    }
    out
}

/// The tool calls of a response become the message's when there are any.
pub open spec fn calls_from_wire(calls: Option<Vec<ToolCallData>>, wire: Option<Vec<OaiToolCall>>) -> bool {
    match wire {
        Some(oc) => if oc@.len() > 0 {
            match calls {
                Some(tc) => tc@.len() == oc@.len() && forall|j: int|
                    0 <= j < oc@.len() ==> #[trigger] parsed_call_matches(tc@[j], oc@[j]),
                None => false,
            }
        } else {
            calls is None
        },
        None => calls is None,
    }
}

/// The message a completion response stands for, from its first choice: the content (or
/// nothing), the reasoning when it is not empty, and the tool calls when there are any.
pub fn response_message(choices: &[ChoiceMessage]) -> (r: Result<Message, ProviderError>)
    ensures
        choices@.len() == 0 ==> (r matches Err(ProviderError::ProviderError { message }) && message@
            == "no choices in response"@),
        choices@.len() > 0 ==> (r matches Ok(m) && {
            let c = choices@[0];
            &&& m.role == Role::Assistant
            &&& m.content@ == (match c.content {
                Some(t) => t@,
                None => Seq::<char>::empty(),
            })
            &&& m.tool_call_id is None
            &&& m.reasoning_content == (if c.reasoning_content matches Some(t) && t@.len() > 0 {
                c.reasoning_content
            } else {
                None
            })
            &&& calls_from_wire(m.tool_calls, c.tool_calls)
        }),
{
    if choices.len() == 0 {
        return Err(ProviderError::ProviderError { message: String::from_str("no choices in response") });
    }
    let c = &choices[0];
    let content = match &c.content {
        Some(t) => t.clone(),
        None => String::new(),
    };
    let mut msg = Message::new(Role::Assistant, content.as_str());
    match &c.reasoning_content {
        Some(t) => {
            if !t.as_str().is_empty() {
                msg = msg.with_reasoning(t.clone());
            }
        },
        None => {},
    }
    match &c.tool_calls {
        Some(oc) => {
            let parsed = parse_calls(oc);
            if parsed.len() > 0 {
                msg.tool_calls = Some(parsed);
            }
        },
        None => {},
    }
    Ok(msg)
}

/// What one server-sent event yields, and whether the stream ends with it.
#[derive(Debug)]
pub struct SseStep {
    pub events: Vec<Result<StreamEvent, ProviderError>>,
    pub finished: bool,
}

/// Handle one server-sent event. `[DONE]` ends the stream with `Done`. Otherwise `parsed`
/// is the event's data read as a stream chunk: the delta of its first choice (or `None`
/// without choices), or the parse error's text. A delta yields its reasoning, then its
/// content, each only when not empty; a parse error ends the stream with an error.
pub fn sse_step(data: &str, parsed: Result<Option<StreamDelta>, String>) -> (r: SseStep)
    ensures
        data@ == SSE_DONE_MARKER@ ==> r.finished && r.events@.len() == 1 && r.events@[0] == Ok::<
            StreamEvent,
            ProviderError,
        >(StreamEvent::Done),
        data@ != SSE_DONE_MARKER@ ==> match parsed {
            Err(e) => r.finished && r.events@.len() == 1 && (r.events@[0] matches Err(
                ProviderError::ProviderError { message },
            ) && message@ == "Failed to parse SSE: "@ + e@),
            Ok(None) => !r.finished && r.events@.len() == 0,
            Ok(Some(d)) => !r.finished && r.events@ == delta_events(d),
        },
{
    let mut events: Vec<Result<StreamEvent, ProviderError>> = Vec::new();
    if crate::chars::str_eq(data, SSE_DONE_MARKER) {
        events.push(Ok(StreamEvent::Done));
        return SseStep { events, finished: true };
    }
    match parsed {
        Err(e) => {
            events.push(Err(ProviderError::ProviderError { message: concat("Failed to parse SSE: ", e.as_str()) }));
            SseStep { events, finished: true }
        },
        Ok(None) => SseStep { events, finished: false },
        Ok(Some(d)) => {
            match d.reasoning_content {
                Some(t) => {
                    if !t.as_str().is_empty() {
                        events.push(Ok(StreamEvent::ReasoningDelta(t)));
                    }
                },
                None => {},
            }
            match d.content {
                Some(t) => {
                    if !t.as_str().is_empty() {
                        events.push(Ok(StreamEvent::TextDelta(t)));
                    }
                },
                None => {},
            }
            SseStep { events, finished: false }
        },
    }
}

/// The events of a delta: its reasoning, then its content, each only when not empty.
pub open spec fn delta_events(d: StreamDelta) -> Seq<Result<StreamEvent, ProviderError>> {
    (match d.reasoning_content {
        Some(t) => if t@.len() > 0 {
            seq![Ok(StreamEvent::ReasoningDelta(t))]
        } else {
            seq![]
        },
        None => seq![],
    }) + (match d.content {
        Some(t) => if t@.len() > 0 {
            seq![Ok(StreamEvent::TextDelta(t))]
        } else {
            seq![]
        },
        None => seq![],
    })
}

/// The error for an HTTP status of a completion: 401 is an authentication failure with
/// the error message of the body (or `Invalid API key`); any other status outside 200..300
/// is a failed request `HTTP <status>: <body>`; a success is no error.
pub fn complete_status_error(status: u16, status_text: &str, auth_message: Option<String>, body: Option<String>) -> (r:
    Option<ProviderError>)
    ensures
        status == 401 ==> (r matches Some(ProviderError::AuthenticationError(m)) && m@ == (match auth_message {
            Some(a) => a@,
            None => "Invalid API key"@,
        })),
        status != 401 && !(200 <= status < 300) ==> (r matches Some(ProviderError::RequestFailed(m))
            && m@ == "HTTP "@ + status_text@ + ": "@ + (match body {
            Some(b) => b@,
            None => "unknown error"@,
        })),
        200 <= status < 300 ==> r is None,
{
    if status == 401 {
        let m = match auth_message {
            Some(a) => a,
            None => String::from_str("Invalid API key"),
        };
        return Some(ProviderError::AuthenticationError(m));
    }
    if 200 <= status && status < 300 {
        return None;
    }
    let mut m = String::from_str("HTTP ");
    m.append(status_text);
    m.append(": ");
    match body {
        Some(b) => m.append(b.as_str()),
        None => m.append("unknown error"),
    }
    Some(ProviderError::RequestFailed(m))
}

/// The error for an HTTP status of a stream: 401 is an authentication failure; any other
/// status outside 200..300 is a failed request `HTTP <status>`; a success is no error.
pub fn stream_status_error(status: u16, status_text: &str) -> (r: Option<ProviderError>)
    ensures
        status == 401 ==> (r matches Some(ProviderError::AuthenticationError(m)) && m@ == "Invalid API key"@),
        status != 401 && !(200 <= status < 300) ==> (r matches Some(ProviderError::RequestFailed(m))
            && m@ == "HTTP "@ + status_text@),
        200 <= status < 300 ==> r is None,
{
    if status == 401 {
        return Some(ProviderError::AuthenticationError(String::from_str("Invalid API key")));
    }
    if 200 <= status && status < 300 {
        return None;
    }
    Some(ProviderError::RequestFailed(concat("HTTP ", status_text)))
}

} // verus!
