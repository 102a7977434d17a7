//! The Anthropic Messages API wire format: system prompts lifted out of the conversation,
//! tool results sent as user content blocks, and response blocks turned back into a
//! message.

use vstd::prelude::*;
use vstd::string::*;

use crate::chars::str_eq;
use crate::mcp::ToolDefinition;
use crate::message::{Message, Role, ToolCallData};
use crate::provider::openai_compat::complete_status_error;
use crate::provider::ProviderError;

verus! {

/// The token budget of every request.
pub const DEFAULT_MAX_TOKENS: u32 = 1024;

/// A content block of a message or a response.
#[derive(Debug, Clone)]
pub struct ContentBlock {
    /// The block type: "text", "tool_use" or "tool_result".
    pub content_type: String,
    pub text: Option<String>,
    pub id: Option<String>,
    pub name: Option<String>,
    /// A tool call's input, as JSON text.
    pub input: Option<String>,
    pub tool_use_id: Option<String>,
    pub content: Option<String>,
}

/// The content of a message: plain text or blocks.
#[derive(Debug, Clone)]
pub enum ApiContent {
    Text(String),
    Blocks(Vec<ContentBlock>),
}

/// A message on the wire.
#[derive(Debug, Clone)]
pub struct AnthropicMessage {
    pub role: String,
    pub content: ApiContent,
}

/// A tool offered to the model.
#[derive(Debug, Clone)]
pub struct AnthropicTool {
    pub name: String,
    pub description: Option<String>,
    /// The tool's input schema, as JSON text.
    pub input_schema: String,
}

/// A request to the Messages API.
#[derive(Debug)]
pub struct AnthropicRequest {
    pub model: String,
    pub max_tokens: u32,
    pub messages: Vec<AnthropicMessage>,
    pub system: Option<String>,
    pub tools: Option<Vec<AnthropicTool>>,
}

/// The contents of the system messages of `ms`, in order.
pub open spec fn system_texts(ms: Seq<Message>) -> Seq<Seq<char>>
    decreases ms.len(),
{
    if ms.len() == 0 {
        seq![]
    } else if ms.last().role == Role::System {
        system_texts(ms.drop_last()).push(ms.last().content@)
    } else {
        system_texts(ms.drop_last())
    }
}

/// Texts joined with a separator.
pub open spec fn joined(texts: Seq<Seq<char>>, sep: Seq<char>) -> Seq<char>
    decreases texts.len(),
{
    if texts.len() == 0 {
        seq![]
    } else if texts.len() == 1 {
        texts[0]
    } else {
        joined(texts.drop_last(), sep) + sep + texts.last()
    }
}

/// The messages of `ms` other than system messages, in order.
pub open spec fn non_system(ms: Seq<Message>) -> Seq<Message>
    decreases ms.len(),
{
    if ms.len() == 0 {
        seq![]
    } else if ms.last().role == Role::System {
        non_system(ms.drop_last())
    } else {
        non_system(ms.drop_last()).push(ms.last())
    }
}

/// How a (non-system) message goes on the wire: a tool result as a user message with one
/// `tool_result` block; any other as text with its role.
pub open spec fn anthropic_message_matches(a: AnthropicMessage, m: Message) -> bool {
    if m.role == Role::Tool {
        &&& a.role@ == "user"@
        &&& a.content matches ApiContent::Blocks(bs) && bs@.len() == 1 && {
            let b = bs@[0];
            &&& b.content_type@ == "tool_result"@
            &&& b.text is None && b.id is None && b.name is None && b.input is None
            &&& b.tool_use_id matches Some(t) && t@ == (match m.tool_call_id {
                Some(id) => id@,
                None => Seq::<char>::empty(),
            })
            &&& b.content == Some(m.content)
        }
    } else {
        &&& a.role@ == (if m.role == Role::Assistant {
            "assistant"@
        } else {
            "user"@
        })
        &&& a.content == ApiContent::Text(m.content)
    }
}

/// A tool goes on the wire with its name, description and schema.
pub open spec fn anthropic_tool_matches(a: AnthropicTool, t: ToolDefinition) -> bool {
    a.name == t.name && a.description == t.description && a.input_schema == t.input_schema
}

/// The endpoint settings: key and model.
#[derive(Debug, Clone)]
pub struct AnthropicProvider {
    pub api_key: String,
    pub model: String,
}

impl AnthropicProvider {
    /// Settings for a key and a model.
    pub fn new(api_key: &str, model: &str) -> (r: AnthropicProvider)
        ensures
            r.api_key@ == api_key@,
            r.model@ == model@,
    {
        AnthropicProvider { api_key: String::from_str(api_key), model: String::from_str(model) }
    }

    /// The system prompt: the system messages' contents joined by blank lines, or `None`
    /// when there are none.
    pub fn extract_system(messages: &[Message]) -> (r: Option<String>)
        ensures
            system_texts(messages@).len() == 0 ==> r is None,
            system_texts(messages@).len() > 0 ==> (r matches Some(s) && s@ == joined(
                system_texts(messages@),
                "\n\n"@,
            )),
    {
        let mut out = String::new();
        let mut any = false;
        let mut i: usize = 0;
        while i < messages.len()
            invariant
                i <= messages@.len(),
                any <==> system_texts(messages@.take(i as int)).len() > 0,
                out@ == joined(system_texts(messages@.take(i as int)), "\n\n"@),
            decreases messages.len() - i,
        {
            assert(messages@.take(i + 1).drop_last() =~= messages@.take(i as int));
            if messages[i].role == Role::System {
                let ghost prev = system_texts(messages@.take(i as int));
                let ghost now = prev.push(messages@[i as int].content@);
                assert(system_texts(messages@.take(i + 1)) == now);
                assert(now.drop_last() =~= prev);
                if any {
                    out.append("\n\n");
                } else {
                    assert(out@ =~= Seq::<char>::empty());
                }
                out.append(messages[i].content.as_str());
                any = true;
                assert(out@ =~= joined(now, "\n\n"@));
            }
            i = i + 1;
        }
        assert(messages@.take(messages@.len() as int) =~= messages@);
        if any {
            Some(out)
        } else {
            None
        }
    }

    /// The wire form of the conversation: system messages left out, tool results sent as
    /// user messages with a `tool_result` block.
    pub fn build_api_messages(messages: &[Message]) -> (r: Vec<AnthropicMessage>)
        ensures
            r@.len() == non_system(messages@).len(),
            forall|i: int|
                0 <= i < r@.len() ==> #[trigger] anthropic_message_matches(r@[i], non_system(messages@)[i]),
    {
        let mut out: Vec<AnthropicMessage> = Vec::new();
        let mut i: usize = 0;
        while i < messages.len()
            invariant
                i <= messages@.len(),
                out@.len() == non_system(messages@.take(i as int)).len(),
                forall|j: int|
                    0 <= j < out@.len() ==> #[trigger] anthropic_message_matches(
                        out@[j],
                        non_system(messages@.take(i as int))[j],
                    ),
            decreases messages.len() - i,
        {
            assert(messages@.take(i + 1).drop_last() =~= messages@.take(i as int));
            let m = &messages[i];
            if m.role != Role::System {
                let a = if m.role == Role::Tool {
                    let id = match &m.tool_call_id {
                        Some(t) => t.clone(),
                        None => String::new(),
                    };
                    let mut blocks: Vec<ContentBlock> = Vec::new();
                    blocks.push(
                        ContentBlock {
                            content_type: String::from_str("tool_result"),
                            text: None,
                            id: None,
                            name: None,
                            input: None,
                            tool_use_id: Some(id),
                            content: Some(m.content.clone()),
                        },
                    );
                    AnthropicMessage { role: String::from_str("user"), content: ApiContent::Blocks(blocks) }
                } else if m.role == Role::Assistant {
                    AnthropicMessage {
                        role: String::from_str("assistant"),
                        content: ApiContent::Text(m.content.clone()),
                    }
                } else {
                    AnthropicMessage { role: String::from_str("user"), content: ApiContent::Text(m.content.clone()) }
                };
                out.push(a);
            }
            i = i + 1;
        }
        assert(messages@.take(messages@.len() as int) =~= messages@);
        out
    }

    /// The request for a completion, offering `tools` when there are any.
    pub fn request(&self, messages: &[Message], tools: &[ToolDefinition]) -> (r: AnthropicRequest)
        ensures
            r.model == self.model,
            r.max_tokens == DEFAULT_MAX_TOKENS,
            r.messages@.len() == non_system(messages@).len(),
            forall|i: int|
                0 <= i < r.messages@.len() ==> #[trigger] anthropic_message_matches(
                    r.messages@[i],
                    non_system(messages@)[i],
                ),
            system_texts(messages@).len() == 0 ==> r.system is None,
            system_texts(messages@).len() > 0 ==> (r.system matches Some(s) && s@ == joined(
                system_texts(messages@),
                "\n\n"@,
            )),
            tools@.len() == 0 ==> r.tools is None,
            tools@.len() > 0 ==> (r.tools matches Some(v) && v@.len() == tools@.len() && forall|i: int|
                0 <= i < tools@.len() ==> #[trigger] anthropic_tool_matches(v@[i], tools@[i])),
    {
        let api_tools = if tools.len() == 0 {
            None
        } else {
            let mut v: Vec<AnthropicTool> = Vec::new();
            let mut i: usize = 0;
            while i < tools.len()
                invariant
                    i <= tools@.len(),
                    v@.len() == i,
                    forall|j: int| 0 <= j < i ==> #[trigger] anthropic_tool_matches(v@[j], tools@[j]),
                decreases tools.len() - i,
            {
                let t = &tools[i];
                let description = match &t.description {
                    Some(d) => Some(d.clone()),
                    None => None,
                };
                v.push(AnthropicTool { name: t.name.clone(), description, input_schema: t.input_schema.clone() });
                i = i + 1;
            }
            Some(v)
        };
        AnthropicRequest {
            model: self.model.clone(),
            max_tokens: DEFAULT_MAX_TOKENS,
            messages: Self::build_api_messages(messages),
            system: Self::extract_system(messages),
            tools: api_tools,
        }
    }
}

/// Whether a response block is a tool call: a `tool_use` block with an id and a name.
pub open spec fn is_tool_use(b: ContentBlock) -> bool {
    b.content_type@ == "tool_use"@ && b.id is Some && b.name is Some
}

/// The tool-call blocks of a response, in order.
pub open spec fn tool_use_blocks(bs: Seq<ContentBlock>) -> Seq<ContentBlock>
    decreases bs.len(),
{
    if bs.len() == 0 {
        seq![]
    } else if is_tool_use(bs.last()) {
        tool_use_blocks(bs.drop_last()).push(bs.last())
    } else {
        tool_use_blocks(bs.drop_last())
    }
}

/// A tool-call block becomes a tool call with its id, name and input (`{}` without one).
pub open spec fn block_call_matches(t: ToolCallData, b: ContentBlock) -> bool {
    &&& b.id == Some(t.id)
    &&& b.name == Some(t.name)
    &&& t.input@ == (match b.input {
        Some(i) => i@,
        None => "{}"@,
    })
}

/// The text of response blocks: the `text` of each `text` block, run together.
pub open spec fn block_text(bs: Seq<ContentBlock>) -> Seq<char>
    decreases bs.len(),
{
    if bs.len() == 0 {
        seq![]
    } else {
        let b = bs.last();
        block_text(bs.drop_last()) + if b.content_type@ == "text"@ && b.text is Some {
            b.text->0@
        } else {
            seq![]
        }
    }
}

/// The message a response's content blocks stand for: the text blocks' text, and the tool
/// calls when there are any.
pub fn response_message(blocks: &[ContentBlock]) -> (r: Message)
    ensures
        r.role == Role::Assistant,
        r.content@ == block_text(blocks@),
        r.tool_call_id is None,
        r.reasoning_content is None,
        tool_use_blocks(blocks@).len() == 0 ==> r.tool_calls is None,
        tool_use_blocks(blocks@).len() > 0 ==> (r.tool_calls matches Some(tc) && tc@.len()
            == tool_use_blocks(blocks@).len() && forall|i: int|
            0 <= i < tc@.len() ==> #[trigger] block_call_matches(tc@[i], tool_use_blocks(blocks@)[i])),
{
    let mut calls: Vec<ToolCallData> = Vec::new();
    let mut text = String::new();
    let mut i: usize = 0;
    while i < blocks.len()
        invariant
            i <= blocks@.len(),
            text@ == block_text(blocks@.take(i as int)),
            calls@.len() == tool_use_blocks(blocks@.take(i as int)).len(),
            forall|j: int|
                0 <= j < calls@.len() ==> #[trigger] block_call_matches(
                    calls@[j],
                    tool_use_blocks(blocks@.take(i as int))[j],
                ),
        decreases blocks.len() - i,
    {
        assert(blocks@.take(i + 1).drop_last() =~= blocks@.take(i as int));
        let b = &blocks[i];
        if str_eq(b.content_type.as_str(), "tool_use") {
            match (&b.id, &b.name) {
                (Some(id), Some(name)) => {
                    let input = match &b.input {
                        Some(t) => t.clone(),
                        None => String::from_str("{}"),
                    };
                    calls.push(ToolCallData { id: id.clone(), name: name.clone(), input });
                },
                _ => {},
            }
        }
        if str_eq(b.content_type.as_str(), "text") {
            match &b.text {
                Some(t) => text.append(t.as_str()),
                None => {},
            }
        }
        i = i + 1;
    }
    assert(blocks@.take(blocks@.len() as int) =~= blocks@);
    let mut msg = Message::new(Role::Assistant, text.as_str());
    if calls.len() > 0 {
        msg.tool_calls = Some(calls);
    }
    msg
}


/// The error for an HTTP status of a Messages API reply: 401 is an authentication failure
/// with the error message of the body (or `invalid x-api-key`); any other status outside
/// 200..300 is a failed request `HTTP <status>: <body>`; a success is no error.
pub fn status_error(status: u16, status_text: &str, auth_message: Option<String>, body: Option<
    String,
>) -> (r: Option<ProviderError>)
    ensures
        status == 401 ==> (r matches Some(ProviderError::AuthenticationError(m)) && m@ == (
        match auth_message {
            Some(a) => a@,
            None => "invalid x-api-key"@,
        })),
        status != 401 && !(200 <= status < 300) ==> (r matches Some(
            ProviderError::RequestFailed(m),
        ) && m@ == "HTTP "@ + status_text@ + ": "@ + (match body {
            Some(b) => b@,
            None => "unknown error"@,
        })),
        200 <= status < 300 ==> r is None,
{
    if status == 401 {
        let m = match auth_message {
            Some(a) => a,
            None => String::from_str("invalid x-api-key"),
        };
        return Some(ProviderError::AuthenticationError(m));
    }
    complete_status_error(status, status_text, None, body)
}

} // verus!
