//! Conversation messages shared by every provider.

use vstd::prelude::*;
use vstd::string::*;

use crate::chars::str_eq;

verus! {

/// Role of a message in the conversation.
#[derive(Debug, Clone, Copy, PartialEq, Eq, Structural)]
pub enum Role {
    /// System instructions for the model.
    System,
    /// User input.
    User,
    /// Model response.
    Assistant,
    /// Tool result message.
    Tool,
}

/// The lowercase wire name of a role.
pub open spec fn role_name(role: Role) -> Seq<char> {
    match role {
        Role::System => "system"@,
        Role::User => "user"@,
        Role::Assistant => "assistant"@,
        Role::Tool => "tool"@,
    }
}

/// The role whose wire name is `s`, if any.
pub open spec fn role_from_name(s: Seq<char>) -> Option<Role> {
    if s == "system"@ {
        Some(Role::System)
    } else if s == "user"@ {
        Some(Role::User)
    } else if s == "assistant"@ {
        Some(Role::Assistant)
    } else if s == "tool"@ {
        Some(Role::Tool)
    } else {
        None
    }
}

impl Role {
    /// The lowercase name used on the wire and in storage.
    pub fn as_str(&self) -> (r: &'static str)
        ensures
            r@ == role_name(*self),
    {
        match self {
            Role::System => "system",
            Role::User => "user",
            Role::Assistant => "assistant",
            Role::Tool => "tool",
        }
    }

    /// Parse a lowercase role name; an unknown name is answered with `unknown role: <name>`.
    pub fn parse(s: &str) -> (r: Result<Role, String>)
        ensures
            r matches Ok(role) ==> role_from_name(s@) == Some(role),
            r matches Err(e) ==> role_from_name(s@) is None && e@ == "unknown role: "@ + s@,
    {
        if str_eq(s, "system") {
            Ok(Role::System)
        } else if str_eq(s, "user") {
            Ok(Role::User)
        } else if str_eq(s, "assistant") {
            Ok(Role::Assistant)
        } else if str_eq(s, "tool") {
            Ok(Role::Tool)
        } else {
            let mut e = String::from_str("unknown role: ");
            e.append(s);
            Err(e)
        }
    }
}

/// Parsing a role's name gives the role back.
pub proof fn lemma_role_name_roundtrip(role: Role)
    ensures
        role_from_name(role_name(role)) == Some(role),
{
    reveal_strlit("system");
    reveal_strlit("user");
    reveal_strlit("assistant");
    reveal_strlit("tool");
    assert("system"@.len() == 6 && "user"@.len() == 4 && "assistant"@.len() == 9 && "tool"@.len() == 4);
    assert("user"@[0] != "tool"@[0]);
}

/// Data for a single tool call requested by the model.
///
/// The tool input is held as its JSON text.
#[derive(Debug, Clone, PartialEq)]
pub struct ToolCallData {
    /// Unique identifier for this tool call.
    pub id: String,
    /// Name of the tool to invoke.
    pub name: String,
    /// JSON input for the tool, as text.
    pub input: String,
}

/// A single message in a conversation.
#[derive(Debug, Clone, PartialEq)]
pub struct Message {
    /// The role of this message.
    pub role: Role,
    /// The text content of this message.
    pub content: String,
    /// Tool calls requested by the assistant.
    pub tool_calls: Option<Vec<ToolCallData>>,
    /// Tool call ID this message responds to.
    pub tool_call_id: Option<String>,
    /// Chain-of-thought reasoning attached to an assistant message.
    pub reasoning_content: Option<String>,
}

impl Message {
    /// A message with the given role and content and nothing else.
    pub fn new(role: Role, content: &str) -> (r: Message)
        ensures
            r.role == role,
            r.content@ == content@,
            r.tool_calls is None,
            r.tool_call_id is None,
            r.reasoning_content is None,
    {
        Message {
            role,
            content: String::from_str(content),
            tool_calls: None,
            tool_call_id: None,
            reasoning_content: None,
        }
    }

    /// A tool result message answering the call `tool_call_id`.
    pub fn tool_result(tool_call_id: &str, content: &str) -> (r: Message)
        ensures
            r.role == Role::Tool,
            r.content@ == content@,
            r.tool_calls is None,
            (r.tool_call_id matches Some(id) && id@ == tool_call_id@),
            r.reasoning_content is None,
    {
        Message {
            role: Role::Tool,
            content: String::from_str(content),
            tool_calls: None,
            tool_call_id: Some(String::from_str(tool_call_id)),
            reasoning_content: None,
        }
    }

    /// The same message carrying `reasoning` as its chain-of-thought.
    pub fn with_reasoning(self, reasoning: String) -> (r: Message)
        ensures
            r.role == self.role,
            r.content == self.content,
            r.tool_calls == self.tool_calls,
            r.tool_call_id == self.tool_call_id,
            r.reasoning_content == Some(reasoning),
    {
        Message { reasoning_content: Some(reasoning), ..self }
    }
}

impl ToolCallData {
    /// A copy of this tool call.
    pub fn duplicate(&self) -> (r: ToolCallData)
        ensures
            r == *self,
    {
        ToolCallData { id: self.id.clone(), name: self.name.clone(), input: self.input.clone() }
    }
}

/// A copy of an optional text.
pub fn duplicate_text(s: &Option<String>) -> (r: Option<String>)
    ensures
        r == *s,
{
    match s {
        Some(t) => Some(t.clone()),
        None => None,
    }
}

/// A copy of a list of tool calls.
pub fn duplicate_calls(calls: &Vec<ToolCallData>) -> (r: Vec<ToolCallData>)
    ensures
        r@ == calls@,
{
    let mut out: Vec<ToolCallData> = Vec::new();
    let mut i: usize = 0;
    while i < calls.len()
        invariant
            i <= calls@.len(),
            out@ == calls@.take(i as int),
        decreases calls.len() - i,
    {
        out.push(calls[i].duplicate());
        i = i + 1;
        assert(out@ =~= calls@.take(i as int));
    }
    assert(calls@.take(calls@.len() as int) =~= calls@);
    out
}

/// The tool calls of a message, as a sequence.
pub open spec fn calls_view(calls: Option<Vec<ToolCallData>>) -> Option<Seq<ToolCallData>> {
    match calls {
        Some(c) => Some(c@),
        None => None,
    }
}

impl Message {
    /// A copy of this message.
    pub fn duplicate(&self) -> (r: Message)
        ensures
            r.role == self.role,
            r.content == self.content,
            calls_view(r.tool_calls) == calls_view(self.tool_calls),
            r.tool_call_id == self.tool_call_id,
            r.reasoning_content == self.reasoning_content,
    {
        Message {
            role: self.role,
            content: self.content.clone(),
            tool_calls: match &self.tool_calls {
                Some(c) => Some(duplicate_calls(c)),
                None => None,
            },
            tool_call_id: duplicate_text(&self.tool_call_id),
            reasoning_content: duplicate_text(&self.reasoning_content),
        }
    }
}

} // verus!
