//! The agent's tool-calling loop, as decisions: given what the provider or a tool answered,
//! what the conversation becomes and what to do next.
//!
//! The caller performs each action (asking the provider, running a tool) and hands the
//! answer back; the loop stops with the final response, an error, or after
//! [`MAX_ITERATIONS`] rounds of tool calls.

use vstd::prelude::*;
use vstd::string::*;

use crate::chars::concat;
use crate::mcp::{mcp_error_text, McpError};
use crate::message::{calls_view, duplicate_calls, Message, Role, ToolCallData};
use crate::provider::{provider_error_text, ProviderError, StreamEvent};

verus! {

/// Maximum number of provider calls answered with tool calls before giving up.
pub const MAX_ITERATIONS: usize = 10;

/// Errors from the agent.
#[derive(Debug, Clone, PartialEq)]
pub enum AgentError {
    /// The provider failed.
    Provider(ProviderError),
    /// An MCP operation failed.
    Mcp(McpError),
    /// The model kept asking for tools for [`MAX_ITERATIONS`] rounds.
    MaxIterationsExceeded,
}

/// The text shown for an agent error.
pub open spec fn agent_error_text(e: AgentError) -> Seq<char> {
    match e {
        AgentError::Provider(p) => "provider error: "@ + provider_error_text(p),
        AgentError::Mcp(m) => "MCP error: "@ + mcp_error_text(m),
        AgentError::MaxIterationsExceeded => "max tool call iterations exceeded"@,
    }
}

impl AgentError {
    /// The human-readable description of this error.
    pub fn to_string(&self) -> (r: String)
        ensures
            r@ == agent_error_text(*self),
    {
        match self {
            AgentError::Provider(p) => {
                let t = p.to_string();
                concat("provider error: ", t.as_str())
            },
            AgentError::Mcp(m) => {
                let t = m.to_string();
                concat("MCP error: ", t.as_str())
            },
            AgentError::MaxIterationsExceeded => String::from_str(
                "max tool call iterations exceeded",
            ),
        }
    }
}

/// What the caller of the loop does next.
#[derive(Debug)]
pub enum AgentAction {
    /// Ask the provider for a response to the conversation, offering the tools when
    /// `with_tools` holds.
    CallProvider { with_tools: bool },
    /// Run this tool call and hand its result back.
    CallTool(ToolCallData),
    /// The final response.
    Finish(Message),
    /// The loop failed.
    Fail(AgentError),
}

/// The state of one agent completion.
pub struct AgentLoop {
    /// Whether the provider is offered tools.
    pub has_tools: bool,
    /// Rounds of tool calls completed so far.
    pub iteration: usize,
    /// The tool calls of the current round.
    pub calls: Vec<ToolCallData>,
    /// How many of them have been answered.
    pub next_call: usize,
}

/// The content of a tool result message: the tool's text, or `Error: ` and the error.
pub open spec fn tool_result_content(result: Result<String, McpError>) -> Seq<char> {
    match result {
        Ok(text) => text@,
        Err(e) => "Error: "@ + mcp_error_text(e),
    }
}

/// A response asks for tools when it carries a non-empty list of tool calls.
pub open spec fn asks_for_tools(response: Message) -> bool {
    response.tool_calls matches Some(c) && c@.len() > 0
}

impl AgentLoop {
    /// The loop is waiting for the provider's response.
    pub open spec fn awaits_response(&self) -> bool {
        self.iteration < MAX_ITERATIONS && self.next_call == self.calls@.len()
    }

    /// The loop is waiting for the result of the tool call `next_call`.
    pub open spec fn awaits_tool(&self) -> bool {
        self.iteration < MAX_ITERATIONS && self.next_call < self.calls@.len()
    }

    /// Start a completion: the first action is to ask the provider.
    pub fn start(has_tools: bool) -> (r: (AgentLoop, AgentAction))
        ensures
            r.0.awaits_response(),
            r.0.iteration == 0,
            r.0.has_tools == has_tools,
            r.1 == (AgentAction::CallProvider { with_tools: has_tools }),
    {
        (AgentLoop { has_tools, iteration: 0, calls: Vec::new(), next_call: 0 }, AgentAction::CallProvider { with_tools: has_tools })
    }

    /// The provider answered. A response without tool calls is the final one; otherwise it
    /// joins the conversation and its first tool call is run.
    pub fn on_response(&mut self, messages: &mut Vec<Message>, response: Message) -> (r:
        AgentAction)
        requires
            old(self).awaits_response(),
        ensures
            final(self).has_tools == old(self).has_tools,
            final(self).iteration == old(self).iteration,
            !asks_for_tools(response) ==> {
                &&& r == AgentAction::Finish(response)
                &&& final(messages)@ == old(messages)@
                &&& final(self).awaits_response()
            },
            asks_for_tools(response) ==> {
                &&& final(messages)@ == old(messages)@.push(response)
                &&& calls_view(response.tool_calls) == Some(final(self).calls@)
                &&& final(self).next_call == 0
                &&& final(self).awaits_tool()
                &&& r == AgentAction::CallTool(final(self).calls@[0])
            },
    {
        let calls = match &response.tool_calls {
            Some(c) => {
                if c.len() > 0 {
                    Some(duplicate_calls(c))
                } else {
                    None
                }
            },
            None => None,
        };
        match calls {
            Some(c) => {
                messages.push(response);
                self.calls = c;
                self.next_call = 0;
                AgentAction::CallTool(self.calls[0].duplicate())
            },
            None => AgentAction::Finish(response),
        }
    }

    /// The current tool call finished. Its result joins the conversation as a tool message;
    /// then the next call of the round runs, or, when the round is over, the provider is
    /// asked again, unless this was the last round allowed.
    pub fn on_tool_result(&mut self, messages: &mut Vec<Message>, result: Result<String, McpError>) -> (r:
        AgentAction)
        requires
            old(self).awaits_tool(),
        ensures
            final(messages)@.len() == old(messages)@.len() + 1,
            final(messages)@.drop_last() == old(messages)@,
            final(messages)@.last().role == Role::Tool,
            final(messages)@.last().tool_call_id == Some(old(self).calls@[old(self).next_call as int].id),
            final(messages)@.last().content@ == tool_result_content(result),
            final(self).has_tools == old(self).has_tools,
            final(self).calls@ == old(self).calls@,
            final(self).next_call == old(self).next_call + 1,
            final(self).next_call < final(self).calls@.len() ==> {
                &&& final(self).iteration == old(self).iteration
                &&& final(self).awaits_tool()
                &&& r == AgentAction::CallTool(final(self).calls@[final(self).next_call as int])
            },
            final(self).next_call == final(self).calls@.len() ==> {
                &&& final(self).iteration == old(self).iteration + 1
                &&& final(self).iteration < MAX_ITERATIONS ==> final(self).awaits_response()
                    && r == (AgentAction::CallProvider { with_tools: old(self).has_tools })
                &&& final(self).iteration == MAX_ITERATIONS ==> r == AgentAction::Fail(
                    AgentError::MaxIterationsExceeded,
                )
            },
    {
        let content = match &result {
            Ok(text) => text.clone(),
            Err(e) => {
                let t = e.to_string();
                concat("Error: ", t.as_str())
            },
        };
        let n = self.calls.len();
        let id = self.calls[self.next_call].id.clone();
        let msg = Message {
            role: Role::Tool,
            content,
            tool_calls: None,
            tool_call_id: Some(id),
            reasoning_content: None,
        };
        messages.push(msg);
        assert(messages@.drop_last() =~= old(messages)@);
        self.next_call = self.next_call + 1;
        if self.next_call < self.calls.len() {
            AgentAction::CallTool(self.calls[self.next_call].duplicate())
        } else {
            self.iteration = self.iteration + 1;
            if self.iteration < MAX_ITERATIONS {
                AgentAction::CallProvider { with_tools: self.has_tools }
            } else {
                AgentAction::Fail(AgentError::MaxIterationsExceeded)
            }
        }
    }
}

/// `a` carries what `b` carries: role, text, tool calls, tool call id and reasoning.
pub open spec fn same_message(a: Message, b: Message) -> bool {
    &&& a.role == b.role
    &&& a.content == b.content
    &&& calls_view(a.tool_calls) == calls_view(b.tool_calls)
    &&& a.tool_call_id == b.tool_call_id
    &&& a.reasoning_content == b.reasoning_content
}

/// How many messages the system prompt adds in front of a conversation.
pub open spec fn prompt_offset(system_prompt: Option<String>) -> int {
    if system_prompt is Some {
        1
    } else {
        0
    }
}

/// The conversation as the provider receives it: the configured system prompt first,
/// when there is one, then the messages. The prompt is added for each request and is
/// not part of the stored conversation.
pub fn with_system_prompt(system_prompt: &Option<String>, messages: &[Message]) -> (r: Vec<
    Message,
>)
    ensures
        r@.len() == messages@.len() + prompt_offset(*system_prompt),
        system_prompt matches Some(p) ==> {
            &&& r@[0].role == Role::System
            &&& r@[0].content@ == p@
            &&& r@[0].tool_calls is None
            &&& r@[0].tool_call_id is None
            &&& r@[0].reasoning_content is None
        },
        forall|i: int|
            0 <= i < messages@.len() ==> same_message(
                r@[i + prompt_offset(*system_prompt)],
                #[trigger] messages@[i],
            ),
{
    let mut out: Vec<Message> = Vec::new();
    let offset: usize = match system_prompt {
        Some(p) => {
            out.push(Message::new(Role::System, p.as_str()));
            1
        },
        None => 0,
    };
    let mut i: usize = 0;
    while i < messages.len()
        invariant
            i <= messages@.len(),
            offset == prompt_offset(*system_prompt),
            out@.len() == offset + i,
            system_prompt matches Some(p) ==> {
                &&& out@[0].role == Role::System
                &&& out@[0].content@ == p@
                &&& out@[0].tool_calls is None
                &&& out@[0].tool_call_id is None
                &&& out@[0].reasoning_content is None
            },
            forall|j: int| 0 <= j < i ==> same_message(out@[j + offset], #[trigger] messages@[j]),
        decreases messages.len() - i,
    {
        out.push(messages[i].duplicate());
        i = i + 1;
    }
    out
}

/// The stream events for a response obtained through the tool loop: the content as a
/// single delta when it is not empty, then `Done`.
pub fn final_stream_events(response: Message) -> (r: Vec<StreamEvent>)
    ensures
        response.content@.len() > 0 ==> r@.len() == 2 && r@[0] == StreamEvent::TextDelta(
            response.content,
        ) && r@[1] == StreamEvent::Done,
        response.content@.len() == 0 ==> r@ == seq![StreamEvent::Done],
{
    let mut out: Vec<StreamEvent> = Vec::new();
    if !response.content.as_str().is_empty() {
        out.push(StreamEvent::TextDelta(response.content));
    }
    out.push(StreamEvent::Done);
    out
}

} // verus!
