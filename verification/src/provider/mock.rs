//! A scripted provider for tests: canned responses answered last-in first-out, and canned
//! stream tokens.

use vstd::prelude::*;
use vstd::string::*;

use crate::message::{Message, Role, ToolCallData};
use crate::provider::StreamEvent;

verus! {

/// A provider whose answers are set in advance.
#[derive(Debug)]
pub struct MockProvider {
    responses: Vec<Message>,
    stream_tokens: Vec<String>,
}

/// The message a mock provider answers with when it has nothing queued.
pub open spec fn is_default_response(m: Message) -> bool {
    &&& m.role == Role::Assistant
    &&& m.content@ == "Mock response"@
    &&& m.tool_calls is None
    &&& m.tool_call_id is None
    &&& m.reasoning_content is None
}

impl MockProvider {
    /// The queued responses; the last one is answered first.
    pub closed spec fn queued(&self) -> Seq<Message> {
        self.responses@
    }

    /// The tokens a stream yields.
    pub closed spec fn tokens(&self) -> Seq<String> {
        self.stream_tokens@
    }

    /// A provider with nothing queued.
    pub fn new() -> (r: MockProvider)
        ensures
            r.queued() == Seq::<Message>::empty(),
            r.tokens() == Seq::<String>::empty(),
    {
        MockProvider { responses: Vec::new(), stream_tokens: Vec::new() }
    }

    /// Queue an assistant response with the given content.
    pub fn with_response(self, content: &str) -> (r: MockProvider)
        ensures
            r.queued().len() == self.queued().len() + 1,
            r.queued().drop_last() == self.queued(),
            r.queued().last().role == Role::Assistant,
            r.queued().last().content@ == content@,
            r.queued().last().tool_calls is None,
            r.queued().last().tool_call_id is None,
            r.queued().last().reasoning_content is None,
            r.tokens() == self.tokens(),
    {
        let mut responses = self.responses;
        responses.push(Message::new(Role::Assistant, content));
        assert(responses@.drop_last() =~= self.responses@);
        MockProvider { responses, stream_tokens: self.stream_tokens }
    }

    /// Queue an assistant response that asks for the given tool calls.
    pub fn with_tool_call_response(self, tool_calls: Vec<ToolCallData>) -> (r: MockProvider)
        ensures
            r.queued().len() == self.queued().len() + 1,
            r.queued().drop_last() == self.queued(),
            r.queued().last().role == Role::Assistant,
            r.queued().last().content@ == Seq::<char>::empty(),
            r.queued().last().tool_calls == Some(tool_calls),
            r.tokens() == self.tokens(),
    {
        let mut msg = Message::new(Role::Assistant, "");
        proof {
            reveal_strlit("");
        }
        msg.tool_calls = Some(tool_calls);
        let mut responses = self.responses;
        responses.push(msg);
        assert(responses@.drop_last() =~= self.responses@);
        MockProvider { responses, stream_tokens: self.stream_tokens }
    }

    /// Set the tokens a stream yields.
    pub fn with_stream_tokens(self, tokens: Vec<&str>) -> (r: MockProvider)
        ensures
            r.queued() == self.queued(),
            r.tokens().len() == tokens@.len(),
            forall|i: int| 0 <= i < tokens@.len() ==> #[trigger] r.tokens()[i]@ == tokens@[i]@,
    {
        let mut out: Vec<String> = Vec::new();
        let mut i: usize = 0;
        while i < tokens.len()
            invariant
                i <= tokens@.len(),
                out@.len() == i,
                forall|j: int| 0 <= j < i ==> #[trigger] out@[j]@ == tokens@[j]@,
            decreases tokens.len() - i,
        {
            out.push(String::from_str(tokens[i]));
            i = i + 1;
        }
        MockProvider { responses: self.responses, stream_tokens: out }
    }

    /// Answer a completion: the most recently queued response, or `Mock response` when
    /// none is left.
    pub fn complete(&mut self) -> (r: Message)
        ensures
            old(self).queued().len() > 0 ==> r == old(self).queued().last() && final(self).queued()
                == old(self).queued().drop_last(),
            old(self).queued().len() == 0 ==> is_default_response(r) && final(self).queued()
                == old(self).queued(),
            final(self).tokens() == old(self).tokens(),
    {
        match self.responses.pop() {
            Some(m) => {
                assert(self.responses@ =~= old(self).responses@.drop_last());
                m
            },
            None => {
                let m = Message::new(Role::Assistant, "Mock response");
                m
            },
        }
    }

    /// Answer a stream: each configured token as a text delta, then `Done`; without
    /// tokens, the next completion's content as one delta, then `Done`.
    pub fn stream(&mut self) -> (r: Vec<StreamEvent>)
        ensures
            old(self).tokens().len() > 0 ==> {
                &&& final(self).queued() == old(self).queued()
                &&& r@.len() == old(self).tokens().len() + 1
                &&& forall|i: int|
                    0 <= i < old(self).tokens().len() ==> #[trigger] r@[i] == StreamEvent::TextDelta(
                        old(self).tokens()[i],
                    )
                &&& r@.last() == StreamEvent::Done
            },
            old(self).tokens().len() == 0 ==> {
                &&& r@.len() == 2
                &&& r@[1] == StreamEvent::Done
                &&& old(self).queued().len() > 0 ==> r@[0] == StreamEvent::TextDelta(
                    old(self).queued().last().content,
                ) && final(self).queued() == old(self).queued().drop_last()
                &&& old(self).queued().len() == 0 ==> (r@[0] matches StreamEvent::TextDelta(t)
                    && t@ == "Mock response"@)
            },
            final(self).tokens() == old(self).tokens(),
    {
        let mut out: Vec<StreamEvent> = Vec::new();
        if self.stream_tokens.len() == 0 {
            let m = self.complete();
            out.push(StreamEvent::TextDelta(m.content));
        } else {
            let mut i: usize = 0;
            while i < self.stream_tokens.len()
                invariant
                    i <= self.stream_tokens@.len(),
                    self.stream_tokens == old(self).stream_tokens,
                    self.responses == old(self).responses,
                    out@.len() == i,
                    forall|j: int| 0 <= j < i ==> #[trigger] out@[j] == StreamEvent::TextDelta(
                        self.stream_tokens@[j],
                    ),
                decreases self.stream_tokens.len() - i,
            {
                out.push(StreamEvent::TextDelta(self.stream_tokens[i].clone()));
                i = i + 1;
            }
        }
        out.push(StreamEvent::Done);
        out
    }
}

} // verus!
