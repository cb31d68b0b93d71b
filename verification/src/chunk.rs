//! The pieces of a streamed upstream reply.

use crate::text::opt_view;
use vstd::prelude::*;

verus! {

/// One piece of the reply.
pub struct OpenAIChunk {
    pub choices: Option<Vec<OpenAIChoice>>,
}

/// One alternative of the reply; only the first is used.
pub struct OpenAIChoice {
    pub delta: Option<OpenAIDelta>,
    pub finish_reason: Option<String>,
}

/// What a piece adds to the reply.
pub struct OpenAIDelta {
    pub content: Option<String>,
    pub tool_calls: Option<Vec<OpenAIToolCallDelta>>,
}

/// What a piece adds to the tool call with the given index.
pub struct OpenAIToolCallDelta {
    pub index: u32,
    pub id: Option<String>,
    pub function: Option<OpenAIFunctionDelta>,
}

/// What a piece adds to the function of a tool call.
pub struct OpenAIFunctionDelta {
    pub name: Option<String>,
    pub arguments: Option<String>,
}

/// What a tool call delta is; a text that it does not give is empty.
#[verifier::ext_equal]
pub struct CallDeltaView {
    pub index: u32,
    pub id: Seq<char>,
    pub name: Seq<char>,
    pub arguments: Seq<char>,
}

/// What a chunk adds to a reply: a text, tool call deltas and a finish reason.
#[verifier::ext_equal]
pub struct ChunkView {
    pub text: Seq<char>,
    pub calls: Seq<CallDeltaView>,
    pub finish: Option<Seq<char>>,
}

/// The text, or the empty text where there is none.
pub open spec fn or_empty(text: Option<String>) -> Seq<char> {
    match text {
        Some(t) => t@,
        None => seq![],
    }
}

impl View for OpenAIToolCallDelta {
    type V = CallDeltaView;

    open spec fn view(&self) -> CallDeltaView {
        CallDeltaView {
            index: self.index,
            id: or_empty(self.id),
            name: match self.function {
                Some(f) => or_empty(f.name),
                None => seq![],
            },
            arguments: match self.function {
                Some(f) => or_empty(f.arguments),
                None => seq![],
            },
        }
    }
}

/// The views of a list of tool call deltas.
pub open spec fn call_deltas_view(calls: Seq<OpenAIToolCallDelta>) -> Seq<CallDeltaView> {
    calls.map_values(|c: OpenAIToolCallDelta| c@)
}

/// The chunk that adds nothing.
pub open spec fn nothing() -> ChunkView {
    ChunkView { text: seq![], calls: seq![], finish: None }
}

/// What the chosen alternative adds.
pub open spec fn choice_view(choice: OpenAIChoice) -> ChunkView {
    ChunkView {
        text: match choice.delta {
            Some(delta) => or_empty(delta.content),
            None => seq![],
        },
        calls: match choice.delta {
            Some(delta) => match delta.tool_calls {
                Some(calls) => call_deltas_view(calls@),
                None => seq![],
            },
            None => seq![],
        },
        finish: opt_view(choice.finish_reason),
    }
}

impl View for OpenAIChunk {
    type V = ChunkView;

    open spec fn view(&self) -> ChunkView {
        match self.choices {
            Some(choices) => if choices@.len() > 0 {
                choice_view(choices@[0])
            } else {
                nothing()
            },
            None => nothing(),
        }
    }
}

} // verus!
