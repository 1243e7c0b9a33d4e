//! The pieces of a chat response, as they come over the wire.

use vstd::prelude::*;

verus! {

/// A piece of a response.
#[derive(Debug)]
pub struct ChatChunk {
    pub id: Option<String>,
    pub choices: Option<Vec<ChatChoice>>,
}

/// A piece of one of the answers in a response.
#[derive(Debug)]
pub struct ChatChoice {
    pub delta: Option<ChatDelta>,
    pub finish_reason: Option<String>,
}

/// What a piece adds to an answer.
#[derive(Debug)]
pub struct ChatDelta {
    pub content: Option<String>,
    pub tool_calls: Option<Vec<ToolCallDelta>>,
}

/// What a piece adds to a tool call, or the beginning of one.
#[derive(Debug)]
pub struct ToolCallDelta {
    pub index: Option<usize>,
    pub id: Option<String>,
    pub function: Option<FunctionDelta>,
}

/// What a piece adds to the name and the arguments of a call.
#[derive(Debug)]
pub struct FunctionDelta {
    pub name: Option<String>,
    pub arguments: Option<String>,
}

/// What a [`ChatChunk`] is.
pub struct ChunkView {
    pub id: Option<Seq<char>>,
    pub choices: Option<Seq<ChoiceView>>,
}

/// What a [`ChatChoice`] is.
pub struct ChoiceView {
    pub delta: Option<DeltaView>,
    pub finish_reason: Option<Seq<char>>,
}

/// What a [`ChatDelta`] is.
pub struct DeltaView {
    pub content: Option<Seq<char>>,
    pub tool_calls: Option<Seq<CallDeltaView>>,
}

/// What a [`ToolCallDelta`] is.
pub struct CallDeltaView {
    pub index: Option<usize>,
    pub id: Option<Seq<char>>,
    pub function: Option<FunctionDeltaView>,
}

/// What a [`FunctionDelta`] is.
pub struct FunctionDeltaView {
    pub name: Option<Seq<char>>,
    pub arguments: Option<Seq<char>>,
}

impl DeepView for ChatChunk {
    type V = ChunkView;

    open spec fn deep_view(&self) -> ChunkView {
        ChunkView { id: self.id.deep_view(), choices: self.choices.deep_view() }
    }
}

impl DeepView for ChatChoice {
    type V = ChoiceView;

    open spec fn deep_view(&self) -> ChoiceView {
        ChoiceView {
            delta: self.delta.deep_view(),
            finish_reason: self.finish_reason.deep_view(),
        }
    }
}

impl DeepView for ChatDelta {
    type V = DeltaView;

    open spec fn deep_view(&self) -> DeltaView {
        DeltaView { content: self.content.deep_view(), tool_calls: self.tool_calls.deep_view() }
    }
}

impl DeepView for ToolCallDelta {
    type V = CallDeltaView;

    open spec fn deep_view(&self) -> CallDeltaView {
        CallDeltaView {
            index: self.index,
            id: self.id.deep_view(),
            function: self.function.deep_view(),
        }
    }
}

impl DeepView for FunctionDelta {
    type V = FunctionDeltaView;

    open spec fn deep_view(&self) -> FunctionDeltaView {
        FunctionDeltaView { name: self.name.deep_view(), arguments: self.arguments.deep_view() }
    }
}

} // verus!
