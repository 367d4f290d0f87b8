//! The chunks in which a provider streams a response.

use vstd::prelude::*;

use crate::text::clone_optional_text;
use crate::types::{FinishReason, Usage};

verus! {

/// A chunk streamed from a provider.
#[derive(Debug)]
pub struct StreamChunk {
    /// Text delta for this chunk.
    pub delta: Option<String>,
    /// Tool call deltas (partial tool calls being streamed).
    pub tool_calls: Vec<ToolCallDelta>,
    /// Finish reason, only set in the final chunk.
    pub finish_reason: Option<FinishReason>,
    /// Usage stats for this chunk (typically only in the final chunk).
    pub usage: Option<Usage>,
}

/// A partial tool call being streamed.
#[derive(Debug)]
pub struct ToolCallDelta {
    /// Index of the tool call in the array.
    pub index: u32,
    /// Partial ID (only sent once).
    pub id: Option<String>,
    /// Partial function name (only sent once).
    pub name: Option<String>,
    /// Partial argument fragment.
    pub arguments_delta: Option<String>,
}

/// What a partial tool call holds.
pub struct DeltaView {
    pub index: u32,
    pub id: Option<Seq<char>>,
    pub name: Option<Seq<char>>,
    pub arguments_delta: Option<Seq<char>>,
}

/// What a chunk holds.
pub struct ChunkView {
    pub delta: Option<Seq<char>>,
    pub tool_calls: Seq<DeltaView>,
    pub finish_reason: Option<FinishReason>,
    pub usage: Option<Usage>,
}

impl DeepView for ToolCallDelta {
    type V = DeltaView;

    open spec fn deep_view(&self) -> DeltaView {
        DeltaView {
            index: self.index,
            id: self.id.deep_view(),
            name: self.name.deep_view(),
            arguments_delta: self.arguments_delta.deep_view(),
        }
    }
}

impl DeepView for StreamChunk {
    type V = ChunkView;

    open spec fn deep_view(&self) -> ChunkView {
        ChunkView {
            delta: self.delta.deep_view(),
            tool_calls: self.tool_calls.deep_view(),
            finish_reason: self.finish_reason,
            usage: self.usage,
        }
    }
}

impl Clone for ToolCallDelta {
    fn clone(&self) -> (r: Self)
        ensures
            r == *self,
    {
        ToolCallDelta {
            index: self.index,
            id: clone_optional_text(&self.id),
            name: clone_optional_text(&self.name),
            arguments_delta: clone_optional_text(&self.arguments_delta),
        }
    }
}

} // verus!
