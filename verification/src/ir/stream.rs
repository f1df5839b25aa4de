//! Streaming chat responses.

use crate::ir::response::{FinishReason, Usage};
use vstd::prelude::*;

verus! {

/// One streaming output event of the generation core. Each API surface encodes
/// these into its own wire format.
#[derive(Debug, Clone, PartialEq)]
pub enum StreamDelta {
    /// Assistant text. `token_ids` are the sampled ids of this fragment.
    Content { text: String, token_ids: Vec<u32> },
    /// Reasoning text.
    Reasoning { text: String, token_ids: Vec<u32> },
    /// A tool call opens at slot `index`.
    ToolCallStart { index: usize, id: String, name: String },
    /// Argument text of the open tool call at slot `index`.
    ToolCallArgs { index: usize, fragment: String, token_ids: Vec<u32> },
    /// Refusal message.
    Refusal { text: String },
    /// Terminal event. `token_ids` are the sampled ids that no earlier delta
    /// carried.
    Finish { reason: FinishReason, usage: Usage, token_ids: Vec<u32> },
    /// Stream-level error.
    Error { message: String },
}

} // verus!
