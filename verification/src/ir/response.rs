//! Complete chat responses.

use crate::float::{Float32, Float64};
use crate::ir::message::ToolCall;
use crate::text::same_text;
use vstd::prelude::*;

verus! {

/// Why generation stopped; an unknown engine reason is kept verbatim.
#[derive(Debug, Clone, PartialEq, Eq)]
pub enum FinishReason {
    Stop,
    Length,
    ToolCalls,
    ContentFilter,
    Other(String),
}

/// What a [`FinishReason`] says.
pub enum FinishView {
    Stop,
    Length,
    ToolCalls,
    ContentFilter,
    Other(Seq<char>),
}

impl View for FinishReason {
    type V = FinishView;

    open spec fn view(&self) -> FinishView {
        match self {
            FinishReason::Stop => FinishView::Stop,
            FinishReason::Length => FinishView::Length,
            FinishReason::ToolCalls => FinishView::ToolCalls,
            FinishReason::ContentFilter => FinishView::ContentFilter,
            FinishReason::Other(s) => FinishView::Other(s@),
        }
    }
}

/// The finish reason with wire text `s`.
pub open spec fn finish_of(s: Seq<char>) -> FinishView {
    if s == "stop"@ {
        FinishView::Stop
    } else if s == "length"@ {
        FinishView::Length
    } else if s == "tool_calls"@ {
        FinishView::ToolCalls
    } else if s == "content_filter"@ {
        FinishView::ContentFilter
    } else {
        FinishView::Other(s)
    }
}

/// The wire text of a finish reason.
pub open spec fn finish_wire(f: FinishView) -> Seq<char> {
    match f {
        FinishView::Stop => "stop"@,
        FinishView::Length => "length"@,
        FinishView::ToolCalls => "tool_calls"@,
        FinishView::ContentFilter => "content_filter"@,
        FinishView::Other(s) => s,
    }
}

impl From<&str> for FinishReason {
    /// The reason that the engine reports as `s`.
    fn from(s: &str) -> (r: Self)
        ensures
            r@ == finish_of(s@),
    {
        if same_text(s, "stop") {
            FinishReason::Stop
        } else if same_text(s, "length") {
            FinishReason::Length
        } else if same_text(s, "tool_calls") {
            FinishReason::ToolCalls
        } else if same_text(s, "content_filter") {
            FinishReason::ContentFilter
        } else {
            FinishReason::Other(s.to_owned())
        }
    }
}

impl vstd::std_specs::convert::FromSpecImpl<&str> for FinishReason {
    open spec fn obeys_from_spec() -> bool {
        false
    }

    open spec fn from_spec(s: &str) -> Self {
        arbitrary()
    }
}

impl FinishReason {
    /// The canonical wire text.
    pub fn as_wire(&self) -> (r: &str)
        ensures
            r@ == finish_wire(self@),
    {
        match self {
            FinishReason::Stop => "stop",
            FinishReason::Length => "length",
            FinishReason::ToolCalls => "tool_calls",
            FinishReason::ContentFilter => "content_filter",
            FinishReason::Other(s) => s.as_str(),
        }
    }
}

/// A finish reason of the engine is written to the wire as it was read, and a
/// known one is read back as itself.
pub proof fn finish_reason_survives_the_wire(f: FinishView, s: Seq<char>)
    ensures
        finish_wire(finish_of(s)) == s,
        !(f is Other) ==> finish_of(finish_wire(f)) == f,
{
    reveal_strlit("stop");
    reveal_strlit("length");
    reveal_strlit("tool_calls");
    reveal_strlit("content_filter");
    assert("stop"@.len() == 4 && "length"@.len() == 6 && "tool_calls"@.len() == 10
        && "content_filter"@.len() == 14);
}

/// Token accounting.
#[derive(Debug, Clone, Copy, PartialEq, Eq, Structural)]
pub struct Usage {
    pub prompt_tokens: usize,
    pub completion_tokens: usize,
    /// Prompt tokens served from the prefix cache.
    pub cached_prompt_tokens: usize,
    /// Completion tokens spent inside the thinking block.
    pub reasoning_tokens: usize,
    pub time_to_first_token_ms: Float64,
    pub response_tokens_per_second: Float64,
}

impl Default for Usage {
    fn default() -> (r: Self)
        ensures
            r == (Usage {
                prompt_tokens: 0,
                completion_tokens: 0,
                cached_prompt_tokens: 0,
                reasoning_tokens: 0,
                time_to_first_token_ms: Float64 { bits: 0 },
                response_tokens_per_second: Float64 { bits: 0 },
            }),
    {
        Usage {
            prompt_tokens: 0,
            completion_tokens: 0,
            cached_prompt_tokens: 0,
            reasoning_tokens: 0,
            time_to_first_token_ms: Float64 { bits: 0 },
            response_tokens_per_second: Float64 { bits: 0 },
        }
    }
}

/// A sampled token with its alternatives, highest first.
#[derive(Debug, Clone, PartialEq)]
pub struct TokenLogprob {
    pub token: String,
    pub logprob: Float32,
    pub top: Vec<(String, Float32)>,
}

/// Log-probabilities of the sampled tokens.
#[derive(Debug, Clone, PartialEq)]
pub struct ChoiceLogprobs {
    pub content: Vec<TokenLogprob>,
}

/// One generated choice.
#[derive(Debug, Clone, PartialEq)]
pub struct Choice {
    pub index: usize,
    /// Assistant text; `None` stands for the wire's null content.
    pub content: Option<String>,
    pub reasoning: Option<String>,
    pub tool_calls: Vec<ToolCall>,
    pub refusal: Option<String>,
    pub finish_reason: FinishReason,
    /// The client stop sequence that ended generation.
    pub matched_stop: Option<String>,
    pub logprobs: Option<ChoiceLogprobs>,
}

/// A complete chat response.
#[derive(Debug, Clone, PartialEq)]
pub struct ChatResponse {
    /// Bare response id; surfaces add their prefix.
    pub id: String,
    pub model: String,
    /// Unix seconds.
    pub created: u64,
    pub choices: Vec<Choice>,
    pub usage: Usage,
}

} // verus!
