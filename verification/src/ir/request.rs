//! Chat requests.

use crate::float::Float32;
use crate::ir::message::Message;
use crate::json::Json;
use crate::tool_parser::{ToolChoice, ToolDefinition};
use vstd::prelude::*;

verus! {

/// A provider-neutral chat request.
#[derive(Debug)]
pub struct ChatRequest {
    pub model: String,
    pub messages: Vec<Message>,
    pub tools: Vec<ToolDefinition>,
    pub tool_choice: Option<ToolChoice>,
    pub sampling: SamplingParams,
    pub max_tokens: usize,
    pub min_tokens: usize,
    /// Generation halts when one of these is produced.
    pub stop: Vec<String>,
    pub stream: bool,
    /// Number of choices.
    pub n: usize,
    /// `None` is unconstrained text.
    pub response_format: Option<ResponseFormat>,
    /// What the client wants of thinking.
    pub thinking: ThinkingDirective,
    /// Override of the token-loop detector.
    pub repetition_detection: Option<Json>,
    /// Name of a resident adapter; `None` is the active one.
    pub adapter: Option<String>,
    /// Name of the source language token; `None` is the default.
    pub src_lang: Option<String>,
    /// Name of the target language token; `None` is the default.
    pub tgt_lang: Option<String>,
    /// Beam search width.
    pub num_beams: Option<u32>,
    pub length_penalty: Option<Float32>,
    pub early_stopping: Option<bool>,
    pub logit_bias: Vec<(u32, Float32)>,
    /// Alternatives per token; `None` is no log-probabilities.
    pub top_logprobs: Option<u8>,
    pub seed: Option<u64>,
    pub timeout_secs: Option<Float32>,
    pub return_token_ids: bool,
}

/// Sampling parameters of the client; `None` is the server's default.
#[derive(Debug, Clone, Copy, PartialEq, Eq, Structural)]
pub struct SamplingParams {
    pub temperature: Option<Float32>,
    pub top_k: Option<u32>,
    pub top_p: Option<Float32>,
    pub top_n_sigma: Option<Float32>,
    pub min_p: Option<Float32>,
    pub repetition_penalty: Option<Float32>,
    pub presence_penalty: Option<Float32>,
    pub frequency_penalty: Option<Float32>,
}

impl Default for SamplingParams {
    fn default() -> (r: Self)
        ensures
            r.temperature is None,
            r.top_k is None,
            r.top_p is None,
            r.top_n_sigma is None,
            r.min_p is None,
            r.repetition_penalty is None,
            r.presence_penalty is None,
            r.frequency_penalty is None,
    {
        SamplingParams {
            temperature: None,
            top_k: None,
            top_p: None,
            top_n_sigma: None,
            min_p: None,
            repetition_penalty: None,
            presence_penalty: None,
            frequency_penalty: None,
        }
    }
}

/// Shape that the output must have.
#[derive(Debug)]
pub enum ResponseFormat {
    JsonObject,
    JsonSchema { name: String, schema: Json, strict: bool },
}

/// What a client wants of thinking. It never encodes a default of the server or
/// the model.
#[derive(Debug, Clone, Copy, PartialEq, Eq, Structural)]
pub enum ThinkingDirective {
    /// No signal.
    Unspecified,
    /// Thinking is disabled.
    Off,
    /// Thinking is enabled; without a budget the model's cap applies.
    On { budget: Option<u32> },
}

impl Default for ThinkingDirective {
    fn default() -> (r: Self)
        ensures
            r == ThinkingDirective::Unspecified,
    {
        ThinkingDirective::Unspecified
    }
}

impl ThinkingDirective {
    /// Whether the client stated an intent, for or against.
    pub fn is_explicit(&self) -> (r: bool)
        ensures
            r == !(self is Unspecified),
    {
        match self {
            ThinkingDirective::Unspecified => false,
            _ => true,
        }
    }
}

} // verus!
