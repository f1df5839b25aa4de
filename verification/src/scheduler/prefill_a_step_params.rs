//! The record of a prefill that runs in chunks.

use crate::float::Float32;
use std::sync::Arc;
use vstd::prelude::*;

verus! {

/// Tokens back that the repetition penalty looks.
pub const REPETITION_PENALTY_WINDOW: usize = 256;

/// A prefill between two chunks. The sequence state `Q`, the sink `S`, the
/// cancel flag `C`, the clock reading `T`, the repetition settings `D` and the
/// grammar state `G` are carried along.
pub struct PrefillInProgress<Q, S, C, T, D, G> {
    pub prompt_tokens: Arc<Vec<u32>>,
    pub session_hash: u64,
    pub seq: Q,
    pub chunk_offset: usize,
    pub max_tokens: usize,
    pub min_tokens: usize,
    pub eos_tokens: Vec<u32>,
    pub sink: S,
    pub cancel_flag: Option<C>,
    pub request_start: T,
    pub temperature: Float32,
    pub top_k: u32,
    pub top_p: Float32,
    pub top_n_sigma: Float32,
    pub min_p: Float32,
    pub repetition_penalty: Float32,
    pub repetition_penalty_window: usize,
    pub presence_penalty: Float32,
    pub frequency_penalty: Float32,
    pub lz_penalty: Float32,
    pub dry_multiplier: Float32,
    pub dry_base: Float32,
    pub dry_allowed_length: u32,
    pub dry_sequence_breakers: Vec<u32>,
    pub logit_bias: Vec<(u32, Float32)>,
    pub enable_thinking: bool,
    pub thinking_budget: Option<u32>,
    pub repetition_detection: Option<D>,
    pub spontaneous_think_budget: u32,
    pub require_tool_call: bool,
    pub tools_present: bool,
    pub suppress_tool_call: bool,
    pub disable_mtp: bool,
    pub grammar_state: Option<G>,
    pub seed: Option<u64>,
    pub top_logprobs: Option<u8>,
    pub timeout_at: Option<T>,
}

/// The record of a prefill that has come to `chunk_offset`.
pub fn build_prefill_in_progress<Q, S, C, T, D, G>(
    prompt_tokens: Arc<Vec<u32>>,
    session_hash: u64,
    seq: Q,
    chunk_offset: usize,
    max_tokens: usize,
    min_tokens: usize,
    eos_tokens: Vec<u32>,
    sink: S,
    cancel_flag: Option<C>,
    request_start: T,
    temperature: Float32,
    top_k: u32,
    top_p: Float32,
    top_n_sigma: Float32,
    min_p: Float32,
    repetition_penalty: Float32,
    presence_penalty: Float32,
    frequency_penalty: Float32,
    lz_penalty: Float32,
    dry_multiplier: Float32,
    dry_base: Float32,
    dry_allowed_length: u32,
    logit_bias: Vec<(u32, Float32)>,
    enable_thinking: bool,
    thinking_budget: Option<u32>,
    repetition_detection: Option<D>,
    spontaneous_think_budget: u32,
    require_tool_call: bool,
    tools_present: bool,
    suppress_tool_call: bool,
    disable_mtp: bool,
    grammar_state: Option<G>,
    seed: Option<u64>,
    top_logprobs: Option<u8>,
    timeout_at: Option<T>,
) -> (p: PrefillInProgress<Q, S, C, T, D, G>)
    ensures
        p.dry_sequence_breakers@.len() == 0,
        p == (PrefillInProgress {
            prompt_tokens,
            session_hash,
            seq,
            chunk_offset,
            max_tokens,
            min_tokens,
            eos_tokens,
            sink,
            cancel_flag,
            request_start,
            temperature,
            top_k,
            top_p,
            top_n_sigma,
            min_p,
            repetition_penalty,
            repetition_penalty_window: REPETITION_PENALTY_WINDOW,
            presence_penalty,
            frequency_penalty,
            lz_penalty,
            dry_multiplier,
            dry_base,
            dry_allowed_length,
            dry_sequence_breakers: p.dry_sequence_breakers,
            logit_bias,
            enable_thinking,
            thinking_budget,
            repetition_detection,
            spontaneous_think_budget,
            require_tool_call,
            tools_present,
            suppress_tool_call,
            disable_mtp,
            grammar_state,
            seed,
            top_logprobs,
            timeout_at,
        }),
{
    PrefillInProgress {
        prompt_tokens,
        session_hash,
        seq,
        chunk_offset,
        max_tokens,
        min_tokens,
        eos_tokens,
        sink,
        cancel_flag,
        request_start,
        temperature,
        top_k,
        top_p,
        top_n_sigma,
        min_p,
        repetition_penalty,
        repetition_penalty_window: REPETITION_PENALTY_WINDOW,
        presence_penalty,
        frequency_penalty,
        lz_penalty,
        dry_multiplier,
        dry_base,
        dry_allowed_length,
        dry_sequence_breakers: Vec::new(),
        logit_bias,
        enable_thinking,
        thinking_budget,
        repetition_detection,
        spontaneous_think_budget,
        require_tool_call,
        tools_present,
        suppress_tool_call,
        disable_mtp,
        grammar_state,
        seed,
        top_logprobs,
        timeout_at,
    }
}

} // verus!
