//! Log-probabilities of legacy completions.

use spark_server::api::completions_logprobs::{build_completion_logprobs, TokenLogprobs};
use spark_server::float::Float32;

fn float(f: f32) -> Float32 {
    Float32 { bits: f.to_bits() }
}

fn lp(token_id: u32, logprob: f32) -> TokenLogprobs {
    TokenLogprobs {
        token_id,
        logprob: float(logprob),
        top: vec![(token_id, float(logprob))],
    }
}

// Test decoder: token id N → "tN " (3+ chars, deterministic offsets).
fn dec(id: u32) -> String {
    format!("t{id} ")
}

#[test]
fn echo_null_first_then_prompt_scores() {
    // prompt [10, 11, 12]; collection scored positions 0,1 → targets 11,12.
    let out = build_completion_logprobs(
        &dec,
        true,
        &[10, 11, 12],
        &[lp(11, -0.1), lp(12, -0.2)],
        &[],
        &[],
    );
    assert_eq!(out.tokens, vec!["t10 ", "t11 ", "t12 "]);
    assert_eq!(out.token_logprobs, vec![None, Some(float(-0.1)), Some(float(-0.2))]);
    assert!(out.top_logprobs[0].is_none());
    assert!(out.top_logprobs[1].as_ref().unwrap().iter().any(|(k, _)| k == "t11 "));
}

#[test]
fn text_offset_is_cumulative_decoded_length() {
    let out =
        build_completion_logprobs(&dec, true, &[7, 8], &[lp(8, -0.3)], &[9], &[lp(9, -0.4)]);
    // "t7 "(3) "t8 "(3) "t9 "(3)
    assert_eq!(out.text_offset, vec![0, 3, 6]);
}

#[test]
fn echo_concatenates_prompt_then_generated() {
    let out = build_completion_logprobs(
        &dec,
        true,
        &[1, 2],
        &[lp(2, -0.1)],
        &[3, 4],
        &[lp(3, -0.2), lp(4, -0.3)],
    );
    assert_eq!(out.tokens.len(), 4);
    assert_eq!(
        out.token_logprobs,
        vec![None, Some(float(-0.1)), Some(float(-0.2)), Some(float(-0.3))]
    );
}

#[test]
fn no_echo_generated_only_with_first_token_pad() {
    // 3 generated tokens but only 2 logprob entries (first-token
    // logprobs not captured at prefill) → null-padded front.
    let out = build_completion_logprobs(
        &dec,
        false,
        &[1, 2, 3],
        &[],
        &[5, 6, 7],
        &[lp(6, -0.1), lp(7, -0.2)],
    );
    assert_eq!(out.tokens.len(), 3);
    assert_eq!(out.token_logprobs, vec![None, Some(float(-0.1)), Some(float(-0.2))]);
}

#[test]
fn scoring_only_prompt_len_entries() {
    // max_tokens=0: entries == prompt_len, first null, none missing.
    let prompt = [10u32, 11, 12, 13];
    let lps = [lp(11, -1.0), lp(12, -2.0), lp(13, -3.0)];
    let out = build_completion_logprobs(&dec, true, &prompt, &lps, &[], &[]);
    assert_eq!(out.tokens.len(), prompt.len());
    assert_eq!(out.token_logprobs[0], None);
    assert!(out.token_logprobs[1..].iter().all(Option::is_some));
}

#[test]
fn an_alternative_is_listed_once_per_text() {
    let same = |_: u32| "x".to_string();
    let scored = TokenLogprobs {
        token_id: 1,
        logprob: float(-0.5),
        top: vec![(1, float(-0.5)), (2, float(-0.75))],
    };
    let out = build_completion_logprobs(&same, false, &[], &[], &[1], &[scored]);
    let top = out.top_logprobs[0].as_ref().unwrap();
    assert_eq!(top.len(), 1);
    assert_eq!(top[0].1, float(-0.75));
}

#[test]
fn text_offset_counts_characters() {
    let accented = |_: u32| "\u{00E9}".to_string();
    let out = build_completion_logprobs(&accented, false, &[], &[], &[1, 2], &[]);
    assert_eq!(out.tokens, vec!["\u{00E9}", "\u{00E9}"]);
    assert_eq!(out.text_offset, vec![0, 1]);
}
