//! The fast path for verify picks of a plain chat request.
//!
//! Without a grammar the logit pipeline can change a greedy pick only when the
//! raw argmax is itself a structural token, when a forced or stateful stage is
//! armed on the sequence, when a penalty could demote it, or when a diagnostic
//! must see the masked distribution. When none of these holds the masked pick is
//! the raw argmax, and no logits have to leave the device.

use vstd::prelude::*;
use vstd::slice::*;

verus! {

/// Thinking tokens from which the confidence early stop reads the logits.
pub const CONFIDENCE_MIN_TOKENS: u32 = 400;

/// What the penalties of a sequence can do to the argmax.
#[derive(Debug, Clone, Copy, PartialEq, Eq, Structural)]
pub enum PenaltyGate {
    /// They change nothing.
    Neutral,
    /// They only lower tokens of the history.
    ReduceOnly,
    /// They may change the argmax.
    Blocked,
}

/// When a deferred end of thinking is forced after all.
#[derive(Debug, Clone, Copy, PartialEq, Eq, Structural)]
pub struct DeferLimits {
    /// Times the budget that thinking may run.
    pub budget_factor: u32,
    /// Tokens that thinking may run without a budget.
    pub abs_ceiling: u32,
    /// Tokens that the end may be deferred to finish a sentence.
    pub max_sentence_defer: u32,
}

/// The settings of the process that bear on the fast path.
#[derive(Debug, Clone, Copy, PartialEq, Eq, Structural)]
pub struct FastPathSettings {
    pub masked_verify: bool,
    pub fast_masked: bool,
    pub adadec_recording: bool,
    pub watchdogs_disabled: bool,
    pub confidence_early_stop: bool,
    pub limits: DeferLimits,
}

/// The state of the sequence that bears on the fast path. It stays the same
/// over all positions of a call.
#[derive(Debug, Clone, Copy, PartialEq, Eq, Structural)]
pub struct VerifyState {
    pub grammar_active: bool,
    pub inside_thinking: bool,
    pub force_end_thinking: bool,
    pub thinking_tokens: u32,
    pub thinking_budget: Option<u32>,
    pub sentence_defer_count: u32,
    pub think_just_ended: bool,
    pub require_tool_call: bool,
    pub tool_call_opened: bool,
    pub penalty_gate: PenaltyGate,
    pub think_end_token: Option<u32>,
    pub think_start_token: Option<u32>,
    pub tool_call_start_token: Option<u32>,
}

/// The product, capped at the largest `u32`.
pub open spec fn capped_product(a: u32, b: u32) -> int {
    if a * b > u32::MAX {
        u32::MAX as int
    } else {
        a * b
    }
}

/// The confidence early stop is watching the sequence.
pub open spec fn confidence_armed(p: FastPathSettings, a: VerifyState) -> bool {
    !p.watchdogs_disabled && a.inside_thinking && !a.force_end_thinking && a.thinking_tokens
        >= CONFIDENCE_MIN_TOKENS && p.confidence_early_stop
}

/// The end of thinking can no longer be deferred.
pub open spec fn defer_exhausted(p: FastPathSettings, a: VerifyState) -> bool {
    (match a.thinking_budget {
        Some(b) => a.thinking_tokens >= capped_product(b, p.limits.budget_factor),
        None => a.thinking_tokens >= p.limits.abs_ceiling,
    }) || a.sentence_defer_count >= p.limits.max_sentence_defer
}

/// The end of thinking is about to be forced.
pub open spec fn think_end_armed(p: FastPathSettings, a: VerifyState) -> bool {
    a.inside_thinking && (a.force_end_thinking || defer_exhausted(p, a))
}

/// The next token is pinned to the start of a tool call.
pub open spec fn pin_armed(a: VerifyState) -> bool {
    a.think_just_ended && a.require_tool_call && !a.tool_call_opened && !a.inside_thinking
}

/// No stage that could change a pick is armed for the call.
pub open spec fn call_is_plain(p: FastPathSettings, a: VerifyState) -> bool {
    &&& p.masked_verify
    &&& p.fast_masked
    &&& !a.grammar_active
    &&& !p.adadec_recording
    &&& !confidence_armed(p, a)
    &&& !think_end_armed(p, a)
    &&& !pin_armed(a)
    &&& a.penalty_gate != PenaltyGate::Blocked
}

/// The token is one that a mask may take away.
pub open spec fn is_structural(a: VerifyState, token: u32) -> bool {
    a.think_end_token == Some(token) || a.think_start_token == Some(token)
        || a.tool_call_start_token == Some(token)
}

/// The pick of a position stands: it is no structural token, and the penalties
/// cannot demote it.
pub open spec fn pick_stands(a: VerifyState, token: u32, immune: bool) -> bool {
    !is_structural(a, token) && (a.penalty_gate == PenaltyGate::ReduceOnly ==> immune)
}

/// All picks of the call stand.
pub open spec fn picks_stand(
    p: FastPathSettings,
    a: VerifyState,
    argmax_ids: Seq<u32>,
    immune: Seq<bool>,
) -> bool {
    call_is_plain(p, a) && forall|i: int|
        0 <= i < argmax_ids.len() ==> pick_stands(a, #[trigger] argmax_ids[i], immune[i])
}

fn is_token(t: Option<u32>, token: u32) -> (r: bool)
    ensures
        r == (t == Some(token)),
{
    match t {
        Some(x) => x == token,
        None => false,
    }
}

/// The gates that need no logits: the call is plain.
pub fn gates_open(p: &FastPathSettings, a: &VerifyState) -> (r: bool)
    ensures
        r == call_is_plain(*p, *a),
{
    if !p.masked_verify {
        return false;
    }
    if !p.fast_masked || a.grammar_active || p.adadec_recording {
        return false;
    }
    let f2_active: bool = !p.watchdogs_disabled && a.inside_thinking && !a.force_end_thinking
        && a.thinking_tokens >= CONFIDENCE_MIN_TOKENS && p.confidence_early_stop;
    let over_budget: bool = match a.thinking_budget {
        Some(b) => {
            assert(0 <= b * p.limits.budget_factor <= 0xffff_ffff * 0xffff_ffff)
                by (nonlinear_arith)
                requires
                    0 <= b <= 0xffff_ffff,
                    0 <= p.limits.budget_factor <= 0xffff_ffff,
            ;
            a.thinking_tokens as u64 >= b as u64 * p.limits.budget_factor as u64
                || a.thinking_tokens == u32::MAX && b as u64 * p.limits.budget_factor as u64
                > u32::MAX as u64
        },
        None => a.thinking_tokens >= p.limits.abs_ceiling,
    };
    let defer_hard_override: bool = over_budget || a.sentence_defer_count
        >= p.limits.max_sentence_defer;
    let think_end_inject_armed: bool = a.inside_thinking && (a.force_end_thinking
        || defer_hard_override);
    let pin_tool_armed: bool = a.think_just_ended && a.require_tool_call && !a.tool_call_opened
        && !a.inside_thinking;
    !(f2_active || think_end_inject_armed || pin_tool_armed || a.penalty_gate
        == PenaltyGate::Blocked)
}

/// The raw argmax of every position when each of them is the masked pick;
/// `None` when some gate fails and the whole call has to take the slow path.
/// `immune` says of each position whether reduce-only penalties leave its pick
/// alone.
pub fn try_chat_fast_path(
    argmax_ids: &[u32],
    immune: &[bool],
    p: &FastPathSettings,
    a: &VerifyState,
) -> (picks: Option<Vec<u32>>)
    requires
        immune@.len() == argmax_ids@.len(),
    ensures
        match picks {
            Some(v) => v@ == argmax_ids@ && picks_stand(*p, *a, argmax_ids@, immune@),
            None => !picks_stand(*p, *a, argmax_ids@, immune@),
        },
{
    if !gates_open(p, a) {
        return None;
    }
    let mut i: usize = 0;
    while i < argmax_ids.len()
        invariant
            i <= argmax_ids@.len(),
            immune@.len() == argmax_ids@.len(),
            call_is_plain(*p, *a),
            forall|j: int|
                0 <= j < i ==> pick_stands(*a, #[trigger] argmax_ids@[j], immune@[j]),
        decreases argmax_ids@.len() - i,
    {
        let tok: u32 = argmax_ids[i];
        if is_token(a.think_end_token, tok) || is_token(a.think_start_token, tok) || is_token(
            a.tool_call_start_token,
            tok,
        ) {
            assert(!pick_stands(*a, argmax_ids@[i as int], immune@[i as int]));
            return None;
        }
        if a.penalty_gate == PenaltyGate::ReduceOnly && !immune[i] {
            assert(!pick_stands(*a, argmax_ids@[i as int], immune@[i as int]));
            return None;
        }
        i = i + 1;
    }
    Some(slice_to_vec(argmax_ids))
}

// ── laws ──

/// `token` has the largest score of a row.
pub open spec fn is_argmax(scores: Seq<int>, token: u32) -> bool {
    token < scores.len() && forall|j: int|
        0 <= j < scores.len() ==> #[trigger] scores[j] <= scores[token as int]
}

/// The fast path is exact: where it answers, no masking of structural tokens
/// could have changed a pick. Whatever the scores, an argmax that stands is
/// still one after structural tokens have been lowered.
pub proof fn fast_picks_survive_masking(
    p: FastPathSettings,
    a: VerifyState,
    argmax_ids: Seq<u32>,
    immune: Seq<bool>,
    i: int,
    raw: Seq<int>,
    masked: Seq<int>,
)
    requires
        picks_stand(p, a, argmax_ids, immune),
        0 <= i < argmax_ids.len(),
        is_argmax(raw, argmax_ids[i]),
        masked.len() == raw.len(),
        forall|j: int| 0 <= j < raw.len() ==> #[trigger] masked[j] <= raw[j],
        forall|j: int|
            0 <= j < raw.len() && !is_structural(a, j as u32) ==> #[trigger] masked[j] == raw[j],
    ensures
        is_argmax(masked, argmax_ids[i]),
{
    let t = argmax_ids[i];
    assert(pick_stands(a, t, immune[i]));
    assert(t as int as u32 == t);
    assert(masked[t as int] == raw[t as int]);
    assert forall|j: int| 0 <= j < masked.len() implies #[trigger] masked[j] <= masked[t as int] by {
        assert(raw[j] <= raw[t as int]);
    }
}

/// A plain call takes the fast path: with it switched on, no grammar, no
/// recording, thinking not running or far from its limits, no tool call to pin,
/// neutral penalties and no structural pick, all picks stand.
pub proof fn plain_picks_stand(
    p: FastPathSettings,
    a: VerifyState,
    argmax_ids: Seq<u32>,
    immune: Seq<bool>,
)
    requires
        p.masked_verify,
        p.fast_masked,
        !p.adadec_recording,
        !a.grammar_active,
        !a.inside_thinking || {
            &&& !a.force_end_thinking
            &&& a.thinking_tokens < CONFIDENCE_MIN_TOKENS || p.watchdogs_disabled
                || !p.confidence_early_stop
            &&& a.sentence_defer_count < p.limits.max_sentence_defer
            &&& match a.thinking_budget {
                Some(b) => a.thinking_tokens < u32::MAX && a.thinking_tokens < b
                    * p.limits.budget_factor,
                None => a.thinking_tokens < p.limits.abs_ceiling,
            }
        },
        a.inside_thinking || !a.think_just_ended || !a.require_tool_call || a.tool_call_opened,
        a.penalty_gate == PenaltyGate::Neutral,
        forall|i: int|
            0 <= i < argmax_ids.len() ==> a.think_end_token != Some(#[trigger] argmax_ids[i])
                && a.think_start_token != Some(argmax_ids[i]) && a.tool_call_start_token != Some(
                argmax_ids[i],
            ),
    ensures
        picks_stand(p, a, argmax_ids, immune),
{
}

/// Whatever could change a pick closes the fast path for the whole call: a
/// grammar, a recording, the early stop once it watches, an end of thinking that
/// is forced or can no longer wait, a tool call to pin, penalties that block, a
/// single structural pick, or one that penalties may demote.
pub proof fn armed_stages_close_the_fast_path(
    p: FastPathSettings,
    a: VerifyState,
    argmax_ids: Seq<u32>,
    immune: Seq<bool>,
    i: int,
)
    requires
        ({
            ||| !p.masked_verify
            ||| !p.fast_masked
            ||| a.grammar_active
            ||| p.adadec_recording
            ||| a.inside_thinking && a.force_end_thinking
            ||| a.inside_thinking && a.sentence_defer_count >= p.limits.max_sentence_defer
            ||| a.inside_thinking && a.thinking_budget is None && a.thinking_tokens
                >= p.limits.abs_ceiling
            ||| a.inside_thinking && a.thinking_budget is Some && a.thinking_tokens
                >= a.thinking_budget->0 * p.limits.budget_factor
            ||| a.inside_thinking && a.thinking_tokens >= CONFIDENCE_MIN_TOKENS
                && p.confidence_early_stop && !p.watchdogs_disabled
            ||| !a.inside_thinking && a.think_just_ended && a.require_tool_call
                && !a.tool_call_opened
            ||| a.penalty_gate == PenaltyGate::Blocked
            ||| 0 <= i < argmax_ids.len() && a.think_end_token == Some(argmax_ids[i])
            ||| 0 <= i < argmax_ids.len() && a.think_start_token == Some(argmax_ids[i])
            ||| 0 <= i < argmax_ids.len() && a.tool_call_start_token == Some(argmax_ids[i])
            ||| 0 <= i < argmax_ids.len() && a.penalty_gate == PenaltyGate::ReduceOnly && !immune[i]
        }),
    ensures
        !picks_stand(p, a, argmax_ids, immune),
{
    if call_is_plain(p, a) && 0 <= i < argmax_ids.len() {
        assert(pick_stands(a, argmax_ids[i], immune[i]) || !picks_stand(p, a, argmax_ids, immune));
    }
}

} // verus!
