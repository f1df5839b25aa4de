//! Whether a request thinks, and for how long.
//!
//! The server's kill switch counts first, then the request's directive, then
//! the model's default.

use crate::ir::request::ThinkingDirective;
use vstd::prelude::*;

verus! {

/// What the server and the model say about thinking.
#[derive(Debug, Clone, Copy, PartialEq, Eq, Structural)]
pub struct Policy {
    /// Thinking is off for every request.
    pub disable_thinking: bool,
    /// What the model does when nobody says anything.
    pub model_default: bool,
    /// The model thinks in turns with tools unless told otherwise.
    pub thinking_in_tools: bool,
    /// Budget when the request names none.
    pub max_thinking_budget: u32,
}

/// A request thinks.
pub open spec fn thinks(d: ThinkingDirective, p: Policy, tools_active: bool) -> bool {
    !p.disable_thinking && match d {
        ThinkingDirective::Unspecified => p.model_default && (p.thinking_in_tools
            || !tools_active),
        ThinkingDirective::Off => false,
        ThinkingDirective::On { .. } => true,
    }
}

/// The budget that a request asks for, or the model's.
pub open spec fn wanted_budget(d: ThinkingDirective, p: Policy) -> u32 {
    match d {
        ThinkingDirective::On { budget: Some(b) } => b,
        _ => p.max_thinking_budget,
    }
}

/// The most that a request may think: nine tenths of its tokens, one at least.
pub open spec fn budget_cap(max_tokens: u32) -> u32 {
    let cap = (max_tokens * 9) / 10;
    if cap < 1 {
        1
    } else {
        cap as u32
    }
}

/// The budget of a request that thinks: what is wanted, up to the most it may.
pub open spec fn budget_of(d: ThinkingDirective, p: Policy, max_tokens: u32) -> u32 {
    let wanted = wanted_budget(d, p);
    let cap = budget_cap(max_tokens);
    if wanted <= cap {
        wanted
    } else {
        cap
    }
}

/// Whether a request thinks, and its budget when it does.
pub fn resolve(
    directive: ThinkingDirective,
    policy: Policy,
    max_tokens: u32,
    tools_active: bool,
) -> (r: (bool, Option<u32>))
    requires
        thinks(directive, policy, tools_active) ==> max_tokens * 9 <= u32::MAX,
    ensures
        r.0 == thinks(directive, policy, tools_active),
        r.1 == (if r.0 {
            Some(budget_of(directive, policy, max_tokens))
        } else {
            None
        }),
{
    if policy.disable_thinking {
        return (false, None);
    }
    let (on, budget): (bool, Option<u32>) = match directive {
        ThinkingDirective::Unspecified => (policy.model_default, None),
        ThinkingDirective::Off => (false, None),
        ThinkingDirective::On { budget } => (true, budget),
    };
    let on: bool = if tools_active && !policy.thinking_in_tools && !directive.is_explicit() {
        false
    } else {
        on
    };
    if !on {
        return (false, None);
    }
    let wanted: u32 = match budget {
        Some(b) => b,
        None => policy.max_thinking_budget,
    };
    let cap: u32 = if (max_tokens * 9) / 10 < 1 {
        1
    } else {
        (max_tokens * 9) / 10
    };
    (
        true,
        Some(
            if wanted <= cap {
                wanted
            } else {
                cap
            },
        ),
    )
}

/// An explicit directive of the client wins over every default of the model; only
/// the kill switch is above it.
pub proof fn explicit_directive_wins(d: ThinkingDirective, p: Policy, tools_active: bool)
    requires
        !p.disable_thinking,
        !(d is Unspecified),
    ensures
        thinks(d, p, tools_active) == (d is On),
{
}

/// With the kill switch on, no request thinks.
pub proof fn kill_switch_wins(d: ThinkingDirective, p: Policy, tools_active: bool)
    requires
        p.disable_thinking,
    ensures
        !thinks(d, p, tools_active),
{
}

/// Without a directive the model's default decides, and in turns with tools only
/// a model that thinks there.
pub proof fn defaults_decide_without_directive(p: Policy)
    requires
        !p.disable_thinking,
    ensures
        thinks(ThinkingDirective::Unspecified, p, false) == p.model_default,
        p.thinking_in_tools ==> thinks(ThinkingDirective::Unspecified, p, true) == p.model_default,
        !p.thinking_in_tools ==> !thinks(ThinkingDirective::Unspecified, p, true),
{
}

/// The budget leaves a tenth of the tokens for the answer: an explicit budget is
/// kept as far as that allows, without one the model's is, and a larger
/// allowance never makes it smaller.
pub proof fn budgets_leave_room(d: ThinkingDirective, p: Policy, max_tokens: u32, more: u32)
    requires
        max_tokens <= more,
    ensures
        max_tokens >= 2 ==> 10 * budget_of(d, p, max_tokens) <= 9 * max_tokens,
        max_tokens < 2 ==> budget_of(d, p, max_tokens) <= 1,
        d matches ThinkingDirective::On { budget: Some(b) } ==> {
            &&& budget_of(d, p, max_tokens) <= b
            &&& 10 * b <= 9 * max_tokens ==> budget_of(d, p, max_tokens) == b
            &&& 10 * b > 9 * max_tokens && b > 0 && max_tokens >= 2 ==> 10 * (budget_of(
                d,
                p,
                max_tokens,
            ) + 1) > 9 * max_tokens
        },
        !(d matches ThinkingDirective::On { budget: Some(_) }) && 10 * p.max_thinking_budget <= 9
            * max_tokens ==> budget_of(d, p, max_tokens) == p.max_thinking_budget,
        budget_of(d, p, max_tokens) <= budget_of(d, p, more),
{
}

} // verus!
