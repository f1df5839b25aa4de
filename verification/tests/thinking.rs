//! Whether a request thinks, and for how long.

use spark_server::api::chat::thinking::{resolve, Policy};
use spark_server::ir::request::ThinkingDirective;

fn policy() -> Policy {
    Policy {
        disable_thinking: false,
        model_default: false,
        thinking_in_tools: true,
        max_thinking_budget: 2048,
    }
}

#[test]
fn kill_switch_overrides_everything() {
    let (et, tb) = resolve(
        ThinkingDirective::On { budget: Some(512) },
        Policy {
            disable_thinking: true,
            ..policy()
        },
        4096,
        false,
    );
    assert!(!et);
    assert!(tb.is_none());
}

#[test]
fn unspecified_falls_to_model_default() {
    let (et, tb) = resolve(
        ThinkingDirective::Unspecified,
        Policy {
            model_default: true,
            ..policy()
        },
        4096,
        false,
    );
    assert!(et);
    // Defers to max_thinking_budget, capped at 90% of max_tokens.
    assert_eq!(tb, Some(2048));

    let (et, tb) = resolve(ThinkingDirective::Unspecified, policy(), 4096, false);
    assert!(!et);
    assert!(tb.is_none());
}

#[test]
fn explicit_budget_capped_at_90_pct_of_max_tokens() {
    let (et, tb) = resolve(
        ThinkingDirective::On { budget: Some(4096) },
        policy(),
        1000,
        false,
    );
    assert!(et);
    assert_eq!(tb, Some(900));
}

#[test]
fn budgetless_on_defers_to_model_cap() {
    let (et, tb) = resolve(
        ThinkingDirective::On { budget: None },
        policy(),
        4096,
        false,
    );
    assert!(et);
    assert_eq!(tb, Some(2048));
}

#[test]
fn tools_suppression_only_when_client_silent() {
    let no_tools_thinking = Policy {
        model_default: true,
        thinking_in_tools: false,
        ..policy()
    };
    // Silent client on a tool turn → suppressed.
    let (et, _) = resolve(
        ThinkingDirective::Unspecified,
        Policy {
            ..no_tools_thinking
        },
        4096,
        true,
    );
    assert!(!et);
    // Explicit enable survives the suppression.
    let (et, _) = resolve(
        ThinkingDirective::On { budget: None },
        Policy {
            model_default: true,
            thinking_in_tools: false,
            ..policy()
        },
        4096,
        true,
    );
    assert!(et);
    // Explicit disable is likewise respected (no double negation).
    let (et, _) = resolve(
        ThinkingDirective::Off,
        Policy {
            model_default: true,
            thinking_in_tools: false,
            ..policy()
        },
        4096,
        true,
    );
    assert!(!et);
}

#[test]
fn explicit_off_wins_over_model_default() {
    let (et, tb) = resolve(
        ThinkingDirective::Off,
        Policy {
            model_default: true,
            ..policy()
        },
        4096,
        false,
    );
    assert!(!et);
    assert!(tb.is_none());
}

#[test]
fn a_small_budget_is_kept() {
    let (et, tb) = resolve(
        ThinkingDirective::On { budget: Some(100) },
        policy(),
        1000,
        false,
    );
    assert!(et);
    assert_eq!(tb, Some(100));
}
