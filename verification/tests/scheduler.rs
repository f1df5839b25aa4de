//! Decisions of the step scheduler.

use spark_server::float::Float32;
use spark_server::scheduler::beam_prefill::{
    resolve_beam_hyp, winning_hypothesis, BeamPlan, BeamSettings,
};
use spark_server::scheduler::logprobs::{extract_single_logprobs, extract_verify_logprobs};
use spark_server::scheduler::mtp_gate::{
    GateDecision, GateStep, Mode, MtpGate, Verdict, Window, DEFAULT_REFRESH_TOKENS,
    DEFAULT_REPROBE_TOKENS,
};
use spark_server::scheduler::prefill_a_step_params::build_prefill_in_progress;
use spark_server::scheduler::verify_pipeline_helper::fast_masked::{
    gates_open, try_chat_fast_path, DeferLimits, FastPathSettings, PenaltyGate, VerifyState,
};
use std::sync::Arc;

fn float(f: f32) -> Float32 {
    Float32 { bits: f.to_bits() }
}

// ── the arbiter ──

fn arbiter() -> MtpGate {
    MtpGate::new(DEFAULT_REPROBE_TOKENS, DEFAULT_REFRESH_TOKENS)
}

/// Runs decode steps until a window has closed.
fn close_serial_window(g: &mut MtpGate, verdict: Verdict) {
    loop {
        let closing = g.window_closing(1).is_some();
        g.record_decode(true, verdict);
        if closing {
            break;
        }
    }
}

#[test]
fn starts_in_speculative_mode() {
    let g = arbiter();
    assert_eq!(g.next_step(), GateStep::MeasureVerify);
    assert!(!g.in_serial_mode());
}

#[test]
fn a_window_has_sixteen_steps() {
    let mut g = arbiter();
    for _ in 0..15 {
        assert_eq!(g.window_closing(2), None);
        g.record_verify_step(2, true, Verdict::Beaten);
    }
    assert_eq!(g.window_closing(2), Some(Window { ran: Mode::Mtp, replace: false }));
    assert_eq!(g.losing_windows, 0);
}

#[test]
fn two_lost_windows_switch_the_mode() {
    let mut g = arbiter();
    close_serial_window(&mut g, Verdict::Beaten);
    assert!(!g.in_serial_mode());
    close_serial_window(&mut g, Verdict::Beaten);
    assert!(g.in_serial_mode());
    assert_eq!(g.take_fresh_decision(), Some(GateDecision::DisableMtp));
    assert_eq!(g.take_fresh_decision(), None);
    assert_eq!(g.next_step(), GateStep::MeasureDecode);
}

#[test]
fn a_window_that_holds_starts_the_count_again() {
    let mut g = arbiter();
    close_serial_window(&mut g, Verdict::Beaten);
    close_serial_window(&mut g, Verdict::Holds);
    close_serial_window(&mut g, Verdict::Beaten);
    assert!(!g.in_serial_mode());
}

#[test]
fn nothing_is_switched_before_both_are_measured() {
    let mut g = arbiter();
    for _ in 0..200 {
        g.record_verify_step(3, true, Verdict::NoBaseline);
    }
    assert!(!g.in_serial_mode());
}

#[test]
fn the_other_mode_is_probed_for_one_window() {
    let mut g = MtpGate::new(256, 100);
    let mut steps = 0;
    while g.next_step() == GateStep::MeasureVerify {
        g.record_verify_step(4, true, Verdict::NoBaseline);
        steps += 1;
    }
    assert_eq!(steps, 25);
    for _ in 0..15 {
        assert_eq!(g.next_step(), GateStep::MeasureDecode);
        assert_eq!(g.window_closing(1), None);
        g.record_decode(true, Verdict::NoBaseline);
    }
    assert_eq!(g.window_closing(1), Some(Window { ran: Mode::Serial, replace: true }));
    g.record_decode(true, Verdict::Holds);
    assert_eq!(g.next_step(), GateStep::MeasureVerify);
    assert_eq!(g.tokens_since_event, 0);
}

#[test]
fn a_new_depth_makes_the_baselines_stale() {
    let mut g = arbiter();
    g.maybe_remeasure(1000);
    assert!(!g.mtp_stale && !g.serial_stale);
    g.maybe_remeasure(1024);
    assert!(g.mtp_stale && g.serial_stale);
    assert_eq!(g.measured_at_depth, 1024);
    assert_eq!(
        g.window_closing(1),
        Some(Window { ran: Mode::Mtp, replace: true }),
        "the probe is due at once"
    );
    g.record_verify_step(0, true, Verdict::NoBaseline);
    assert!(g.probing);
    assert!(!g.mtp_stale && g.serial_stale);
    let mut g = arbiter();
    g.note_depth(7);
    assert_eq!(g.observed_depth, 7);
}

// ── logits ──

#[test]
fn rows_are_widened() {
    // 1.0 and -2.0 as BF16, little endian.
    let buf = [0x80, 0x3f, 0x00, 0xc0, 0x00, 0x00, 0x80, 0x3f];
    let rows = extract_verify_logprobs(2, Some(&buf), &[5, 6], 3);
    assert_eq!(rows.len(), 2);
    assert_eq!(rows[0].logits, vec![float(1.0), float(-2.0)]);
    assert_eq!(rows[1].logits, vec![float(0.0), float(1.0)]);
    assert_eq!((rows[1].token_id, rows[1].k), (6, 3));
    assert!(extract_verify_logprobs(2, None, &[5, 6], 3).is_empty());
}

#[test]
fn a_single_row() {
    let row = extract_single_logprobs(1, Some(&[0x80, 0x3f]), 9, 2).unwrap();
    assert_eq!(row.logits, vec![float(1.0)]);
    assert_eq!((row.token_id, row.k), (9, 2));
    assert!(extract_single_logprobs(1, None, 9, 2).is_none());
}

// ── prefill ──

#[test]
fn beam_hypotheses() {
    let settings = BeamSettings {
        src_lang_id: 1,
        tgt_lang_id: 0,
        adapter_slot: -1,
        num_beams: 4,
        length_penalty: float(1.0),
        early_stopping: true,
    };
    match resolve_beam_hyp(Some(vec![7]), settings, &[1, 2], 10) {
        BeamPlan::Found(h) => assert_eq!(h, vec![7]),
        BeamPlan::Search(_) => panic!("it was found"),
    }
    match resolve_beam_hyp(None, settings, &[1, 2], 10) {
        BeamPlan::Search(req) => {
            assert_eq!(req.prompt_tokens, vec![1, 2]);
            assert_eq!(req.settings, settings);
            assert_eq!(req.max_new, 10);
        }
        BeamPlan::Found(_) => panic!("nothing was found"),
    }
    assert_eq!(winning_hypothesis(vec![vec![1], vec![2, 3]]), vec![2, 3]);
    assert!(winning_hypothesis(vec![]).is_empty());
}

#[test]
fn a_prefill_is_recorded() {
    let p = build_prefill_in_progress::<&str, u8, bool, u64, (), ()>(
        Arc::new(vec![1, 2, 3]),
        99,
        "seq",
        2,
        64,
        0,
        vec![0],
        1,
        None,
        1000,
        float(0.7),
        40,
        float(0.9),
        float(0.0),
        float(0.0),
        float(1.0),
        float(0.0),
        float(0.0),
        float(0.0),
        float(0.0),
        float(1.75),
        2,
        vec![(5, float(1.0))],
        true,
        Some(256),
        None,
        128,
        false,
        true,
        false,
        false,
        None,
        Some(42),
        None,
        Some(2000),
    );
    assert_eq!(p.chunk_offset, 2);
    assert_eq!(p.repetition_penalty_window, 256);
    assert!(p.dry_sequence_breakers.is_empty());
    assert_eq!((p.seq, p.session_hash, p.seed), ("seq", 99, Some(42)));
    assert_eq!(p.timeout_at, Some(2000));
}

// ── the fast path ──

fn settings() -> FastPathSettings {
    FastPathSettings {
        masked_verify: true,
        fast_masked: true,
        adadec_recording: false,
        watchdogs_disabled: false,
        confidence_early_stop: true,
        limits: DeferLimits { budget_factor: 2, abs_ceiling: 8192, max_sentence_defer: 64 },
    }
}

fn state() -> VerifyState {
    VerifyState {
        grammar_active: false,
        inside_thinking: false,
        force_end_thinking: false,
        thinking_tokens: 0,
        thinking_budget: None,
        sentence_defer_count: 0,
        think_just_ended: false,
        require_tool_call: false,
        tool_call_opened: false,
        penalty_gate: PenaltyGate::Neutral,
        think_end_token: Some(100),
        think_start_token: Some(101),
        tool_call_start_token: Some(102),
    }
}

#[test]
fn a_plain_call_takes_the_raw_picks() {
    assert_eq!(
        try_chat_fast_path(&[1, 2], &[false, false], &settings(), &state()),
        Some(vec![1, 2])
    );
}

#[test]
fn structural_picks_take_the_slow_path() {
    for t in [100, 101, 102] {
        assert_eq!(try_chat_fast_path(&[1, t], &[true, true], &settings(), &state()), None);
    }
}

#[test]
fn penalties_must_leave_the_picks_alone() {
    let s = VerifyState { penalty_gate: PenaltyGate::ReduceOnly, ..state() };
    assert_eq!(try_chat_fast_path(&[1, 2], &[true, false], &settings(), &s), None);
    assert_eq!(
        try_chat_fast_path(&[1, 2], &[true, true], &settings(), &s),
        Some(vec![1, 2])
    );
    let s = VerifyState { penalty_gate: PenaltyGate::Blocked, ..state() };
    assert_eq!(try_chat_fast_path(&[1], &[true], &settings(), &s), None);
}

#[test]
fn armed_stages_close_the_path() {
    let open = |p: FastPathSettings, a: VerifyState| gates_open(&p, &a);
    assert!(open(settings(), state()));
    assert!(!open(FastPathSettings { masked_verify: false, ..settings() }, state()));
    assert!(!open(FastPathSettings { fast_masked: false, ..settings() }, state()));
    assert!(!open(FastPathSettings { adadec_recording: true, ..settings() }, state()));
    assert!(!open(settings(), VerifyState { grammar_active: true, ..state() }));
    let thinking = VerifyState { inside_thinking: true, ..state() };
    assert!(open(settings(), thinking));
    assert!(!open(settings(), VerifyState { force_end_thinking: true, ..thinking }));
    assert!(!open(settings(), VerifyState { thinking_tokens: 400, ..thinking }));
    assert!(open(
        FastPathSettings { watchdogs_disabled: true, ..settings() },
        VerifyState { thinking_tokens: 400, ..thinking }
    ));
    assert!(!open(
        settings(),
        VerifyState { thinking_tokens: 20, thinking_budget: Some(10), ..thinking }
    ));
    assert!(open(
        settings(),
        VerifyState { thinking_tokens: 19, thinking_budget: Some(10), ..thinking }
    ));
    assert!(!open(settings(), VerifyState { sentence_defer_count: 64, ..thinking }));
    assert!(!open(
        settings(),
        VerifyState { think_just_ended: true, require_tool_call: true, ..state() }
    ));
}

#[test]
fn a_huge_budget_is_capped() {
    let s = VerifyState {
        inside_thinking: true,
        thinking_tokens: 399,
        thinking_budget: Some(u32::MAX),
        ..state()
    };
    assert!(gates_open(&settings(), &s));
}
