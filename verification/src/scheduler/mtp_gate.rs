//! Arbiter of throughput between speculative and serial decoding.
//!
//! The arbiter runs the mode that delivered more tokens per second and looks at
//! the other one on a schedule. Steps are grouped into windows. The rate of a
//! closed window is a quotient of tokens and wall time, which the caller keeps;
//! the arbiter asks for it to be folded in and is told who is ahead. All that is
//! counted and scheduled is decided here.
//!
//! - A mode is left only after [`SWITCH_DWELL_WINDOWS`] windows in a row in
//!   which the other one was ahead by more than the noise margin.
//! - After a number of emitted tokens the arbiter probes the other mode for one
//!   window.
//! - When the context depth has grown or shrunk by a factor of two, both
//!   baselines are stale and the next probe is due at once.

use vstd::prelude::*;

verus! {

/// Floor of the depth comparison: below it all contexts are alike.
pub const REMEASURE_DEPTH_FLOOR: usize = 512;

/// Steps in a throughput window.
pub const WINDOW_STEPS: usize = 16;

/// Windows in a row that must be lost before the mode is switched.
pub const SWITCH_DWELL_WINDOWS: usize = 2;

/// Serial tokens between two probes of speculative decoding, by default.
pub const DEFAULT_REPROBE_TOKENS: usize = 256;

/// Speculative tokens between two refreshes of the serial baseline, by default.
pub const DEFAULT_REFRESH_TOKENS: usize = 1024;

/// What the arbiter wants to be run next.
#[derive(Debug, Clone, Copy, PartialEq, Eq, Structural)]
pub enum GateStep {
    /// A plain single-token decode step.
    MeasureDecode,
    /// A speculative verify step.
    MeasureVerify,
}

/// A switch of mode, for the scheduler's one-time bookkeeping.
#[derive(Debug, Clone, Copy, PartialEq, Eq, Structural)]
pub enum GateDecision {
    /// Switched to speculative decoding: nothing to do.
    KeepMtp,
    /// Switched to serial decoding: clear pending drafts.
    DisableMtp,
}

/// The two ways to decode.
#[derive(Debug, Clone, Copy, PartialEq, Eq, Structural)]
pub enum Mode {
    Mtp,
    Serial,
}

/// Who is ahead once the closed window has been folded in.
#[derive(Debug, Clone, Copy, PartialEq, Eq, Structural)]
pub enum Verdict {
    /// One of the modes has not been measured yet.
    NoBaseline,
    /// The other mode is not ahead by more than the margin.
    Holds,
    /// The other mode is ahead by more than the margin.
    Beaten,
}

/// A window that closes: the mode whose rate it measured, and whether it
/// replaces the estimate of that rate rather than being blended into it.
#[derive(Debug, Clone, Copy, PartialEq, Eq, Structural)]
pub struct Window {
    pub ran: Mode,
    pub replace: bool,
}

/// The arbiter of one serving process.
#[derive(Debug, Clone, Copy, PartialEq, Eq, Structural)]
pub struct MtpGate {
    pub reprobe_tokens: usize,
    pub refresh_tokens: usize,
    pub mode: Mode,
    /// A window of the other mode is being run.
    pub probing: bool,
    pub mtp_stale: bool,
    pub serial_stale: bool,
    pub win_steps: usize,
    /// Windows in a row in which the other mode was ahead.
    pub losing_windows: usize,
    /// Tokens emitted since the last probe.
    pub tokens_since_event: usize,
    pub observed_depth: usize,
    pub measured_at_depth: usize,
    pub fresh: Option<GateDecision>,
}

/// The mode that is not `m`.
pub open spec fn other_mode(m: Mode) -> Mode {
    match m {
        Mode::Mtp => Mode::Serial,
        Mode::Serial => Mode::Mtp,
    }
}

/// The larger of two numbers.
pub open spec fn larger(a: int, b: int) -> int {
    if a >= b {
        a
    } else {
        b
    }
}

impl MtpGate {
    /// Counters of an arbiter between two steps: a window is never full, a switch
    /// is never overdue, and no more tokens have passed than the schedule
    /// allows before a probe.
    pub open spec fn wf(self) -> bool {
        &&& self.win_steps < WINDOW_STEPS
        &&& self.losing_windows < SWITCH_DWELL_WINDOWS
        &&& !self.probing ==> self.tokens_since_event <= self.interval()
    }

    /// Tokens between two probes in the current mode.
    pub open spec fn interval(self) -> usize {
        match self.mode {
            Mode::Mtp => self.refresh_tokens,
            Mode::Serial => self.reprobe_tokens,
        }
    }

    /// The mode that steps run in now.
    pub open spec fn running(self) -> Mode {
        if self.probing {
            other_mode(self.mode)
        } else {
            self.mode
        }
    }

    /// The estimate of a mode is stale.
    pub open spec fn is_stale(self, m: Mode) -> bool {
        match m {
            Mode::Mtp => self.mtp_stale,
            Mode::Serial => self.serial_stale,
        }
    }

    /// Tokens since the last probe after a step that emitted `tokens`.
    pub open spec fn tokens_after(self, tokens: nat) -> int {
        if self.probing {
            self.tokens_since_event as int
        } else {
            self.tokens_since_event + tokens
        }
    }

    /// A step that emits `tokens` closes the window.
    pub open spec fn closes(self, tokens: nat) -> bool {
        ||| self.win_steps + 1 >= WINDOW_STEPS
        ||| !self.probing && self.tokens_after(tokens) >= self.interval()
    }

    /// The arbiter told who is ahead: one more window lost, and the switch when
    /// that was the last one it could lose; or none lost any more.
    pub open spec fn arbitrated(self, verdict: Verdict) -> MtpGate {
        match verdict {
            Verdict::NoBaseline => self,
            Verdict::Holds => MtpGate { losing_windows: 0, ..self },
            Verdict::Beaten => if self.losing_windows + 1 >= SWITCH_DWELL_WINDOWS {
                MtpGate {
                    mode: other_mode(self.mode),
                    losing_windows: 0,
                    tokens_since_event: 0,
                    measured_at_depth: self.observed_depth,
                    fresh: Some(
                        match other_mode(self.mode) {
                            Mode::Mtp => GateDecision::KeepMtp,
                            Mode::Serial => GateDecision::DisableMtp,
                        },
                    ),
                    ..self
                }
            } else {
                MtpGate { losing_windows: (self.losing_windows + 1) as usize, ..self }
            },
        }
    }

    /// The arbiter with the estimate of `m` no longer stale.
    pub open spec fn refreshed(self, m: Mode) -> MtpGate {
        match m {
            Mode::Mtp => MtpGate { mtp_stale: false, ..self },
            Mode::Serial => MtpGate { serial_stale: false, ..self },
        }
    }

    /// The arbiter after its window has closed: a probe ends in arbitration, a
    /// probe that is due begins, and any other window ends in arbitration.
    pub open spec fn closed(self, measured: bool, verdict: Verdict) -> MtpGate {
        let read = if measured {
            self.refreshed(self.running())
        } else {
            self
        };
        let emptied = MtpGate { win_steps: 0, ..read };
        if self.probing {
            MtpGate {
                tokens_since_event: 0,
                ..(MtpGate { probing: false, ..emptied }).arbitrated(verdict)
            }
        } else if self.tokens_since_event >= self.interval() {
            MtpGate { probing: true, ..emptied }
        } else {
            emptied.arbitrated(verdict)
        }
    }

    /// The arbiter after a step that emitted `tokens`.
    pub open spec fn stepped(self, tokens: nat, measured: bool, verdict: Verdict) -> MtpGate {
        let counted = MtpGate {
            win_steps: (self.win_steps + 1) as usize,
            tokens_since_event: self.tokens_after(tokens) as usize,
            ..self
        };
        if self.closes(tokens) {
            counted.closed(measured, verdict)
        } else {
            counted
        }
    }

    /// The kind of step that measures the mode that runs now.
    pub open spec fn next_kind(self) -> GateStep {
        match self.running() {
            Mode::Mtp => GateStep::MeasureVerify,
            Mode::Serial => GateStep::MeasureDecode,
        }
    }

    /// The window that a step emitting `tokens` closes, if any.
    pub open spec fn closing(self, tokens: nat) -> Option<Window> {
        if self.closes(tokens) {
            Some(
                Window {
                    ran: self.running(),
                    replace: self.probing || self.is_stale(self.running()),
                },
            )
        } else {
            None
        }
    }

    /// The arbiter after it has looked at the depth.
    pub open spec fn remeasured(self, depth: usize) -> MtpGate {
        if self.regime_changed(depth as int) {
            MtpGate {
                mtp_stale: true,
                serial_stale: true,
                measured_at_depth: depth,
                tokens_since_event: larger(
                    self.tokens_since_event as int,
                    self.interval() as int,
                ) as usize,
                ..self
            }
        } else {
            self
        }
    }

    /// The depth has left the regime that the baselines were measured in.
    pub open spec fn regime_changed(self, depth: int) -> bool {
        let measured = larger(self.measured_at_depth as int, REMEASURE_DEPTH_FLOOR as int);
        let live = larger(depth, REMEASURE_DEPTH_FLOOR as int);
        live >= 2 * measured || measured >= 2 * live
    }

    /// An arbiter that starts in speculative mode with nothing measured.
    pub fn new(reprobe_tokens: usize, refresh_tokens: usize) -> (g: MtpGate)
        ensures
            g.wf(),
            g == (MtpGate {
                reprobe_tokens,
                refresh_tokens,
                mode: Mode::Mtp,
                probing: false,
                mtp_stale: false,
                serial_stale: false,
                win_steps: 0,
                losing_windows: 0,
                tokens_since_event: 0,
                observed_depth: 0,
                measured_at_depth: 0,
                fresh: None,
            }),
    {
        MtpGate {
            reprobe_tokens,
            refresh_tokens,
            mode: Mode::Mtp,
            probing: false,
            mtp_stale: false,
            serial_stale: false,
            win_steps: 0,
            losing_windows: 0,
            tokens_since_event: 0,
            observed_depth: 0,
            measured_at_depth: 0,
            fresh: None,
        }
    }

    /// Notes the context depth of the running sequence.
    pub fn note_depth(&mut self, depth: usize)
        ensures
            *final(self) == (MtpGate { observed_depth: depth, ..*old(self) }),
            old(self).wf() ==> final(self).wf(),
    {
        self.observed_depth = depth;
    }

    /// When the depth has left the measured regime, both baselines are stale
    /// and the next probe is due; else nothing changes.
    pub fn maybe_remeasure(&mut self, current_depth: usize)
        ensures
            *final(self) == old(self).remeasured(current_depth),
            old(self).wf() ==> final(self).wf(),
    {
        let measured: usize = if self.measured_at_depth >= REMEASURE_DEPTH_FLOOR {
            self.measured_at_depth
        } else {
            REMEASURE_DEPTH_FLOOR
        };
        let live: usize = if current_depth >= REMEASURE_DEPTH_FLOOR {
            current_depth
        } else {
            REMEASURE_DEPTH_FLOOR
        };
        if live / 2 >= measured || measured / 2 >= live {
            self.mtp_stale = true;
            self.serial_stale = true;
            self.measured_at_depth = current_depth;
            let interval: usize = self.event_interval();
            if self.tokens_since_event < interval {
                self.tokens_since_event = interval;
            }
        }
    }

    /// Hands over a switch of mode, once.
    pub fn take_fresh_decision(&mut self) -> (r: Option<GateDecision>)
        ensures
            r == old(self).fresh,
            *final(self) == (MtpGate { fresh: None, ..*old(self) }),
            old(self).wf() ==> final(self).wf(),
    {
        let r: Option<GateDecision> = self.fresh;
        self.fresh = None;
        r
    }

    fn other(m: Mode) -> (r: Mode)
        ensures
            r == other_mode(m),
    {
        match m {
            Mode::Mtp => Mode::Serial,
            Mode::Serial => Mode::Mtp,
        }
    }

    fn event_interval(&self) -> (n: usize)
        ensures
            n == self.interval(),
    {
        match self.mode {
            Mode::Mtp => self.refresh_tokens,
            Mode::Serial => self.reprobe_tokens,
        }
    }

    fn effective(&self) -> (m: Mode)
        ensures
            m == self.running(),
    {
        if self.probing {
            Self::other(self.mode)
        } else {
            self.mode
        }
    }

    /// The kind of step to run next.
    pub fn next_step(&self) -> (s: GateStep)
        ensures
            s == self.next_kind(),
    {
        match self.effective() {
            Mode::Mtp => GateStep::MeasureVerify,
            Mode::Serial => GateStep::MeasureDecode,
        }
    }

    /// The window that a step emitting `tokens` closes, if it closes one. Its
    /// rate is to be folded in before the step is recorded.
    pub fn window_closing(&self, tokens: usize) -> (w: Option<Window>)
        requires
            self.wf(),
            self.interval() + tokens <= usize::MAX,
        ensures
            w == self.closing(tokens as nat),
    {
        let full: bool = self.win_steps + 1 >= WINDOW_STEPS;
        if full || (!self.probing && self.tokens_since_event + tokens >= self.event_interval()) {
            let ran: Mode = self.effective();
            let stale: bool = match ran {
                Mode::Mtp => self.mtp_stale,
                Mode::Serial => self.serial_stale,
            };
            Some(Window { ran, replace: self.probing || stale })
        } else {
            None
        }
    }

    /// Records a plain decode step, which emits one token. `measured` says that
    /// the closing window had a rate, `verdict` who is ahead with it; neither
    /// is read while the window stays open.
    pub fn record_decode(&mut self, measured: bool, verdict: Verdict)
        requires
            old(self).wf(),
            old(self).interval() + 1 <= usize::MAX,
        ensures
            *final(self) == old(self).stepped(1, measured, verdict),
            final(self).wf(),
    {
        self.record_step(1, measured, verdict);
    }

    /// Records a speculative step that committed `emitted` tokens; such a step
    /// emits at least one.
    pub fn record_verify_step(&mut self, emitted: usize, measured: bool, verdict: Verdict)
        requires
            old(self).wf(),
            old(self).interval() + larger(emitted as int, 1) <= usize::MAX,
        ensures
            *final(self) == old(self).stepped(
                larger(emitted as int, 1) as nat,
                measured,
                verdict,
            ),
            final(self).wf(),
    {
        let tokens: usize = if emitted >= 1 {
            emitted
        } else {
            1
        };
        self.record_step(tokens, measured, verdict);
    }

    fn record_step(&mut self, tokens: usize, measured: bool, verdict: Verdict)
        requires
            old(self).wf(),
            tokens >= 1,
            old(self).interval() + tokens <= usize::MAX,
        ensures
            *final(self) == old(self).stepped(tokens as nat, measured, verdict),
            final(self).wf(),
    {
        self.win_steps = self.win_steps + 1;
        if !self.probing {
            self.tokens_since_event = self.tokens_since_event + tokens;
        }
        if self.win_steps >= WINDOW_STEPS {
            self.close_window(measured, verdict);
        } else if !self.probing && self.tokens_since_event >= self.event_interval() {
            self.close_window(measured, verdict);
        }
    }

    fn close_window(&mut self, measured: bool, verdict: Verdict)
        requires
            old(self).losing_windows < SWITCH_DWELL_WINDOWS,
        ensures
            *final(self) == old(self).closed(measured, verdict),
            final(self).wf(),
    {
        if measured {
            match self.effective() {
                Mode::Mtp => {
                    self.mtp_stale = false;
                },
                Mode::Serial => {
                    self.serial_stale = false;
                },
            }
        }
        self.win_steps = 0;
        if self.probing {
            self.probing = false;
            self.arbitrate(verdict);
            self.tokens_since_event = 0;
        } else if self.tokens_since_event >= self.event_interval() {
            self.probing = true;
        } else {
            self.arbitrate(verdict);
        }
    }

    fn arbitrate(&mut self, verdict: Verdict)
        requires
            old(self).losing_windows < SWITCH_DWELL_WINDOWS,
        ensures
            *final(self) == old(self).arbitrated(verdict),
            final(self).losing_windows < SWITCH_DWELL_WINDOWS,
    {
        match verdict {
            Verdict::NoBaseline => {},
            Verdict::Holds => {
                self.losing_windows = 0;
            },
            Verdict::Beaten => {
                self.losing_windows = self.losing_windows + 1;
                if self.losing_windows >= SWITCH_DWELL_WINDOWS {
                    let to: Mode = Self::other(self.mode);
                    self.mode = to;
                    self.losing_windows = 0;
                    self.tokens_since_event = 0;
                    self.measured_at_depth = self.observed_depth;
                    self.fresh = Some(
                        match to {
                            Mode::Mtp => GateDecision::KeepMtp,
                            Mode::Serial => GateDecision::DisableMtp,
                        },
                    );
                }
            },
        }
    }

    /// Plain serial decoding is the mode of choice.
    pub fn in_serial_mode(&self) -> (r: bool)
        ensures
            r == (self.mode == Mode::Serial),
    {
        self.mode == Mode::Serial
    }
}

// ── laws ──

/// One report of a step: tokens emitted, whether its window had a rate, and
/// who is ahead.
pub struct StepReport {
    pub tokens: nat,
    pub measured: bool,
    pub verdict: Verdict,
}

/// The arbiter after the first `n` reports.
pub open spec fn after_steps(g: MtpGate, reports: Seq<StepReport>, n: int) -> MtpGate
    decreases n,
{
    if n <= 0 {
        g
    } else {
        let r = reports[n - 1];
        after_steps(g, reports, n - 1).stepped(r.tokens, r.measured, r.verdict)
    }
}

/// A switch takes the full dwell: the mode changes only in a step whose window
/// was lost and that follows a lost window, and every switch is announced.
pub proof fn mode_changes_only_after_dwell(
    g: MtpGate,
    tokens: nat,
    measured: bool,
    verdict: Verdict,
)
    ensures
        ({
            let next = g.stepped(tokens, measured, verdict);
            next.mode != g.mode ==> {
                &&& verdict == Verdict::Beaten
                &&& g.losing_windows + 1 >= SWITCH_DWELL_WINDOWS
                &&& next.losing_windows == 0
                &&& next.fresh == Some(
                    if next.mode == Mode::Serial {
                        GateDecision::DisableMtp
                    } else {
                        GateDecision::KeepMtp
                    },
                )
            }
        }),
{
}

/// Nothing is switched before both modes have been measured.
pub proof fn no_switch_without_baselines(g: MtpGate, reports: Seq<StepReport>, n: int)
    requires
        0 <= n <= reports.len(),
        forall|i: int| 0 <= i < n ==> (#[trigger] reports[i]).verdict == Verdict::NoBaseline,
    ensures
        after_steps(g, reports, n).mode == g.mode,
        after_steps(g, reports, n).fresh == g.fresh,
    decreases n,
{
    if n > 0 {
        no_switch_without_baselines(g, reports, n - 1);
        assert(reports[n - 1].verdict == Verdict::NoBaseline);
    }
}

/// A probe lasts one window: it runs the other mode until the window is full
/// and then ends, whatever is reported.
pub proof fn probe_lasts_one_window(g: MtpGate, reports: Seq<StepReport>, n: int)
    requires
        g.wf(),
        g.probing,
        0 <= n <= reports.len(),
        n <= WINDOW_STEPS - g.win_steps,
    ensures
        after_steps(g, reports, n).probing == (g.win_steps + n < WINDOW_STEPS),
        g.win_steps + n < WINDOW_STEPS ==> after_steps(g, reports, n).running() == g.running(),
        g.win_steps + n == WINDOW_STEPS ==> after_steps(g, reports, n).tokens_since_event == 0,
    decreases n,
{
    if g.win_steps + n < WINDOW_STEPS {
        lemma_probe_goes_on(g, reports, n);
    } else {
        lemma_probe_goes_on(g, reports, n - 1);
    }
}

proof fn lemma_probe_goes_on(g: MtpGate, reports: Seq<StepReport>, n: int)
    requires
        g.wf(),
        g.probing,
        0 <= n <= reports.len(),
        g.win_steps + n < WINDOW_STEPS,
    ensures
        after_steps(g, reports, n) == (MtpGate { win_steps: (g.win_steps + n) as usize, ..g }),
    decreases n,
{
    if n > 0 {
        lemma_probe_goes_on(g, reports, n - 1);
    }
}

/// The other mode is looked at on schedule: once the interval's tokens have
/// been emitted, the step that reaches it starts a probe.
pub proof fn probe_starts_on_schedule(g: MtpGate, tokens: nat, measured: bool, verdict: Verdict)
    requires
        g.wf(),
        !g.probing,
        g.tokens_since_event + tokens <= usize::MAX,
        g.tokens_since_event + tokens >= g.interval(),
    ensures
        g.stepped(tokens, measured, verdict).probing,
        g.stepped(tokens, measured, verdict).running() == other_mode(g.mode),
{
}

/// The step fills a window that ends in arbitration rather than in a probe:
/// the window measured the other mode, or no probe is due yet.
pub open spec fn is_judged(g: MtpGate, tokens: nat) -> bool {
    &&& g.win_steps + 1 >= WINDOW_STEPS
    &&& g.probing || g.tokens_since_event + tokens < g.interval()
}

/// Report `i` of a run ends a judged window.
pub open spec fn judged_at(g: MtpGate, reports: Seq<StepReport>, i: int) -> bool {
    is_judged(after_steps(g, reports, i), reports[i].tokens)
}

/// Judged windows among the first `n` reports.
pub open spec fn judged_windows(g: MtpGate, reports: Seq<StepReport>, n: int) -> nat
    decreases n,
{
    if n <= 0 {
        0
    } else {
        judged_windows(g, reports, n - 1) + if judged_at(g, reports, n - 1) {
            1nat
        } else {
            0nat
        }
    }
}

/// The switch comes, in either mode: when no window was lost so far and every
/// judged window of a run is lost, the arbiter keeps its mode until the dwell is
/// full, and the step that fills it switches to the other mode, announces that,
/// runs the other mode's steps next and counts afresh.
pub proof fn lost_windows_switch_the_mode(g: MtpGate, reports: Seq<StepReport>, n: int)
    requires
        g.wf(),
        g.losing_windows == 0,
        0 < n <= reports.len(),
        forall|i: int| 0 <= i < n ==> (#[trigger] reports[i]).tokens + g.interval() <= usize::MAX,
        forall|i: int|
            0 <= i < n && #[trigger] judged_at(g, reports, i) ==> reports[i].verdict
                == Verdict::Beaten,
    ensures
        judged_windows(g, reports, n) < SWITCH_DWELL_WINDOWS ==> {
            &&& after_steps(g, reports, n).mode == g.mode
            &&& after_steps(g, reports, n).fresh == g.fresh
        },
        judged_windows(g, reports, n) == SWITCH_DWELL_WINDOWS && judged_windows(g, reports, n - 1)
            < SWITCH_DWELL_WINDOWS ==> {
            let last = after_steps(g, reports, n);
            match g.mode {
                Mode::Mtp => {
                    &&& last.mode == Mode::Serial
                    &&& last.fresh == Some(GateDecision::DisableMtp)
                    &&& last.next_kind() == GateStep::MeasureDecode
                    &&& last.losing_windows == 0
                },
                Mode::Serial => {
                    &&& last.mode == Mode::Mtp
                    &&& last.fresh == Some(GateDecision::KeepMtp)
                    &&& last.next_kind() == GateStep::MeasureVerify
                    &&& last.losing_windows == 0
                },
            }
        },
{
    lemma_lost_windows_count(g, reports, n - 1);
    lemma_lost_windows_count(g, reports, n);
    let r = reports[n - 1];
    assert(r.tokens + g.interval() <= usize::MAX);
    assert(judged_at(g, reports, n - 1) ==> r.verdict == Verdict::Beaten);
    if judged_windows(g, reports, n - 1) < SWITCH_DWELL_WINDOWS {
        lemma_lost_window(after_steps(g, reports, n - 1), r.tokens, r.measured, r.verdict);
    }
}

/// One step of a run in which every judged window is lost.
proof fn lemma_lost_window(g: MtpGate, tokens: nat, measured: bool, verdict: Verdict)
    requires
        g.wf(),
        tokens + g.interval() <= usize::MAX,
        is_judged(g, tokens) ==> verdict == Verdict::Beaten,
    ensures
        ({
            let next = g.stepped(tokens, measured, verdict);
            let full = is_judged(g, tokens) && g.losing_windows + 1 >= SWITCH_DWELL_WINDOWS;
            &&& next.wf()
            &&& next.mode == if full {
                other_mode(g.mode)
            } else {
                g.mode
            }
            &&& next.losing_windows == if full {
                0
            } else if is_judged(g, tokens) {
                g.losing_windows + 1
            } else {
                g.losing_windows as int
            }
            &&& full ==> !next.probing
            &&& full ==> next.fresh == Some(
                match other_mode(g.mode) {
                    Mode::Mtp => GateDecision::KeepMtp,
                    Mode::Serial => GateDecision::DisableMtp,
                },
            )
            &&& !full ==> next.fresh == g.fresh && next.interval() == g.interval()
        }),
{
}

/// Up to the dwell, the windows lost are counted and nothing else changes.
proof fn lemma_lost_windows_count(g: MtpGate, reports: Seq<StepReport>, n: int)
    requires
        g.wf(),
        g.losing_windows == 0,
        0 <= n <= reports.len(),
        forall|i: int| 0 <= i < n ==> (#[trigger] reports[i]).tokens + g.interval() <= usize::MAX,
        forall|i: int|
            0 <= i < n && #[trigger] judged_at(g, reports, i) ==> reports[i].verdict
                == Verdict::Beaten,
    ensures
        judged_windows(g, reports, n) < SWITCH_DWELL_WINDOWS ==> {
            let now = after_steps(g, reports, n);
            &&& now.wf()
            &&& now.mode == g.mode
            &&& now.fresh == g.fresh
            &&& now.interval() == g.interval()
            &&& now.losing_windows == judged_windows(g, reports, n)
        },
    decreases n,
{
    if n > 0 {
        lemma_lost_windows_count(g, reports, n - 1);
        let r = reports[n - 1];
        assert(r.tokens + g.interval() <= usize::MAX);
        assert(judged_at(g, reports, n - 1) ==> r.verdict == Verdict::Beaten);
        if judged_windows(g, reports, n - 1) < SWITCH_DWELL_WINDOWS {
            lemma_lost_window(after_steps(g, reports, n - 1), r.tokens, r.measured, r.verdict);
        }
    }
}

/// A window that held clears the count and one that could not be judged leaves
/// it, and neither changes the mode or announces anything.
pub proof fn held_windows_clear_the_count(g: MtpGate, tokens: nat, measured: bool)
    requires
        g.wf(),
        is_judged(g, tokens),
        g.tokens_since_event + tokens <= usize::MAX,
    ensures
        g.stepped(tokens, measured, Verdict::Holds).losing_windows == 0,
        g.stepped(tokens, measured, Verdict::Holds).mode == g.mode,
        g.stepped(tokens, measured, Verdict::Holds).fresh == g.fresh,
        g.stepped(tokens, measured, Verdict::NoBaseline).losing_windows == g.losing_windows,
        g.stepped(tokens, measured, Verdict::NoBaseline).mode == g.mode,
        g.stepped(tokens, measured, Verdict::NoBaseline).fresh == g.fresh,
{
}

/// A step that ends no judged window decides nothing: the mode, the windows
/// lost and the announcement stay. While no probe runs, its tokens are counted.
pub proof fn other_steps_decide_nothing(g: MtpGate, tokens: nat, measured: bool, verdict: Verdict)
    requires
        g.wf(),
        !is_judged(g, tokens),
        g.tokens_since_event + tokens <= usize::MAX,
    ensures
        ({
            let next = g.stepped(tokens, measured, verdict);
            &&& next.mode == g.mode
            &&& next.losing_windows == g.losing_windows
            &&& next.fresh == g.fresh
            &&& !g.probing ==> next.tokens_since_event == g.tokens_since_event + tokens
        }),
{
}

/// A rate is asked for exactly when the step ends a window, of the mode that
/// ran. A rate that was read refreshes the baseline of that mode and of no other.
pub proof fn windows_measure_the_mode_that_ran(
    g: MtpGate,
    tokens: nat,
    measured: bool,
    verdict: Verdict,
)
    requires
        g.wf(),
        g.tokens_since_event + tokens <= usize::MAX,
    ensures
        ({
            let next = g.stepped(tokens, measured, verdict);
            let ran = if g.next_kind() == GateStep::MeasureVerify {
                Mode::Mtp
            } else {
                Mode::Serial
            };
            &&& g.closing(tokens) is Some <==> next.win_steps == 0
            &&& g.closing(tokens) is None <==> next.win_steps == g.win_steps + 1
            &&& g.closing(tokens) matches Some(w) ==> w.ran == ran
            &&& g.closing(tokens) matches Some(w) ==> (w.replace <==> g.probing || g.is_stale(ran))
            &&& next.is_stale(ran) == (g.is_stale(ran) && !(measured && g.closing(tokens) is Some))
            &&& next.is_stale(other_mode(ran)) == g.is_stale(other_mode(ran))
        }),
{
}

/// The depth doubling or halving since the baselines were measured makes both
/// stale and a probe due at the next step, whatever it emits; a smaller
/// change does nothing, and looking twice at one depth does no more than once.
pub proof fn changed_depth_forces_a_probe(
    g: MtpGate,
    depth: usize,
    tokens: nat,
    measured: bool,
    verdict: Verdict,
)
    requires
        g.wf(),
        g.interval() + tokens <= usize::MAX,
    ensures
        ({
            let next = g.remeasured(depth);
            let was = larger(g.measured_at_depth as int, REMEASURE_DEPTH_FLOOR as int);
            let is = larger(depth as int, REMEASURE_DEPTH_FLOOR as int);
            &&& is >= 2 * was || was >= 2 * is ==> {
                &&& next.mtp_stale && next.serial_stale
                &&& next.mode == g.mode
                &&& !g.probing ==> next.stepped(tokens, measured, verdict).probing
            }
            &&& is < 2 * was && was < 2 * is ==> next == g
            &&& next.remeasured(depth) == next
        }),
{
}

/// Each mode has its own schedule: speculative decoding looks at the serial mode
/// once its refresh tokens were emitted, serial decoding at the speculative mode
/// once its reprobe tokens were, and neither before.
pub proof fn each_mode_has_its_schedule(
    g: MtpGate,
    tokens: nat,
    measured: bool,
    verdict: Verdict,
)
    requires
        g.wf(),
        !g.probing,
        g.tokens_since_event + tokens <= usize::MAX,
    ensures
        ({
            let next = g.stepped(tokens, measured, verdict);
            let due = match g.mode {
                Mode::Mtp => g.tokens_since_event + tokens >= g.refresh_tokens,
                Mode::Serial => g.tokens_since_event + tokens >= g.reprobe_tokens,
            };
            &&& next.probing == due
            &&& due && g.mode == Mode::Mtp ==> next.next_kind() == GateStep::MeasureDecode
            &&& due && g.mode == Mode::Serial ==> next.next_kind() == GateStep::MeasureVerify
        }),
{
}

/// The step that runs next is that of the mode, or of the other one while that
/// is probed.
pub proof fn steps_follow_the_mode(g: MtpGate)
    ensures
        g.mode == Mode::Mtp && !g.probing ==> g.next_kind() == GateStep::MeasureVerify,
        g.mode == Mode::Mtp && g.probing ==> g.next_kind() == GateStep::MeasureDecode,
        g.mode == Mode::Serial && !g.probing ==> g.next_kind() == GateStep::MeasureDecode,
        g.mode == Mode::Serial && g.probing ==> g.next_kind() == GateStep::MeasureVerify,
{
}

/// A switch starts everything afresh: the window, the tokens since the last look
/// at the other mode, and the depth that the baselines stand for; no probe runs.
pub proof fn switches_start_afresh(g: MtpGate, tokens: nat, measured: bool, verdict: Verdict)
    requires
        g.wf(),
        g.tokens_since_event + tokens <= usize::MAX,
    ensures
        ({
            let next = g.stepped(tokens, measured, verdict);
            next.mode != g.mode ==> {
                &&& next.measured_at_depth == g.observed_depth
                &&& next.tokens_since_event == 0
                &&& next.win_steps == 0
                &&& next.losing_windows == 0
                &&& !next.probing
            }
        }),
{
}

} // verus!
