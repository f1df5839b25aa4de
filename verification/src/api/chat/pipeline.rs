//! The chat pipeline: what is done with a request, in which order, and where it
//! is refused.
//!
//! The caller performs each [`Action`] and reports back with an [`Event`].

use crate::float::Float32;
use crate::text;
use crate::text::push_decimal;
use crate::tokenizer::vocabulary;
use crate::tokenizer::vocabulary::token_to_id;
use vstd::prelude::*;
use vstd::string::*;

verus! {

/// The parts of a chat request that steer the pipeline.
pub struct RequestFacts {
    pub src_lang: Option<String>,
    pub tgt_lang: Option<String>,
    pub num_beams: Option<u32>,
    pub length_penalty: Option<Float32>,
    pub early_stopping: Option<bool>,
    pub stream: bool,
    /// Tokens that prompt and output share.
    pub max_seq_len: usize,
}

/// What the pipeline waits for.
#[derive(Debug, Clone, Copy, PartialEq, Eq, Structural)]
pub enum Stage {
    Validating,
    Adapter,
    Preparing,
    Sampling,
    Done,
}

/// What was found out about a request so far.
#[derive(Debug, Clone, Copy, PartialEq, Eq, Structural)]
pub struct Resolved {
    /// Pool slot of the adapter; -1 is the active one.
    pub adapter_slot: i32,
    pub src_lang_id: u32,
    pub tgt_lang_id: u32,
    pub num_beams: u32,
    pub length_penalty: Float32,
    pub early_stopping: bool,
    pub prompt_len: usize,
}

/// A report to the pipeline. `R` is an answer that is already complete.
pub enum Event<R> {
    Validated(Result<(), R>),
    AdapterSlot(Result<i32, R>),
    /// The prompt is built and has this many tokens.
    Prepared(Result<usize, R>),
    SamplingSet(Result<(), R>),
}

/// What to do next.
pub enum Action<R> {
    ResolveAdapter,
    Prepare,
    SetUpSampling,
    RunStreaming,
    RunBlocking,
    /// Take the request off the gauge of active ones and send this answer.
    Answer(R),
    /// Take the request off the gauge of active ones and answer with status 400
    /// and this message.
    Refuse(String),
    /// The report was not awaited: nothing changes.
    Ignore,
}

/// What an [`Action`] says.
pub enum ActionView<R> {
    ResolveAdapter,
    Prepare,
    SetUpSampling,
    RunStreaming,
    RunBlocking,
    Answer(R),
    Refuse(Seq<char>),
    Ignore,
}

impl<R> View for Action<R> {
    type V = ActionView<R>;

    open spec fn view(&self) -> ActionView<R> {
        match *self {
            Action::ResolveAdapter => ActionView::ResolveAdapter,
            Action::Prepare => ActionView::Prepare,
            Action::SetUpSampling => ActionView::SetUpSampling,
            Action::RunStreaming => ActionView::RunStreaming,
            Action::RunBlocking => ActionView::RunBlocking,
            Action::Answer(r) => ActionView::Answer(r),
            Action::Refuse(s) => ActionView::Refuse(s@),
            Action::Ignore => ActionView::Ignore,
        }
    }
}

/// The pipeline of one request. It begins by having the request validated.
pub struct ChatPipeline {
    pub facts: RequestFacts,
    pub stage: Stage,
    pub resolved: Resolved,
}

/// The beam settings of a request, defaults filled in.
pub open spec fn with_beams(f: RequestFacts, r: Resolved) -> Resolved {
    Resolved {
        num_beams: match f.num_beams {
            Some(n) => n,
            None => 1,
        },
        length_penalty: match f.length_penalty {
            Some(p) => p,
            // 1.0
            None => Float32 { bits: 0x3f80_0000 },
        },
        early_stopping: match f.early_stopping {
            Some(b) => b,
            None => false,
        },
        ..r
    }
}

/// Why a request with beam search and streaming is refused.
pub open spec fn beam_refusal() -> Seq<char> {
    "num_beams > 1 is not supported in streaming mode"@
}

/// Why a request with an unknown language token is refused.
pub open spec fn lang_refusal(name: Seq<char>) -> Seq<char> {
    "unknown language token '"@ + name + "'"@
}

/// Why a request with too long a prompt is refused.
pub open spec fn length_refusal(len: usize, max: usize) -> Seq<char> {
    "Prompt too long: "@ + text::decimal(len as nat) + " tokens exceeds max_seq_len "@
        + text::decimal(max as nat) + " (leave room for output tokens)"@
}

/// Beam search cannot be streamed; anything else goes on to the prompt.
pub open spec fn after_languages<R>(f: RequestFacts, r: Resolved) -> (
    Stage,
    Resolved,
    ActionView<R>,
) {
    let beams = with_beams(f, r);
    if beams.num_beams > 1 && f.stream {
        (Stage::Done, beams, ActionView::Refuse(beam_refusal()))
    } else {
        (Stage::Preparing, beams, ActionView::Prepare)
    }
}

/// The token id of a language: zero when none is named, and a refusal when the
/// vocabulary does not have it.
pub open spec fn lang_id(name: Option<Seq<char>>, ids: Map<Seq<char>, u32>) -> Result<
    u32,
    Seq<char>,
> {
    match name {
        Some(s) => match vocabulary::id_in(ids, s) {
            Some(id) => Ok(id),
            None => Err(lang_refusal(s)),
        },
        None => Ok(0),
    }
}

/// The source language is looked up first, then the target language.
pub open spec fn after_adapter<R>(f: RequestFacts, r: Resolved, ids: Map<Seq<char>, u32>) -> (
    Stage,
    Resolved,
    ActionView<R>,
) {
    match lang_id(text::opt_text(f.src_lang), ids) {
        Err(why) => (Stage::Done, r, ActionView::Refuse(why)),
        Ok(src) => {
            let known = Resolved { src_lang_id: src, ..r };
            match lang_id(text::opt_text(f.tgt_lang), ids) {
                Err(why) => (Stage::Done, known, ActionView::Refuse(why)),
                Ok(tgt) => after_languages(f, Resolved { tgt_lang_id: tgt, ..known }),
            }
        },
    }
}

/// What a report leads to: the next stage, what is known, and what to do. The
/// ids are those of the tokenizer's vocabulary.
pub open spec fn step<R>(
    f: RequestFacts,
    stage: Stage,
    r: Resolved,
    ids: Map<Seq<char>, u32>,
    ev: Event<R>,
) -> (Stage, Resolved, ActionView<R>) {
    match (stage, ev) {
        (Stage::Validating, Event::Validated(Ok(_))) => (
            Stage::Adapter,
            r,
            ActionView::ResolveAdapter,
        ),
        (Stage::Validating, Event::Validated(Err(a))) => (
            Stage::Done,
            r,
            ActionView::Answer(a),
        ),
        (Stage::Adapter, Event::AdapterSlot(Ok(slot))) => after_adapter(
            f,
            Resolved { adapter_slot: slot, ..r },
            ids,
        ),
        (Stage::Adapter, Event::AdapterSlot(Err(a))) => (Stage::Done, r, ActionView::Answer(a)),
        (Stage::Preparing, Event::Prepared(Ok(len))) => if len >= f.max_seq_len {
            (
                Stage::Done,
                Resolved { prompt_len: len, ..r },
                ActionView::Refuse(length_refusal(len, f.max_seq_len)),
            )
        } else {
            (Stage::Sampling, Resolved { prompt_len: len, ..r }, ActionView::SetUpSampling)
        },
        (Stage::Preparing, Event::Prepared(Err(a))) => (Stage::Done, r, ActionView::Answer(a)),
        (Stage::Sampling, Event::SamplingSet(Ok(_))) => (
            Stage::Done,
            r,
            if f.stream {
                ActionView::RunStreaming
            } else {
                ActionView::RunBlocking
            },
        ),
        (Stage::Sampling, Event::SamplingSet(Err(a))) => (Stage::Done, r, ActionView::Answer(a)),
        _ => (stage, r, ActionView::Ignore),
    }
}

/// The token id of a language: zero when none is named, and the reason for a
/// refusal when the vocabulary does not have it.
pub fn resolve_lang(tokenizer: &tokenizers::Tokenizer, name: &Option<String>) -> (r: Result<
    u32,
    String,
>)
    ensures
        match r {
            Ok(id) => lang_id(text::opt_text(*name), vocabulary::token_ids(*tokenizer)) == Ok::<
                u32,
                Seq<char>,
            >(id),
            Err(why) => lang_id(text::opt_text(*name), vocabulary::token_ids(*tokenizer)) == Err::<
                u32,
                Seq<char>,
            >(why@),
        },
{
    match name {
        None => Ok(0),
        Some(s) => match token_to_id(tokenizer, s.as_str()) {
            Some(id) => Ok(id),
            None => {
                let mut why: String = "unknown language token '".to_owned();
                why.append(s.as_str());
                why.append("'");
                Err(why)
            },
        },
    }
}

fn write_length_refusal(len: usize, max: usize) -> (s: String)
    ensures
        s@ == length_refusal(len, max),
{
    let mut s: String = "Prompt too long: ".to_owned();
    push_decimal(&mut s, len as u64);
    s.append(" tokens exceeds max_seq_len ");
    push_decimal(&mut s, max as u64);
    s.append(" (leave room for output tokens)");
    s
}

/// What is known of a request before the first report.
pub open spec fn nothing_resolved() -> Resolved {
    Resolved {
        adapter_slot: (-1) as i32,
        src_lang_id: 0,
        tgt_lang_id: 0,
        num_beams: 1,
        length_penalty: Float32 { bits: 0x3f80_0000 },
        early_stopping: false,
        prompt_len: 0,
    }
}

impl ChatPipeline {
    /// The pipeline of a request, waiting for its validation.
    pub fn new(facts: RequestFacts) -> (p: Self)
        ensures
            p.facts == facts,
            p.stage == Stage::Validating,
            p.resolved == nothing_resolved(),
    {
        ChatPipeline {
            facts,
            stage: Stage::Validating,
            resolved: Resolved {
                adapter_slot: -1,
                src_lang_id: 0,
                tgt_lang_id: 0,
                num_beams: 1,
                length_penalty: Float32 { bits: 0x3f80_0000 },
                early_stopping: false,
                prompt_len: 0,
            },
        }
    }

    fn go_on_from_languages<R>(&mut self) -> (a: Action<R>)
        ensures
            final(self).facts == old(self).facts,
            (final(self).stage, final(self).resolved, a@) == after_languages::<R>(
                old(self).facts,
                old(self).resolved,
            ),
    {
        self.resolved.num_beams = match self.facts.num_beams {
            Some(n) => n,
            None => 1,
        };
        self.resolved.length_penalty = match self.facts.length_penalty {
            Some(p) => p,
            None => Float32 { bits: 0x3f80_0000 },
        };
        self.resolved.early_stopping = match self.facts.early_stopping {
            Some(b) => b,
            None => false,
        };
        if self.resolved.num_beams > 1 && self.facts.stream {
            self.stage = Stage::Done;
            Action::Refuse("num_beams > 1 is not supported in streaming mode".to_owned())
        } else {
            self.stage = Stage::Preparing;
            Action::Prepare
        }
    }

    fn go_on_from_adapter<R>(&mut self, tokenizer: &tokenizers::Tokenizer) -> (a: Action<R>)
        ensures
            final(self).facts == old(self).facts,
            (final(self).stage, final(self).resolved, a@) == after_adapter::<R>(
                old(self).facts,
                old(self).resolved,
                vocabulary::token_ids(*tokenizer),
            ),
    {
        match resolve_lang(tokenizer, &self.facts.src_lang) {
            Ok(id) => {
                self.resolved.src_lang_id = id;
            },
            Err(why) => {
                self.stage = Stage::Done;
                return Action::Refuse(why);
            },
        }
        match resolve_lang(tokenizer, &self.facts.tgt_lang) {
            Ok(id) => {
                self.resolved.tgt_lang_id = id;
                self.go_on_from_languages()
            },
            Err(why) => {
                self.stage = Stage::Done;
                Action::Refuse(why)
            },
        }
    }

    /// Takes a report and says what to do next. Languages are looked up in the
    /// vocabulary of the tokenizer.
    pub fn advance<R>(&mut self, ev: Event<R>, tokenizer: &tokenizers::Tokenizer) -> (a: Action<R>)
        ensures
            final(self).facts == old(self).facts,
            (final(self).stage, final(self).resolved, a@) == step(
                old(self).facts,
                old(self).stage,
                old(self).resolved,
                vocabulary::token_ids(*tokenizer),
                ev,
            ),
    {
        match (self.stage, ev) {
            (Stage::Validating, Event::Validated(Ok(_))) => {
                self.stage = Stage::Adapter;
                Action::ResolveAdapter
            },
            (Stage::Validating, Event::Validated(Err(r))) => {
                self.stage = Stage::Done;
                Action::Answer(r)
            },
            (Stage::Adapter, Event::AdapterSlot(Ok(slot))) => {
                self.resolved.adapter_slot = slot;
                self.go_on_from_adapter(tokenizer)
            },
            (Stage::Adapter, Event::AdapterSlot(Err(r))) => {
                self.stage = Stage::Done;
                Action::Answer(r)
            },
            (Stage::Preparing, Event::Prepared(Ok(len))) => {
                self.resolved.prompt_len = len;
                if len >= self.facts.max_seq_len {
                    self.stage = Stage::Done;
                    Action::Refuse(write_length_refusal(len, self.facts.max_seq_len))
                } else {
                    self.stage = Stage::Sampling;
                    Action::SetUpSampling
                }
            },
            (Stage::Preparing, Event::Prepared(Err(r))) => {
                self.stage = Stage::Done;
                Action::Answer(r)
            },
            (Stage::Sampling, Event::SamplingSet(Ok(_))) => {
                self.stage = Stage::Done;
                if self.facts.stream {
                    Action::RunStreaming
                } else {
                    Action::RunBlocking
                }
            },
            (Stage::Sampling, Event::SamplingSet(Err(r))) => {
                self.stage = Stage::Done;
                Action::Answer(r)
            },
            _ => Action::Ignore,
        }
    }
}

// ── laws ──

/// What holds in every stage: from the prompt on, no streamed request searches
/// beams; from sampling on, the prompt leaves room for output.
pub open spec fn pipeline_ok(f: RequestFacts, stage: Stage, r: Resolved) -> bool {
    &&& (stage is Preparing || stage is Sampling) ==> !(r.num_beams > 1 && f.stream)
    &&& stage is Sampling ==> r.prompt_len < f.max_seq_len
}

/// Every report keeps what holds in every stage, and generation is only started
/// for a request that holds it: streamed when the request asks for a stream,
/// never with several beams, and never without room for output.
pub proof fn only_sound_requests_run<R>(
    f: RequestFacts,
    stage: Stage,
    r: Resolved,
    ids: Map<Seq<char>, u32>,
    ev: Event<R>,
)
    requires
        pipeline_ok(f, stage, r),
    ensures
        ({
            let (next, known, action) = step(f, stage, r, ids, ev);
            &&& pipeline_ok(f, next, known)
            &&& action is RunStreaming ==> f.stream && known.num_beams <= 1 && known.prompt_len
                < f.max_seq_len
            &&& action is RunBlocking ==> !f.stream && known.prompt_len < f.max_seq_len
        }),
{
}

/// A prompt is only built for a request whose languages, where it names any, are
/// tokens of the vocabulary; their ids are then known.
pub proof fn languages_are_in_the_vocabulary<R>(
    f: RequestFacts,
    stage: Stage,
    r: Resolved,
    ids: Map<Seq<char>, u32>,
    ev: Event<R>,
)
    ensures
        ({
            let (next, known, action) = step(f, stage, r, ids, ev);
            action is Prepare ==> {
                &&& lang_id(text::opt_text(f.src_lang), ids) == Ok::<u32, Seq<char>>(
                    known.src_lang_id,
                )
                &&& lang_id(text::opt_text(f.tgt_lang), ids) == Ok::<u32, Seq<char>>(
                    known.tgt_lang_id,
                )
            }
        }),
{
}

/// A request that is done stays done.
pub proof fn done_is_final<R>(
    f: RequestFacts,
    r: Resolved,
    ids: Map<Seq<char>, u32>,
    ev: Event<R>,
)
    ensures
        step(f, Stage::Done, r, ids, ev) == (Stage::Done, r, ActionView::<R>::Ignore),
{
}

/// The action takes the request off the gauge of active ones.
pub open spec fn releases<R>(a: ActionView<R>) -> bool {
    a is Answer || a is Refuse
}

/// No request is left on the gauge of active ones: a request ends by being
/// released or by being handed to generation, which releases it in turn. Only an
/// end releases, and since a request that is done stays done, it is released
/// once.
pub proof fn every_early_end_is_released<R>(
    f: RequestFacts,
    stage: Stage,
    r: Resolved,
    ids: Map<Seq<char>, u32>,
    ev: Event<R>,
)
    ensures
        ({
            let (next, known, action) = step(f, stage, r, ids, ev);
            &&& !(stage is Done) && next is Done ==> releases(action) || action is RunStreaming
                || action is RunBlocking
            &&& releases(action) ==> !(stage is Done) && next is Done
        }),
{
}

/// A request that nothing speaks against runs: when every report is good, its
/// languages are known, its prompt leaves room and it does not stream beams, the
/// four steps lead to generation, streamed or not as it asks, with the adapter,
/// the languages, the beam settings and the prompt length that were found.
pub proof fn sound_requests_run<R>(
    f: RequestFacts,
    r: Resolved,
    ids: Map<Seq<char>, u32>,
    slot: i32,
    len: usize,
    src: u32,
    tgt: u32,
)
    requires
        lang_id(text::opt_text(f.src_lang), ids) == Ok::<u32, Seq<char>>(src),
        lang_id(text::opt_text(f.tgt_lang), ids) == Ok::<u32, Seq<char>>(tgt),
        !(f.stream && (f.num_beams matches Some(n) && n > 1)),
        len < f.max_seq_len,
    ensures
        ({
            let (s1, r1, a1) = step::<R>(f, Stage::Validating, r, ids, Event::Validated(Ok(())));
            let (s2, r2, a2) = step::<R>(f, s1, r1, ids, Event::AdapterSlot(Ok(slot)));
            let (s3, r3, a3) = step::<R>(f, s2, r2, ids, Event::Prepared(Ok(len)));
            let (s4, r4, a4) = step::<R>(f, s3, r3, ids, Event::SamplingSet(Ok(())));
            &&& a1 is ResolveAdapter
            &&& a2 is Prepare
            &&& a3 is SetUpSampling
            &&& f.stream ==> a4 is RunStreaming
            &&& !f.stream ==> a4 is RunBlocking
            &&& s4 is Done
            &&& r4.adapter_slot == slot
            &&& r4.src_lang_id == src
            &&& r4.tgt_lang_id == tgt
            &&& r4.prompt_len == len
            &&& r4.num_beams == (match f.num_beams {
                Some(n) => n,
                None => 1,
            })
            &&& f.length_penalty matches Some(x) ==> r4.length_penalty == x
            &&& f.early_stopping matches Some(x) ==> r4.early_stopping == x
            &&& f.early_stopping is None ==> !r4.early_stopping
        }),
{
}

/// A bad report ends the request with the answer that it carries, in every
/// stage that awaits it.
pub proof fn bad_reports_are_answered<R>(
    f: RequestFacts,
    r: Resolved,
    ids: Map<Seq<char>, u32>,
    a: R,
)
    ensures
        step(f, Stage::Validating, r, ids, Event::Validated(Err(a))).2 == ActionView::Answer(a),
        step(f, Stage::Adapter, r, ids, Event::AdapterSlot(Err(a))).2 == ActionView::Answer(a),
        step(f, Stage::Preparing, r, ids, Event::Prepared(Err(a))).2 == ActionView::Answer(a),
        step(f, Stage::Sampling, r, ids, Event::SamplingSet(Err(a))).2 == ActionView::Answer(a),
        step(f, Stage::Validating, r, ids, Event::Validated(Err(a))).0 is Done,
        step(f, Stage::Adapter, r, ids, Event::AdapterSlot(Err(a))).0 is Done,
        step(f, Stage::Preparing, r, ids, Event::Prepared(Err(a))).0 is Done,
        step(f, Stage::Sampling, r, ids, Event::SamplingSet(Err(a))).0 is Done,
{
}

/// What speaks against a request refuses it with the reason: a language that the
/// vocabulary lacks, beams in a stream, and a prompt without room for output.
pub proof fn unsound_requests_are_refused<R>(
    f: RequestFacts,
    r: Resolved,
    ids: Map<Seq<char>, u32>,
    slot: i32,
    len: usize,
)
    ensures
        ({
            let a = step::<R>(f, Stage::Adapter, r, ids, Event::AdapterSlot(Ok(slot))).2;
            let src_known = f.src_lang is None || ids.contains_key(f.src_lang->0@);
            let tgt_known = f.tgt_lang is None || ids.contains_key(f.tgt_lang->0@);
            &&& !src_known ==> a == ActionView::<R>::Refuse(lang_refusal(f.src_lang->0@))
            &&& src_known && !tgt_known ==> a == ActionView::<R>::Refuse(
                lang_refusal(f.tgt_lang->0@),
            )
            &&& src_known && tgt_known && f.stream && (f.num_beams matches Some(n) && n > 1)
                ==> a == ActionView::<R>::Refuse(beam_refusal())
        }),
        len >= f.max_seq_len ==> step::<R>(f, Stage::Preparing, r, ids, Event::Prepared(Ok(len))).2
            == ActionView::<R>::Refuse(length_refusal(len, f.max_seq_len)),
{
}

} // verus!
