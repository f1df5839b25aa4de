//! The stream of a Messages API request: chat deltas or OpenAI chunks in,
//! Anthropic events out.

use crate::anthropic::helpers;
use crate::anthropic::helpers::convert_stop_reason;
use crate::ir::response;
use crate::ir::response::Usage;
use crate::ir::stream::StreamDelta;
use crate::json;
use crate::json::{array, entry, object, string, Json, JsonView};
use crate::text;
use crate::text::{chars_of, string_of, text_at};
use vstd::prelude::*;
use vstd::string::*;

verus! {

/// An Anthropic SSE event.
#[derive(Debug, PartialEq)]
pub struct SseEvent {
    pub event: String,
    pub data: Json,
}

/// What an [`SseEvent`] says.
pub struct SseView {
    pub event: Seq<char>,
    pub data: JsonView,
}

impl View for SseEvent {
    type V = SseView;

    open spec fn view(&self) -> SseView {
        SseView { event: self.event@, data: self.data@ }
    }
}

/// What each event of a list says.
pub open spec fn sse_views(s: Seq<SseEvent>) -> Seq<SseView> {
    s.map_values(|e: SseEvent| e@)
}

/// The content block that is open.
#[derive(Debug, Clone, Copy, PartialEq, Eq, Structural)]
pub enum OpenBlock {
    Closed,
    Text,
    Thinking,
    /// A tool call, by its slot in the OpenAI stream.
    ToolUse(usize),
}

/// State of one streamed message.
pub struct AnthropicTranslator {
    model: String,
    msg_started: bool,
    msg_id: String,
    block_idx: u32,
    open_block: OpenBlock,
    completion_tokens: usize,
    prompt_tokens: usize,
    cached_tokens: usize,
    finished: bool,
}

/// What an [`AnthropicTranslator`] says.
pub struct TranslatorView {
    pub model: Seq<char>,
    pub started: bool,
    pub msg_id: Seq<char>,
    pub block: u32,
    pub open: OpenBlock,
    pub completion_tokens: usize,
    pub prompt_tokens: usize,
    pub cached_tokens: usize,
    pub finished: bool,
}

impl View for AnthropicTranslator {
    type V = TranslatorView;

    closed spec fn view(&self) -> TranslatorView {
        TranslatorView {
            model: self.model@,
            started: self.msg_started,
            msg_id: self.msg_id@,
            block: self.block_idx,
            open: self.open_block,
            completion_tokens: self.completion_tokens,
            prompt_tokens: self.prompt_tokens,
            cached_tokens: self.cached_tokens,
            finished: self.finished,
        }
    }
}

// ── events ──

/// An event whose data begins with its own name as type.
pub open spec fn sse(name: Seq<char>, rest: Seq<(Seq<char>, JsonView)>) -> SseView {
    SseView {
        event: name,
        data: JsonView::Object(seq![("type"@, JsonView::Str(name))] + rest),
    }
}

/// The id without leading `chatcmpl-` prefixes.
pub open spec fn bare_id(id: Seq<char>) -> Seq<char>
    decreases id.len(),
{
    if text::starts_with(id, "chatcmpl-"@) && "chatcmpl-"@.len() > 0 {
        bare_id(id.subrange("chatcmpl-"@.len() as int, id.len() as int))
    } else {
        id
    }
}

/// The message id for a chat completion id.
pub open spec fn message_id(id: Seq<char>) -> Seq<char> {
    if id.len() == 0 {
        "msg_unknown"@
    } else {
        "msg_"@ + bare_id(id)
    }
}

/// The event that opens a message.
pub open spec fn message_start(st: TranslatorView) -> SseView {
    sse(
        "message_start"@,
        seq![
            (
                "message"@,
                JsonView::Object(
                    seq![
                        ("id"@, JsonView::Str(message_id(st.msg_id))),
                        ("type"@, JsonView::Str("message"@)),
                        ("role"@, JsonView::Str("assistant"@)),
                        ("model"@, JsonView::Str(st.model)),
                        ("content"@, JsonView::Array(Seq::empty())),
                        ("stop_reason"@, JsonView::Null),
                        ("stop_sequence"@, JsonView::Null),
                        (
                            "usage"@,
                            JsonView::Object(
                                seq![
                                    ("input_tokens"@, JsonView::UInt(st.prompt_tokens as u64)),
                                    ("output_tokens"@, JsonView::UInt(0)),
                                ],
                            ),
                        ),
                    ],
                ),
            ),
        ],
    )
}

/// The event that opens block `block`.
pub open spec fn block_start(block: u32, content: JsonView) -> SseView {
    sse(
        "content_block_start"@,
        seq![("index"@, JsonView::UInt(block as u64)), ("content_block"@, content)],
    )
}

/// The event that adds to block `block`.
pub open spec fn block_delta(block: u32, delta: JsonView) -> SseView {
    sse(
        "content_block_delta"@,
        seq![("index"@, JsonView::UInt(block as u64)), ("delta"@, delta)],
    )
}

/// The event that closes block `block`.
pub open spec fn block_stop(block: u32) -> SseView {
    sse("content_block_stop"@, seq![("index"@, JsonView::UInt(block as u64))])
}

/// The event that ends a message with its stop reason and usage.
pub open spec fn message_delta(st: TranslatorView, reason: Seq<char>) -> SseView {
    sse(
        "message_delta"@,
        seq![
            (
                "delta"@,
                JsonView::Object(
                    seq![
                        ("stop_reason"@, JsonView::Str(reason)),
                        ("stop_sequence"@, JsonView::Null),
                    ],
                ),
            ),
            (
                "usage"@,
                JsonView::Object(
                    seq![
                        ("output_tokens"@, JsonView::UInt(st.completion_tokens as u64)),
                        ("input_tokens"@, JsonView::UInt(st.prompt_tokens as u64)),
                        ("cache_read_input_tokens"@, JsonView::UInt(st.cached_tokens as u64)),
                    ],
                ),
            ),
        ],
    )
}

/// The last event of a message.
pub open spec fn message_stop() -> SseView {
    sse("message_stop"@, Seq::empty())
}

/// A JSON object of two texts, `type` and another.
pub open spec fn typed_text(kind: Seq<char>, key: Seq<char>, t: Seq<char>) -> JsonView {
    JsonView::Object(seq![("type"@, JsonView::Str(kind)), (key, JsonView::Str(t))])
}

/// The content of a tool call block.
pub open spec fn tool_block(id: Seq<char>, name: Seq<char>) -> JsonView {
    JsonView::Object(
        seq![
            ("type"@, JsonView::Str("tool_use"@)),
            ("id"@, JsonView::Str(id)),
            ("name"@, JsonView::Str(name)),
            ("input"@, JsonView::Object(Seq::empty())),
        ],
    )
}

// ── transitions ──

/// Closes the open block, if any; the next one gets the next index.
pub open spec fn closed(st: TranslatorView) -> (TranslatorView, Seq<SseView>) {
    if st.open is Closed {
        (st, Seq::empty())
    } else {
        (
            TranslatorView { open: OpenBlock::Closed, block: (st.block + 1) as u32, ..st },
            seq![block_stop(st.block)],
        )
    }
}

/// Opens the message unless it is open.
pub open spec fn started(st: TranslatorView) -> (TranslatorView, Seq<SseView>) {
    if st.started {
        (st, Seq::empty())
    } else {
        (TranslatorView { started: true, ..st }, seq![message_start(st)])
    }
}

/// Makes `kind` the open block: unless it is, the open one is closed and a new
/// one with this content opened.
pub open spec fn opened(st: TranslatorView, kind: OpenBlock, content: JsonView) -> (
    TranslatorView,
    Seq<SseView>,
) {
    if st.open == kind {
        (st, Seq::empty())
    } else {
        let (a, stop) = closed(st);
        (TranslatorView { open: kind, ..a }, stop + seq![block_start(a.block, content)])
    }
}

/// Reasoning text: nothing when it is empty.
pub open spec fn on_thinking(st: TranslatorView, t: Seq<char>) -> (TranslatorView, Seq<SseView>) {
    if t.len() == 0 {
        (st, Seq::empty())
    } else {
        let (a, events) = opened(
            st,
            OpenBlock::Thinking,
            typed_text("thinking"@, "thinking"@, Seq::empty()),
        );
        (a, events + seq![block_delta(a.block, typed_text("thinking_delta"@, "thinking"@, t))])
    }
}

/// Answer text: nothing when it is empty.
pub open spec fn on_text(st: TranslatorView, t: Seq<char>) -> (TranslatorView, Seq<SseView>) {
    if t.len() == 0 {
        (st, Seq::empty())
    } else {
        let (a, events) = opened(
            st,
            OpenBlock::Text,
            typed_text("text"@, "text"@, Seq::empty()),
        );
        (a, events + seq![block_delta(a.block, typed_text("text_delta"@, "text"@, t))])
    }
}

/// A fragment of the tool call in slot `slot`. A block is opened once a name is
/// there; a fragment without a name for a slot whose block is not open is
/// dropped, so that no tool call appears twice.
pub open spec fn on_tool(
    st: TranslatorView,
    slot: usize,
    id: Seq<char>,
    name: Seq<char>,
    args: Seq<char>,
) -> (TranslatorView, Seq<SseView>) {
    if st.open != OpenBlock::ToolUse(slot) && name.len() == 0 {
        (st, Seq::empty())
    } else {
        let (a, events) = opened(st, OpenBlock::ToolUse(slot), tool_block(id, name));
        if args.len() == 0 {
            (a, events)
        } else {
            (
                a,
                events + seq![
                    block_delta(
                        a.block,
                        typed_text("input_json_delta"@, "partial_json"@, args),
                    ),
                ],
            )
        }
    }
}

/// The message ends with `reason`, once.
pub open spec fn ended(st: TranslatorView, reason: Seq<char>) -> (TranslatorView, Seq<SseView>) {
    if st.finished {
        (st, Seq::empty())
    } else {
        let (a, start) = started(st);
        let (b, stop) = closed(a);
        (
            TranslatorView { finished: true, ..b },
            start + stop + seq![message_delta(b, reason), message_stop()],
        )
    }
}

/// The usage of a finish is kept.
pub open spec fn with_usage(st: TranslatorView, u: Usage) -> TranslatorView {
    TranslatorView {
        prompt_tokens: u.prompt_tokens,
        completion_tokens: u.completion_tokens,
        cached_tokens: u.cached_prompt_tokens,
        ..st
    }
}

/// The next state and the events of one delta. Refusals and errors have no
/// event.
pub open spec fn delta_step(st: TranslatorView, d: StreamDelta) -> (TranslatorView, Seq<SseView>) {
    match d {
        StreamDelta::Content { text, .. } => {
            let (a, start) = started(st);
            let (b, events) = on_text(a, text@);
            (b, start + events)
        },
        StreamDelta::Reasoning { text, .. } => {
            let (a, start) = started(st);
            let (b, events) = on_thinking(a, text@);
            (b, start + events)
        },
        StreamDelta::ToolCallStart { index, id, name } => {
            let (a, start) = started(st);
            let (b, events) = on_tool(a, index, id@, name@, Seq::empty());
            (b, start + events)
        },
        StreamDelta::ToolCallArgs { index, fragment, .. } => {
            let (a, start) = started(st);
            let (b, events) = on_tool(a, index, Seq::empty(), Seq::empty(), fragment@);
            (b, start + events)
        },
        StreamDelta::Finish { reason, usage, .. } => ended(
            with_usage(st, usage),
            helpers::stop_reason(response::finish_wire(reason@)),
        ),
        StreamDelta::Refusal { .. } => (st, Seq::empty()),
        StreamDelta::Error { .. } => (st, Seq::empty()),
    }
}

/// The state of a message before its first delta.
pub open spec fn fresh(model: Seq<char>, msg_id: Seq<char>) -> TranslatorView {
    TranslatorView {
        model,
        started: false,
        msg_id,
        block: 0,
        open: OpenBlock::Closed,
        completion_tokens: 0,
        prompt_tokens: 0,
        cached_tokens: 0,
        finished: false,
    }
}

// ── OpenAI chunks ──

/// The count under `key` of a usage report replaces `known`.
pub open spec fn reported(u: JsonView, key: Seq<char>, known: usize) -> usize {
    match u.uint_field(key) {
        Some(n) => n as usize,
        None => known,
    }
}

/// The state with the id and the usage that a chunk carries.
pub open spec fn with_chunk_facts(st: TranslatorView, chunk: JsonView) -> TranslatorView {
    let named = match chunk.text_field("id"@) {
        Some(id) => if st.msg_id.len() == 0 {
            TranslatorView { msg_id: id, ..st }
        } else {
            st
        },
        None => st,
    };
    match chunk.field("usage"@) {
        Some(u) => TranslatorView {
            prompt_tokens: reported(u, "prompt_tokens"@, named.prompt_tokens),
            completion_tokens: reported(u, "completion_tokens"@, named.completion_tokens),
            ..named
        },
        None => named,
    }
}

/// The first choice of a chunk.
pub open spec fn first_choice(chunk: JsonView) -> Option<JsonView> {
    match chunk.field("choices"@) {
        Some(JsonView::Array(items)) => if items.len() > 0 {
            Some(items[0])
        } else {
            None
        },
        _ => None,
    }
}

/// A delta that says something about the message.
pub open spec fn has_signal(delta: JsonView) -> bool {
    delta.field("role"@) is Some || delta.field("content"@) is Some || delta.field(
        "tool_calls"@,
    ) is Some || delta.field("reasoning_content"@) is Some
}

/// The text under `key`, or nothing.
pub open spec fn text_or_empty(v: JsonView, key: Seq<char>) -> Seq<char> {
    match v.text_field(key) {
        Some(t) => t,
        None => Seq::empty(),
    }
}

/// The text under `key` of the object under `outer`, or nothing.
pub open spec fn inner_text(v: JsonView, outer: Seq<char>, key: Seq<char>) -> Seq<char> {
    match v.field(outer) {
        Some(f) => text_or_empty(f, key),
        None => Seq::empty(),
    }
}

/// The slot of a tool call fragment.
pub open spec fn slot_of(tc: JsonView) -> usize {
    match tc.uint_field("index"@) {
        Some(n) => n as usize,
        None => 0,
    }
}

/// The fragments of tool calls in a delta.
pub open spec fn call_fragments(delta: JsonView) -> Seq<JsonView> {
    match delta.field("tool_calls"@) {
        Some(JsonView::Array(items)) => items,
        _ => Seq::empty(),
    }
}

/// The first `n` fragments of tool calls, one by one.
pub open spec fn on_fragments(st: TranslatorView, calls: Seq<JsonView>, n: int) -> (
    TranslatorView,
    Seq<SseView>,
)
    decreases n,
{
    if n <= 0 {
        (st, Seq::empty())
    } else {
        let (a, before) = on_fragments(st, calls, n - 1);
        let tc = calls[n - 1];
        let (b, events) = on_tool(
            a,
            slot_of(tc),
            text_or_empty(tc, "id"@),
            inner_text(tc, "function"@, "name"@),
            inner_text(tc, "function"@, "arguments"@),
        );
        (b, before + events)
    }
}

/// The message is opened when a delta says something about it.
pub open spec fn signalled(st: TranslatorView, delta: JsonView) -> (TranslatorView, Seq<SseView>) {
    if has_signal(delta) {
        started(st)
    } else {
        (st, Seq::empty())
    }
}

/// The tool calls of a delta.
pub open spec fn on_calls(st: TranslatorView, delta: JsonView) -> (TranslatorView, Seq<SseView>) {
    let calls = call_fragments(delta);
    on_fragments(st, calls, calls.len() as int)
}

proof fn lemma_add_four(
    sent: Seq<SseView>,
    a: Seq<SseView>,
    b: Seq<SseView>,
    c: Seq<SseView>,
    d: Seq<SseView>,
)
    ensures
        sent + a + b + c + d == sent + (a + b + c + d),
{
    assert(sent + a + b + c + d =~= sent + (a + b + c + d));
}

/// What a delta object leads to: reasoning first, then text, then tool calls.
pub open spec fn on_delta_object(st: TranslatorView, delta: JsonView) -> (
    TranslatorView,
    Seq<SseView>,
) {
    let (a, start) = signalled(st, delta);
    let (b, thinking) = on_thinking(a, text_or_empty(delta, "reasoning_content"@));
    let (c, answer) = on_text(b, text_or_empty(delta, "content"@));
    let (d, tools) = on_calls(c, delta);
    (d, start + thinking + answer + tools)
}

/// The next state and the events of one OpenAI chunk.
pub open spec fn chunk_step(st: TranslatorView, chunk: JsonView) -> (TranslatorView, Seq<SseView>) {
    let known = with_chunk_facts(st, chunk);
    match first_choice(chunk) {
        None => (known, Seq::empty()),
        Some(choice) => {
            let (a, events) = match choice.field("delta"@) {
                Some(delta) => on_delta_object(known, delta),
                None => (known, Seq::empty()),
            };
            match choice.text_field("finish_reason"@) {
                Some(reason) => {
                    let (b, last) = ended(a, helpers::stop_reason(reason));
                    (b, events + last)
                },
                None => (a, events),
            }
        },
    }
}

/// The number of tool call fragments in a chunk.
pub open spec fn fragment_count(chunk: JsonView) -> nat {
    match first_choice(chunk) {
        Some(choice) => match choice.field("delta"@) {
            Some(delta) => call_fragments(delta).len(),
            None => 0,
        },
        None => 0,
    }
}

// ── writing events ──

fn make_event(name: &str, rest: Vec<(String, Json)>) -> (e: SseEvent)
    ensures
        e@ == sse(name@, json::entry_views(rest@)),
{
    let mut all: Vec<(String, Json)> = vec![entry("type", string(name))];
    let mut rest: Vec<(String, Json)> = rest;
    let ghost tail = rest@;
    all.append(&mut rest);
    proof {
        assert(json::entry_views(all@) =~= seq![("type"@, JsonView::Str(name@))]
            + json::entry_views(tail));
    }
    SseEvent { event: name.to_owned(), data: object(all) }
}

fn make_typed_text(kind: &str, key: &str, t: &str) -> (j: Json)
    ensures
        j@ == typed_text(kind@, key@, t@),
{
    let all: Vec<(String, Json)> = vec![entry("type", string(kind)), entry(key, string(t))];
    proof {
        assert(json::entry_views(all@) =~= typed_text(kind@, key@, t@)->Object_0);
    }
    object(all)
}

fn make_tool_block(id: &str, name: &str) -> (j: Json)
    ensures
        j@ == tool_block(id@, name@),
{
    let empty: Vec<(String, Json)> = Vec::new();
    assert(json::entry_views(empty@) =~= Seq::<(Seq<char>, JsonView)>::empty());
    let all: Vec<(String, Json)> = vec![
        entry("type", string("tool_use")),
        entry("id", string(id)),
        entry("name", string(name)),
        entry("input", object(empty)),
    ];
    proof {
        assert(json::entry_views(all@) =~= tool_block(id@, name@)->Object_0);
    }
    object(all)
}

fn push_event(out: &mut Vec<SseEvent>, e: SseEvent)
    ensures
        sse_views(final(out)@) == sse_views(old(out)@) + seq![e@],
{
    let ghost before = out@;
    out.push(e);
    assert(sse_views(out@) =~= sse_views(before) + seq![e@]);
}

/// The id without leading `chatcmpl-` prefixes.
pub fn strip_id(id: &str) -> (r: String)
    ensures
        r@ == bare_id(id@),
{
    let s: Vec<char> = chars_of(id);
    let n: usize = chars_of("chatcmpl-").len();
    proof {
        reveal_strlit("chatcmpl-");
    }
    let mut i: usize = 0;
    assert(s@.subrange(0, s@.len() as int) =~= s@);
    while text_at(&s, "chatcmpl-", i)
        invariant
            i <= s.len(),
            n == "chatcmpl-"@.len(),
            n > 0,
            bare_id(id@) == bare_id(s@.subrange(i as int, s@.len() as int)),
        decreases s@.len() - i,
    {
        proof {
            text::lemma_matches_within(s@, i as int, s@.len() as int, "chatcmpl-"@, 0);
            assert(s@.subrange(i as int, s@.len() as int).subrange(n as int, s@.len() - i)
                =~= s@.subrange(i + n, s@.len() as int));
        }
        i = i + n;
    }
    proof {
        text::lemma_matches_within(s@, i as int, s@.len() as int, "chatcmpl-"@, 0);
    }
    string_of(&s, i, s.len())
}

impl AnthropicTranslator {
    /// A message of `model` without an id yet.
    pub fn new(model: String) -> (r: Self)
        ensures
            r@ == fresh(model@, Seq::empty()),
    {
        Self::with_id(model, String::new())
    }

    /// A message of `model` for the chat completion `msg_id`.
    pub fn with_id(model: String, msg_id: String) -> (r: Self)
        ensures
            r@ == fresh(model@, msg_id@),
    {
        AnthropicTranslator {
            model,
            msg_started: false,
            msg_id,
            block_idx: 0,
            open_block: OpenBlock::Closed,
            completion_tokens: 0,
            prompt_tokens: 0,
            cached_tokens: 0,
            finished: false,
        }
    }

    /// Number of the content block that is open, or that comes next.
    pub fn block_index(&self) -> (n: u32)
        ensures
            n == self@.block,
    {
        self.block_idx
    }

    /// Closes the open block. Returns its stop event, or `None` when no block is
    /// open.
    pub fn close_open_block(&mut self) -> (r: Option<SseEvent>)
        requires
            old(self)@.block < u32::MAX,
        ensures
            final(self)@ == closed(old(self)@).0,
            match r {
                Some(e) => closed(old(self)@).1 == seq![e@],
                None => closed(old(self)@).1 == Seq::<SseView>::empty(),
            },
    {
        match self.open_block {
            OpenBlock::Closed => None,
            _ => {
                let rest: Vec<(String, Json)> = vec![
                    entry("index", Json::UInt(self.block_idx as u64)),
                ];
                let e = make_event("content_block_stop", rest);
                proof {
                    assert(json::entry_views(rest@) =~= seq![
                        ("index"@, JsonView::UInt(self.block_idx as u64)),
                    ]);
                }
                self.open_block = OpenBlock::Closed;
                self.block_idx = self.block_idx + 1;
                Some(e)
            },
        }
    }

    /// Closes the open block into `out`.
    fn close_into(&mut self, out: &mut Vec<SseEvent>)
        requires
            old(self)@.block < u32::MAX,
        ensures
            final(self)@ == closed(old(self)@).0,
            sse_views(final(out)@) == sse_views(old(out)@) + closed(old(self)@).1,
    {
        let ghost sent = sse_views(out@);
        assert(sent =~= sent + Seq::<SseView>::empty());
        if let Some(stop) = self.close_open_block() {
            push_event(out, stop);
        }
    }

    /// Opens the message unless it is open.
    pub fn ensure_message_start(&mut self, out: &mut Vec<SseEvent>)
        ensures
            final(self)@ == started(old(self)@).0,
            sse_views(final(out)@) == sse_views(old(out)@) + started(old(self)@).1,
    {
        let ghost sent = sse_views(out@);
        assert(sent =~= sent + Seq::<SseView>::empty());
        if self.msg_started {
            return ;
        }
        let id: String = if self.msg_id.as_str().is_empty() {
            "msg_unknown".to_owned()
        } else {
            let mut s: String = "msg_".to_owned();
            let bare: String = strip_id(self.msg_id.as_str());
            s.append(bare.as_str());
            s
        };
        let usage: Vec<(String, Json)> = vec![
            entry("input_tokens", Json::UInt(self.prompt_tokens as u64)),
            entry("output_tokens", Json::UInt(0)),
        ];
        let no_content: Vec<Json> = Vec::new();
        let message: Vec<(String, Json)> = vec![
            entry("id", Json::Str(id)),
            entry("type", string("message")),
            entry("role", string("assistant")),
            entry("model", string(self.model.as_str())),
            entry("content", array(no_content)),
            entry("stop_reason", Json::Null),
            entry("stop_sequence", Json::Null),
            entry("usage", object(usage)),
        ];
        let rest: Vec<(String, Json)> = vec![entry("message", object(message))];
        proof {
            let want = message_start(self@).data->Object_0[1].1->Object_0;
            assert(json::entry_views(usage@) =~= want[7].1->Object_0);
            assert(json::views(no_content@) =~= Seq::<JsonView>::empty());
            assert(json::entry_views(message@) =~= want);
            assert(json::entry_views(rest@) =~= seq![("message"@, JsonView::Object(want))]);
        }
        let e = make_event("message_start", rest);
        push_event(out, e);
        self.msg_started = true;
    }

    /// Makes `kind` the open block.
    fn open_into(&mut self, kind: OpenBlock, content: Json, out: &mut Vec<SseEvent>)
        requires
            old(self)@.block < u32::MAX,
            !(kind is Closed),
        ensures
            final(self)@ == opened(old(self)@, kind, content@).0,
            sse_views(final(out)@) == sse_views(old(out)@) + opened(old(self)@, kind, content@).1,
    {
        let ghost sent = sse_views(out@);
        let ghost start = self@;
        assert(sent =~= sent + Seq::<SseView>::empty());
        if self.open_block != kind {
            self.close_into(out);
            let rest: Vec<(String, Json)> = vec![
                entry("index", Json::UInt(self.block_idx as u64)),
                entry("content_block", content),
            ];
            proof {
                assert(json::entry_views(rest@) =~= seq![
                    ("index"@, JsonView::UInt(self.block_idx as u64)),
                    ("content_block"@, content@),
                ]);
            }
            let e = make_event("content_block_start", rest);
            push_event(out, e);
            self.open_block = kind;
            assert(sse_views(out@) =~= sent + opened(start, kind, content@).1);
        }
    }

    /// Adds to the open block.
    fn delta_into(&self, delta: Json, out: &mut Vec<SseEvent>)
        ensures
            sse_views(final(out)@) == sse_views(old(out)@) + seq![
                block_delta(self@.block, delta@),
            ],
    {
        let rest: Vec<(String, Json)> = vec![
            entry("index", Json::UInt(self.block_idx as u64)),
            entry("delta", delta),
        ];
        proof {
            assert(json::entry_views(rest@) =~= seq![
                ("index"@, JsonView::UInt(self.block_idx as u64)),
                ("delta"@, delta@),
            ]);
        }
        let e = make_event("content_block_delta", rest);
        push_event(out, e);
    }

    fn take_thinking(&mut self, t: &str, out: &mut Vec<SseEvent>)
        requires
            old(self)@.block < u32::MAX,
        ensures
            final(self)@ == on_thinking(old(self)@, t@).0,
            sse_views(final(out)@) == sse_views(old(out)@) + on_thinking(old(self)@, t@).1,
    {
        let ghost sent = sse_views(out@);
        let ghost start = self@;
        assert(sent =~= sent + Seq::<SseView>::empty());
        if !t.is_empty() {
            let content = make_typed_text("thinking", "thinking", "");
            proof {
                reveal_strlit("");
                assert(""@ =~= Seq::<char>::empty());
            }
            self.open_into(OpenBlock::Thinking, content, out);
            self.delta_into(make_typed_text("thinking_delta", "thinking", t), out);
            assert(sse_views(out@) =~= sent + on_thinking(start, t@).1);
        }
    }

    fn take_text(&mut self, t: &str, out: &mut Vec<SseEvent>)
        requires
            old(self)@.block < u32::MAX,
        ensures
            final(self)@ == on_text(old(self)@, t@).0,
            sse_views(final(out)@) == sse_views(old(out)@) + on_text(old(self)@, t@).1,
    {
        let ghost sent = sse_views(out@);
        let ghost start = self@;
        assert(sent =~= sent + Seq::<SseView>::empty());
        if !t.is_empty() {
            let content = make_typed_text("text", "text", "");
            proof {
                reveal_strlit("");
                assert(""@ =~= Seq::<char>::empty());
            }
            self.open_into(OpenBlock::Text, content, out);
            self.delta_into(make_typed_text("text_delta", "text", t), out);
            assert(sse_views(out@) =~= sent + on_text(start, t@).1);
        }
    }

    fn take_tool(&mut self, slot: usize, id: &str, name: &str, args: &str, out: &mut Vec<SseEvent>)
        requires
            old(self)@.block < u32::MAX,
        ensures
            final(self)@ == on_tool(old(self)@, slot, id@, name@, args@).0,
            sse_views(final(out)@) == sse_views(old(out)@) + on_tool(
                old(self)@,
                slot,
                id@,
                name@,
                args@,
            ).1,
    {
        let ghost sent = sse_views(out@);
        let ghost start = self@;
        assert(sent =~= sent + Seq::<SseView>::empty());
        if self.open_block != OpenBlock::ToolUse(slot) && name.is_empty() {
            return ;
        }
        self.open_into(OpenBlock::ToolUse(slot), make_tool_block(id, name), out);
        if !args.is_empty() {
            self.delta_into(make_typed_text("input_json_delta", "partial_json", args), out);
            assert(sse_views(out@) =~= sent + on_tool(start, slot, id@, name@, args@).1);
        }
    }

    /// Ends the message with `reason`, once.
    fn end(&mut self, reason: &str, out: &mut Vec<SseEvent>)
        requires
            old(self)@.block < u32::MAX,
        ensures
            final(self)@ == ended(old(self)@, reason@).0,
            sse_views(final(out)@) == sse_views(old(out)@) + ended(old(self)@, reason@).1,
    {
        let ghost sent = sse_views(out@);
        let ghost first = self@;
        assert(sent =~= sent + Seq::<SseView>::empty());
        if self.finished {
            return ;
        }
        self.ensure_message_start(out);
        let ghost a = self@;
        self.close_into(out);
        let delta: Vec<(String, Json)> = vec![
            entry("stop_reason", string(reason)),
            entry("stop_sequence", Json::Null),
        ];
        let usage: Vec<(String, Json)> = vec![
            entry("output_tokens", Json::UInt(self.completion_tokens as u64)),
            entry("input_tokens", Json::UInt(self.prompt_tokens as u64)),
            entry("cache_read_input_tokens", Json::UInt(self.cached_tokens as u64)),
        ];
        let rest: Vec<(String, Json)> = vec![
            entry("delta", object(delta)),
            entry("usage", object(usage)),
        ];
        proof {
            let want = message_delta(self@, reason@).data->Object_0;
            assert(json::entry_views(delta@) =~= want[1].1->Object_0);
            assert(json::entry_views(usage@) =~= want[2].1->Object_0);
            assert(json::entry_views(rest@) =~= seq![want[1], want[2]]);
            assert(seq![("type"@, JsonView::Str("message_delta"@))] + seq![want[1], want[2]]
                =~= want);
        }
        let e = make_event("message_delta", rest);
        assert(e@ == message_delta(self@, reason@));
        push_event(out, e);
        let nothing: Vec<(String, Json)> = Vec::new();
        assert(json::entry_views(nothing@) =~= Seq::<(Seq<char>, JsonView)>::empty());
        let stop = make_event("message_stop", nothing);
        push_event(out, stop);
        self.finished = true;
        assert(sse_views(out@) =~= sent + ended(first, reason@).1);
    }

    /// Takes one delta of the generation core and appends the events it leads
    /// to.
    pub fn on_delta(&mut self, delta: &StreamDelta, out: &mut Vec<SseEvent>)
        requires
            old(self)@.block < u32::MAX,
        ensures
            final(self)@ == delta_step(old(self)@, *delta).0,
            sse_views(final(out)@) == sse_views(old(out)@) + delta_step(old(self)@, *delta).1,
    {
        let ghost sent = sse_views(out@);
        let ghost first = self@;
        assert(sent =~= sent + Seq::<SseView>::empty());
        proof {
            reveal_strlit("");
            assert(""@ =~= Seq::<char>::empty());
        }
        match delta {
            StreamDelta::Content { text, .. } => {
                self.ensure_message_start(out);
                self.take_text(text.as_str(), out);
                assert(sse_views(out@) =~= sent + delta_step(first, *delta).1);
            },
            StreamDelta::Reasoning { text, .. } => {
                self.ensure_message_start(out);
                self.take_thinking(text.as_str(), out);
                assert(sse_views(out@) =~= sent + delta_step(first, *delta).1);
            },
            StreamDelta::ToolCallStart { index, id, name } => {
                self.ensure_message_start(out);
                self.take_tool(*index, id.as_str(), name.as_str(), "", out);
                assert(sse_views(out@) =~= sent + delta_step(first, *delta).1);
            },
            StreamDelta::ToolCallArgs { index, fragment, .. } => {
                self.ensure_message_start(out);
                self.take_tool(*index, "", "", fragment.as_str(), out);
                assert(sse_views(out@) =~= sent + delta_step(first, *delta).1);
            },
            StreamDelta::Finish { reason, usage, .. } => {
                self.prompt_tokens = usage.prompt_tokens;
                self.completion_tokens = usage.completion_tokens;
                self.cached_tokens = usage.cached_prompt_tokens;
                self.end(convert_stop_reason(reason.as_wire()), out);
            },
            StreamDelta::Refusal { .. } => {},
            StreamDelta::Error { .. } => {},
        }
    }

    /// The stream ended: a message without a finish reason is ended as a normal
    /// turn.
    pub fn finalize(&mut self, out: &mut Vec<SseEvent>)
        requires
            old(self)@.block < u32::MAX,
        ensures
            final(self)@ == ended(old(self)@, "end_turn"@).0,
            sse_views(final(out)@) == sse_views(old(out)@) + ended(old(self)@, "end_turn"@).1,
    {
        self.end("end_turn", out);
    }

    /// Keeps the id and the usage that a chunk carries.
    fn take_chunk_facts(&mut self, chunk: &Json)
        ensures
            final(self)@ == with_chunk_facts(old(self)@, chunk@),
    {
        if self.msg_id.as_str().is_empty() {
            if let Some(id) = chunk.get_str("id") {
                self.msg_id = id.to_owned();
            }
        }
        if let Some(u) = chunk.get("usage") {
            if let Some(n) = u.get_u64("prompt_tokens") {
                self.prompt_tokens = n as usize;
            }
            if let Some(n) = u.get_u64("completion_tokens") {
                self.completion_tokens = n as usize;
            }
        }
    }

    /// Takes the tool call fragments of a delta.
    fn take_fragments(&mut self, calls: &Vec<Json>, out: &mut Vec<SseEvent>)
        requires
            old(self)@.block + calls@.len() < u32::MAX,
        ensures
            final(self)@ == on_fragments(
                old(self)@,
                json::views(calls@),
                calls@.len() as int,
            ).0,
            sse_views(final(out)@) == sse_views(old(out)@) + on_fragments(
                old(self)@,
                json::views(calls@),
                calls@.len() as int,
            ).1,
            final(self)@.block <= old(self)@.block + calls@.len(),
    {
        let ghost sent = sse_views(out@);
        let ghost first = self@;
        let ghost all = json::views(calls@);
        assert(sent =~= sent + Seq::<SseView>::empty());
        let mut i: usize = 0;
        while i < calls.len()
            invariant
                i <= calls@.len(),
                all == json::views(calls@),
                first.block + calls@.len() < u32::MAX,
                self@ == on_fragments(first, all, i as int).0,
                sse_views(out@) == sent + on_fragments(first, all, i as int).1,
                self@.block <= first.block + i,
            decreases calls@.len() - i,
        {
            let tc = &calls[i];
            assert(all[i as int] == tc@);
            let slot: usize = match tc.get_u64("index") {
                Some(n) => n as usize,
                None => 0,
            };
            proof {
                reveal_strlit("");
                assert(""@ =~= Seq::<char>::empty());
            }
            let id: &str = match tc.get_str("id") {
                Some(s) => s,
                None => "",
            };
            let function = tc.get("function");
            let name: &str = match function {
                Some(f) => match f.get_str("name") {
                    Some(s) => s,
                    None => "",
                },
                None => "",
            };
            let args: &str = match function {
                Some(f) => match f.get_str("arguments") {
                    Some(s) => s,
                    None => "",
                },
                None => "",
            };
            let ghost before = self@;
            self.take_tool(slot, id, name, args, out);
            assert(sse_views(out@) =~= sent + on_fragments(first, all, i + 1).1);
            i = i + 1;
        }
    }

    /// Opens the message when a delta says something about it.
    fn start_on_signal(&mut self, delta: &Json, out: &mut Vec<SseEvent>)
        ensures
            final(self)@ == signalled(old(self)@, delta@).0,
            sse_views(final(out)@) == sse_views(old(out)@) + signalled(old(self)@, delta@).1,
            final(self)@.block == old(self)@.block,
    {
        let ghost sent = sse_views(out@);
        assert(sent =~= sent + Seq::<SseView>::empty());
        if delta.get("role").is_some() || delta.get("content").is_some() || delta.get(
            "tool_calls",
        ).is_some() || delta.get("reasoning_content").is_some() {
            self.ensure_message_start(out);
        }
    }

    /// Takes the tool calls of a delta.
    fn take_calls(&mut self, delta: &Json, out: &mut Vec<SseEvent>)
        requires
            old(self)@.block + call_fragments(delta@).len() < u32::MAX,
        ensures
            final(self)@ == on_calls(old(self)@, delta@).0,
            sse_views(final(out)@) == sse_views(old(out)@) + on_calls(old(self)@, delta@).1,
            final(self)@.block <= old(self)@.block + call_fragments(delta@).len(),
    {
        let ghost sent = sse_views(out@);
        assert(sent =~= sent + Seq::<SseView>::empty());
        match delta.get("tool_calls") {
            Some(v) => match v {
                Json::Array(calls) => {
                    proof {
                        v.lemma_view();
                    }
                    self.take_fragments(calls, out);
                },
                _ => {},
            },
            None => {},
        }
    }

    /// Takes the delta object of a chunk.
    fn take_delta_object(&mut self, delta: &Json, out: &mut Vec<SseEvent>)
        requires
            old(self)@.block + call_fragments(delta@).len() + 2 < u32::MAX,
        ensures
            final(self)@ == on_delta_object(old(self)@, delta@).0,
            sse_views(final(out)@) == sse_views(old(out)@) + on_delta_object(
                old(self)@,
                delta@,
            ).1,
            final(self)@.block <= old(self)@.block + call_fragments(delta@).len() + 2,
    {
        let ghost sent = sse_views(out@);
        let ghost first = self@;
        proof {
            reveal_strlit("");
            assert(""@ =~= Seq::<char>::empty());
        }
        self.start_on_signal(delta, out);
        let ghost a = self@;
        let ghost start = signalled(first, delta@).1;
        let reasoning: &str = match delta.get_str("reasoning_content") {
            Some(s) => s,
            None => "",
        };
        assert(reasoning@ == text_or_empty(delta@, "reasoning_content"@));
        self.take_thinking(reasoning, out);
        let ghost b = self@;
        let ghost thinking = on_thinking(a, reasoning@).1;
        let content: &str = match delta.get_str("content") {
            Some(s) => s,
            None => "",
        };
        assert(content@ == text_or_empty(delta@, "content"@));
        self.take_text(content, out);
        let ghost c = self@;
        let ghost answer = on_text(b, content@).1;
        self.take_calls(delta, out);
        let ghost tools = on_calls(c, delta@).1;
        proof {
            lemma_add_four(sent, start, thinking, answer, tools);
        }
    }

    /// Takes one OpenAI chat chunk and appends the events it leads to.
    pub fn process_openai_chunk(&mut self, chunk: &Json, out: &mut Vec<SseEvent>)
        requires
            old(self)@.block + fragment_count(chunk@) + 3 < u32::MAX,
        ensures
            final(self)@ == chunk_step(old(self)@, chunk@).0,
            sse_views(final(out)@) == sse_views(old(out)@) + chunk_step(old(self)@, chunk@).1,
    {
        let ghost sent = sse_views(out@);
        let ghost first = self@;
        assert(sent =~= sent + Seq::<SseView>::empty());
        self.take_chunk_facts(chunk);
        let ghost known = self@;
        let choice: &Json = match chunk.get("choices") {
            Some(v) => match v {
                Json::Array(items) => {
                    proof {
                        v.lemma_view();
                    }
                    if items.len() == 0 {
                        return ;
                    }
                    &items[0]
                },
                _ => {
                    return ;
                },
            },
            None => {
                return ;
            },
        };
        assert(first_choice(chunk@) == Some(choice@));
        if let Some(delta) = choice.get("delta") {
            self.take_delta_object(delta, out);
        }
        let ghost a = self@;
        let ghost events = match choice@.field("delta"@) {
            Some(d) => on_delta_object(known, d).1,
            None => Seq::empty(),
        };
        assert(sse_views(out@) =~= sent + events);
        if let Some(reason) = choice.get_str("finish_reason") {
            self.end(convert_stop_reason(reason), out);
            assert(sse_views(out@) =~= sent + (events + ended(a, helpers::stop_reason(reason@)).1));
        }
    }
}

// ── laws ──

/// Where a message stream stands between two events.
pub enum Frame {
    /// Nothing was sent.
    Before,
    /// The message is open, the next block has this index.
    Between(int),
    /// The block with this index is open.
    Within(int),
    /// The stop reason was sent.
    Closing,
    /// The message is over.
    Over,
    /// An event came that could not.
    Broken,
}

/// The index that an event about a block names.
pub open spec fn names_block(e: SseView, n: int) -> bool {
    &&& e.data is Object
    &&& e.data->Object_0.len() > 1
    &&& e.data->Object_0[1].0 == "index"@
    &&& e.data->Object_0[1].1 is UInt
    &&& e.data->Object_0[1].1->UInt_0 == n
}

/// Where the stream stands after one more event.
pub open spec fn next_frame(f: Frame, e: SseView) -> Frame {
    match f {
        Frame::Before => if e.event == "message_start"@ {
            Frame::Between(0)
        } else {
            Frame::Broken
        },
        Frame::Between(n) => if e.event == "content_block_start"@ && names_block(e, n) {
            Frame::Within(n)
        } else if e.event == "message_delta"@ {
            Frame::Closing
        } else {
            Frame::Broken
        },
        Frame::Within(n) => if e.event == "content_block_delta"@ && names_block(e, n) {
            Frame::Within(n)
        } else if e.event == "content_block_stop"@ && names_block(e, n) {
            Frame::Between(n + 1)
        } else {
            Frame::Broken
        },
        Frame::Closing => if e.event == "message_stop"@ {
            Frame::Over
        } else {
            Frame::Broken
        },
        Frame::Over => Frame::Broken,
        Frame::Broken => Frame::Broken,
    }
}

/// Where the stream stands after all of `events`.
pub open spec fn frame_after(f: Frame, events: Seq<SseView>) -> Frame
    decreases events.len(),
{
    if events.len() == 0 {
        f
    } else {
        next_frame(frame_after(f, events.drop_last()), events.last())
    }
}

/// Where the stream stands in a state.
pub open spec fn frame_of(st: TranslatorView) -> Frame {
    if st.finished {
        Frame::Over
    } else if !st.started {
        Frame::Before
    } else if st.open is Closed {
        Frame::Between(st.block as int)
    } else {
        Frame::Within(st.block as int)
    }
}

/// A state as a stream reaches it: nothing is open or counted before the
/// message is.
pub open spec fn translator_ok(st: TranslatorView) -> bool {
    &&& !st.started ==> st.open is Closed && st.block == 0
    &&& !st.finished
}

proof fn lemma_frame_add(f: Frame, a: Seq<SseView>, b: Seq<SseView>)
    ensures
        frame_after(f, a + b) == frame_after(frame_after(f, a), b),
    decreases b.len(),
{
    if b.len() == 0 {
        assert(a + b =~= a);
    } else {
        assert((a + b).drop_last() =~= a + b.drop_last());
        assert((a + b).last() == b.last());
        lemma_frame_add(f, a, b.drop_last());
    }
}

proof fn lemma_frame_one(f: Frame, e: SseView)
    ensures
        frame_after(f, seq![e]) == next_frame(f, e),
        frame_after(f, Seq::<SseView>::empty()) == f,
{
    assert(seq![e].drop_last() =~= Seq::<SseView>::empty());
    assert(seq![e].last() == e);
    assert(frame_after(f, Seq::<SseView>::empty()) == f);
}

proof fn lemma_started_frame(st: TranslatorView)
    requires
        translator_ok(st),
    ensures
        frame_after(frame_of(st), started(st).1) == frame_of(started(st).0),
        translator_ok(started(st).0),
        started(st).0.started,
{
    lemma_frame_one(frame_of(st), message_start(st));
}

proof fn lemma_closed_frame(st: TranslatorView)
    requires
        translator_ok(st),
        st.started,
        st.block < u32::MAX,
    ensures
        frame_after(frame_of(st), closed(st).1) == frame_of(closed(st).0),
        translator_ok(closed(st).0),
{
    reveal_strlit("content_block_delta");
    reveal_strlit("content_block_stop");
    assert("content_block_delta"@.len() == 19);
    assert("content_block_stop"@.len() == 18);
    lemma_frame_one(frame_of(st), block_stop(st.block));
    let e = block_stop(st.block);
    assert(e.data->Object_0[1] == ("index"@, JsonView::UInt(st.block as u64)));
}

proof fn lemma_opened_frame(st: TranslatorView, kind: OpenBlock, content: JsonView)
    requires
        translator_ok(st),
        st.started,
        st.block < u32::MAX,
        !(kind is Closed),
    ensures
        frame_after(frame_of(st), opened(st, kind, content).1) == frame_of(
            opened(st, kind, content).0,
        ),
        translator_ok(opened(st, kind, content).0),
        opened(st, kind, content).0.started,
        opened(st, kind, content).0.open == kind,
{
    let (a, stop) = closed(st);
    lemma_closed_frame(st);
    let e = block_start(a.block, content);
    assert(e.data->Object_0[1] == ("index"@, JsonView::UInt(a.block as u64)));
    lemma_frame_one(frame_of(a), e);
    lemma_frame_add(frame_of(st), stop, seq![e]);
    lemma_frame_one(frame_of(st), e);
}

proof fn lemma_delta_frame(st: TranslatorView, delta: JsonView)
    requires
        translator_ok(st),
        st.started,
        !(st.open is Closed),
    ensures
        frame_after(frame_of(st), seq![block_delta(st.block, delta)]) == frame_of(st),
{
    let e = block_delta(st.block, delta);
    assert(e.data->Object_0[1] == ("index"@, JsonView::UInt(st.block as u64)));
    lemma_frame_one(frame_of(st), e);
}

proof fn lemma_opened_and_delta_frame(
    st: TranslatorView,
    kind: OpenBlock,
    content: JsonView,
    delta: JsonView,
)
    requires
        translator_ok(st),
        st.started,
        st.block < u32::MAX,
        !(kind is Closed),
    ensures
        ({
            let (a, events) = opened(st, kind, content);
            frame_after(frame_of(st), events + seq![block_delta(a.block, delta)]) == frame_of(a)
                && translator_ok(a)
        }),
{
    let (a, events) = opened(st, kind, content);
    lemma_opened_frame(st, kind, content);
    lemma_delta_frame(a, delta);
    lemma_frame_add(frame_of(st), events, seq![block_delta(a.block, delta)]);
}

proof fn lemma_ended_frame(st: TranslatorView, reason: Seq<char>)
    requires
        translator_ok(st),
        st.block < u32::MAX,
    ensures
        frame_after(frame_of(st), ended(st, reason).1) == Frame::Over,
        ended(st, reason).0.finished,
{
    reveal_strlit("content_block_start");
    reveal_strlit("message_delta");
    assert("content_block_start"@.len() == 19);
    assert("message_delta"@.len() == 13);
    let (a, start) = started(st);
    let (b, stop) = closed(a);
    lemma_started_frame(st);
    lemma_closed_frame(a);
    lemma_frame_add(frame_of(st), start, stop);
    assert(frame_after(frame_of(st), start + stop) == frame_of(b));
    assert(frame_of(b) == Frame::Between(b.block as int));
    let x = message_delta(b, reason);
    let y = message_stop();
    lemma_frame_add(frame_of(b), seq![x], seq![y]);
    lemma_frame_one(frame_of(b), x);
    lemma_frame_one(Frame::Closing, y);
    assert(seq![x] + seq![y] =~= seq![x, y]);
    lemma_frame_add(frame_of(st), start + stop, seq![x, y]);
}

/// Every delta of an unfinished message keeps the framing that clients depend
/// on: the message is opened first and once, every block is opened, added to and
/// closed in turn under consecutive indices, and the stop reason and the end come
/// after all blocks are closed.
pub proof fn delta_keeps_framing(st: TranslatorView, d: StreamDelta)
    requires
        translator_ok(st),
        st.block < u32::MAX,
    ensures
        frame_after(frame_of(st), delta_step(st, d).1) == frame_of(delta_step(st, d).0),
        d is Finish ==> frame_of(delta_step(st, d).0) is Over,
        !(d is Finish) ==> translator_ok(delta_step(st, d).0),
{
    let (a, start) = started(st);
    lemma_started_frame(st);
    lemma_frame_one(frame_of(a), message_stop());
    lemma_frame_one(frame_of(st), message_stop());
    match d {
        StreamDelta::Content { text, .. } => {
            let t = text@;
            if t.len() > 0 {
                lemma_opened_and_delta_frame(
                    a,
                    OpenBlock::Text,
                    typed_text("text"@, "text"@, Seq::empty()),
                    typed_text("text_delta"@, "text"@, t),
                );
            }
            lemma_frame_add(frame_of(st), start, on_text(a, t).1);
        },
        StreamDelta::Reasoning { text, .. } => {
            let t = text@;
            if t.len() > 0 {
                lemma_opened_and_delta_frame(
                    a,
                    OpenBlock::Thinking,
                    typed_text("thinking"@, "thinking"@, Seq::empty()),
                    typed_text("thinking_delta"@, "thinking"@, t),
                );
            }
            lemma_frame_add(frame_of(st), start, on_thinking(a, t).1);
        },
        StreamDelta::ToolCallStart { index, id, name } => {
            lemma_opened_frame(a, OpenBlock::ToolUse(index), tool_block(id@, name@));
            lemma_frame_add(
                frame_of(st),
                start,
                on_tool(a, index, id@, name@, Seq::empty()).1,
            );
        },
        StreamDelta::ToolCallArgs { index, fragment, .. } => {
            let none = Seq::<char>::empty();
            lemma_opened_frame(a, OpenBlock::ToolUse(index), tool_block(none, none));
            lemma_opened_and_delta_frame(
                a,
                OpenBlock::ToolUse(index),
                tool_block(none, none),
                typed_text("input_json_delta"@, "partial_json"@, fragment@),
            );
            lemma_frame_add(
                frame_of(st),
                start,
                on_tool(a, index, none, none, fragment@).1,
            );
        },
        StreamDelta::Finish { reason, usage, .. } => {
            lemma_ended_frame(
                with_usage(st, usage),
                helpers::stop_reason(response::finish_wire(reason@)),
            );
        },
        StreamDelta::Refusal { .. } => {},
        StreamDelta::Error { .. } => {},
    }
}

/// Ending a message twice says nothing the second time: there is one
/// `message_stop`.
pub proof fn message_ends_once(st: TranslatorView, first: Seq<char>, second: Seq<char>)
    ensures
        ended(ended(st, first).0, second) == (ended(st, first).0, Seq::<SseView>::empty()),
{
}

/// The state and all events after a run of deltas.
pub open spec fn run(st: TranslatorView, deltas: Seq<StreamDelta>) -> (TranslatorView, Seq<SseView>)
    decreases deltas.len(),
{
    if deltas.len() == 0 {
        (st, Seq::empty())
    } else {
        let (before, sent) = run(st, deltas.drop_last());
        let (after, events) = delta_step(before, deltas.last());
        (after, sent + events)
    }
}

proof fn lemma_run_frame(model: Seq<char>, id: Seq<char>, deltas: Seq<StreamDelta>)
    requires
        deltas.len() < u32::MAX,
        forall|k: int| 0 <= k < deltas.len() ==> !((#[trigger] deltas[k]) is Finish),
    ensures
        translator_ok(run(fresh(model, id), deltas).0),
        frame_after(Frame::Before, run(fresh(model, id), deltas).1) == frame_of(
            run(fresh(model, id), deltas).0,
        ),
        run(fresh(model, id), deltas).0.block <= deltas.len(),
    decreases deltas.len(),
{
    let st = fresh(model, id);
    if deltas.len() > 0 {
        let most = deltas.drop_last();
        assert forall|k: int| 0 <= k < most.len() implies !((#[trigger] most[k]) is Finish) by {
            assert(most[k] == deltas[k]);
        }
        lemma_run_frame(model, id, most);
        let (before, sent) = run(st, most);
        assert(!(deltas[deltas.len() - 1] is Finish));
        delta_keeps_framing(before, deltas.last());
        lemma_frame_add(Frame::Before, sent, delta_step(before, deltas.last()).1);
    }
}

/// A stream that breaks off without a finish is still a whole message: from its
/// first delta to the final flush the events follow the framing and end with the
/// message's end.
pub proof fn broken_off_stream_ends_coherently(
    model: Seq<char>,
    id: Seq<char>,
    deltas: Seq<StreamDelta>,
)
    requires
        deltas.len() < u32::MAX,
        forall|k: int| 0 <= k < deltas.len() ==> !((#[trigger] deltas[k]) is Finish),
    ensures
        ({
            let (st, sent) = run(fresh(model, id), deltas);
            is_whole_message(sent + ended(st, "end_turn"@).1)
        }),
{
    lemma_run_frame(model, id, deltas);
    let (st, sent) = run(fresh(model, id), deltas);
    lemma_ended_frame(st, "end_turn"@);
    lemma_frame_add(Frame::Before, sent, ended(st, "end_turn"@).1);
    framed_events_are_a_whole_message(sent + ended(st, "end_turn"@).1);
}

/// A stream that ends with a finish is a whole message, and the final flush adds
/// nothing to it.
pub proof fn finished_stream_is_a_whole_message(
    model: Seq<char>,
    id: Seq<char>,
    deltas: Seq<StreamDelta>,
    last: StreamDelta,
)
    requires
        deltas.len() < u32::MAX,
        forall|k: int| 0 <= k < deltas.len() ==> !((#[trigger] deltas[k]) is Finish),
        last is Finish,
    ensures
        ({
            let (st, sent) = run(fresh(model, id), deltas.push(last));
            is_whole_message(sent) && ended(st, "end_turn"@).1.len() == 0
        }),
{
    lemma_run_frame(model, id, deltas);
    let (before, sent) = run(fresh(model, id), deltas);
    assert(deltas.push(last).drop_last() =~= deltas);
    delta_keeps_framing(before, last);
    lemma_frame_add(Frame::Before, sent, delta_step(before, last).1);
    framed_events_are_a_whole_message(sent + delta_step(before, last).1);
}

proof fn lemma_on_tool_frame(
    st: TranslatorView,
    slot: usize,
    id: Seq<char>,
    name: Seq<char>,
    args: Seq<char>,
)
    requires
        translator_ok(st),
        st.started,
        st.block < u32::MAX,
    ensures
        ({
            let (a, events) = on_tool(st, slot, id, name, args);
            &&& frame_after(frame_of(st), events) == frame_of(a)
            &&& translator_ok(a)
            &&& a.started
            &&& a.block <= st.block + 1
        }),
{
    let kind = OpenBlock::ToolUse(slot);
    lemma_opened_frame(st, kind, tool_block(id, name));
    lemma_opened_and_delta_frame(
        st,
        kind,
        tool_block(id, name),
        typed_text("input_json_delta"@, "partial_json"@, args),
    );
    lemma_frame_one(frame_of(st), message_stop());
}

proof fn lemma_fragments_frame(st: TranslatorView, calls: Seq<JsonView>, n: int)
    requires
        translator_ok(st),
        st.started,
        0 <= n <= calls.len(),
        st.block + n < u32::MAX,
    ensures
        ({
            let (a, events) = on_fragments(st, calls, n);
            &&& frame_after(frame_of(st), events) == frame_of(a)
            &&& translator_ok(a)
            &&& a.started
            &&& a.block <= st.block + n
        }),
    decreases n,
{
    if n <= 0 {
        lemma_frame_one(frame_of(st), message_stop());
    } else {
        lemma_fragments_frame(st, calls, n - 1);
        let (a, before) = on_fragments(st, calls, n - 1);
        let tc = calls[n - 1];
        let slot = slot_of(tc);
        let id = text_or_empty(tc, "id"@);
        let name = inner_text(tc, "function"@, "name"@);
        let args = inner_text(tc, "function"@, "arguments"@);
        lemma_on_tool_frame(a, slot, id, name, args);
        lemma_frame_add(frame_of(st), before, on_tool(a, slot, id, name, args).1);
    }
}

proof fn lemma_delta_object_frame(st: TranslatorView, delta: JsonView)
    requires
        translator_ok(st),
        st.block + call_fragments(delta).len() + 2 < u32::MAX,
    ensures
        ({
            let (d, events) = on_delta_object(st, delta);
            &&& frame_after(frame_of(st), events) == frame_of(d)
            &&& translator_ok(d)
            &&& d.block <= st.block + call_fragments(delta).len() + 2
        }),
{
    let (a, start) = signalled(st, delta);
    let t = text_or_empty(delta, "reasoning_content"@);
    let (b, thinking) = on_thinking(a, t);
    let u = text_or_empty(delta, "content"@);
    let (c, answer) = on_text(b, u);
    let calls = call_fragments(delta);
    let (d, tools) = on_calls(c, delta);
    lemma_started_frame(st);
    lemma_frame_one(frame_of(st), message_stop());
    lemma_frame_one(frame_of(a), message_stop());
    lemma_frame_one(frame_of(b), message_stop());
    if t.len() > 0 {
        assert(has_signal(delta));
        lemma_opened_frame(
            a,
            OpenBlock::Thinking,
            typed_text("thinking"@, "thinking"@, Seq::empty()),
        );
        lemma_opened_and_delta_frame(
            a,
            OpenBlock::Thinking,
            typed_text("thinking"@, "thinking"@, Seq::empty()),
            typed_text("thinking_delta"@, "thinking"@, t),
        );
    }
    if u.len() > 0 {
        assert(has_signal(delta));
        lemma_opened_frame(b, OpenBlock::Text, typed_text("text"@, "text"@, Seq::empty()));
        lemma_opened_and_delta_frame(
            b,
            OpenBlock::Text,
            typed_text("text"@, "text"@, Seq::empty()),
            typed_text("text_delta"@, "text"@, u),
        );
    }
    lemma_frame_one(frame_of(c), message_stop());
    if calls.len() > 0 {
        assert(has_signal(delta));
        lemma_fragments_frame(c, calls, calls.len() as int);
    }
    lemma_frame_add(frame_of(st), start, thinking);
    lemma_frame_add(frame_of(st), start + thinking, answer);
    lemma_frame_add(frame_of(st), start + thinking + answer, tools);
}

/// The chunk ends the message: its choice gives a reason.
pub open spec fn ends_message(chunk: JsonView) -> bool {
    first_choice(chunk) matches Some(choice) && choice.text_field("finish_reason"@) is Some
}

/// Every OpenAI chunk of an unfinished message keeps the framing, as every delta
/// does, and one with a finish reason ends the message.
pub proof fn chunk_keeps_framing(st: TranslatorView, chunk: JsonView)
    requires
        translator_ok(st),
        st.block + fragment_count(chunk) + 3 < u32::MAX,
    ensures
        frame_after(frame_of(st), chunk_step(st, chunk).1) == frame_of(chunk_step(st, chunk).0),
        ends_message(chunk) ==> frame_of(chunk_step(st, chunk).0) is Over,
        !ends_message(chunk) ==> translator_ok(chunk_step(st, chunk).0) && chunk_step(
            st,
            chunk,
        ).0.block <= st.block + fragment_count(chunk) + 2,
{
    let known = with_chunk_facts(st, chunk);
    assert(frame_of(known) == frame_of(st));
    lemma_frame_one(frame_of(st), message_stop());
    if let Some(choice) = first_choice(chunk) {
        let (a, events) = match choice.field("delta"@) {
            Some(delta) => on_delta_object(known, delta),
            None => (known, Seq::empty()),
        };
        if let Some(delta) = choice.field("delta"@) {
            lemma_delta_object_frame(known, delta);
        }
        if let Some(reason) = choice.text_field("finish_reason"@) {
            let why = helpers::stop_reason(reason);
            lemma_ended_frame(a, why);
            lemma_frame_add(frame_of(st), events, ended(a, why).1);
        }
    }
}

/// The state and all events after a run of OpenAI chunks.
pub open spec fn chunk_run(st: TranslatorView, chunks: Seq<JsonView>) -> (
    TranslatorView,
    Seq<SseView>,
)
    decreases chunks.len(),
{
    if chunks.len() == 0 {
        (st, Seq::empty())
    } else {
        let (before, sent) = chunk_run(st, chunks.drop_last());
        let (after, events) = chunk_step(before, chunks.last());
        (after, sent + events)
    }
}

/// The most blocks that a run of chunks can open.
pub open spec fn most_blocks(chunks: Seq<JsonView>) -> nat
    decreases chunks.len(),
{
    if chunks.len() == 0 {
        0
    } else {
        most_blocks(chunks.drop_last()) + fragment_count(chunks.last()) + 2
    }
}

proof fn lemma_chunk_run_frame(model: Seq<char>, id: Seq<char>, chunks: Seq<JsonView>)
    requires
        most_blocks(chunks) + 1 < u32::MAX,
        forall|k: int| 0 <= k < chunks.len() ==> !ends_message(#[trigger] chunks[k]),
    ensures
        translator_ok(chunk_run(fresh(model, id), chunks).0),
        frame_after(Frame::Before, chunk_run(fresh(model, id), chunks).1) == frame_of(
            chunk_run(fresh(model, id), chunks).0,
        ),
        chunk_run(fresh(model, id), chunks).0.block <= most_blocks(chunks),
    decreases chunks.len(),
{
    let st = fresh(model, id);
    if chunks.len() > 0 {
        let most = chunks.drop_last();
        assert forall|k: int| 0 <= k < most.len() implies !ends_message(#[trigger] most[k]) by {
            assert(most[k] == chunks[k]);
        }
        lemma_chunk_run_frame(model, id, most);
        let (before, sent) = chunk_run(st, most);
        assert(!ends_message(chunks[chunks.len() - 1]));
        chunk_keeps_framing(before, chunks.last());
        lemma_frame_add(Frame::Before, sent, chunk_step(before, chunks.last()).1);
    }
}

/// A run of OpenAI chunks up to the first with a finish reason is a whole
/// message: its events follow the framing and end with the message's end, and
/// the final flush adds nothing.
pub proof fn finished_chunks_are_a_whole_message(
    model: Seq<char>,
    id: Seq<char>,
    chunks: Seq<JsonView>,
    last: JsonView,
)
    requires
        most_blocks(chunks.push(last)) + 1 < u32::MAX,
        forall|k: int| 0 <= k < chunks.len() ==> !ends_message(#[trigger] chunks[k]),
        ends_message(last),
    ensures
        ({
            let (st, sent) = chunk_run(fresh(model, id), chunks.push(last));
            is_whole_message(sent) && ended(st, "end_turn"@).1.len() == 0
        }),
{
    assert(chunks.push(last).drop_last() =~= chunks);
    lemma_chunk_run_frame(model, id, chunks);
    let (before, sent) = chunk_run(fresh(model, id), chunks);
    chunk_keeps_framing(before, last);
    lemma_frame_add(Frame::Before, sent, chunk_step(before, last).1);
    framed_events_are_a_whole_message(sent + chunk_step(before, last).1);
}

/// A run of OpenAI chunks that breaks off without a finish reason is a whole
/// message once it is flushed.
pub proof fn broken_off_chunks_end_coherently(
    model: Seq<char>,
    id: Seq<char>,
    chunks: Seq<JsonView>,
)
    requires
        most_blocks(chunks) + 1 < u32::MAX,
        forall|k: int| 0 <= k < chunks.len() ==> !ends_message(#[trigger] chunks[k]),
    ensures
        ({
            let (st, sent) = chunk_run(fresh(model, id), chunks);
            is_whole_message(sent + ended(st, "end_turn"@).1)
        }),
{
    lemma_chunk_run_frame(model, id, chunks);
    let (st, sent) = chunk_run(fresh(model, id), chunks);
    lemma_ended_frame(st, "end_turn"@);
    lemma_frame_add(Frame::Before, sent, ended(st, "end_turn"@).1);
    framed_events_are_a_whole_message(sent + ended(st, "end_turn"@).1);
}

// ── what the framing comes to ──

/// How many blocks are opened among the first `n` of `events`.
pub open spec fn starts_before(events: Seq<SseView>, n: int) -> nat
    decreases n,
{
    if n <= 0 {
        0
    } else {
        starts_before(events, n - 1) + if events[n - 1].event == "content_block_start"@ {
            1nat
        } else {
            0nat
        }
    }
}

/// Block `n` is closed by event `j`, and from `i` on only added to.
pub open spec fn closes_block(events: Seq<SseView>, i: int, j: int, n: int) -> bool {
    &&& i <= j < events.len()
    &&& events[j].event == "content_block_stop"@
    &&& names_block(events[j], n)
    &&& forall|k: int|
        i <= k < j ==> (#[trigger] events[k]).event == "content_block_delta"@ && names_block(
            events[k],
            n,
        )
}

/// The events of one message: `message_start` first, `message_delta` and
/// `message_stop` last, each of them once; in between blocks with the indices
/// 0, 1, 2 and so on, each opened, added to and closed before the next. Every
/// addition and every close stands directly behind the start of its block or
/// behind another addition to it.
pub open spec fn is_whole_message(events: Seq<SseView>) -> bool {
    &&& events.len() >= 3
    &&& forall|i: int| 0 <= i < events.len() ==> is_message_event(#[trigger] events[i])
    &&& forall|i: int|
        0 <= i < events.len() ==> ((#[trigger] events[i]).event == "message_start"@ <==> i == 0)
    &&& forall|i: int|
        0 <= i < events.len() ==> ((#[trigger] events[i]).event == "message_delta"@ <==> i
            == events.len() - 2)
    &&& forall|i: int|
        0 <= i < events.len() ==> ((#[trigger] events[i]).event == "message_stop"@ <==> i
            == events.len() - 1)
    &&& forall|i: int|
        0 <= i < events.len() && (#[trigger] events[i]).event == "content_block_start"@ ==> {
            let n = starts_before(events, i) as int;
            names_block(events[i], n) && exists|j: int| #[trigger]
                closes_block(events, i + 1, j, n)
        }
    &&& forall|i: int|
        0 <= i < events.len() && ((#[trigger] events[i]).event == "content_block_delta"@
            || events[i].event == "content_block_stop"@) ==> names_block(
            events[i],
            starts_before(events, i) - 1,
        ) && i > 0 && keeps_open(events[i - 1])
}

/// A block is open behind the event: it opens one or adds to one.
pub open spec fn keeps_open(e: SseView) -> bool {
    e.event == "content_block_start"@ || e.event == "content_block_delta"@
}

/// The event is of a kind that a message has.
pub open spec fn is_message_event(e: SseView) -> bool {
    ||| e.event == "message_start"@
    ||| e.event == "content_block_start"@
    ||| e.event == "content_block_delta"@
    ||| e.event == "content_block_stop"@
    ||| e.event == "message_delta"@
    ||| e.event == "message_stop"@
}

/// Where the stream stands before event `i`.
spec fn frame_at(events: Seq<SseView>, i: int) -> Frame {
    frame_after(Frame::Before, events.take(i))
}

pub(crate) proof fn lemma_event_names()
    ensures
        "message_start"@ != "message_delta"@,
        "message_start"@ != "message_stop"@,
        "message_start"@ != "content_block_start"@,
        "message_start"@ != "content_block_delta"@,
        "message_start"@ != "content_block_stop"@,
        "message_delta"@ != "message_stop"@,
        "message_delta"@ != "content_block_start"@,
        "message_delta"@ != "content_block_delta"@,
        "message_delta"@ != "content_block_stop"@,
        "message_stop"@ != "content_block_start"@,
        "message_stop"@ != "content_block_delta"@,
        "message_stop"@ != "content_block_stop"@,
        "content_block_start"@ != "content_block_delta"@,
        "content_block_start"@ != "content_block_stop"@,
        "content_block_delta"@ != "content_block_stop"@,
{
    reveal_strlit("message_start");
    reveal_strlit("message_delta");
    reveal_strlit("message_stop");
    reveal_strlit("content_block_start");
    reveal_strlit("content_block_delta");
    reveal_strlit("content_block_stop");
    assert("message_start"@[8] != "message_delta"@[8]);
    assert("content_block_start"@[14] != "content_block_delta"@[14]);
    assert("message_start"@.len() == 13 && "message_delta"@.len() == 13 && "message_stop"@.len()
        == 12 && "content_block_start"@.len() == 19 && "content_block_delta"@.len() == 19
        && "content_block_stop"@.len() == 18);
}

proof fn lemma_frame_step(events: Seq<SseView>, i: int)
    requires
        0 <= i < events.len(),
    ensures
        frame_at(events, i + 1) == next_frame(frame_at(events, i), events[i]),
{
    assert(events.take(i + 1).drop_last() =~= events.take(i));
    assert(events.take(i + 1).last() == events[i]);
}

/// A stream that is over was nowhere broken, and over only at its end.
proof fn lemma_never_broken(events: Seq<SseView>, i: int)
    requires
        frame_at(events, events.len() as int) is Over,
        0 <= i <= events.len(),
    ensures
        !(frame_at(events, i) is Broken),
        i < events.len() ==> !(frame_at(events, i) is Over),
    decreases events.len() - i,
{
    if i < events.len() {
        lemma_frame_step(events, i);
        lemma_never_broken(events, i + 1);
    }
}

#[verifier::rlimit(40)]
proof fn lemma_frame_counts(events: Seq<SseView>, i: int)
    requires
        frame_at(events, events.len() as int) is Over,
        0 <= i <= events.len(),
    ensures
        match frame_at(events, i) {
            Frame::Before => i == 0,
            Frame::Between(n) => i > 0 && n == starts_before(events, i),
            Frame::Within(n) => i > 0 && n + 1 == starts_before(events, i),
            Frame::Closing => i > 1,
            Frame::Over => i > 2,
            Frame::Broken => false,
        },
    decreases i,
{
    lemma_never_broken(events, i);
    if i == 0 {
        assert(events.take(0) =~= Seq::<SseView>::empty());
    } else {
        lemma_event_names();
        lemma_never_broken(events, i - 1);
        lemma_frame_counts(events, i - 1);
        lemma_frame_step(events, i - 1);
    }
}

proof fn lemma_block_closes(events: Seq<SseView>, i: int, n: int)
    requires
        frame_at(events, events.len() as int) is Over,
        0 <= i <= events.len(),
        frame_at(events, i) == Frame::Within(n),
    ensures
        exists|j: int| #[trigger] closes_block(events, i, j, n),
    decreases events.len() - i,
{
    lemma_event_names();
    assert(i < events.len());
    lemma_frame_step(events, i);
    lemma_never_broken(events, i + 1);
    if events[i].event == "content_block_stop"@ {
        assert(closes_block(events, i, i, n));
    } else {
        lemma_block_closes(events, i + 1, n);
        let j = choose|j: int| #[trigger] closes_block(events, i + 1, j, n);
        assert(closes_block(events, i, j, n));
    }
}

/// Events that follow the framing to the end of the message are a whole message.
pub proof fn framed_events_are_a_whole_message(events: Seq<SseView>)
    requires
        frame_after(Frame::Before, events) is Over,
    ensures
        is_whole_message(events),
{
    let len = events.len() as int;
    assert(events.take(len) =~= events);
    lemma_event_names();
    lemma_frame_counts(events, len);
    assert forall|i: int| 0 <= i < len implies ({
        &&& (#[trigger] events[i]).event == "message_start"@ <==> i == 0
        &&& events[i].event == "message_delta"@ <==> i == len - 2
        &&& events[i].event == "message_stop"@ <==> i == len - 1
    }) by {
        lemma_frame_counts(events, i);
        lemma_frame_counts(events, i + 1);
        lemma_frame_step(events, i);
        assert(events.take(0) =~= Seq::<SseView>::empty());
        lemma_never_broken(events, i + 1);
        lemma_frame_step(events, len - 1);
        lemma_never_broken(events, len - 1);
        lemma_frame_step(events, len - 2);
        lemma_never_broken(events, len - 2);
        if i + 1 < len {
            lemma_frame_step(events, i + 1);
            lemma_never_broken(events, i + 2);
        }
    }
    assert forall|i: int|
        0 <= i < len && (#[trigger] events[i]).event == "content_block_start"@ implies ({
        let n = starts_before(events, i) as int;
        names_block(events[i], n) && exists|j: int| #[trigger] closes_block(events, i + 1, j, n)
    }) by {
        let n = starts_before(events, i) as int;
        lemma_frame_counts(events, i);
        lemma_frame_step(events, i);
        lemma_never_broken(events, i + 1);
        lemma_block_closes(events, i + 1, n);
    }
    assert forall|i: int|
        0 <= i < len && ((#[trigger] events[i]).event == "content_block_delta"@
            || events[i].event == "content_block_stop"@) implies names_block(
        events[i],
        starts_before(events, i) - 1,
    ) && i > 0 && keeps_open(events[i - 1]) by {
        lemma_frame_counts(events, i);
        lemma_frame_step(events, i);
        lemma_never_broken(events, i + 1);
        lemma_frame_step(events, i - 1);
        lemma_never_broken(events, i - 1);
    }
    assert forall|i: int| 0 <= i < len implies is_message_event(#[trigger] events[i]) by {
        lemma_frame_step(events, i);
        lemma_never_broken(events, i);
        lemma_never_broken(events, i + 1);
    }
}

/// The OpenAI chunk that carries `delta` as the delta of its one choice.
pub open spec fn chunk_with(delta: JsonView) -> JsonView {
    JsonView::Object(
        seq![("choices"@, JsonView::Array(seq![JsonView::Object(seq![("delta"@, delta)])]))],
    )
}

/// A chunk with one delta leads to what its delta object leads to.
proof fn lemma_chunk_with(st: TranslatorView, delta: JsonView)
    ensures
        chunk_step(st, chunk_with(delta)) == on_delta_object(st, delta),
{
    reveal_strlit("choices");
    reveal_strlit("id");
    reveal_strlit("usage");
    reveal_strlit("delta");
    reveal_strlit("finish_reason");
    assert("choices"@.len() == 7 && "id"@.len() == 2 && "usage"@.len() == 5 && "delta"@.len() == 5
        && "finish_reason"@.len() == 13);
    reveal_with_fuel(json::entry_at, 3);
    let chunk = chunk_with(delta);
    assert(chunk.field("id"@) is None);
    assert(chunk.field("usage"@) is None);
    let choice = JsonView::Object(seq![("delta"@, delta)]);
    assert(first_choice(chunk) == Some(choice));
    assert(choice.field("delta"@) == Some(delta));
    assert(choice.field("finish_reason"@) is None);
}

/// Text and reasoning lead to the same events whether they come as deltas or as
/// OpenAI chunks.
pub proof fn chunks_and_deltas_agree_on_text(st: TranslatorView, d: StreamDelta)
    ensures
        d matches StreamDelta::Content { text, .. } ==> chunk_step(
            st,
            chunk_with(JsonView::Object(seq![("content"@, JsonView::Str(text@))])),
        ) == delta_step(st, d),
        d matches StreamDelta::Reasoning { text, .. } ==> chunk_step(
            st,
            chunk_with(JsonView::Object(seq![("reasoning_content"@, JsonView::Str(text@))])),
        ) == delta_step(st, d),
{
    reveal_strlit("content");
    reveal_strlit("reasoning_content");
    reveal_strlit("tool_calls");
    assert("content"@.len() == 7 && "reasoning_content"@.len() == 17 && "tool_calls"@.len() == 10);
    reveal_with_fuel(json::entry_at, 3);
    if let StreamDelta::Content { text, .. } = d {
        let delta = JsonView::Object(seq![("content"@, JsonView::Str(text@))]);
        lemma_chunk_with(st, delta);
        assert(delta.field("content"@) == Some(JsonView::Str(text@)));
        assert(delta.field("reasoning_content"@) is None);
        assert(delta.field("tool_calls"@) is None);
        let (a, start) = started(st);
        let (b, events) = on_text(a, text@);
        let none = Seq::<SseView>::empty();
        assert(start + none + events + none =~= start + events);
    }
    if let StreamDelta::Reasoning { text, .. } = d {
        let delta = JsonView::Object(seq![("reasoning_content"@, JsonView::Str(text@))]);
        lemma_chunk_with(st, delta);
        assert(delta.field("reasoning_content"@) == Some(JsonView::Str(text@)));
        assert(delta.field("content"@) is None);
        assert(delta.field("tool_calls"@) is None);
        let (a, start) = started(st);
        let (b, events) = on_thinking(a, text@);
        let none = Seq::<SseView>::empty();
        assert(start + events + none + none =~= start + events);
    }
}

} // verus!
