//! The stream of a Responses API request: chat deltas in, Responses events out.

use crate::citation;
use crate::ir::response;
use crate::ir::response::Usage;
use crate::ir::stream::StreamDelta;
use crate::json;
use crate::json::{entry, object, Json, JsonView};
use crate::openai::annotations;
use crate::openai::annotations::merged_annotations;
use crate::openai::responses;
use crate::openai::responses::{
    EventView, ItemView, PartView, ResponsesContentPart, ResponsesOutputItem,
    ResponsesStreamEvent,
};
use crate::text;
use crate::text::push_decimal;
use vstd::prelude::*;
use vstd::string::*;

verus! {

/// State of a streamed response between two deltas.
pub struct ResponsesStream {
    pub resp_id: String,
    /// Sequence number of the next event.
    pub seq: u64,
    /// Text of the open message.
    pub content_text: String,
    /// Argument text received so far.
    pub tool_args: String,
    pub current_tool_name: Option<String>,
    pub current_tool_call_id: Option<String>,
    /// Position of the current output item.
    pub output_index: usize,
    pub message_item_id: String,
    pub fc_item_id: Option<String>,
    pub message_started: bool,
    pub fc_started: bool,
    pub fc_done: bool,
    /// Output items that are closed, in order.
    pub completed_items: Vec<ResponsesOutputItem>,
    pub final_usage: Option<Json>,
    pub finish_reason: String,
    pub refusal_text: Option<String>,
}

/// What a [`ResponsesStream`] says.
pub struct StreamView {
    pub resp_id: Seq<char>,
    pub seq: u64,
    pub content_text: Seq<char>,
    pub tool_args: Seq<char>,
    pub tool_name: Option<Seq<char>>,
    pub tool_call_id: Option<Seq<char>>,
    pub output_index: usize,
    pub message_item_id: Seq<char>,
    pub fc_item_id: Option<Seq<char>>,
    pub message_started: bool,
    pub fc_started: bool,
    pub fc_done: bool,
    pub completed: Seq<ItemView>,
    pub usage: Option<JsonView>,
    pub finish_reason: Seq<char>,
    pub refusal: Option<Seq<char>>,
}

impl View for ResponsesStream {
    type V = StreamView;

    open spec fn view(&self) -> StreamView {
        StreamView {
            resp_id: self.resp_id@,
            seq: self.seq,
            content_text: self.content_text@,
            tool_args: self.tool_args@,
            tool_name: text::opt_text(self.current_tool_name),
            tool_call_id: text::opt_text(self.current_tool_call_id),
            output_index: self.output_index,
            message_item_id: self.message_item_id@,
            fc_item_id: text::opt_text(self.fc_item_id),
            message_started: self.message_started,
            fc_started: self.fc_started,
            fc_done: self.fc_done,
            completed: responses::item_views(self.completed_items@),
            usage: json::opt_view(self.final_usage),
            finish_reason: self.finish_reason@,
            refusal: text::opt_text(self.refusal_text),
        }
    }
}

/// The id of the item at position `index`: prefix, response id and position.
pub open spec fn item_id(prefix: Seq<char>, resp_id: Seq<char>, index: usize) -> Seq<char> {
    prefix + resp_id + "_"@ + text::decimal(index as nat)
}

/// The function call item of a state.
pub open spec fn fc_item(st: StreamView, id: Seq<char>, args: Seq<char>, status: Seq<char>) -> ItemView {
    ItemView::FunctionCall {
        id,
        call_id: text::or_empty(st.tool_call_id),
        name: text::or_empty(st.tool_name),
        arguments: args,
        status,
    }
}

/// The finished message item with id `id` and text `t`.
pub open spec fn done_message(id: Seq<char>, t: Seq<char>) -> ItemView {
    ItemView::Message {
        id,
        status: "completed"@,
        role: "assistant"@,
        content: seq![
            PartView {
                text: t,
                annotations: annotations::unless_empty(citation::all_citations(t)),
            },
        ],
    }
}

/// The two events that close the function call with id `id`.
pub open spec fn fc_done_events(st: StreamView, id: Seq<char>) -> Seq<EventView> {
    seq![
        EventView::ArgsDone {
            seq: st.seq,
            item_id: id,
            index: st.output_index,
            arguments: st.tool_args,
        },
        EventView::ItemDone {
            seq: (st.seq + 1) as u64,
            index: st.output_index,
            item: fc_item(st, id, st.tool_args, "completed"@),
        },
    ]
}

/// The two events that close the open message.
pub open spec fn message_done_events(st: StreamView) -> Seq<EventView> {
    seq![
        EventView::TextDone {
            seq: st.seq,
            item_id: st.message_item_id,
            index: st.output_index,
            content_index: 0,
            text: st.content_text,
        },
        EventView::ItemDone {
            seq: (st.seq + 1) as u64,
            index: st.output_index,
            item: done_message(st.message_item_id, st.content_text),
        },
    ]
}

/// Closes an open function call before text: it is reported finished, and the
/// text to come begins a new message one position further.
pub open spec fn close_call(st: StreamView) -> (StreamView, Seq<EventView>) {
    if st.fc_started && !st.fc_done {
        let index = (st.output_index + 1) as usize;
        let closed = StreamView {
            output_index: index,
            message_item_id: item_id("msg_"@, st.resp_id, index),
            fc_done: true,
            content_text: Seq::empty(),
            ..st
        };
        match st.fc_item_id {
            Some(id) => (
                StreamView {
                    seq: (st.seq + 2) as u64,
                    completed: st.completed.push(fc_item(st, id, st.tool_args, "completed"@)),
                    ..closed
                },
                fc_done_events(st, id),
            ),
            None => (closed, Seq::empty()),
        }
    } else {
        (st, Seq::empty())
    }
}

/// Opens a message unless one is open.
pub open spec fn open_message(st: StreamView) -> (StreamView, Seq<EventView>) {
    if st.message_started {
        (st, Seq::empty())
    } else {
        (
            StreamView { message_started: true, seq: (st.seq + 2) as u64, ..st },
            seq![
                EventView::ItemAdded {
                    seq: st.seq,
                    index: st.output_index,
                    item: ItemView::Message {
                        id: st.message_item_id,
                        status: "in_progress"@,
                        role: "assistant"@,
                        content: Seq::empty(),
                    },
                },
                EventView::PartAdded {
                    seq: (st.seq + 1) as u64,
                    item_id: st.message_item_id,
                    index: st.output_index,
                    content_index: 0,
                    part: PartView { text: Seq::empty(), annotations: None },
                },
            ],
        )
    }
}

/// A text fragment of the open message.
pub open spec fn add_text(st: StreamView, t: Seq<char>) -> (StreamView, Seq<EventView>) {
    (
        StreamView { content_text: st.content_text + t, seq: (st.seq + 1) as u64, ..st },
        seq![
            EventView::TextDelta {
                seq: st.seq,
                item_id: st.message_item_id,
                index: st.output_index,
                content_index: 0,
                delta: t,
            },
        ],
    )
}

/// Text arrives: an open function call is closed, a message is opened unless
/// one is open, and the text is added to it.
pub open spec fn on_text(st: StreamView, t: Seq<char>) -> (StreamView, Seq<EventView>) {
    let (a, closed) = close_call(st);
    let (b, opened) = open_message(a);
    let (c, added) = add_text(b, t);
    (c, closed + opened + added)
}

/// Closes an open message before a function call, which takes the next
/// position.
pub open spec fn close_message(st: StreamView) -> (StreamView, Seq<EventView>) {
    if st.message_started {
        (
            StreamView {
                seq: (st.seq + 2) as u64,
                completed: st.completed.push(done_message(st.message_item_id, st.content_text)),
                output_index: (st.output_index + 1) as usize,
                message_started: false,
                content_text: Seq::empty(),
                ..st
            },
            message_done_events(st),
        )
    } else {
        (st, Seq::empty())
    }
}

/// Opens the function call item.
pub open spec fn open_call(st: StreamView) -> (StreamView, Seq<EventView>) {
    let id = item_id("fc_"@, st.resp_id, st.output_index);
    (
        StreamView { fc_item_id: Some(id), fc_started: true, seq: (st.seq + 1) as u64, ..st },
        seq![
            EventView::ItemAdded {
                seq: st.seq,
                index: st.output_index,
                item: fc_item(st, id, Seq::empty(), "in_progress"@),
            },
        ],
    )
}

/// A tool call starts: its id and name are kept, and the first one of the
/// stream opens a function call item.
pub open spec fn on_call(st: StreamView, id: Seq<char>, name: Seq<char>) -> (
    StreamView,
    Seq<EventView>,
) {
    let named = StreamView { tool_name: Some(name), tool_call_id: Some(id), ..st };
    if st.fc_started {
        (named, Seq::empty())
    } else {
        let (a, closed) = close_message(named);
        let (b, opened) = open_call(a);
        (b, closed + opened)
    }
}

/// Argument text of the tool call arrives.
pub open spec fn on_args(st: StreamView, fragment: Seq<char>) -> (StreamView, Seq<EventView>) {
    let added = StreamView { tool_args: st.tool_args + fragment, ..st };
    match st.fc_item_id {
        Some(id) => (
            StreamView { seq: (st.seq + 1) as u64, ..added },
            seq![
                EventView::ArgsDelta {
                    seq: st.seq,
                    item_id: id,
                    index: st.output_index,
                    delta: fragment,
                },
            ],
        ),
        None => (added, Seq::empty()),
    }
}

/// A refusal arrives.
pub open spec fn on_refusal(st: StreamView, t: Seq<char>) -> (StreamView, Seq<EventView>) {
    (
        StreamView { refusal: Some(t), seq: (st.seq + 1) as u64, ..st },
        seq![
            EventView::RefusalDelta {
                seq: st.seq,
                item_id: st.message_item_id,
                index: st.output_index,
                content_index: 0,
                delta: t,
            },
        ],
    )
}

/// The usage report that goes with a finish.
pub open spec fn usage_json(u: Usage) -> JsonView {
    JsonView::Object(
        seq![
            ("prompt_tokens"@, JsonView::UInt(u.prompt_tokens as u64)),
            ("completion_tokens"@, JsonView::UInt(u.completion_tokens as u64)),
            ("total_tokens"@, JsonView::UInt((u.prompt_tokens + u.completion_tokens) as u64)),
            (
                "prompt_tokens_details"@,
                JsonView::Object(
                    seq![
                        ("cached_tokens"@, JsonView::UInt(u.cached_prompt_tokens as u64)),
                        ("audio_tokens"@, JsonView::UInt(0)),
                    ],
                ),
            ),
            (
                "completion_tokens_details"@,
                JsonView::Object(
                    seq![
                        ("reasoning_tokens"@, JsonView::UInt(u.reasoning_tokens as u64)),
                        ("audio_tokens"@, JsonView::UInt(0)),
                        ("accepted_prediction_tokens"@, JsonView::UInt(0)),
                        ("rejected_prediction_tokens"@, JsonView::UInt(0)),
                    ],
                ),
            ),
        ],
    )
}

/// The next state and the events of one delta. Reasoning, errors and empty
/// fragments have no event.
pub open spec fn step(st: StreamView, d: StreamDelta) -> (StreamView, Seq<EventView>) {
    match d {
        StreamDelta::Content { text, .. } => if text@.len() > 0 {
            on_text(st, text@)
        } else {
            (st, Seq::empty())
        },
        StreamDelta::Reasoning { .. } => (st, Seq::empty()),
        StreamDelta::ToolCallStart { id, name, .. } => on_call(st, id@, name@),
        StreamDelta::ToolCallArgs { fragment, .. } => if fragment@.len() > 0 {
            on_args(st, fragment@)
        } else {
            (st, Seq::empty())
        },
        StreamDelta::Refusal { text } => if text@.len() > 0 {
            on_refusal(st, text@)
        } else {
            (st, Seq::empty())
        },
        StreamDelta::Finish { reason, usage, .. } => (
            StreamView {
                finish_reason: response::finish_wire(reason@),
                usage: Some(usage_json(usage)),
                ..st
            },
            Seq::empty(),
        ),
        StreamDelta::Error { .. } => (st, Seq::empty()),
    }
}

/// What is still open when the deltas end: the message, or the function call.
pub open spec fn close_open(st: StreamView) -> (StreamView, Seq<EventView>) {
    let (a, message) = if st.message_started {
        (
            StreamView {
                seq: (st.seq + 2) as u64,
                completed: st.completed.push(done_message(st.message_item_id, st.content_text)),
                message_started: false,
                ..st
            },
            message_done_events(st),
        )
    } else {
        (st, Seq::empty())
    };
    if a.fc_started && !a.fc_done {
        match a.fc_item_id {
            Some(id) => (
                StreamView {
                    seq: (a.seq + 2) as u64,
                    completed: a.completed.push(fc_item(a, id, a.tool_args, "completed"@)),
                    fc_done: true,
                    ..a
                },
                message + fc_done_events(a, id),
            ),
            None => (StreamView { fc_done: true, ..a }, message),
        }
    } else {
        (a, message)
    }
}

/// The state of a response before its first delta.
pub open spec fn fresh(resp_id: Seq<char>, seq: u64) -> StreamView {
    StreamView {
        resp_id,
        seq,
        content_text: Seq::empty(),
        tool_args: Seq::empty(),
        tool_name: None,
        tool_call_id: None,
        output_index: 0,
        message_item_id: item_id("msg_"@, resp_id, 0),
        fc_item_id: None,
        message_started: false,
        fc_started: false,
        fc_done: false,
        completed: Seq::empty(),
        usage: None,
        finish_reason: "stop"@,
        refusal: None,
    }
}

/// The id of the item at position `index`.
fn mint_item_id(prefix: &str, resp_id: &str, index: usize) -> (id: String)
    ensures
        id@ == item_id(prefix@, resp_id@, index),
{
    let mut id: String = prefix.to_owned();
    id.append(resp_id);
    id.append("_");
    push_decimal(&mut id, index as u64);
    id
}

/// The usage report that goes with a finish.
fn usage_report(u: &Usage) -> (j: Json)
    requires
        u.prompt_tokens + u.completion_tokens <= usize::MAX,
    ensures
        j@ == usage_json(*u),
{
    let prompt: Vec<(String, Json)> = vec![
        entry("cached_tokens", Json::UInt(u.cached_prompt_tokens as u64)),
        entry("audio_tokens", Json::UInt(0)),
    ];
    let completion: Vec<(String, Json)> = vec![
        entry("reasoning_tokens", Json::UInt(u.reasoning_tokens as u64)),
        entry("audio_tokens", Json::UInt(0)),
        entry("accepted_prediction_tokens", Json::UInt(0)),
        entry("rejected_prediction_tokens", Json::UInt(0)),
    ];
    let prompt_json = object(prompt);
    let completion_json = object(completion);
    let total: usize = u.prompt_tokens + u.completion_tokens;
    let all: Vec<(String, Json)> = vec![
        entry("prompt_tokens", Json::UInt(u.prompt_tokens as u64)),
        entry("completion_tokens", Json::UInt(u.completion_tokens as u64)),
        entry("total_tokens", Json::UInt(total as u64)),
        entry("prompt_tokens_details", prompt_json),
        entry("completion_tokens_details", completion_json),
    ];
    proof {
        let want = usage_json(*u)->Object_0;
        assert(json::entry_views(prompt@) =~= want[3].1->Object_0);
        assert(json::entry_views(completion@) =~= want[4].1->Object_0);
        assert(json::entry_views(all@) =~= want);
    }
    object(all)
}

impl ResponsesStream {
    /// A response with id `resp_id` whose next event has number `seq`.
    pub fn new(resp_id: String, seq: u64) -> (r: Self)
        ensures
            r@ == fresh(resp_id@, seq),
    {
        let message_item_id: String = mint_item_id("msg_", resp_id.as_str(), 0);
        let r = ResponsesStream {
            resp_id,
            seq,
            content_text: String::new(),
            tool_args: String::new(),
            current_tool_name: None,
            current_tool_call_id: None,
            output_index: 0,
            message_item_id,
            fc_item_id: None,
            message_started: false,
            fc_started: false,
            fc_done: false,
            completed_items: Vec::new(),
            final_usage: None,
            finish_reason: "stop".to_owned(),
            refusal_text: None,
        };
        assert(responses::item_views(r.completed_items@) =~= Seq::<ItemView>::empty());
        r
    }

    /// The function call item with id `id`.
    fn call_item(&self, id: &String, args: String, status: &'static str) -> (
        item: ResponsesOutputItem
    )
        ensures
            item@ == fc_item(self@, id@, args@, status@),
    {
        let call_id: String = match &self.current_tool_call_id {
            Some(s) => s.clone(),
            None => String::new(),
        };
        let name: String = match &self.current_tool_name {
            Some(s) => s.clone(),
            None => String::new(),
        };
        ResponsesOutputItem::FunctionCall {
            id: id.clone(),
            call_id,
            name,
            arguments: args,
            status,
        }
    }

    /// Reports the function call with id `id` finished.
    fn finish_call(&mut self, id: String, out: &mut Vec<ResponsesStreamEvent>)
        requires
            old(self).seq + 2 <= u64::MAX,
        ensures
            final(self)@ == (StreamView {
                seq: (old(self)@.seq + 2) as u64,
                completed: old(self)@.completed.push(
                    fc_item(old(self)@, id@, old(self)@.tool_args, "completed"@),
                ),
                ..old(self)@
            }),
            responses::event_views(final(out)@) == responses::event_views(old(out)@)
                + fc_done_events(old(self)@, id@),
    {
        let item = self.call_item(&id, self.tool_args.clone(), "completed");
        let first = ResponsesStreamEvent::FunctionCallArgumentsDone {
            sequence_number: self.seq,
            item_id: id,
            output_index: self.output_index,
            arguments: self.tool_args.clone(),
        };
        let copied = item.clone();
        let second = ResponsesStreamEvent::OutputItemDone {
            sequence_number: self.seq + 1,
            output_index: self.output_index,
            item: copied,
        };
        proof {
            responses::lemma_event_views_push(out@, first);
            responses::lemma_event_views_push(out@.push(first), second);
            responses::lemma_item_views_push(self.completed_items@, item);
        }
        out.push(first);
        out.push(second);
        self.completed_items.push(item);
        self.seq = self.seq + 2;
        assert(responses::event_views(out@) =~= responses::event_views(old(out)@) + fc_done_events(
            old(self)@,
            id@,
        ));
    }

    /// Reports the open message finished.
    fn finish_message(&mut self, out: &mut Vec<ResponsesStreamEvent>)
        requires
            old(self).seq + 2 <= u64::MAX,
        ensures
            final(self)@ == (StreamView {
                seq: (old(self)@.seq + 2) as u64,
                completed: old(self)@.completed.push(
                    done_message(old(self)@.message_item_id, old(self)@.content_text),
                ),
                message_started: false,
                ..old(self)@
            }),
            responses::event_views(final(out)@) == responses::event_views(old(out)@)
                + message_done_events(old(self)@),
    {
        let annotations = merged_annotations(self.content_text.as_str());
        let part = ResponsesContentPart::OutputText {
            text: self.content_text.clone(),
            annotations,
        };
        let content: Vec<ResponsesContentPart> = vec![part];
        let item = ResponsesOutputItem::Message {
            id: self.message_item_id.clone(),
            status: "completed",
            role: "assistant",
            content,
        };
        assert(item@ == done_message(self@.message_item_id, self@.content_text)) by {
            assert(responses::part_views(content@) =~= seq![part@]);
        }
        let first = ResponsesStreamEvent::OutputTextDone {
            sequence_number: self.seq,
            item_id: self.message_item_id.clone(),
            output_index: self.output_index,
            content_index: 0,
            text: self.content_text.clone(),
        };
        let copied = item.clone();
        let second = ResponsesStreamEvent::OutputItemDone {
            sequence_number: self.seq + 1,
            output_index: self.output_index,
            item: copied,
        };
        proof {
            responses::lemma_event_views_push(out@, first);
            responses::lemma_event_views_push(out@.push(first), second);
            responses::lemma_item_views_push(self.completed_items@, item);
        }
        out.push(first);
        out.push(second);
        self.completed_items.push(item);
        self.seq = self.seq + 2;
        self.message_started = false;
        assert(responses::event_views(out@) =~= responses::event_views(old(out)@)
            + message_done_events(old(self)@));
    }

    /// Text arrives.
    fn take_text(&mut self, delta: String, out: &mut Vec<ResponsesStreamEvent>)
        requires
            old(self).seq + 5 <= u64::MAX,
            old(self).output_index < usize::MAX,
        ensures
            final(self)@ == on_text(old(self)@, delta@).0,
            responses::event_views(final(out)@) == responses::event_views(old(out)@) + on_text(
                old(self)@,
                delta@,
            ).1,
    {
        let ghost start = self@;
        let ghost sent = responses::event_views(out@);
        if self.fc_started && !self.fc_done {
            if let Some(id) = &self.fc_item_id {
                let id: String = id.clone();
                self.finish_call(id, out);
            }
            self.output_index = self.output_index + 1;
            self.message_item_id = mint_item_id("msg_", self.resp_id.as_str(), self.output_index);
            self.fc_done = true;
            self.content_text = String::new();
        }
        let ghost after_close = self@;
        let ghost closed = close_call(start).1;
        assert(after_close == close_call(start).0);
        assert(responses::event_views(out@) =~= sent + closed);
        if !self.message_started {
            let content: Vec<ResponsesContentPart> = Vec::new();
            let item = ResponsesOutputItem::Message {
                id: self.message_item_id.clone(),
                status: "in_progress",
                role: "assistant",
                content,
            };
            assert(responses::part_views(content@) =~= Seq::<PartView>::empty());
            let first = ResponsesStreamEvent::OutputItemAdded {
                sequence_number: self.seq,
                output_index: self.output_index,
                item,
            };
            let second = ResponsesStreamEvent::ContentPartAdded {
                sequence_number: self.seq + 1,
                item_id: self.message_item_id.clone(),
                output_index: self.output_index,
                content_index: 0,
                part: ResponsesContentPart::OutputText { text: String::new(), annotations: None },
            };
            proof {
                responses::lemma_event_views_push(out@, first);
                responses::lemma_event_views_push(out@.push(first), second);
            }
            out.push(first);
            out.push(second);
            self.message_started = true;
            self.seq = self.seq + 2;
        }
        let ghost after_open = self@;
        let ghost opened = open_message(after_close).1;
        assert(after_open == open_message(after_close).0);
        assert(responses::event_views(out@) =~= sent + closed + opened);
        self.content_text.append(delta.as_str());
        let ev = ResponsesStreamEvent::OutputTextDelta {
            sequence_number: self.seq,
            item_id: self.message_item_id.clone(),
            output_index: self.output_index,
            content_index: 0,
            delta,
        };
        proof {
            responses::lemma_event_views_push(out@, ev);
        }
        out.push(ev);
        self.seq = self.seq + 1;
        assert(responses::event_views(out@) =~= sent + (closed + opened + add_text(
            after_open,
            delta@,
        ).1));
    }

    /// A tool call starts.
    fn take_call(&mut self, id: String, name: String, out: &mut Vec<ResponsesStreamEvent>)
        requires
            old(self).seq + 3 <= u64::MAX,
            old(self).output_index < usize::MAX,
        ensures
            final(self)@ == on_call(old(self)@, id@, name@).0,
            responses::event_views(final(out)@) == responses::event_views(old(out)@) + on_call(
                old(self)@,
                id@,
                name@,
            ).1,
    {
        let ghost sent = responses::event_views(out@);
        self.current_tool_name = Some(name);
        self.current_tool_call_id = Some(id);
        let ghost named = self@;
        if self.fc_started {
            assert(responses::event_views(out@) =~= sent + Seq::<EventView>::empty());
            return ;
        }
        if self.message_started {
            self.finish_message(out);
            self.output_index = self.output_index + 1;
            self.content_text = String::new();
        }
        let ghost after_close = self@;
        let ghost closed = close_message(named).1;
        assert(after_close == close_message(named).0);
        assert(responses::event_views(out@) =~= sent + closed);
        let fc_id: String = mint_item_id("fc_", self.resp_id.as_str(), self.output_index);
        let item = self.call_item(&fc_id, String::new(), "in_progress");
        let ev = ResponsesStreamEvent::OutputItemAdded {
            sequence_number: self.seq,
            output_index: self.output_index,
            item,
        };
        proof {
            responses::lemma_event_views_push(out@, ev);
        }
        out.push(ev);
        self.fc_item_id = Some(fc_id);
        self.seq = self.seq + 1;
        self.fc_started = true;
        assert(responses::event_views(out@) =~= sent + (closed + open_call(after_close).1));
    }

    /// Takes one delta of the generation core and appends the events it leads
    /// to.
    pub fn on_delta(&mut self, delta: StreamDelta, out: &mut Vec<ResponsesStreamEvent>)
        requires
            old(self).seq + 5 <= u64::MAX,
            old(self).output_index < usize::MAX,
            delta matches StreamDelta::Finish { usage, .. } ==> usage.prompt_tokens
                + usage.completion_tokens <= usize::MAX,
        ensures
            final(self)@ == step(old(self)@, delta).0,
            responses::event_views(final(out)@) == responses::event_views(old(out)@) + step(
                old(self)@,
                delta,
            ).1,
    {
        let ghost sent = responses::event_views(out@);
        assert(sent =~= sent + Seq::<EventView>::empty());
        match delta {
            StreamDelta::Content { text, .. } => {
                if !text.as_str().is_empty() {
                    self.take_text(text, out);
                }
            },
            StreamDelta::Reasoning { .. } => {},
            StreamDelta::ToolCallStart { id, name, .. } => {
                self.take_call(id, name, out);
            },
            StreamDelta::ToolCallArgs { fragment, .. } => {
                if !fragment.as_str().is_empty() {
                    self.tool_args.append(fragment.as_str());
                    if let Some(id) = &self.fc_item_id {
                        let ev = ResponsesStreamEvent::FunctionCallArgumentsDelta {
                            sequence_number: self.seq,
                            item_id: id.clone(),
                            output_index: self.output_index,
                            delta: fragment,
                        };
                        proof {
                            responses::lemma_event_views_push(out@, ev);
                        }
                        out.push(ev);
                        self.seq = self.seq + 1;
                        assert(responses::event_views(out@) =~= sent + seq![ev@]);
                    }
                }
            },
            StreamDelta::Refusal { text } => {
                if !text.as_str().is_empty() {
                    self.refusal_text = Some(text.clone());
                    let ev = ResponsesStreamEvent::RefusalDelta {
                        sequence_number: self.seq,
                        item_id: self.message_item_id.clone(),
                        output_index: self.output_index,
                        content_index: 0,
                        delta: text,
                    };
                    proof {
                        responses::lemma_event_views_push(out@, ev);
                    }
                    out.push(ev);
                    self.seq = self.seq + 1;
                    assert(responses::event_views(out@) =~= sent + seq![ev@]);
                }
            },
            StreamDelta::Finish { reason, usage, .. } => {
                self.finish_reason = reason.as_wire().to_owned();
                self.final_usage = Some(usage_report(&usage));
            },
            StreamDelta::Error { .. } => {},
        }
    }

    /// Closes what is still open when the deltas have ended.
    pub fn close_open_items(&mut self, out: &mut Vec<ResponsesStreamEvent>)
        requires
            old(self).seq + 4 <= u64::MAX,
        ensures
            final(self)@ == close_open(old(self)@).0,
            responses::event_views(final(out)@) == responses::event_views(old(out)@) + close_open(
                old(self)@,
            ).1,
    {
        let ghost sent = responses::event_views(out@);
        let ghost start = self@;
        assert(sent =~= sent + Seq::<EventView>::empty());
        if self.message_started {
            self.finish_message(out);
        }
        let ghost message = if start.message_started {
            message_done_events(start)
        } else {
            Seq::empty()
        };
        assert(responses::event_views(out@) =~= sent + message);
        let ghost between = self@;
        if self.fc_started && !self.fc_done {
            if let Some(id) = &self.fc_item_id {
                let id: String = id.clone();
                self.finish_call(id, out);
                assert(responses::event_views(out@) =~= sent + (message + fc_done_events(
                    between,
                    id@,
                )));
            }
            self.fc_done = true;
        }
    }
}

// ── laws ──

/// The state and all events after a run of deltas.
pub open spec fn run(st: StreamView, deltas: Seq<StreamDelta>) -> (StreamView, Seq<EventView>)
    decreases deltas.len(),
{
    if deltas.len() == 0 {
        (st, Seq::empty())
    } else {
        let (before, sent) = run(st, deltas.drop_last());
        let (after, events) = step(before, deltas.last());
        (after, sent + events)
    }
}

/// The events are numbered one by one from `first` on.
pub open spec fn numbered_from(events: Seq<EventView>, first: int) -> bool {
    forall|k: int| 0 <= k < events.len() ==> (#[trigger] events[k]).seq() == first + k
}

/// The items that the events report finished, in order.
pub open spec fn finished_items(events: Seq<EventView>) -> Seq<ItemView>
    decreases events.len(),
{
    if events.len() == 0 {
        Seq::empty()
    } else {
        let before = finished_items(events.drop_last());
        match events.last() {
            EventView::ItemDone { item, .. } => before.push(item),
            _ => before,
        }
    }
}

/// How many items the events open.
pub open spec fn opened_items(events: Seq<EventView>) -> nat
    decreases events.len(),
{
    if events.len() == 0 {
        0
    } else {
        opened_items(events.drop_last()) + if events.last() is ItemAdded {
            1nat
        } else {
            0nat
        }
    }
}

/// How many items are open in a state.
pub open spec fn open_count(st: StreamView) -> nat {
    (if st.message_started {
        1nat
    } else {
        0nat
    }) + (if st.fc_started && !st.fc_done {
        1nat
    } else {
        0nat
    })
}

/// A function call item that was started has an id.
pub open spec fn stream_ok(st: StreamView) -> bool {
    st.fc_started ==> st.fc_item_id is Some
}

proof fn lemma_events_add(a: Seq<EventView>, b: Seq<EventView>)
    ensures
        finished_items(a + b) == finished_items(a) + finished_items(b),
        opened_items(a + b) == opened_items(a) + opened_items(b),
    decreases b.len(),
{
    if b.len() == 0 {
        assert(a + b =~= a);
        assert(finished_items(a) + finished_items(b) =~= finished_items(a));
    } else {
        lemma_events_add(a, b.drop_last());
        assert((a + b).drop_last() =~= a + b.drop_last());
        assert((a + b).last() == b.last());
        assert(finished_items(a + b) =~= finished_items(a) + finished_items(b));
    }
}

proof fn lemma_one_event(e: EventView)
    ensures
        finished_items(seq![e]) == (match e {
            EventView::ItemDone { item, .. } => seq![item],
            _ => Seq::<ItemView>::empty(),
        }),
        opened_items(seq![e]) == (if e is ItemAdded {
            1nat
        } else {
            0nat
        }),
{
    assert(seq![e].drop_last() =~= Seq::<EventView>::empty());
    assert(finished_items(Seq::<EventView>::empty()) =~= Seq::<ItemView>::empty());
    assert(opened_items(Seq::<EventView>::empty()) == 0);
    assert(seq![e].last() == e);
    assert(finished_items(seq![e]) =~= (match e {
        EventView::ItemDone { item, .. } => seq![item],
        _ => Seq::<ItemView>::empty(),
    }));
}

proof fn lemma_two_events(e: EventView, f: EventView)
    ensures
        finished_items(seq![e, f]) == finished_items(seq![e]) + finished_items(seq![f]),
        opened_items(seq![e, f]) == opened_items(seq![e]) + opened_items(seq![f]),
{
    lemma_events_add(seq![e], seq![f]);
    assert(seq![e] + seq![f] =~= seq![e, f]);
}

/// What one transition `from` -> `to` with `events` keeps: numbering, the list
/// of finished items, and the count of open ones.
pub open spec fn accounts(from: StreamView, to: StreamView, events: Seq<EventView>) -> bool {
    &&& numbered_from(events, from.seq as int)
    &&& to.seq == from.seq + events.len()
    &&& to.completed == from.completed + finished_items(events)
    &&& open_count(to) + finished_items(events).len() == open_count(from) + opened_items(events)
    &&& stream_ok(to)
}

proof fn lemma_accounts_nothing(st: StreamView, to: StreamView)
    requires
        stream_ok(st),
        to == (StreamView {
            tool_args: to.tool_args,
            tool_name: to.tool_name,
            tool_call_id: to.tool_call_id,
            usage: to.usage,
            finish_reason: to.finish_reason,
            ..st
        }),
    ensures
        accounts(st, to, Seq::empty()),
{
    assert(st.completed + finished_items(Seq::<EventView>::empty()) =~= st.completed);
}

proof fn lemma_accounts_add(
    a: StreamView,
    b: StreamView,
    c: StreamView,
    e: Seq<EventView>,
    f: Seq<EventView>,
)
    requires
        accounts(a, b, e),
        accounts(b, c, f),
    ensures
        accounts(a, c, e + f),
{
    lemma_events_add(e, f);
    assert(a.completed + finished_items(e) + finished_items(f) =~= a.completed + finished_items(
        e + f,
    ));
}

proof fn lemma_parts_account(st: StreamView, t: Seq<char>)
    requires
        stream_ok(st),
        st.seq + 5 <= u64::MAX,
    ensures
        accounts(st, close_call(st).0, close_call(st).1),
        accounts(st, close_message(st).0, close_message(st).1),
        accounts(st, on_args(st, t).0, on_args(st, t).1),
        accounts(st, on_refusal(st, t).0, on_refusal(st, t).1),
{
    lemma_accounts_nothing(st, st);
    // close_call
    if st.fc_started && !st.fc_done {
        let id = st.fc_item_id->0;
        let ev = fc_done_events(st, id);
        lemma_two_events(ev[0], ev[1]);
        lemma_one_event(ev[0]);
        lemma_one_event(ev[1]);
        assert(ev =~= seq![ev[0], ev[1]]);
        assert(finished_items(ev) =~= seq![fc_item(st, id, st.tool_args, "completed"@)]);
        assert(close_call(st).0.completed =~= st.completed + finished_items(ev));
    }
    // close_message
    if st.message_started {
        let ev = message_done_events(st);
        lemma_two_events(ev[0], ev[1]);
        lemma_one_event(ev[0]);
        lemma_one_event(ev[1]);
        assert(ev =~= seq![ev[0], ev[1]]);
        assert(finished_items(ev) =~= seq![done_message(st.message_item_id, st.content_text)]);
        assert(close_message(st).0.completed =~= st.completed + finished_items(ev));
    }
    // on_args
    if st.fc_item_id is Some {
        let ev = on_args(st, t).1;
        lemma_one_event(ev[0]);
        assert(ev =~= seq![ev[0]]);
        assert(st.completed =~= st.completed + finished_items(ev));
    } else {
        lemma_accounts_nothing(st, on_args(st, t).0);
    }
    // on_refusal
    let ev = on_refusal(st, t).1;
    lemma_one_event(ev[0]);
    assert(ev =~= seq![ev[0]]);
    assert(st.completed =~= st.completed + finished_items(ev));
}

/// A function call is only ever finished after it was started.
pub open spec fn call_order_ok(st: StreamView) -> bool {
    st.fc_done ==> st.fc_started
}

/// One delta numbers its events one by one from the state's number on, keeps
/// the list of finished items equal to what the events report, and opens and
/// closes items in balance. At most five events come of one delta.
pub proof fn step_accounts(st: StreamView, d: StreamDelta)
    requires
        stream_ok(st),
        call_order_ok(st),
        st.seq + 5 <= u64::MAX,
    ensures
        accounts(st, step(st, d).0, step(st, d).1),
        call_order_ok(step(st, d).0),
        step(st, d).1.len() <= 5,
{
    match d {
        StreamDelta::Content { text, .. } => {
            let t = text@;
            if t.len() > 0 {
                let (a, closed) = close_call(st);
                let (b, opened) = open_message(a);
                let (c, added) = add_text(b, t);
                lemma_parts_account(st, t);
                lemma_open_message_accounts(a);
                lemma_add_text_accounts(b, t);
                lemma_accounts_add(st, a, b, closed, opened);
                lemma_accounts_add(st, b, c, closed + opened, added);
            } else {
                lemma_accounts_nothing(st, st);
            }
        },
        StreamDelta::Reasoning { .. } => {
            lemma_accounts_nothing(st, st);
        },
        StreamDelta::ToolCallStart { id, name, .. } => {
            let named = StreamView { tool_name: Some(name@), tool_call_id: Some(id@), ..st };
            lemma_accounts_nothing(st, named);
            if !st.fc_started {
                lemma_parts_account(named, Seq::empty());
                let (a, closed) = close_message(named);
                lemma_open_call_accounts(a);
                lemma_accounts_add(named, a, open_call(a).0, closed, open_call(a).1);
                lemma_accounts_add(
                    st,
                    named,
                    open_call(a).0,
                    Seq::empty(),
                    closed + open_call(a).1,
                );
                assert(Seq::<EventView>::empty() + (closed + open_call(a).1) =~= closed + open_call(
                    a,
                ).1);
            }
        },
        StreamDelta::ToolCallArgs { fragment, .. } => {
            if fragment@.len() > 0 {
                lemma_parts_account(st, fragment@);
            } else {
                lemma_accounts_nothing(st, st);
            }
        },
        StreamDelta::Refusal { text } => {
            if text@.len() > 0 {
                lemma_parts_account(st, text@);
            } else {
                lemma_accounts_nothing(st, st);
            }
        },
        StreamDelta::Finish { .. } => {
            lemma_accounts_nothing(st, step(st, d).0);
        },
        StreamDelta::Error { .. } => {
            lemma_accounts_nothing(st, st);
        },
    }
}

proof fn lemma_open_message_accounts(st: StreamView)
    requires
        stream_ok(st),
        st.seq + 2 <= u64::MAX,
    ensures
        accounts(st, open_message(st).0, open_message(st).1),
{
    if st.message_started {
        lemma_accounts_nothing(st, st);
    } else {
        let ev = open_message(st).1;
        lemma_two_events(ev[0], ev[1]);
        lemma_one_event(ev[0]);
        lemma_one_event(ev[1]);
        assert(ev =~= seq![ev[0], ev[1]]);
        assert(finished_items(ev) =~= Seq::<ItemView>::empty());
        assert(st.completed =~= st.completed + finished_items(ev));
    }
}

proof fn lemma_add_text_accounts(st: StreamView, t: Seq<char>)
    requires
        stream_ok(st),
        st.seq + 1 <= u64::MAX,
    ensures
        accounts(st, add_text(st, t).0, add_text(st, t).1),
{
    let ev = add_text(st, t).1;
    lemma_one_event(ev[0]);
    assert(ev =~= seq![ev[0]]);
    assert(st.completed =~= st.completed + finished_items(ev));
}

proof fn lemma_open_call_accounts(st: StreamView)
    requires
        stream_ok(st),
        !st.fc_started,
        !st.fc_done,
        st.seq + 1 <= u64::MAX,
    ensures
        accounts(st, open_call(st).0, open_call(st).1),
{
    let ev = open_call(st).1;
    lemma_one_event(ev[0]);
    assert(ev =~= seq![ev[0]]);
    assert(st.completed =~= st.completed + finished_items(ev));
}

/// Over any run of deltas from the start of a response, events are numbered
/// one by one, the finished items are those that the events report finished,
/// and the items that are open are those that were opened and not finished.
pub proof fn run_accounts(resp_id: Seq<char>, seq: u64, deltas: Seq<StreamDelta>)
    requires
        seq + 5 * deltas.len() <= u64::MAX,
    ensures
        accounts(
            fresh(resp_id, seq),
            run(fresh(resp_id, seq), deltas).0,
            run(fresh(resp_id, seq), deltas).1,
        ),
        call_order_ok(run(fresh(resp_id, seq), deltas).0),
        run(fresh(resp_id, seq), deltas).1.len() <= 5 * deltas.len(),
    decreases deltas.len(),
{
    let st = fresh(resp_id, seq);
    if deltas.len() == 0 {
        lemma_accounts_nothing(st, st);
    } else {
        run_accounts(resp_id, seq, deltas.drop_last());
        let (before, sent) = run(st, deltas.drop_last());
        step_accounts(before, deltas.last());
        lemma_accounts_add(
            st,
            before,
            step(before, deltas.last()).0,
            sent,
            step(before, deltas.last()).1,
        );
    }
}

/// The state with its open message finished where it stands.
spec fn message_finished(st: StreamView) -> (StreamView, Seq<EventView>) {
    if st.message_started {
        (
            StreamView {
                seq: (st.seq + 2) as u64,
                completed: st.completed.push(done_message(st.message_item_id, st.content_text)),
                message_started: false,
                ..st
            },
            message_done_events(st),
        )
    } else {
        (st, Seq::empty())
    }
}

proof fn lemma_message_finished_accounts(st: StreamView)
    requires
        stream_ok(st),
        st.seq + 2 <= u64::MAX,
    ensures
        accounts(st, message_finished(st).0, message_finished(st).1),
{
    if st.message_started {
        let ev = message_done_events(st);
        lemma_two_events(ev[0], ev[1]);
        lemma_one_event(ev[0]);
        lemma_one_event(ev[1]);
        assert(ev =~= seq![ev[0], ev[1]]);
        assert(finished_items(ev) =~= seq![done_message(st.message_item_id, st.content_text)]);
        assert(message_finished(st).0.completed =~= st.completed + finished_items(ev));
    } else {
        lemma_accounts_nothing(st, st);
    }
}

proof fn lemma_close_open_accounts(st: StreamView)
    requires
        stream_ok(st),
        st.seq + 4 <= u64::MAX,
    ensures
        accounts(st, close_open(st).0, close_open(st).1),
        open_count(close_open(st).0) == 0,
{
    let (a, message) = message_finished(st);
    let (end, closing) = close_open(st);
    lemma_message_finished_accounts(st);
    if a.fc_started && !a.fc_done {
        let id = a.fc_item_id->0;
        let ev = fc_done_events(a, id);
        lemma_two_events(ev[0], ev[1]);
        lemma_one_event(ev[0]);
        lemma_one_event(ev[1]);
        assert(ev =~= seq![ev[0], ev[1]]);
        assert(finished_items(ev) =~= seq![fc_item(a, id, a.tool_args, "completed"@)]);
        assert(end.completed =~= a.completed + finished_items(ev));
        assert(accounts(a, end, ev));
        lemma_accounts_add(st, a, end, message, ev);
    }
}

/// A whole response, closed at its end, finishes every item that it opened: as
/// many items are reported finished as were reported added, and the list of
/// finished items holds exactly those, in order.
pub proof fn closed_response_finishes_every_item(
    resp_id: Seq<char>,
    seq: u64,
    deltas: Seq<StreamDelta>,
)
    requires
        seq + 5 * deltas.len() + 4 <= u64::MAX,
    ensures
        ({
            let (st, sent) = run(fresh(resp_id, seq), deltas);
            let (end, closing) = close_open(st);
            let events = sent + closing;
            &&& numbered_from(events, seq as int)
            &&& end.completed == finished_items(events)
            &&& opened_items(events) == finished_items(events).len()
        }),
{
    run_accounts(resp_id, seq, deltas);
    let first = fresh(resp_id, seq);
    let (st, sent) = run(first, deltas);
    let (end, closing) = close_open(st);
    lemma_close_open_accounts(st);
    lemma_accounts_add(first, st, end, sent, closing);
    assert(first.completed + finished_items(sent + closing) =~= finished_items(sent + closing));
}

/// The finished item in place `k` of a response carries its place in its id.
pub open spec fn is_numbered(item: ItemView, resp_id: Seq<char>, k: int) -> bool {
    match item {
        ItemView::Message { id, .. } => id == item_id("msg_"@, resp_id, k as usize),
        ItemView::FunctionCall { id, .. } => id == item_id("fc_"@, resp_id, k as usize),
    }
}

/// Items are finished at the index where they were opened, and no two at the
/// same: the next index is the number of finished items.
pub open spec fn in_place(st: StreamView) -> bool {
    &&& st.output_index == st.completed.len()
    &&& st.completed.len() <= 3
    &&& forall|k: int|
        0 <= k < st.completed.len() ==> is_numbered(#[trigger] st.completed[k], st.resp_id, k)
    &&& if !st.fc_started {
        &&& st.completed.len() == 0
        &&& !st.fc_done
        &&& st.fc_item_id is None
        &&& st.message_item_id == item_id("msg_"@, st.resp_id, st.output_index)
    } else if !st.fc_done {
        &&& st.completed.len() <= 1
        &&& !st.message_started
        &&& st.fc_item_id == Some(item_id("fc_"@, st.resp_id, st.output_index))
    } else {
        &&& st.completed.len() <= 2
        &&& st.message_item_id == item_id("msg_"@, st.resp_id, st.output_index)
    }
}

pub(crate) proof fn lemma_step_in_place(st: StreamView, d: StreamDelta)
    requires
        in_place(st),
    ensures
        in_place(step(st, d).0),
        step(st, d).0.resp_id == st.resp_id,
{
    match d {
        StreamDelta::Content { text, .. } => {
            if text@.len() > 0 {
                let (a, _) = close_call(st);
                assert(in_place(a));
                let (b, _) = open_message(a);
                assert(in_place(b));
                assert(in_place(add_text(b, text@).0));
            }
        },
        StreamDelta::ToolCallStart { id, name, .. } => {
            if !st.fc_started {
                let named = StreamView { tool_name: Some(name@), tool_call_id: Some(id@), ..st };
                let (a, _) = close_message(named);
                assert(in_place(open_call(a).0));
            }
        },
        _ => {},
    }
}

proof fn lemma_run_in_place(resp_id: Seq<char>, seq: u64, deltas: Seq<StreamDelta>)
    ensures
        in_place(run(fresh(resp_id, seq), deltas).0),
        run(fresh(resp_id, seq), deltas).0.resp_id == resp_id,
    decreases deltas.len(),
{
    if deltas.len() > 0 {
        lemma_run_in_place(resp_id, seq, deltas.drop_last());
        lemma_step_in_place(run(fresh(resp_id, seq), deltas.drop_last()).0, deltas.last());
    }
}

/// Every item of a response has an id of its own: the finished item in place
/// `k` is numbered `k`, also when text follows a function call. A response
/// finishes at most three items.
pub proof fn finished_items_are_numbered(resp_id: Seq<char>, seq: u64, deltas: Seq<StreamDelta>)
    ensures
        ({
            let end = close_open(run(fresh(resp_id, seq), deltas).0).0;
            &&& end.completed.len() <= 3
            &&& forall|k: int|
                0 <= k < end.completed.len() ==> is_numbered(
                    #[trigger] end.completed[k],
                    resp_id,
                    k,
                )
        }),
{
    lemma_run_in_place(resp_id, seq, deltas);
    let st = run(fresh(resp_id, seq), deltas).0;
    let a = message_finished(st).0;
    let end = close_open(st).0;
    if st.message_started {
        assert(is_numbered(a.completed[st.completed.len() as int], resp_id, st.completed.len() as int));
        assert(end == a);
    }
    assert forall|k: int| 0 <= k < end.completed.len() implies is_numbered(
        #[trigger] end.completed[k],
        resp_id,
        k,
    ) by {
        if k < st.completed.len() {
            assert(end.completed[k] == st.completed[k]);
        }
    }
}

} // verus!
