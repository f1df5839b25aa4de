//! Types of the Responses API.

use crate::api::chat::echo;
use crate::citation::CitationView;
use crate::json;
use crate::json::{Json, JsonView};
use crate::openai::annotations;
use crate::openai::annotations::{copy_annotations, Annotation};
use vstd::prelude::*;

verus! {

/// Where prompt tokens came from.
#[derive(Debug, Clone, Copy, PartialEq, Eq, Structural)]
pub struct PromptTokensDetails {
    pub cached_tokens: usize,
    pub audio_tokens: usize,
}

/// What completion tokens were spent on.
#[derive(Debug, Clone, Copy, PartialEq, Eq, Structural)]
pub struct CompletionTokensDetails {
    pub reasoning_tokens: usize,
    pub audio_tokens: usize,
    pub accepted_prediction_tokens: usize,
    pub rejected_prediction_tokens: usize,
}

/// Token accounting of a response.
#[derive(Debug, Clone, Copy, PartialEq, Eq, Structural)]
pub struct ResponsesUsage {
    pub input_tokens: usize,
    pub input_tokens_details: Option<PromptTokensDetails>,
    pub output_tokens: usize,
    pub output_tokens_details: Option<CompletionTokensDetails>,
    pub total_tokens: usize,
}

/// A part of a message item.
#[derive(Debug, PartialEq)]
pub enum ResponsesContentPart {
    OutputText { text: String, annotations: Option<Vec<Annotation>> },
}

/// What a [`ResponsesContentPart`] says.
pub struct PartView {
    pub text: Seq<char>,
    pub annotations: Option<Seq<CitationView>>,
}

impl View for ResponsesContentPart {
    type V = PartView;

    open spec fn view(&self) -> PartView {
        match self {
            ResponsesContentPart::OutputText { text, annotations } => PartView {
                text: text@,
                annotations: annotations::opt_annotations(*annotations),
            },
        }
    }
}

impl Clone for ResponsesContentPart {
    fn clone(&self) -> (r: Self)
        ensures
            r@ == self@,
    {
        match self {
            ResponsesContentPart::OutputText { text, annotations } => {
                let copied: Option<Vec<Annotation>> = match annotations {
                    Some(list) => Some(copy_annotations(list)),
                    None => None,
                };
                ResponsesContentPart::OutputText { text: text.clone(), annotations: copied }
            },
        }
    }
}

/// What each content part of a list says.
pub open spec fn part_views(s: Seq<ResponsesContentPart>) -> Seq<PartView> {
    s.map_values(|p: ResponsesContentPart| p@)
}

/// An output item of a response.
#[derive(Debug, PartialEq)]
pub enum ResponsesOutputItem {
    Message {
        id: String,
        status: &'static str,
        role: &'static str,
        content: Vec<ResponsesContentPart>,
    },
    FunctionCall {
        id: String,
        call_id: String,
        name: String,
        arguments: String,
        status: &'static str,
    },
}

/// What a [`ResponsesOutputItem`] says.
pub enum ItemView {
    Message { id: Seq<char>, status: Seq<char>, role: Seq<char>, content: Seq<PartView> },
    FunctionCall {
        id: Seq<char>,
        call_id: Seq<char>,
        name: Seq<char>,
        arguments: Seq<char>,
        status: Seq<char>,
    },
}

impl View for ResponsesOutputItem {
    type V = ItemView;

    open spec fn view(&self) -> ItemView {
        match self {
            ResponsesOutputItem::Message { id, status, role, content } => ItemView::Message {
                id: id@,
                status: status@,
                role: role@,
                content: part_views(content@),
            },
            ResponsesOutputItem::FunctionCall { id, call_id, name, arguments, status } =>
                ItemView::FunctionCall {
                    id: id@,
                    call_id: call_id@,
                    name: name@,
                    arguments: arguments@,
                    status: status@,
                },
        }
    }
}

impl Clone for ResponsesOutputItem {
    fn clone(&self) -> (r: Self)
        ensures
            r@ == self@,
    {
        match self {
            ResponsesOutputItem::Message { id, status, role, content } => {
                let mut copied: Vec<ResponsesContentPart> = Vec::new();
                let mut i: usize = 0;
                while i < content.len()
                    invariant
                        i <= content@.len(),
                        part_views(copied@) == part_views(content@.take(i as int)),
                    decreases content@.len() - i,
                {
                    let ghost before = copied@;
                    let p = content[i].clone();
                    copied.push(p);
                    proof {
                        assert(part_views(copied@) =~= part_views(before).push(p@));
                        assert(part_views(content@.take(i + 1)) =~= part_views(
                            content@.take(i as int),
                        ).push(content@[i as int]@));
                    }
                    i = i + 1;
                }
                assert(content@.take(i as int) =~= content@);
                ResponsesOutputItem::Message { id: id.clone(), status, role, content: copied }
            },
            ResponsesOutputItem::FunctionCall { id, call_id, name, arguments, status } => {
                ResponsesOutputItem::FunctionCall {
                    id: id.clone(),
                    call_id: call_id.clone(),
                    name: name.clone(),
                    arguments: arguments.clone(),
                    status,
                }
            },
        }
    }
}

/// What each output item of a list says.
pub open spec fn item_views(s: Seq<ResponsesOutputItem>) -> Seq<ItemView> {
    s.map_values(|i: ResponsesOutputItem| i@)
}

pub proof fn lemma_item_views_push(s: Seq<ResponsesOutputItem>, i: ResponsesOutputItem)
    ensures
        item_views(s.push(i)) == item_views(s).push(i@),
{
    assert(item_views(s.push(i)) =~= item_views(s).push(i@));
}

/// A finished response.
#[derive(Debug)]
pub struct ResponsesResponse {
    pub id: String,
    pub object: &'static str,
    pub created_at: u64,
    pub model: String,
    pub status: &'static str,
    pub error: Option<Json>,
    pub output: Vec<ResponsesOutputItem>,
    pub reasoning: Option<Json>,
    pub usage: ResponsesUsage,
    pub metadata: Option<Vec<(String, String)>>,
}

/// The part of a response that is known before it is finished.
#[derive(Debug)]
pub struct ResponsesStreamEnvelope {
    pub id: String,
    pub object: &'static str,
    pub created_at: u64,
    pub model: String,
    pub status: &'static str,
    pub metadata: Option<Vec<(String, String)>>,
}

/// What a [`ResponsesResponse`] says.
pub struct ResponseView {
    pub id: Seq<char>,
    pub object: Seq<char>,
    pub created_at: u64,
    pub model: Seq<char>,
    pub status: Seq<char>,
    pub error: Option<JsonView>,
    pub output: Seq<ItemView>,
    pub reasoning: Option<JsonView>,
    pub usage: ResponsesUsage,
    pub metadata: Option<Seq<(Seq<char>, Seq<char>)>>,
}

impl View for ResponsesResponse {
    type V = ResponseView;

    open spec fn view(&self) -> ResponseView {
        ResponseView {
            id: self.id@,
            object: self.object@,
            created_at: self.created_at,
            model: self.model@,
            status: self.status@,
            error: json::opt_view(self.error),
            output: item_views(self.output@),
            reasoning: json::opt_view(self.reasoning),
            usage: self.usage,
            metadata: echo::metadata_view(self.metadata),
        }
    }
}

/// What a [`ResponsesStreamEnvelope`] says.
pub struct EnvelopeView {
    pub id: Seq<char>,
    pub object: Seq<char>,
    pub created_at: u64,
    pub model: Seq<char>,
    pub status: Seq<char>,
    pub metadata: Option<Seq<(Seq<char>, Seq<char>)>>,
}

impl View for ResponsesStreamEnvelope {
    type V = EnvelopeView;

    open spec fn view(&self) -> EnvelopeView {
        EnvelopeView {
            id: self.id@,
            object: self.object@,
            created_at: self.created_at,
            model: self.model@,
            status: self.status@,
            metadata: echo::metadata_view(self.metadata),
        }
    }
}

/// An event of a streamed response. Sequence numbers grow by one per event.
#[derive(Debug)]
#[allow(inconsistent_fields)]
pub enum ResponsesStreamEvent {
    Created { sequence_number: u64, response: ResponsesStreamEnvelope },
    InProgress { sequence_number: u64, response: ResponsesStreamEnvelope },
    OutputItemAdded { sequence_number: u64, output_index: usize, item: ResponsesOutputItem },
    ContentPartAdded {
        sequence_number: u64,
        item_id: String,
        output_index: usize,
        content_index: usize,
        part: ResponsesContentPart,
    },
    OutputTextDelta {
        sequence_number: u64,
        item_id: String,
        output_index: usize,
        content_index: usize,
        delta: String,
    },
    OutputTextDone {
        sequence_number: u64,
        item_id: String,
        output_index: usize,
        content_index: usize,
        text: String,
    },
    FunctionCallArgumentsDelta {
        sequence_number: u64,
        item_id: String,
        output_index: usize,
        delta: String,
    },
    FunctionCallArgumentsDone {
        sequence_number: u64,
        item_id: String,
        output_index: usize,
        arguments: String,
    },
    OutputItemDone { sequence_number: u64, output_index: usize, item: ResponsesOutputItem },
    RefusalDelta {
        sequence_number: u64,
        item_id: String,
        output_index: usize,
        content_index: usize,
        delta: String,
    },
    RefusalDone {
        sequence_number: u64,
        item_id: String,
        output_index: usize,
        content_index: usize,
        refusal: String,
    },
    Completed { sequence_number: u64, response: ResponsesResponse },
    Failed { sequence_number: u64, response: ResponsesStreamEnvelope, error: Json },
}

/// What a [`ResponsesStreamEvent`] says.
#[allow(inconsistent_fields)]
pub enum EventView {
    Created { seq: u64, response: EnvelopeView },
    InProgress { seq: u64, response: EnvelopeView },
    ItemAdded { seq: u64, index: usize, item: ItemView },
    PartAdded { seq: u64, item_id: Seq<char>, index: usize, content_index: usize, part: PartView },
    TextDelta {
        seq: u64,
        item_id: Seq<char>,
        index: usize,
        content_index: usize,
        delta: Seq<char>,
    },
    TextDone { seq: u64, item_id: Seq<char>, index: usize, content_index: usize, text: Seq<char> },
    ArgsDelta { seq: u64, item_id: Seq<char>, index: usize, delta: Seq<char> },
    ArgsDone { seq: u64, item_id: Seq<char>, index: usize, arguments: Seq<char> },
    ItemDone { seq: u64, index: usize, item: ItemView },
    RefusalDelta {
        seq: u64,
        item_id: Seq<char>,
        index: usize,
        content_index: usize,
        delta: Seq<char>,
    },
    RefusalDone {
        seq: u64,
        item_id: Seq<char>,
        index: usize,
        content_index: usize,
        refusal: Seq<char>,
    },
    Completed { seq: u64, response: ResponseView },
    Failed { seq: u64, response: EnvelopeView, error: JsonView },
}

impl EventView {
    /// The sequence number of the event.
    pub open spec fn seq(self) -> u64 {
        match self {
            EventView::Created { seq, .. } => seq,
            EventView::InProgress { seq, .. } => seq,
            EventView::ItemAdded { seq, .. } => seq,
            EventView::PartAdded { seq, .. } => seq,
            EventView::TextDelta { seq, .. } => seq,
            EventView::TextDone { seq, .. } => seq,
            EventView::ArgsDelta { seq, .. } => seq,
            EventView::ArgsDone { seq, .. } => seq,
            EventView::ItemDone { seq, .. } => seq,
            EventView::RefusalDelta { seq, .. } => seq,
            EventView::RefusalDone { seq, .. } => seq,
            EventView::Completed { seq, .. } => seq,
            EventView::Failed { seq, .. } => seq,
        }
    }
}

impl View for ResponsesStreamEvent {
    type V = EventView;

    open spec fn view(&self) -> EventView {
        match self {
            ResponsesStreamEvent::Created { sequence_number, response } => EventView::Created {
                seq: *sequence_number,
                response: response@,
            },
            ResponsesStreamEvent::InProgress { sequence_number, response } => EventView::InProgress {
                seq: *sequence_number,
                response: response@,
            },
            ResponsesStreamEvent::OutputItemAdded { sequence_number, output_index, item } =>
                EventView::ItemAdded { seq: *sequence_number, index: *output_index, item: item@ },
            ResponsesStreamEvent::ContentPartAdded {
                sequence_number,
                item_id,
                output_index,
                content_index,
                part,
            } => EventView::PartAdded {
                seq: *sequence_number,
                item_id: item_id@,
                index: *output_index,
                content_index: *content_index,
                part: part@,
            },
            ResponsesStreamEvent::OutputTextDelta {
                sequence_number,
                item_id,
                output_index,
                content_index,
                delta,
            } => EventView::TextDelta {
                seq: *sequence_number,
                item_id: item_id@,
                index: *output_index,
                content_index: *content_index,
                delta: delta@,
            },
            ResponsesStreamEvent::OutputTextDone {
                sequence_number,
                item_id,
                output_index,
                content_index,
                text,
            } => EventView::TextDone {
                seq: *sequence_number,
                item_id: item_id@,
                index: *output_index,
                content_index: *content_index,
                text: text@,
            },
            ResponsesStreamEvent::FunctionCallArgumentsDelta {
                sequence_number,
                item_id,
                output_index,
                delta,
            } => EventView::ArgsDelta {
                seq: *sequence_number,
                item_id: item_id@,
                index: *output_index,
                delta: delta@,
            },
            ResponsesStreamEvent::FunctionCallArgumentsDone {
                sequence_number,
                item_id,
                output_index,
                arguments,
            } => EventView::ArgsDone {
                seq: *sequence_number,
                item_id: item_id@,
                index: *output_index,
                arguments: arguments@,
            },
            ResponsesStreamEvent::OutputItemDone { sequence_number, output_index, item } =>
                EventView::ItemDone { seq: *sequence_number, index: *output_index, item: item@ },
            ResponsesStreamEvent::RefusalDelta {
                sequence_number,
                item_id,
                output_index,
                content_index,
                delta,
            } => EventView::RefusalDelta {
                seq: *sequence_number,
                item_id: item_id@,
                index: *output_index,
                content_index: *content_index,
                delta: delta@,
            },
            ResponsesStreamEvent::RefusalDone {
                sequence_number,
                item_id,
                output_index,
                content_index,
                refusal,
            } => EventView::RefusalDone {
                seq: *sequence_number,
                item_id: item_id@,
                index: *output_index,
                content_index: *content_index,
                refusal: refusal@,
            },
            ResponsesStreamEvent::Completed { sequence_number, response } => EventView::Completed {
                seq: *sequence_number,
                response: response@,
            },
            ResponsesStreamEvent::Failed { sequence_number, response, error } =>
                EventView::Failed {
                    seq: *sequence_number,
                    response: response@,
                    error: error.view(),
                },
        }
    }
}

/// What each event of a list says.
pub open spec fn event_views(s: Seq<ResponsesStreamEvent>) -> Seq<EventView> {
    s.map_values(|e: ResponsesStreamEvent| e@)
}

pub proof fn lemma_event_views_push(s: Seq<ResponsesStreamEvent>, e: ResponsesStreamEvent)
    ensures
        event_views(s.push(e)) == event_views(s).push(e@),
{
    assert(event_views(s.push(e)) =~= event_views(s).push(e@));
}

/// The name under which an event goes over the wire.
pub open spec fn event_name(ev: ResponsesStreamEvent) -> Seq<char> {
    match ev {
        ResponsesStreamEvent::Created { .. } => "response.created"@,
        ResponsesStreamEvent::InProgress { .. } => "response.in_progress"@,
        ResponsesStreamEvent::OutputItemAdded { .. } => "response.output_item.added"@,
        ResponsesStreamEvent::ContentPartAdded { .. } => "response.content_part.added"@,
        ResponsesStreamEvent::OutputTextDelta { .. } => "response.output_text.delta"@,
        ResponsesStreamEvent::OutputTextDone { .. } => "response.output_text.done"@,
        ResponsesStreamEvent::FunctionCallArgumentsDelta { .. } =>
            "response.function_call_arguments.delta"@,
        ResponsesStreamEvent::FunctionCallArgumentsDone { .. } =>
            "response.function_call_arguments.done"@,
        ResponsesStreamEvent::OutputItemDone { .. } => "response.output_item.done"@,
        ResponsesStreamEvent::RefusalDelta { .. } => "response.refusal.delta"@,
        ResponsesStreamEvent::RefusalDone { .. } => "response.refusal.done"@,
        ResponsesStreamEvent::Completed { .. } => "response.completed"@,
        ResponsesStreamEvent::Failed { .. } => "response.failed"@,
    }
}

/// The SSE event name of a stream event.
pub fn responses_event_name(ev: &ResponsesStreamEvent) -> (r: &'static str)
    ensures
        r@ == event_name(*ev),
{
    match ev {
        ResponsesStreamEvent::Created { .. } => "response.created",
        ResponsesStreamEvent::InProgress { .. } => "response.in_progress",
        ResponsesStreamEvent::OutputItemAdded { .. } => "response.output_item.added",
        ResponsesStreamEvent::ContentPartAdded { .. } => "response.content_part.added",
        ResponsesStreamEvent::OutputTextDelta { .. } => "response.output_text.delta",
        ResponsesStreamEvent::OutputTextDone { .. } => "response.output_text.done",
        ResponsesStreamEvent::FunctionCallArgumentsDelta { .. } =>
            "response.function_call_arguments.delta",
        ResponsesStreamEvent::FunctionCallArgumentsDone { .. } =>
            "response.function_call_arguments.done",
        ResponsesStreamEvent::OutputItemDone { .. } => "response.output_item.done",
        ResponsesStreamEvent::RefusalDelta { .. } => "response.refusal.delta",
        ResponsesStreamEvent::RefusalDone { .. } => "response.refusal.done",
        ResponsesStreamEvent::Completed { .. } => "response.completed",
        ResponsesStreamEvent::Failed { .. } => "response.failed",
    }
}

} // verus!
