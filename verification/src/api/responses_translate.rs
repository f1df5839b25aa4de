//! Finished chat responses in the shape of the Responses API.

use crate::api::responses_stream;
use crate::ir::message::ToolCallModel;
use crate::ir::response::{ChatResponse, Choice, Usage};
use crate::json;
use crate::json::{array, entry, object, string, to_json_text, Json, JsonView};
use crate::openai::annotations;
use crate::openai::annotations::merged_annotations;
use crate::openai::chat_message::IncomingMessage;
use crate::openai::responses;
use crate::openai::responses::{
    CompletionTokensDetails, ItemView, PromptTokensDetails, ResponsesContentPart,
    ResponsesOutputItem, ResponsesResponse, ResponsesUsage,
};
use crate::text;
use crate::text::push_decimal;
use vstd::prelude::*;
use vstd::string::*;

verus! {

/// Position of the first blank line in a buffer of SSE text: two newlines in a
/// row.
pub open spec fn is_frame_end(buf: Seq<u8>, i: int) -> bool {
    0 <= i && i + 1 < buf.len() && buf[i] == 10 && buf[i + 1] == 10
}

/// Finds the end of the first SSE frame in `buf`.
pub fn find_frame_end(buf: &[u8]) -> (r: Option<usize>)
    ensures
        match r {
            Some(i) => is_frame_end(buf@, i as int) && forall|k: int|
                0 <= k < i ==> !is_frame_end(buf@, k),
            None => forall|k: int| !is_frame_end(buf@, k),
        },
{
    let mut i: usize = 0;
    while i < buf.len()
        invariant
            i <= buf@.len(),
            forall|k: int| 0 <= k < i ==> !is_frame_end(buf@, k),
        decreases buf@.len() - i,
    {
        if buf[i] == 10 && i + 1 < buf.len() && buf[i + 1] == 10 {
            return Some(i);
        }
        i = i + 1;
    }
    None
}

/// A count in a usage report, 0 when it is missing.
pub open spec fn count_field(u: JsonView, key: Seq<char>) -> usize {
    match u.uint_field(key) {
        Some(n) => n as usize,
        None => 0,
    }
}

/// The prompt details of a usage report: an object with both counts.
pub open spec fn prompt_details(u: JsonView) -> Option<PromptTokensDetails> {
    match u.field("prompt_tokens_details"@) {
        Some(d) => match (d.uint_field("cached_tokens"@), d.uint_field("audio_tokens"@)) {
            (Some(c), Some(a)) => Some(
                PromptTokensDetails { cached_tokens: c as usize, audio_tokens: a as usize },
            ),
            _ => None,
        },
        None => None,
    }
}

/// The completion details of a usage report: an object with all four counts.
pub open spec fn completion_details(u: JsonView) -> Option<CompletionTokensDetails> {
    match u.field("completion_tokens_details"@) {
        Some(d) => match (
            d.uint_field("reasoning_tokens"@),
            d.uint_field("audio_tokens"@),
            d.uint_field("accepted_prediction_tokens"@),
            d.uint_field("rejected_prediction_tokens"@),
        ) {
            (Some(r), Some(a), Some(p), Some(q)) => Some(
                CompletionTokensDetails {
                    reasoning_tokens: r as usize,
                    audio_tokens: a as usize,
                    accepted_prediction_tokens: p as usize,
                    rejected_prediction_tokens: q as usize,
                },
            ),
            _ => None,
        },
        None => None,
    }
}

/// The usage that a report states.
pub open spec fn reported_usage(u: JsonView) -> ResponsesUsage {
    ResponsesUsage {
        input_tokens: count_field(u, "prompt_tokens"@),
        input_tokens_details: prompt_details(u),
        output_tokens: count_field(u, "completion_tokens"@),
        output_tokens_details: completion_details(u),
        total_tokens: count_field(u, "total_tokens"@),
    }
}

fn read_count(u: &Json, key: &str) -> (n: usize)
    ensures
        n == count_field(u@, key@),
{
    match u.get_u64(key) {
        Some(n) => n as usize,
        None => 0,
    }
}

fn read_prompt_details(u: &Json) -> (r: Option<PromptTokensDetails>)
    ensures
        r == prompt_details(u@),
{
    match u.get("prompt_tokens_details") {
        Some(d) => match (d.get_u64("cached_tokens"), d.get_u64("audio_tokens")) {
            (Some(c), Some(a)) => Some(
                PromptTokensDetails { cached_tokens: c as usize, audio_tokens: a as usize },
            ),
            _ => None,
        },
        None => None,
    }
}

fn read_completion_details(u: &Json) -> (r: Option<CompletionTokensDetails>)
    ensures
        r == completion_details(u@),
{
    match u.get("completion_tokens_details") {
        Some(d) => match (
            d.get_u64("reasoning_tokens"),
            d.get_u64("audio_tokens"),
            d.get_u64("accepted_prediction_tokens"),
            d.get_u64("rejected_prediction_tokens"),
        ) {
            (Some(r), Some(a), Some(p), Some(q)) => Some(
                CompletionTokensDetails {
                    reasoning_tokens: r as usize,
                    audio_tokens: a as usize,
                    accepted_prediction_tokens: p as usize,
                    rejected_prediction_tokens: q as usize,
                },
            ),
            _ => None,
        },
        None => None,
    }
}

/// The usage that a chat usage report states.
pub fn build_responses_usage(u: &Json) -> (r: ResponsesUsage)
    ensures
        r == reported_usage(u@),
{
    ResponsesUsage {
        input_tokens: read_count(u, "prompt_tokens"),
        input_tokens_details: read_prompt_details(u),
        output_tokens: read_count(u, "completion_tokens"),
        output_tokens_details: read_completion_details(u),
        total_tokens: read_count(u, "total_tokens"),
    }
}

/// The usage of a finished chat response.
pub open spec fn chat_usage(u: Usage) -> ResponsesUsage {
    ResponsesUsage {
        input_tokens: u.prompt_tokens,
        input_tokens_details: Some(
            PromptTokensDetails { cached_tokens: u.cached_prompt_tokens, audio_tokens: 0 },
        ),
        output_tokens: u.completion_tokens,
        output_tokens_details: Some(
            CompletionTokensDetails {
                reasoning_tokens: u.reasoning_tokens,
                audio_tokens: 0,
                accepted_prediction_tokens: 0,
                rejected_prediction_tokens: 0,
            },
        ),
        total_tokens: (u.prompt_tokens + u.completion_tokens) as usize,
    }
}

/// The function call item of the tool call at position `i`.
pub open spec fn call_item(full_id: Seq<char>, i: nat, tc: ToolCallModel) -> ItemView {
    ItemView::FunctionCall {
        id: "fc_"@ + full_id + "_"@ + text::decimal(i),
        call_id: tc.id,
        name: tc.name,
        arguments: json::json_text(tc.arguments),
        status: "completed"@,
    }
}

/// The message item with text `t`.
pub open spec fn message_item(full_id: Seq<char>, t: Seq<char>) -> ItemView {
    responses_stream::done_message("msg_"@ + full_id, t)
}

/// The function call items of the first `n` tool calls of a choice.
pub open spec fn call_items(full_id: Seq<char>, choice: Choice, n: int) -> Seq<ItemView> {
    Seq::new(n as nat, |i: int| call_item(full_id, i as nat, choice.tool_calls@[i]@))
}

/// The output of a finished chat response: the tool calls of its first choice,
/// then its text.
pub open spec fn output_items(chat: ChatResponse) -> Seq<ItemView> {
    let full_id = "chatcmpl-"@ + chat.id@;
    if chat.choices@.len() == 0 {
        Seq::empty()
    } else {
        let choice = chat.choices@[0];
        let calls = call_items(full_id, choice, choice.tool_calls@.len() as int);
        match choice.content {
            Some(t) => calls.push(message_item(full_id, t@)),
            None => calls,
        }
    }
}

/// The output items of a finished chat response.
fn build_output(chat: &ChatResponse) -> (out: Vec<ResponsesOutputItem>)
    ensures
        responses::item_views(out@) == output_items(*chat),
{
    let mut full_id: String = "chatcmpl-".to_owned();
    full_id.append(chat.id.as_str());
    let mut out: Vec<ResponsesOutputItem> = Vec::new();
    if chat.choices.len() == 0 {
        assert(responses::item_views(out@) =~= Seq::<ItemView>::empty());
        return out;
    }
    let choice = &chat.choices[0];
    let mut i: usize = 0;
    assert(responses::item_views(out@) =~= call_items(full_id@, *choice, 0));
    while i < choice.tool_calls.len()
        invariant
            i <= choice.tool_calls@.len(),
            responses::item_views(out@) == call_items(full_id@, *choice, i as int),
        decreases choice.tool_calls@.len() - i,
    {
        let tc = &choice.tool_calls[i];
        let mut id: String = "fc_".to_owned();
        id.append(full_id.as_str());
        id.append("_");
        push_decimal(&mut id, i as u64);
        let item = ResponsesOutputItem::FunctionCall {
            id,
            call_id: tc.id.clone(),
            name: tc.name.clone(),
            arguments: to_json_text(&tc.arguments),
            status: "completed",
        };
        proof {
            responses::lemma_item_views_push(out@, item);
            assert(call_items(full_id@, *choice, i + 1) =~= call_items(
                full_id@,
                *choice,
                i as int,
            ).push(item@));
        }
        out.push(item);
        i = i + 1;
    }
    if let Some(t) = &choice.content {
        let annotations = merged_annotations(t.as_str());
        let mut id: String = "msg_".to_owned();
        id.append(full_id.as_str());
        let part = ResponsesContentPart::OutputText { text: t.clone(), annotations };
        let content: Vec<ResponsesContentPart> = vec![part];
        let item = ResponsesOutputItem::Message {
            id,
            status: "completed",
            role: "assistant",
            content,
        };
        proof {
            assert(responses::part_views(content@) =~= seq![part@]);
            responses::lemma_item_views_push(out@, item);
        }
        out.push(item);
    }
    out
}

/// A finished chat response in the Responses shape.
pub fn build_response(chat: &ChatResponse, metadata: Option<Vec<(String, String)>>) -> (
    r: ResponsesResponse
)
    requires
        chat.usage.prompt_tokens + chat.usage.completion_tokens <= usize::MAX,
    ensures
        r.id@ == "resp_"@ + chat.id@,
        r.object@ == "response"@,
        r.created_at == chat.created,
        r.model@ == chat.model@,
        r.status@ == "completed"@,
        r.error is None,
        responses::item_views(r.output@) == output_items(*chat),
        r.reasoning is None,
        r.usage == chat_usage(chat.usage),
        r.metadata == metadata,
{
    let mut id: String = "resp_".to_owned();
    id.append(chat.id.as_str());
    let usage = ResponsesUsage {
        input_tokens: chat.usage.prompt_tokens,
        input_tokens_details: Some(
            PromptTokensDetails { cached_tokens: chat.usage.cached_prompt_tokens, audio_tokens: 0 },
        ),
        output_tokens: chat.usage.completion_tokens,
        output_tokens_details: Some(
            CompletionTokensDetails {
                reasoning_tokens: chat.usage.reasoning_tokens,
                audio_tokens: 0,
                accepted_prediction_tokens: 0,
                rejected_prediction_tokens: 0,
            },
        ),
        total_tokens: chat.usage.prompt_tokens + chat.usage.completion_tokens,
    };
    ResponsesResponse {
        id,
        object: "response",
        created_at: chat.created,
        model: chat.model.clone(),
        status: "completed",
        error: None,
        output: build_output(chat),
        reasoning: None,
        usage,
        metadata,
    }
}

// ── conversations ──

/// A conversation item: a message of `role` with one part of type `kind`.
pub open spec fn conversation_item(role: Seq<char>, kind: Seq<char>, t: Seq<char>) -> JsonView {
    JsonView::Object(
        seq![
            ("type"@, JsonView::Str("message"@)),
            ("role"@, JsonView::Str(role)),
            (
                "content"@,
                JsonView::Array(
                    seq![
                        JsonView::Object(
                            seq![("type"@, JsonView::Str(kind)), ("text"@, JsonView::Str(t))],
                        ),
                    ],
                ),
            ),
        ],
    )
}

/// The conversation items of the messages from position `prior` on: what the
/// conversation does not hold yet.
pub open spec fn new_user_items(messages: Seq<IncomingMessage>, prior: int) -> Seq<JsonView>
    decreases messages.len(),
{
    if messages.len() == 0 || messages.len() <= prior {
        Seq::empty()
    } else {
        new_user_items(messages.drop_last(), prior).push(
            conversation_item(messages.last().role@, "input_text"@, messages.last().content.text@),
        )
    }
}

/// The assistant text of a finished chat response.
pub open spec fn assistant_text(chat: ChatResponse) -> Seq<char> {
    if chat.choices@.len() > 0 {
        text::or_empty(text::opt_text(chat.choices@[0].content))
    } else {
        Seq::empty()
    }
}

/// What a finished turn adds to its conversation: the new user messages, and
/// the assistant text unless it is empty.
pub open spec fn turn_items(messages: Seq<IncomingMessage>, prior: int, reply: Seq<char>) -> Seq<
    JsonView,
> {
    let user = new_user_items(messages, prior);
    if reply.len() > 0 {
        user.push(conversation_item("assistant"@, "output_text"@, reply))
    } else {
        user
    }
}

/// A conversation item.
fn make_item(role: &str, kind: &str, t: &str) -> (j: Json)
    ensures
        j@ == conversation_item(role@, kind@, t@),
{
    let part_entries: Vec<(String, Json)> = vec![entry("type", string(kind)), entry("text", string(t))];
    let part = object(part_entries);
    let parts: Vec<Json> = vec![part];
    let all: Vec<(String, Json)> = vec![
        entry("type", string("message")),
        entry("role", string(role)),
        entry("content", array(parts)),
    ];
    proof {
        let want = conversation_item(role@, kind@, t@)->Object_0;
        assert(json::entry_views(part_entries@) =~= want[2].1->Array_0[0]->Object_0);
        assert(json::views(parts@) =~= want[2].1->Array_0);
        assert(json::entry_views(all@) =~= want);
    }
    object(all)
}

/// The conversation items of the messages that the conversation, with `prior`
/// items, does not hold yet.
pub fn new_conversation_items(messages: &Vec<IncomingMessage>, prior: usize) -> (out: Vec<Json>)
    ensures
        json::views(out@) == new_user_items(messages@, prior as int),
{
    let mut out: Vec<Json> = Vec::new();
    let mut i: usize = 0;
    assert(json::views(out@) =~= Seq::<JsonView>::empty());
    while i < messages.len()
        invariant
            i <= messages@.len(),
            json::views(out@) == new_user_items(messages@.take(i as int), prior as int),
        decreases messages@.len() - i,
    {
        let ghost before = out@;
        assert(messages@.take(i + 1).drop_last() =~= messages@.take(i as int));
        if i >= prior {
            let m = &messages[i];
            let item = make_item(m.role.as_str(), "input_text", m.content.text.as_str());
            out.push(item);
            assert(json::views(out@) =~= json::views(before).push(item@));
        } else {
            assert(new_user_items(messages@.take(i as int), prior as int) =~= Seq::<
                JsonView,
            >::empty());
        }
        i = i + 1;
    }
    assert(messages@.take(i as int) =~= messages@);
    out
}

/// What a finished turn adds to a conversation with `prior` items.
pub fn finished_turn_items(messages: &Vec<IncomingMessage>, prior: usize, chat: &ChatResponse) -> (
    out: Vec<Json>
)
    ensures
        json::views(out@) == turn_items(messages@, prior as int, assistant_text(*chat)),
{
    let mut out: Vec<Json> = new_conversation_items(messages, prior);
    let ghost before = out@;
    if chat.choices.len() > 0 {
        if let Some(t) = &chat.choices[0].content {
            if !t.as_str().is_empty() {
                let item = make_item("assistant", "output_text", t.as_str());
                out.push(item);
                assert(json::views(out@) =~= json::views(before).push(item@));
            }
        }
    }
    out
}

// ── the whole translation ──

/// What the chat pipeline hands back: an HTTP answer, a stream of deltas, or a
/// finished response.
pub enum ChatOutcome<H, S> {
    Http(H),
    Streaming(S),
    Blocking(ChatResponse),
}

/// A translation that has no response to give.
#[derive(Debug)]
pub enum NotTranslated<H> {
    /// The pipeline's own answer, to be forwarded unchanged.
    Forward(H),
    /// An internal error with status 500.
    Internal(String),
}

/// A translated response and what is to be stored of it.
pub struct Translation {
    pub response: ResponsesResponse,
    /// Transcript to keep for a later turn that resumes this response.
    pub transcript: Option<Vec<IncomingMessage>>,
    /// Items to append to the conversation.
    pub conversation_items: Vec<Json>,
}

/// Translates the outcome of the chat pipeline for the Responses API.
/// `assistant` is the assistant turn as a message, `conversation_len` the number
/// of items that the linked conversation holds.
pub fn translate_chat_response_to_responses<H, S>(
    outcome: ChatOutcome<H, S>,
    metadata: Option<Vec<(String, String)>>,
    has_store: bool,
    input_messages: Vec<IncomingMessage>,
    assistant: Option<IncomingMessage>,
    store_flag: bool,
    conversation_len: Option<usize>,
) -> (r: Result<Translation, NotTranslated<H>>)
    requires
        outcome matches ChatOutcome::Blocking(chat) ==> chat.usage.prompt_tokens
            + chat.usage.completion_tokens <= usize::MAX,
    ensures
        match outcome {
            ChatOutcome::Http(h) => r matches Err(NotTranslated::Forward(f)) && f == h,
            ChatOutcome::Streaming(_) => r matches Err(NotTranslated::Internal(m)) && m@
                == "internal: expected blocking outcome"@,
            ChatOutcome::Blocking(chat) => {
                &&& r matches Ok(t)
                &&& t.response.id@ == "resp_"@ + chat.id@
                &&& t.response.object@ == "response"@
                &&& t.response.created_at == chat.created
                &&& t.response.model@ == chat.model@
                &&& t.response.status@ == "completed"@
                &&& t.response.error is None
                &&& responses::item_views(t.response.output@) == output_items(chat)
                &&& t.response.reasoning is None
                &&& t.response.usage == chat_usage(chat.usage)
                &&& t.response.metadata == metadata
                &&& match t.transcript {
                    Some(messages) => store_flag && has_store && messages@ == (match assistant {
                        Some(m) => input_messages@.push(m),
                        None => input_messages@,
                    }),
                    None => !(store_flag && has_store),
                }
                &&& json::views(t.conversation_items@) == (match conversation_len {
                    Some(n) => turn_items(input_messages@, n as int, assistant_text(chat)),
                    None => Seq::<JsonView>::empty(),
                })
            },
        },
{
    match outcome {
        ChatOutcome::Http(h) => Err(NotTranslated::Forward(h)),
        ChatOutcome::Streaming(_) => Err(
            NotTranslated::Internal("internal: expected blocking outcome".to_owned()),
        ),
        ChatOutcome::Blocking(chat) => {
            let response = build_response(&chat, metadata);
            let conversation_items: Vec<Json> = match conversation_len {
                Some(n) => finished_turn_items(&input_messages, n, &chat),
                None => Vec::new(),
            };
            assert(conversation_len is None ==> json::views(conversation_items@) =~= Seq::<
                JsonView,
            >::empty());
            let transcript: Option<Vec<IncomingMessage>> = if store_flag && has_store {
                let mut messages: Vec<IncomingMessage> = input_messages;
                if let Some(m) = assistant {
                    messages.push(m);
                }
                Some(messages)
            } else {
                None
            };
            Ok(Translation { response, transcript, conversation_items })
        },
    }
}

/// The stream of a pipeline outcome; anything else is answered as it is, or as
/// an internal error.
pub fn expect_streaming<H, S>(outcome: ChatOutcome<H, S>) -> (r: Result<S, NotTranslated<H>>)
    ensures
        match outcome {
            ChatOutcome::Http(h) => r matches Err(NotTranslated::Forward(f)) && f == h,
            ChatOutcome::Streaming(s) => r matches Ok(t) && t == s,
            ChatOutcome::Blocking(_) => r matches Err(NotTranslated::Internal(m)) && m@
                == "internal: expected streaming outcome"@,
        },
{
    match outcome {
        ChatOutcome::Http(h) => Err(NotTranslated::Forward(h)),
        ChatOutcome::Streaming(s) => Ok(s),
        ChatOutcome::Blocking(_) => Err(
            NotTranslated::Internal("internal: expected streaming outcome".to_owned()),
        ),
    }
}

// ── laws ──

/// The two ways to account for a response agree: the usage report that ends a
/// stream states the usage that the finished response of the same counts has.
pub proof fn streamed_and_finished_usage_agree(u: Usage)
    requires
        u.prompt_tokens + u.completion_tokens <= usize::MAX,
    ensures
        reported_usage(responses_stream::usage_json(u)) == chat_usage(u),
{
    reveal_strlit("prompt_tokens");
    reveal_strlit("completion_tokens");
    reveal_strlit("total_tokens");
    reveal_strlit("prompt_tokens_details");
    reveal_strlit("completion_tokens_details");
    reveal_strlit("cached_tokens");
    reveal_strlit("audio_tokens");
    reveal_strlit("reasoning_tokens");
    reveal_strlit("accepted_prediction_tokens");
    reveal_strlit("rejected_prediction_tokens");
    reveal_with_fuel(json::entry_at, 6);
    let j = responses_stream::usage_json(u);
    assert("prompt_tokens"@.len() == 13);
    assert("completion_tokens"@.len() == 17);
    assert("total_tokens"@.len() == 12);
    assert("prompt_tokens_details"@.len() == 21);
    assert("completion_tokens_details"@.len() == 25);
    assert("cached_tokens"@.len() == 13);
    assert("audio_tokens"@.len() == 12);
    assert("reasoning_tokens"@.len() == 16);
    assert("accepted_prediction_tokens"@.len() == 26);
    assert("rejected_prediction_tokens"@.len() == 26);
    assert("accepted_prediction_tokens"@[0] != "rejected_prediction_tokens"@[0]);
}

/// The output of a finished response holds the whole answer: every tool call in
/// order under its own id, call id and name and with its arguments, and last the
/// text, with its citations.
pub proof fn finished_output_holds_the_answer(chat: ChatResponse)
    requires
        chat.choices@.len() > 0,
    ensures
        ({
            let items = output_items(chat);
            let c = chat.choices@[0];
            let n = c.tool_calls@.len() as int;
            &&& items.len() == n + if c.content is Some {
                1int
            } else {
                0int
            }
            &&& forall|i: int|
                0 <= i < n ==> (#[trigger] items[i] matches ItemView::FunctionCall {
                    id,
                    call_id,
                    name,
                    arguments,
                    status,
                } && call_id == c.tool_calls@[i].id@ && name == c.tool_calls@[i].name@ && arguments
                    == json::json_text(c.tool_calls@[i].arguments@) && status == "completed"@ && id
                    == "fc_chatcmpl-"@ + chat.id@ + "_"@ + text::decimal(i as nat))
            &&& c.content matches Some(t) ==> (items[n] matches ItemView::Message {
                id,
                status,
                role,
                content,
            } && id == "msg_chatcmpl-"@ + chat.id@ && status == "completed"@ && role
                == "assistant"@ && content.len() == 1 && content[0].text == t@
                && content[0].annotations == annotations::unless_empty(
                crate::citation::all_citations(t@),
            ))
        }),
{
    reveal_strlit("fc_");
    reveal_strlit("chatcmpl-");
    reveal_strlit("fc_chatcmpl-");
    reveal_strlit("msg_");
    reveal_strlit("msg_chatcmpl-");
    let full_id = "chatcmpl-"@ + chat.id@;
    assert("msg_"@ + full_id =~= "msg_chatcmpl-"@ + chat.id@);
    assert("fc_"@ + full_id =~= "fc_chatcmpl-"@ + chat.id@);
}

/// A usage report is read whole: its three counts, and its details when they
/// are all there. The usage of a response counts what it read and wrote, and
/// the sum of both.
pub proof fn usage_is_reported_whole(u: JsonView, given: Usage)
    ensures
        u.uint_field("prompt_tokens"@) matches Some(n) ==> reported_usage(u).input_tokens
            == n as usize,
        u.uint_field("completion_tokens"@) matches Some(n) ==> reported_usage(u).output_tokens
            == n as usize,
        u.uint_field("total_tokens"@) matches Some(n) ==> reported_usage(u).total_tokens
            == n as usize,
        u.field("prompt_tokens_details"@) is None ==> reported_usage(u).input_tokens_details is None,
        u.field("prompt_tokens_details"@) matches Some(d) ==> d.uint_field(
            "cached_tokens"@,
        ) is Some && d.uint_field("audio_tokens"@) is Some ==> (reported_usage(
            u,
        ).input_tokens_details matches Some(x) && x.cached_tokens == d.uint_field(
            "cached_tokens"@,
        )->0 as usize),
        chat_usage(given).input_tokens == given.prompt_tokens,
        chat_usage(given).output_tokens == given.completion_tokens,
        given.prompt_tokens + given.completion_tokens <= usize::MAX ==> chat_usage(
            given,
        ).total_tokens == given.prompt_tokens + given.completion_tokens,
        chat_usage(given).input_tokens_details matches Some(x) && x.cached_tokens
            == given.cached_prompt_tokens,
        chat_usage(given).output_tokens_details matches Some(x) && x.reasoning_tokens
            == given.reasoning_tokens,
{
}

/// A conversation item is a message of this role with this one text.
pub open spec fn is_item(j: JsonView, role: Seq<char>, kind: Seq<char>, t: Seq<char>) -> bool {
    &&& j.text_field("type"@) == Some("message"@)
    &&& j.text_field("role"@) == Some(role)
    &&& j.field("content"@) matches Some(JsonView::Array(parts)) && parts.len() == 1
        && parts[0].text_field("type"@) == Some(kind) && parts[0].text_field("text"@) == Some(t)
}

proof fn lemma_is_item(role: Seq<char>, kind: Seq<char>, t: Seq<char>)
    ensures
        is_item(conversation_item(role, kind, t), role, kind, t),
{
    reveal_strlit("type");
    reveal_strlit("role");
    reveal_strlit("content");
    reveal_strlit("text");
    assert("type"@.len() == 4 && "role"@.len() == 4 && "content"@.len() == 7 && "text"@.len() == 4);
    assert("type"@[0] != "role"@[0]);
    assert("type"@[1] != "text"@[1]);
    reveal_with_fuel(json::entry_at, 4);
    let o = conversation_item(role, kind, t)->Object_0;
    assert(o[0].0 == "type"@ && o[1].0 == "role"@ && o[2].0 == "content"@);
    assert(json::entry_at(o, "type"@, 0) == 0);
    assert(json::entry_at(o, "role"@, 0) == 1);
    assert(json::entry_at(o, "content"@, 0) == 2);
    let p = o[2].1->Array_0[0]->Object_0;
    assert(p[0].0 == "type"@ && p[1].0 == "text"@);
    assert(json::entry_at(p, "type"@, 0) == 0);
    assert(json::entry_at(p, "text"@, 0) == 1);
}

/// A finished turn adds to its conversation what that does not hold yet: each
/// message behind those it holds, in order with its role and text, and then the
/// reply unless it is empty.
pub proof fn turns_add_what_is_new(messages: Seq<IncomingMessage>, prior: int, reply: Seq<char>)
    requires
        0 <= prior,
    ensures
        ({
            let items = turn_items(messages, prior, reply);
            let fresh = if messages.len() > prior {
                messages.len() - prior
            } else {
                0
            };
            &&& items.len() == fresh + if reply.len() > 0 {
                1int
            } else {
                0int
            }
            &&& forall|k: int|
                0 <= k < fresh ==> is_item(
                    #[trigger] items[k],
                    messages[prior + k].role@,
                    "input_text"@,
                    messages[prior + k].content.text@,
                )
            &&& reply.len() > 0 ==> is_item(
                items[fresh],
                "assistant"@,
                "output_text"@,
                reply,
            )
        }),
{
    lemma_new_items(messages, prior);
    lemma_is_item("assistant"@, "output_text"@, reply);
}

proof fn lemma_new_items(messages: Seq<IncomingMessage>, prior: int)
    requires
        0 <= prior,
    ensures
        ({
            let items = new_user_items(messages, prior);
            let fresh = if messages.len() > prior {
                messages.len() - prior
            } else {
                0
            };
            &&& items.len() == fresh
            &&& forall|k: int|
                0 <= k < fresh ==> is_item(
                    #[trigger] items[k],
                    messages[prior + k].role@,
                    "input_text"@,
                    messages[prior + k].content.text@,
                )
        }),
    decreases messages.len(),
{
    if messages.len() > prior {
        let most = messages.drop_last();
        lemma_new_items(most, prior);
        let last = messages.last();
        lemma_is_item(last.role@, "input_text"@, last.content.text@);
        let before = new_user_items(most, prior);
        let items = new_user_items(messages, prior);
        assert forall|k: int| 0 <= k < messages.len() - prior implies is_item(
            #[trigger] items[k],
            messages[prior + k].role@,
            "input_text"@,
            messages[prior + k].content.text@,
        ) by {
            if k < before.len() {
                assert(items[k] == before[k]);
                assert(most[prior + k] == messages[prior + k]);
            }
        }
    }
}

} // verus!
