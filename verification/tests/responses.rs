//! The Responses API.

use spark_server::api::chat_stream::handle_error::handle_error;
use spark_server::api::responses_stream::ResponsesStream;
use spark_server::api::responses_translate::{
    build_response, build_responses_usage, expect_streaming, find_frame_end, finished_turn_items,
    new_conversation_items, translate_chat_response_to_responses, ChatOutcome, NotTranslated,
};
use spark_server::float::Float64;
use spark_server::ir::message::ToolCall;
use spark_server::ir::response::{ChatResponse, Choice, FinishReason, Usage};
use spark_server::ir::stream::StreamDelta;
use spark_server::json::{object, parse_json, string, to_json_text, Json};
use spark_server::openai::chat_message::{IncomingMessage, ParsedContent};
use spark_server::openai::responses::{
    responses_event_name, ResponsesContentPart, ResponsesOutputItem, ResponsesStreamEvent,
};

fn usage(prompt: usize, completion: usize) -> Usage {
    Usage {
        prompt_tokens: prompt,
        completion_tokens: completion,
        cached_prompt_tokens: 2,
        reasoning_tokens: 1,
        time_to_first_token_ms: Float64 { bits: 0 },
        response_tokens_per_second: Float64 { bits: 0 },
    }
}

fn content(t: &str) -> StreamDelta {
    StreamDelta::Content { text: t.into(), token_ids: vec![] }
}

fn call(id: &str, name: &str) -> StreamDelta {
    StreamDelta::ToolCallStart { index: 0, id: id.into(), name: name.into() }
}

fn args(t: &str) -> StreamDelta {
    StreamDelta::ToolCallArgs { index: 0, fragment: t.into(), token_ids: vec![] }
}

fn finish() -> StreamDelta {
    StreamDelta::Finish {
        reason: FinishReason::ToolCalls,
        usage: usage(5, 7),
        token_ids: vec![],
    }
}

fn drive(deltas: Vec<StreamDelta>) -> (ResponsesStream, Vec<ResponsesStreamEvent>) {
    let mut s = ResponsesStream::new("r1".into(), 2);
    let mut out = Vec::new();
    for d in deltas {
        s.on_delta(d, &mut out);
    }
    s.close_open_items(&mut out);
    (s, out)
}

fn names(evs: &[ResponsesStreamEvent]) -> Vec<&str> {
    evs.iter().map(|e| responses_event_name(e)).collect()
}

#[test]
fn text_then_call_then_text() {
    let (s, evs) = drive(vec![
        content("Let me look."),
        call("c1", "read"),
        args("{\"p\":"),
        args("1}"),
        content("Done."),
        finish(),
    ]);
    assert_eq!(
        names(&evs),
        vec![
            "response.output_item.added",
            "response.content_part.added",
            "response.output_text.delta",
            "response.output_text.done",
            "response.output_item.done",
            "response.output_item.added",
            "response.function_call_arguments.delta",
            "response.function_call_arguments.delta",
            "response.function_call_arguments.done",
            "response.output_item.done",
            "response.output_item.added",
            "response.content_part.added",
            "response.output_text.delta",
            "response.output_text.done",
            "response.output_item.done",
        ]
    );
    assert_eq!(s.seq, 2 + evs.len() as u64);
    assert_eq!(s.completed_items.len(), 3);
    assert_eq!(s.finish_reason, "tool_calls");
    match &s.completed_items[1] {
        ResponsesOutputItem::FunctionCall { id, call_id, name, arguments, status } => {
            assert_eq!(id, "fc_r1_1");
            assert_eq!(call_id, "c1");
            assert_eq!(name, "read");
            assert_eq!(arguments, "{\"p\":1}");
            assert_eq!(*status, "completed");
        }
        _ => panic!("expected a function call"),
    }
    match &s.completed_items[2] {
        ResponsesOutputItem::Message { id, content, .. } => {
            assert_eq!(id, "msg_r1_2");
            match &content[0] {
                ResponsesContentPart::OutputText { text, .. } => assert_eq!(text, "Done."),
            }
        }
        _ => panic!("expected a message"),
    }
}

#[test]
fn sequence_numbers_have_no_gaps() {
    let (_, evs) = drive(vec![content("a"), content("b"), finish()]);
    let seqs: Vec<u64> = evs
        .iter()
        .map(|e| match e {
            ResponsesStreamEvent::OutputItemAdded { sequence_number, .. }
            | ResponsesStreamEvent::ContentPartAdded { sequence_number, .. }
            | ResponsesStreamEvent::OutputTextDelta { sequence_number, .. }
            | ResponsesStreamEvent::OutputTextDone { sequence_number, .. }
            | ResponsesStreamEvent::OutputItemDone { sequence_number, .. } => *sequence_number,
            _ => panic!("another event"),
        })
        .collect();
    assert_eq!(seqs, vec![2, 3, 4, 5, 6, 7]);
}

#[test]
fn silent_deltas_make_no_events() {
    let (s, evs) = drive(vec![
        content(""),
        StreamDelta::Reasoning { text: "hm".into(), token_ids: vec![] },
        args("ignored without a call"),
        StreamDelta::Error { message: "gone".into() },
    ]);
    assert!(evs.is_empty());
    assert!(s.completed_items.is_empty());
    assert_eq!(s.finish_reason, "stop");
}

#[test]
fn a_refusal_is_kept() {
    let (s, evs) = drive(vec![StreamDelta::Refusal { text: "I can't.".into() }]);
    assert_eq!(names(&evs), vec!["response.refusal.delta"]);
    assert_eq!(s.refusal_text.as_deref(), Some("I can't."));
}

#[test]
fn streamed_usage_reads_back() {
    let (s, _) = drive(vec![finish()]);
    let u = build_responses_usage(&s.final_usage.unwrap());
    assert_eq!((u.input_tokens, u.output_tokens, u.total_tokens), (5, 7, 12));
    assert_eq!(u.input_tokens_details.unwrap().cached_tokens, 2);
    assert_eq!(u.output_tokens_details.unwrap().reasoning_tokens, 1);
}

#[test]
fn usage_of_an_empty_object() {
    let u = build_responses_usage(&object(vec![]));
    assert_eq!((u.input_tokens, u.output_tokens, u.total_tokens), (0, 0, 0));
}

fn chat(content: Option<&str>) -> ChatResponse {
    ChatResponse {
        id: "chatcmpl-9".into(),
        model: "m".into(),
        created: 77,
        choices: vec![Choice {
            index: 0,
            content: content.map(|s| s.to_string()),
            reasoning: None,
            tool_calls: vec![ToolCall {
                id: "c1".into(),
                name: "f".into(),
                arguments: object(vec![("x".into(), Json::UInt(1))]),
            }],
            refusal: None,
            finish_reason: FinishReason::Stop,
            matched_stop: None,
            logprobs: None,
        }],
        usage: usage(3, 4),
    }
}

fn incoming(role: &str, t: &str) -> IncomingMessage {
    IncomingMessage {
        role: role.into(),
        content: ParsedContent { text: t.into(), images: vec![] },
        tool_calls: None,
        tool_call_id: None,
        name: None,
        reasoning_content: None,
    }
}

#[test]
fn a_finished_chat_becomes_a_response() {
    let r = build_response(&chat(Some("see https://example.com")), None);
    assert_eq!(r.id, "resp_chatcmpl-9");
    assert_eq!(r.created_at, 77);
    assert_eq!(r.status, "completed");
    assert_eq!(r.usage.total_tokens, 7);
    assert_eq!(r.output.len(), 2);
    let message = r.output.iter().find_map(|i| match i {
        ResponsesOutputItem::Message { content, .. } => Some(content),
        _ => None,
    });
    match &message.unwrap()[0] {
        ResponsesContentPart::OutputText { text, annotations } => {
            assert_eq!(text, "see https://example.com");
            assert_eq!(annotations.as_ref().unwrap().len(), 1);
        }
    }
}

#[test]
fn only_a_blocking_outcome_is_translated() {
    let input = || vec![incoming("user", "hi")];
    let r = translate_chat_response_to_responses::<u8, u8>(
        ChatOutcome::Http(9),
        None,
        true,
        input(),
        None,
        true,
        None,
    );
    assert!(matches!(r, Err(NotTranslated::Forward(9))));
    let r = translate_chat_response_to_responses::<u8, u8>(
        ChatOutcome::Streaming(1),
        None,
        true,
        input(),
        None,
        true,
        None,
    );
    match r {
        Err(NotTranslated::Internal(m)) => assert_eq!(m, "internal: expected blocking outcome"),
        _ => panic!("expected an internal error"),
    }
    let r = translate_chat_response_to_responses::<u8, u8>(
        ChatOutcome::Blocking(chat(Some("yo"))),
        None,
        true,
        input(),
        Some(incoming("assistant", "yo")),
        true,
        Some(0),
    );
    let t = r.unwrap_or_else(|_| panic!("expected a translation"));
    assert_eq!(t.transcript.unwrap().len(), 2);
    assert_eq!(t.conversation_items.len(), 2);
}

#[test]
fn only_a_stream_is_streamed() {
    assert!(matches!(expect_streaming::<u8, u8>(ChatOutcome::Streaming(4)), Ok(4)));
    assert!(matches!(
        expect_streaming::<u8, u8>(ChatOutcome::Http(4)),
        Err(NotTranslated::Forward(4))
    ));
    assert!(matches!(
        expect_streaming::<u8, u8>(ChatOutcome::Blocking(chat(None))),
        Err(NotTranslated::Internal(_))
    ));
}

#[test]
fn new_items_of_a_conversation() {
    let messages = vec![incoming("user", "old"), incoming("user", "new")];
    let items = new_conversation_items(&messages, 1);
    assert_eq!(items.len(), 1);
    assert_eq!(items[0].get_str("role"), Some("user"));
    assert_eq!(
        to_json_text(&items[0]),
        "{\"content\":[{\"text\":\"new\",\"type\":\"input_text\"}],\"role\":\"user\",\"type\":\"message\"}"
    );
    assert!(new_conversation_items(&messages, 5).is_empty());
    assert_eq!(finished_turn_items(&messages, 1, &chat(Some("yo"))).len(), 2);
    assert_eq!(finished_turn_items(&messages, 1, &chat(None)).len(), 1);
}

#[test]
fn frames_end_at_an_empty_line() {
    assert_eq!(find_frame_end(b"data: x\n\nrest"), Some(7));
    assert_eq!(find_frame_end(b"\n\n\n"), Some(0));
    assert_eq!(find_frame_end(b"data: x\n"), None);
    assert_eq!(find_frame_end(b""), None);
}

#[test]
fn an_error_is_a_delta() {
    let out = handle_error("boom \"now\"");
    assert_eq!(out.len(), 1);
    match &out[0] {
        StreamDelta::Error { message } => {
            let j = parse_json(message).unwrap();
            let e = j.get("error").unwrap();
            assert_eq!(e.get_str("message"), Some("boom \"now\""));
            assert_eq!(*e.get("code").unwrap(), Json::UInt(500));
        }
        _ => panic!("expected an error"),
    }
}

#[test]
fn json_text_reads_back() {
    let j = parse_json("{\"b\":[1,-2,1.5,null,true],\"a\":\"x\"}").unwrap();
    assert_eq!(j.get_str("a"), Some("x"));
    assert_eq!(to_json_text(&j), "{\"a\":\"x\",\"b\":[1,-2,1.5,null,true]}");
    assert_eq!(parse_json(&to_json_text(&j)).unwrap(), j);
    assert!(parse_json("{").is_none());
    assert_eq!(to_json_text(&string("q\"")), "\"q\\\"\"");
}
