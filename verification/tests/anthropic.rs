//! The Anthropic Messages surface.

use spark_server::anthropic::convert::flatten_content;
use spark_server::anthropic::handlers::{
    choose_error_message, count_answer, forward_error, invalid_request,
    openai_error_to_anthropic, read_error_message, without_images,
};
use spark_server::anthropic::helpers::{anthropic_error, convert_stop_reason};
use spark_server::anthropic::translate::chat_to_anthropic_response;
use spark_server::anthropic::translator::{strip_id, AnthropicTranslator, SseEvent};
use spark_server::anthropic::types::{
    AnthropicContent, AnthropicTool, AnthropicToolChoice, ContentBlock, ImageSourceBlock,
    ResponseBlock, SystemBlock, SystemContent, ToolResultContent,
};
use spark_server::float::Float64;
use spark_server::ir::from_openai_response::{
    or_empty_object, parse_arguments, ChoiceView, FunctionView, MessageView, OpenAiResponseView, ToolCallView, UsageView,
};
use spark_server::ir::message::{ContentPart, ImageData, ImageSource, Message, Role};
use spark_server::ir::response::{FinishReason, Usage};
use spark_server::ir::stream::StreamDelta;
use spark_server::json::{array, object, string, to_json_text, Json};
use spark_server::tool_parser::{ToolChoice, ToolDefinition};

/// The value at a path of keys.
fn at(j: &Json, path: &[&str]) -> Json {
    let mut here = j.clone();
    for key in path {
        here = here.get(key).unwrap_or(&Json::Null).clone();
    }
    here
}

fn entry(key: &str, v: Json) -> (String, Json) {
    (key.to_string(), v)
}

fn usage(prompt: usize, completion: usize) -> Usage {
    Usage {
        prompt_tokens: prompt,
        completion_tokens: completion,
        cached_prompt_tokens: 0,
        reasoning_tokens: 0,
        time_to_first_token_ms: Float64 { bits: 0 },
        response_tokens_per_second: Float64 { bits: 0 },
    }
}

fn drive(deltas: Vec<StreamDelta>) -> Vec<SseEvent> {
    let mut t = AnthropicTranslator::new("m".to_string());
    let mut out = Vec::new();
    for d in &deltas {
        t.on_delta(d, &mut out);
    }
    t.finalize(&mut out);
    out
}

fn names(evs: &[SseEvent]) -> Vec<&str> {
    evs.iter().map(|e| e.event.as_str()).collect()
}

#[test]
fn text_stream_framing() {
    let evs = drive(vec![
        StreamDelta::Content {
            text: "Hi".into(),
            token_ids: Vec::new(),
        },
        StreamDelta::Finish {
            reason: FinishReason::Stop,
            usage: usage(3, 1),
            token_ids: Vec::new(),
        },
    ]);
    assert_eq!(
        names(&evs),
        vec![
            "message_start",
            "content_block_start",
            "content_block_delta",
            "content_block_stop",
            "message_delta",
            "message_stop",
        ]
    );
    assert_eq!(at(&evs[1].data, &["content_block", "type"]), string("text"));
    assert_eq!(at(&evs[2].data, &["delta", "type"]), string("text_delta"));
    assert_eq!(at(&evs[2].data, &["delta", "text"]), string("Hi"));
    assert_eq!(at(&evs[4].data, &["delta", "stop_reason"]), string("end_turn"));
    assert_eq!(at(&evs[4].data, &["usage", "output_tokens"]), Json::UInt(1));
    // The final message_delta patches input_tokens (usage arrives on
    // the terminal delta, after message_start already reported 0).
    assert_eq!(at(&evs[4].data, &["usage", "input_tokens"]), Json::UInt(3));
    assert_eq!(at(&evs[4].data, &["usage", "cache_read_input_tokens"]), Json::UInt(0));
    // message_start still opens with zero (usage unknown at that point)
    // and a minted msg_ id.
    assert_eq!(at(&evs[0].data, &["message", "usage", "input_tokens"]), Json::UInt(0));
    let id = at(&evs[0].data, &["message", "id"]);
    let id = id.as_str().unwrap();
    assert!(id.starts_with("msg_"), "unexpected id shape: {id}");
}

#[test]
fn thinking_then_text_framing() {
    let evs = drive(vec![
        StreamDelta::Reasoning {
            text: "think".into(),
            token_ids: Vec::new(),
        },
        StreamDelta::Content {
            text: "answer".into(),
            token_ids: Vec::new(),
        },
        StreamDelta::Finish {
            reason: FinishReason::Stop,
            usage: usage(0, 0),
            token_ids: Vec::new(),
        },
    ]);
    assert_eq!(
        names(&evs),
        vec![
            "message_start",
            "content_block_start",
            "content_block_delta",
            "content_block_stop",
            "content_block_start",
            "content_block_delta",
            "content_block_stop",
            "message_delta",
            "message_stop",
        ]
    );
    assert_eq!(at(&evs[1].data, &["content_block", "type"]), string("thinking"));
    assert_eq!(at(&evs[2].data, &["delta", "type"]), string("thinking_delta"));
    assert_eq!(at(&evs[2].data, &["delta", "thinking"]), string("think"));
    assert_eq!(at(&evs[5].data, &["delta", "type"]), string("text_delta"));
    assert_eq!(at(&evs[5].data, &["delta", "text"]), string("answer"));
}

#[test]
fn tool_call_stream_framing() {
    let evs = drive(vec![
        StreamDelta::ToolCallStart {
            index: 0,
            id: "call_1".into(),
            name: "get_weather".into(),
        },
        StreamDelta::ToolCallArgs {
            index: 0,
            fragment: "{\"city\":\"SF\"}".into(),
            token_ids: Vec::new(),
        },
        StreamDelta::Finish {
            reason: FinishReason::ToolCalls,
            usage: usage(0, 0),
            token_ids: Vec::new(),
        },
    ]);
    assert_eq!(
        names(&evs),
        vec![
            "message_start",
            "content_block_start",
            "content_block_delta",
            "content_block_stop",
            "message_delta",
            "message_stop",
        ]
    );
    assert_eq!(at(&evs[1].data, &["content_block", "type"]), string("tool_use"));
    assert_eq!(at(&evs[1].data, &["content_block", "name"]), string("get_weather"));
    assert_eq!(at(&evs[1].data, &["content_block", "id"]), string("call_1"));
    assert_eq!(at(&evs[2].data, &["delta", "type"]), string("input_json_delta"));
    assert_eq!(at(&evs[2].data, &["delta", "partial_json"]), string("{\"city\":\"SF\"}"));
    assert_eq!(at(&evs[4].data, &["delta", "stop_reason"]), string("tool_use"));
}

#[test]
fn multi_tool_calls_close_and_reopen_blocks() {
    // Two tool calls in one turn: the second start must close the first
    // block and open a fresh one at the next index (a client runs
    // each block once).
    let evs = drive(vec![
        StreamDelta::ToolCallStart {
            index: 0,
            id: "c1".into(),
            name: "read".into(),
        },
        StreamDelta::ToolCallArgs {
            index: 0,
            fragment: "{}".into(),
            token_ids: Vec::new(),
        },
        StreamDelta::ToolCallStart {
            index: 1,
            id: "c2".into(),
            name: "bash".into(),
        },
        StreamDelta::ToolCallArgs {
            index: 1,
            fragment: "{\"command\":\"ls\"}".into(),
            token_ids: Vec::new(),
        },
        StreamDelta::Finish {
            reason: FinishReason::ToolCalls,
            usage: usage(0, 2),
            token_ids: Vec::new(),
        },
    ]);
    assert_eq!(
        names(&evs),
        vec![
            "message_start",
            "content_block_start", // tool 0
            "content_block_delta",
            "content_block_stop",  // tool 0 closed by tool 1 start
            "content_block_start", // tool 1
            "content_block_delta",
            "content_block_stop",
            "message_delta",
            "message_stop",
        ]
    );
    assert_eq!(at(&evs[1].data, &["content_block", "id"]), string("c1"));
    assert_eq!(at(&evs[1].data, &["index"]), Json::UInt(0));
    assert_eq!(at(&evs[4].data, &["content_block", "id"]), string("c2"));
    assert_eq!(at(&evs[4].data, &["index"]), Json::UInt(1));
}

#[test]
fn finalize_without_finish_emits_end_turn() {
    // Upstream died before the Finish delta: finalize must still close
    // the block and end the message coherently.
    let mut t = AnthropicTranslator::new("m".to_string());
    let mut out = Vec::new();
    t.on_delta(
        &StreamDelta::Content {
            text: "partial".into(),
            token_ids: Vec::new(),
        },
        &mut out,
    );
    t.finalize(&mut out);
    assert_eq!(
        names(&out),
        vec![
            "message_start",
            "content_block_start",
            "content_block_delta",
            "content_block_stop",
            "message_delta",
            "message_stop",
        ]
    );
    assert_eq!(at(&out[4].data, &["delta", "stop_reason"]), string("end_turn"));
}

// ── chunks of an OpenAI stream ──

fn chunk(delta: Vec<(String, Json)>, finish: Option<&str>) -> Json {
    let finish_reason = match finish {
        Some(f) => string(f),
        None => Json::Null,
    };
    object(vec![
        entry("id", string("chatcmpl-7")),
        entry(
            "choices",
            array(vec![object(vec![
                entry("delta", object(delta)),
                entry("finish_reason", finish_reason),
            ])]),
        ),
    ])
}

#[test]
fn chunks_make_the_same_events_as_deltas() {
    let mut t = AnthropicTranslator::new("m".to_string());
    let mut out = Vec::new();
    t.process_openai_chunk(&chunk(vec![entry("content", string("Hi"))], None), &mut out);
    t.process_openai_chunk(&chunk(vec![], Some("length")), &mut out);
    t.finalize(&mut out);
    assert_eq!(
        names(&out),
        vec![
            "message_start",
            "content_block_start",
            "content_block_delta",
            "content_block_stop",
            "message_delta",
            "message_stop",
        ]
    );
    assert_eq!(at(&out[0].data, &["message", "id"]), string("msg_7"));
    assert_eq!(at(&out[2].data, &["delta", "text"]), string("Hi"));
    assert_eq!(at(&out[4].data, &["delta", "stop_reason"]), string("max_tokens"));
}

#[test]
fn one_chunk_may_hold_every_kind_of_block() {
    let call = |index: u64, name: &str, args: &str| {
        object(vec![
            entry("index", Json::UInt(index)),
            entry("id", string("call")),
            entry(
                "function",
                object(vec![entry("name", string(name)), entry("arguments", string(args))]),
            ),
        ])
    };
    let mut t = AnthropicTranslator::new("m".into());
    let mut out = Vec::new();
    t.process_openai_chunk(
        &chunk(
            vec![
                entry("reasoning_content", string("hm")),
                entry("content", string("Hi")),
                entry("tool_calls", array(vec![call(0, "ls", "{}"), call(1, "cat", "")])),
            ],
            Some("tool_calls"),
        ),
        &mut out,
    );
    t.finalize(&mut out);
    assert_eq!(
        names(&out),
        vec![
            "message_start",
            "content_block_start",
            "content_block_delta",
            "content_block_stop",
            "content_block_start",
            "content_block_delta",
            "content_block_stop",
            "content_block_start",
            "content_block_delta",
            "content_block_stop",
            "content_block_start",
            "content_block_stop",
            "message_delta",
            "message_stop",
        ]
    );
    let indices: Vec<Json> = out[1..12].iter().map(|e| at(&e.data, &["index"])).collect();
    let want: Vec<Json> = [0, 0, 0, 1, 1, 1, 2, 2, 2, 3, 3].map(Json::UInt).to_vec();
    assert_eq!(indices, want);
}

#[test]
fn a_stream_ends_once() {
    let mut t = AnthropicTranslator::with_id("m".to_string(), "chatcmpl-1".to_string());
    let mut out = Vec::new();
    t.finalize(&mut out);
    let n = out.len();
    t.finalize(&mut out);
    assert_eq!(out.len(), n);
    assert_eq!(t.block_index(), 0);
}

#[test]
fn ids_lose_their_prefix() {
    assert_eq!(strip_id("chatcmpl-abc"), "abc");
    assert_eq!(strip_id("chatcmpl-chatcmpl-abc"), "abc");
    assert_eq!(strip_id("abc"), "abc");
}

// ── finished responses ──

fn body(id: &str, message: MessageView, finish: &str, usage: (usize, usize)) -> OpenAiResponseView {
    OpenAiResponseView {
        id: id.into(),
        usage: UsageView {
            prompt_tokens: usage.0,
            completion_tokens: usage.1,
        },
        choices: vec![ChoiceView {
            message,
            finish_reason: Some(finish.into()),
        }],
    }
}

fn said(content: &str) -> MessageView {
    MessageView {
        content: Some(content.into()),
        reasoning_content: None,
        reasoning: None,
        tool_calls: Vec::new(),
    }
}

#[test]
fn response_maps_reasoning_text_tools_and_usage() {
    let message = MessageView {
        reasoning_content: Some("thinking".into()),
        tool_calls: vec![ToolCallView {
            id: "c1".into(),
            function: FunctionView {
                name: "f".into(),
                arguments: "{\"x\":1}".into(),
            },
        }],
        ..said("hello")
    };
    let r = chat_to_anthropic_response(
        body("chatcmpl-abc", message, "tool_calls", (10, 5)),
        "m".into(),
    );
    assert_eq!(r.id, "msg_abc");
    assert_eq!(r.model, "m");
    assert_eq!(r.stop_reason.as_deref(), Some("tool_use"));
    assert_eq!(r.usage.input_tokens, 10);
    assert_eq!(r.usage.output_tokens, 5);
    assert_eq!(r.content.len(), 3);
    match &r.content[0] {
        ResponseBlock::Thinking { thinking } => assert_eq!(thinking, "thinking"),
        _ => panic!("expected thinking"),
    }
    match &r.content[1] {
        ResponseBlock::Text { text } => assert_eq!(text, "hello"),
        _ => panic!("expected text"),
    }
    match &r.content[2] {
        ResponseBlock::ToolUse { name, input, .. } => {
            assert_eq!(name, "f");
            assert_eq!(*input, object(vec![entry("x", Json::UInt(1))]));
        }
        _ => panic!("expected a tool use"),
    }
}

#[test]
fn response_missing_id_becomes_msg_unknown() {
    let r = chat_to_anthropic_response(body("", said("hi"), "stop", (0, 0)), "m".into());
    assert_eq!(r.id, "msg_unknown");
    assert_eq!(r.stop_reason.as_deref(), Some("end_turn"));
    match &r.content[0] {
        ResponseBlock::Text { text } => assert_eq!(text, "hi"),
        _ => panic!("expected text"),
    }
}

#[test]
fn response_empty_content_omits_text_block() {
    let r = chat_to_anthropic_response(body("chatcmpl-x", said(""), "stop", (0, 0)), "m".into());
    assert_eq!(r.content.len(), 0);
}

// ── requests ──

#[test]
fn content_is_flattened() {
    let content = AnthropicContent::Blocks(vec![
        ContentBlock::Text { text: "a".into() },
        ContentBlock::ToolUse {
            id: "t1".into(),
            name: "f".into(),
            input: object(vec![entry("x", Json::UInt(1))]),
        },
        ContentBlock::Unknown,
        ContentBlock::Text { text: "b".into() },
    ]);
    let (text, calls) = flatten_content(&content);
    assert_eq!(text, "ab");
    assert_eq!(calls.len(), 1);
    assert_eq!(calls[0].id.as_deref(), Some("t1"));
    assert_eq!(calls[0].function.name, "f");
    assert_eq!(calls[0].function.arguments, "{\"x\":1}");
    let (text, calls) = flatten_content(&AnthropicContent::Text("plain".into()));
    assert_eq!(text, "plain");
    assert!(calls.is_empty());
}

#[test]
fn image_sources_become_uris() {
    let block = |kind: &str, media: Option<&str>, data: Option<&str>, url: Option<&str>| {
        ImageSourceBlock {
            source_type: kind.into(),
            media_type: media.map(|s| s.to_string()),
            data: data.map(|s| s.to_string()),
            url: url.map(|s| s.to_string()),
        }
    };
    assert_eq!(
        block("base64", Some("image/png"), Some("AAA"), None).to_image_uri().as_deref(),
        Some("data:image/png;base64,AAA")
    );
    assert_eq!(
        block("url", None, None, Some("https://example.com/a.png")).to_image_uri().as_deref(),
        Some("https://example.com/a.png")
    );
    assert_eq!(block("file", None, None, None).to_image_uri(), None);
}

#[test]
fn texts_of_blocks() {
    assert_eq!(SystemContent::Text("s".into()).to_text(), "s");
    let blocks = SystemContent::Blocks(vec![
        SystemBlock { block_type: "text".into(), text: Some("a".into()) },
        SystemBlock { block_type: "text".into(), text: None },
        SystemBlock { block_type: "text".into(), text: Some("b".into()) },
    ]);
    assert_eq!(blocks.to_text(), "a\nb");
    assert_eq!(ToolResultContent::Text("r".into()).to_text(), "r");
}

#[test]
fn tools_and_choices_are_translated() {
    let tool = AnthropicTool {
        name: "f".into(),
        description: Some("d".into()),
        input_schema: object(vec![entry("type", string("object"))]),
    };
    let def = ToolDefinition::from(&tool);
    assert_eq!(def.tool_type, "function");
    assert_eq!(def.function.name, "f");
    let choice = |kind: &str, name: Option<&str>| {
        ToolChoice::from(&AnthropicToolChoice {
            choice_type: kind.into(),
            name: name.map(|s| s.to_string()),
        })
    };
    assert_eq!(choice("any", None), ToolChoice::Mode("required".into()));
    assert_eq!(choice("none", None), ToolChoice::Mode("none".into()));
    assert_eq!(choice("auto", None), ToolChoice::Mode("auto".into()));
    match choice("tool", Some("f")) {
        ToolChoice::Specific { function } => assert_eq!(function.name, "f"),
        other => panic!("expected a specific tool, got {other:?}"),
    }
}

#[test]
fn stop_reasons() {
    assert_eq!(convert_stop_reason("stop"), "end_turn");
    assert_eq!(convert_stop_reason("length"), "max_tokens");
    assert_eq!(convert_stop_reason("tool_calls"), "tool_use");
}

// ── errors and counts ──

#[test]
fn errors_change_shape() {
    let e = openai_error_to_anthropic(
        429,
        Ok(b"{\"error\":{\"message\":\"slow down\"}}".as_slice()),
    );
    assert_eq!(at(&e, &["type"]), string("error"));
    assert_eq!(at(&e, &["error", "type"]), string("invalid_request_error"));
    assert_eq!(at(&e, &["error", "message"]), string("slow down"));
    let e = openai_error_to_anthropic(500, Err("gone".to_string()));
    assert_eq!(at(&e, &["error", "type"]), string("api_error"));
    assert_eq!(at(&e, &["error", "message"]), string("Error body collect: gone"));
}

#[test]
fn a_body_without_an_envelope_is_its_own_message() {
    assert_eq!(read_error_message(b"oops"), "oops");
    assert_eq!(read_error_message(b"{\"detail\":1}"), "{\"detail\":1}");
    assert_eq!(read_error_message(&[0x66, 0xff]), "f\u{FFFD}");
}

#[test]
fn errors_are_forwarded_with_their_status() {
    let (status, e) = forward_error(404, Ok(b"no such model".as_slice()));
    assert_eq!(status, 404);
    assert_eq!(e, anthropic_error("api_error", "no such model"));
    assert_eq!(forward_error(404, Err("x".to_string())).0, 500);
    let (status, e) = invalid_request("eof");
    assert_eq!(status, 400);
    assert_eq!(at(&e, &["error", "message"]), string("Invalid request JSON: eof"));
}

#[test]
fn tokens_are_counted_without_images() {
    let m = Message {
        role: Role::User,
        content: vec![
            ContentPart::Image(ImageSource { data: ImageData::Base64("x".into()) }),
            ContentPart::Text("a".into()),
        ],
        tool_calls: Vec::new(),
        tool_call_id: None,
        name: None,
        reasoning: None,
        tool_error: false,
    };
    let out = without_images(vec![m]);
    assert_eq!(out[0].content, vec![ContentPart::Text("a".into())]);
    assert_eq!(to_json_text(&count_answer(7)), "{\"input_tokens\":7}");
}

#[test]
fn the_envelope_goes_before_the_text() {
    let body = object(vec![entry(
        "error",
        object(vec![entry("message", string("no"))]),
    )]);
    assert_eq!(choose_error_message(Some(body), "raw".into()), "no");
    assert_eq!(choose_error_message(Some(Json::Null), "raw".into()), "raw");
    assert_eq!(choose_error_message(None, "raw".into()), "raw");
}

#[test]
fn arguments_are_an_object_in_any_case() {
    assert_eq!(parse_arguments("{\"x\":1}"), object(vec![entry("x", Json::UInt(1))]));
    assert_eq!(parse_arguments("{"), object(vec![]));
    assert_eq!(or_empty_object(Some(Json::Bool(true))), Json::Bool(true));
    assert_eq!(or_empty_object(None), object(vec![]));
}
