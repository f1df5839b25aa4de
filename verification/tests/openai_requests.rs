//! Chat completion requests.

use spark_server::float::Float32;
use spark_server::ir::request::{ResponseFormat as Shape, ThinkingDirective};
use spark_server::json::{object, string, Json};
use spark_server::openai::chat_message::{IncomingMessage, ParsedContent};
use spark_server::openai::chat_request::{
    ChatCompletionRequest, ChatTemplateKwargs, JsonSchemaSpec, ReasoningConfig, ResponseFormat,
    ThinkingParam,
};
use spark_server::openai::responses::{
    responses_event_name, ResponsesStreamEnvelope, ResponsesStreamEvent,
};
use spark_server::openai::to_ir::resolve_top_logprobs;
use spark_server::openai::{new_chunk_id, new_completion_id};

fn float(f: f32) -> Float32 {
    Float32 { bits: f.to_bits() }
}

/// A request with one user message and nothing else set.
fn base() -> ChatCompletionRequest {
    ChatCompletionRequest {
        model: "test".into(),
        messages: vec![IncomingMessage {
            role: "user".into(),
            content: ParsedContent {
                text: "hi".into(),
                images: Vec::new(),
            },
            tool_calls: None,
            tool_call_id: None,
            name: None,
            reasoning_content: None,
        }],
        tools: None,
        tool_choice: None,
        temperature: None,
        top_k: None,
        top_p: None,
        top_n_sigma: None,
        min_p: None,
        repetition_penalty: None,
        presence_penalty: None,
        frequency_penalty: None,
        max_tokens: 4096,
        min_tokens: 0,
        stop: Vec::new(),
        stream: false,
        stream_options: None,
        n: 1,
        response_format: None,
        thinking: None,
        thinking_token_budget: None,
        reasoning: None,
        chat_template_kwargs: None,
        enable_thinking: false,
        repetition_detection: None,
        adapter: None,
        src_lang: None,
        tgt_lang: None,
        num_beams: None,
        length_penalty: None,
        early_stopping: None,
        logit_bias: None,
        logprobs: None,
        top_logprobs: None,
        seed: None,
        timeout: None,
        return_token_ids: false,
        service_tier: None,
        store: None,
        metadata: None,
    }
}

fn with_thinking(kind: &str, budget_tokens: Option<u32>) -> ChatCompletionRequest {
    ChatCompletionRequest {
        thinking: Some(ThinkingParam {
            thinking_type: kind.into(),
            budget_tokens,
        }),
        ..base()
    }
}

fn with_kwargs(
    enable_thinking: Option<bool>,
    thinking_budget: Option<u32>,
) -> ChatCompletionRequest {
    ChatCompletionRequest {
        chat_template_kwargs: Some(ChatTemplateKwargs {
            enable_thinking,
            thinking_budget,
        }),
        ..base()
    }
}

#[test]
fn silent_request_is_unspecified() {
    let req = base();
    assert_eq!(
        req.client_thinking_directive(),
        ThinkingDirective::Unspecified
    );
    assert!(!req.client_thinking_directive().is_explicit());
}

#[test]
fn anthropic_thinking_channel() {
    // type=disabled wins even with a budget present.
    assert_eq!(
        with_thinking("disabled", Some(100)).client_thinking_directive(),
        ThinkingDirective::Off
    );
    assert_eq!(
        with_thinking("enabled", Some(512)).client_thinking_directive(),
        ThinkingDirective::On { budget: Some(512) }
    );
    // Without a budget the model thinks as long as it needs.
    assert_eq!(
        with_thinking("adaptive", None).client_thinking_directive(),
        ThinkingDirective::On { budget: None }
    );
}

#[test]
fn thinking_token_budget_channel() {
    let req = ChatCompletionRequest {
        thinking_token_budget: Some(512),
        ..base()
    };
    assert_eq!(
        req.client_thinking_directive(),
        ThinkingDirective::On { budget: Some(512) }
    );
    let req = ChatCompletionRequest {
        thinking_token_budget: Some(0),
        ..base()
    };
    assert_eq!(req.client_thinking_directive(), ThinkingDirective::Off);
}

#[test]
fn reasoning_effort_channel() {
    for (effort, expect) in [
        ("none", ThinkingDirective::Off),
        ("minimal", ThinkingDirective::On { budget: Some(64) }),
        ("low", ThinkingDirective::On { budget: Some(128) }),
        ("medium", ThinkingDirective::On { budget: Some(256) }),
        ("high", ThinkingDirective::On { budget: Some(512) }),
        ("xhigh", ThinkingDirective::On { budget: Some(1024) }),
        ("max", ThinkingDirective::On { budget: Some(1024) }),
        // Unknown efforts fall back to the conservative default budget.
        ("bogus", ThinkingDirective::On { budget: Some(256) }),
    ] {
        let req = ChatCompletionRequest {
            reasoning: Some(ReasoningConfig {
                effort: Some(effort.into()),
            }),
            ..base()
        };
        assert_eq!(req.client_thinking_directive(), expect, "effort={effort}");
    }
}

#[test]
fn chat_template_kwargs_channel() {
    // The budget wins over the flag.
    assert_eq!(
        with_kwargs(Some(false), Some(1024)).client_thinking_directive(),
        ThinkingDirective::On { budget: Some(1024) }
    );
    assert_eq!(
        with_kwargs(None, Some(0)).client_thinking_directive(),
        ThinkingDirective::Off
    );
    // Without a budget the model's own limit holds.
    assert_eq!(
        with_kwargs(Some(true), None).client_thinking_directive(),
        ThinkingDirective::On { budget: None }
    );
    assert_eq!(
        with_kwargs(Some(false), None).client_thinking_directive(),
        ThinkingDirective::Off
    );
    // Empty kwargs carry no intent.
    assert_eq!(
        with_kwargs(None, None).client_thinking_directive(),
        ThinkingDirective::Unspecified
    );
}

#[test]
fn legacy_enable_thinking_channel() {
    let req = ChatCompletionRequest {
        enable_thinking: true,
        ..base()
    };
    assert_eq!(
        req.client_thinking_directive(),
        ThinkingDirective::On { budget: None }
    );
    // `false` cannot be told from absent, so it is no opt-out.
    let req = ChatCompletionRequest {
        enable_thinking: false,
        ..base()
    };
    assert_eq!(
        req.client_thinking_directive(),
        ThinkingDirective::Unspecified
    );
}

#[test]
fn envelope_lowers_scalars_and_parses_logit_bias() {
    let req = ChatCompletionRequest {
        model: "m".into(),
        max_tokens: 64,
        temperature: Some(float(0.5)),
        logit_bias: Some(vec![
            ("42".into(), float(1.5)),
            ("not-a-token".into(), float(-1.0)),
        ]),
        logprobs: Some(true),
        stop: vec!["END".into()],
        seed: Some(7),
        n: 2,
        ..base()
    };
    let ir = req.into_ir();
    assert_eq!(ir.model, "m");
    assert_eq!(ir.messages.len(), 1);
    assert_eq!(ir.max_tokens, 64);
    assert_eq!(ir.sampling.temperature, Some(float(0.5)));
    // Keys that are no numbers are dropped.
    assert_eq!(ir.logit_bias, vec![(42, float(1.5))]);
    // `logprobs` alone asks for the sampled token only.
    assert_eq!(ir.top_logprobs, Some(0));
    assert_eq!(ir.stop, vec!["END".to_string()]);
    assert_eq!(ir.seed, Some(7));
    assert_eq!(ir.n, 2);
    assert!(ir.tools.is_empty());
    assert!(ir.response_format.is_none());
}

#[test]
fn envelope_maps_text_response_format_to_none() {
    let req = ChatCompletionRequest {
        response_format: Some(ResponseFormat::Text),
        ..base()
    };
    assert!(req.into_ir().response_format.is_none());

    let schema = || object(vec![("type".into(), string("object"))]);
    let req = ChatCompletionRequest {
        response_format: Some(ResponseFormat::JsonSchema {
            json_schema: JsonSchemaSpec {
                name: "s".into(),
                schema: schema(),
                strict: true,
            },
        }),
        ..base()
    };
    match req.into_ir().response_format {
        Some(Shape::JsonSchema {
            name,
            schema: found,
            strict,
        }) => {
            assert_eq!(name, "s");
            assert_eq!(found, schema());
            assert!(strict);
        }
        other => panic!("expected JsonSchema, got {other:?}"),
    }
    let req = ChatCompletionRequest {
        response_format: Some(ResponseFormat::JsonObject),
        ..base()
    };
    assert!(matches!(
        req.into_ir().response_format,
        Some(Shape::JsonObject)
    ));
}

#[test]
fn resolve_top_logprobs_matrix() {
    assert_eq!(resolve_top_logprobs(Some(true), None), Some(0));
    assert_eq!(resolve_top_logprobs(None, Some(5)), Some(5));
    assert_eq!(resolve_top_logprobs(Some(false), Some(3)), Some(3));
    assert_eq!(resolve_top_logprobs(Some(true), Some(99)), Some(20));
    assert_eq!(resolve_top_logprobs(None, None), None);
    assert_eq!(resolve_top_logprobs(Some(false), None), None);
}

#[test]
fn ids_carry_their_prefix() {
    assert_eq!(new_completion_id("ab12"), "cmpl-ab12");
    assert_eq!(new_chunk_id("ab12"), "chatcmpl-ab12");
}

fn in_progress() -> ResponsesStreamEvent {
    ResponsesStreamEvent::InProgress {
        sequence_number: 1,
        response: ResponsesStreamEnvelope {
            id: "resp_test".into(),
            object: "response",
            created_at: 0,
            model: "m".into(),
            status: "in_progress",
            metadata: None,
        },
    }
}

#[test]
fn tests_responses_in_progress_event_name() {
    assert_eq!(responses_event_name(&in_progress()), "response.in_progress");
}

#[test]
fn responses_responses_in_progress_event_name() {
    assert_eq!(responses_event_name(&in_progress()), "response.in_progress");
}

#[test]
fn failed_event_name() {
    let ResponsesStreamEvent::InProgress { response, .. } = in_progress() else {
        panic!("another event");
    };
    let ev = ResponsesStreamEvent::Failed {
        sequence_number: 2,
        response,
        error: Json::Null,
    };
    assert_eq!(responses_event_name(&ev), "response.failed");
}
