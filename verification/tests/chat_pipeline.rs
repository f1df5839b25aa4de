//! The way of a chat request through the server.

use spark_server::api::chat::echo::ResponseEcho;
use spark_server::api::chat::pipeline::{resolve_lang, Action, ChatPipeline, Event, RequestFacts, Stage};
use spark_server::float::Float32;
use spark_server::openai::chat_request::{ChatCompletionRequest, StreamOptions};
use tokenizers::Tokenizer;

fn facts() -> RequestFacts {
    RequestFacts {
        src_lang: None,
        tgt_lang: None,
        num_beams: None,
        length_penalty: None,
        early_stopping: None,
        stream: false,
        max_seq_len: 100,
    }
}

fn tokenizer() -> Tokenizer {
    Tokenizer::from_bytes(
        br#"{"version": "1.0", "truncation": null, "padding": null,
            "added_tokens": [{"id": 3, "content": "fra", "single_word": false,
                "lstrip": false, "rstrip": false, "normalized": false, "special": true}],
            "normalizer": null, "pre_tokenizer": null, "post_processor": null, "decoder": null,
            "model": {"type": "WordLevel", "vocab": {"<unk>": 0, "deu": 7, "eng": 4},
                "unk_token": "<unk>"}}"#,
    )
    .unwrap()
}

type Ev = Event<u16>;

#[test]
fn a_sound_request_runs() {
    let t = tokenizer();
    let mut p = ChatPipeline::new(facts());
    assert!(matches!(p.advance(Ev::Validated(Ok(())), &t), Action::ResolveAdapter));
    assert!(matches!(p.advance(Ev::AdapterSlot(Ok(3)), &t), Action::Prepare));
    assert!(matches!(p.advance(Ev::Prepared(Ok(99)), &t), Action::SetUpSampling));
    assert!(matches!(p.advance(Ev::SamplingSet(Ok(())), &t), Action::RunBlocking));
    assert_eq!(p.resolved.adapter_slot, 3);
    assert_eq!(p.resolved.num_beams, 1);
    assert_eq!(p.resolved.length_penalty, Float32 { bits: 1.0f32.to_bits() });
    assert_eq!(p.stage, Stage::Done);
    assert!(matches!(p.advance(Ev::Validated(Ok(())), &t), Action::Ignore));
}

#[test]
fn a_stream_runs_as_one() {
    let t = tokenizer();
    let mut p = ChatPipeline::new(RequestFacts { stream: true, ..facts() });
    p.advance(Ev::Validated(Ok(())), &t);
    p.advance(Ev::AdapterSlot(Ok(-1)), &t);
    p.advance(Ev::Prepared(Ok(1)), &t);
    assert!(matches!(p.advance(Ev::SamplingSet(Ok(())), &t), Action::RunStreaming));
}

#[test]
fn a_request_that_fails_before_dispatch_is_answered() {
    let t = tokenizer();
    let mut p = ChatPipeline::new(facts());
    assert!(matches!(p.advance(Ev::Validated(Err(400)), &t), Action::Answer(400)));
    assert_eq!(p.stage, Stage::Done);
    let mut p = ChatPipeline::new(facts());
    p.advance(Ev::Validated(Ok(())), &t);
    assert!(matches!(p.advance(Ev::AdapterSlot(Err(404)), &t), Action::Answer(404)));
    let mut p = ChatPipeline::new(facts());
    p.advance(Ev::Validated(Ok(())), &t);
    p.advance(Ev::AdapterSlot(Ok(-1)), &t);
    assert!(matches!(p.advance(Ev::Prepared(Err(422)), &t), Action::Answer(422)));
    let mut p = ChatPipeline::new(facts());
    p.advance(Ev::Validated(Ok(())), &t);
    p.advance(Ev::AdapterSlot(Ok(-1)), &t);
    p.advance(Ev::Prepared(Ok(1)), &t);
    assert!(matches!(p.advance(Ev::SamplingSet(Err(500)), &t), Action::Answer(500)));
    assert!(matches!(p.advance(Ev::SamplingSet(Err(500)), &t), Action::Ignore));
}

#[test]
fn languages_are_looked_up_in_turn() {
    let t = tokenizer();
    let mut p = ChatPipeline::new(RequestFacts {
        src_lang: Some("deu".into()),
        tgt_lang: Some("eng".into()),
        ..facts()
    });
    p.advance(Ev::Validated(Ok(())), &t);
    assert!(matches!(p.advance(Ev::AdapterSlot(Ok(-1)), &t), Action::Prepare));
    assert_eq!(p.resolved.src_lang_id, 7);
    assert_eq!(p.resolved.tgt_lang_id, 4);
}

#[test]
fn an_unknown_language_is_refused() {
    let t = tokenizer();
    for (src, tgt, unknown) in [("deu", "xyz", "xyz"), ("abc", "xyz", "abc")] {
        let mut p = ChatPipeline::new(RequestFacts {
            src_lang: Some(src.into()),
            tgt_lang: Some(tgt.into()),
            ..facts()
        });
        p.advance(Ev::Validated(Ok(())), &t);
        match p.advance(Ev::AdapterSlot(Ok(-1)), &t) {
            Action::Refuse(m) => assert_eq!(m, format!("unknown language token '{unknown}'")),
            _ => panic!("expected a refusal"),
        }
        assert_eq!(p.stage, Stage::Done);
    }
}

#[test]
fn a_language_may_be_an_added_token() {
    let t = tokenizer();
    assert_eq!(resolve_lang(&t, &Some("fra".to_string())), Ok(3));
    assert_eq!(resolve_lang(&t, &None), Ok(0));
    assert_eq!(
        resolve_lang(&t, &Some(String::new())),
        Err("unknown language token ''".to_string())
    );
}

#[test]
fn beams_do_not_stream() {
    let t = tokenizer();
    let mut p = ChatPipeline::new(RequestFacts {
        num_beams: Some(4),
        stream: true,
        ..facts()
    });
    p.advance(Ev::Validated(Ok(())), &t);
    match p.advance(Ev::AdapterSlot(Ok(-1)), &t) {
        Action::Refuse(m) => assert_eq!(m, "num_beams > 1 is not supported in streaming mode"),
        _ => panic!("expected a refusal"),
    }
}

#[test]
fn a_long_prompt_is_refused() {
    let t = tokenizer();
    let mut p = ChatPipeline::new(facts());
    p.advance(Ev::Validated(Ok(())), &t);
    p.advance(Ev::AdapterSlot(Ok(-1)), &t);
    match p.advance(Ev::Prepared(Ok(100)), &t) {
        Action::Refuse(m) => assert_eq!(
            m,
            "Prompt too long: 100 tokens exceeds max_seq_len 100 (leave room for output tokens)"
        ),
        _ => panic!("expected a refusal"),
    }
}

#[test]
fn the_echo_of_a_request() {
    let req = ChatCompletionRequest {
        model: "m".into(),
        messages: vec![],
        tools: None,
        tool_choice: None,
        temperature: None,
        top_k: None,
        top_p: None,
        top_n_sigma: None,
        min_p: None,
        repetition_penalty: None,
        presence_penalty: None,
        frequency_penalty: None,
        max_tokens: 1,
        min_tokens: 0,
        stop: vec![],
        stream: true,
        stream_options: Some(StreamOptions { include_usage: true }),
        n: 1,
        response_format: None,
        thinking: None,
        thinking_token_budget: None,
        reasoning: None,
        chat_template_kwargs: None,
        enable_thinking: false,
        repetition_detection: None,
        adapter: None,
        src_lang: None,
        tgt_lang: None,
        num_beams: None,
        length_penalty: None,
        early_stopping: None,
        logit_bias: None,
        logprobs: None,
        top_logprobs: None,
        seed: None,
        timeout: None,
        return_token_ids: false,
        service_tier: Some("auto".into()),
        store: None,
        metadata: Some(vec![("k".into(), "v".into())]),
    };
    let e = ResponseEcho::from_wire(&req);
    assert_eq!(e.service_tier.as_deref(), Some("auto"));
    assert_eq!(e.metadata.unwrap(), vec![("k".to_string(), "v".to_string())]);
    assert!(!e.store);
    assert!(e.include_usage);
}
