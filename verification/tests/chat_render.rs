//! Prompts through a model's own template.

use minijinja::{Environment, Error, ErrorKind};
use spark_server::json::{array, object, string, Json};
use spark_server::tokenizer::chat_render::{
    continues_final, effort_synonym, finish_prompt, is_effort_rejection, judge_attempt,
    render_chat, render_context, resolve_effort, Attempt, Complaint, Prepared, RenderFlags,
};

/// A template that knows the efforts `low`, `medium` and `xhigh`.
const KNOWS_XHIGH: &str = "{%- if enable_thinking -%}\
    {%- if reasoning_effort not in ('xhigh', 'medium', 'low') -%}\
    {{- raise_exception('Unexpected reasoning effort ' + reasoning_effort) -}}\
    {%- endif -%}\
    {%- if reasoning_effort != 'medium' -%}Reasoning effort is set to {{ reasoning_effort }}.{%- endif -%}\
    {%- endif -%}\
    {%- for m in messages -%}<|im_start|>{{ m.role }}:{{ m.content }}<|im_end|>\n{% endfor -%}\
    {%- if add_generation_prompt -%}<|im_start|>assistant:{%- endif -%}";

/// A template that knows the efforts `none` and `high`.
const KNOWS_HIGH: &str = "{%- if reasoning_effort not in ('none', 'high') -%}\
    {{- raise_exception('reasoning_effort must be either none or high') -}}\
    {%- endif -%}[{{ reasoning_effort }}]";

fn env(template: &'static str) -> Environment<'static> {
    let mut env = Environment::new();
    env.add_function("raise_exception", |msg: String| -> Result<String, Error> {
        Err(Error::new(ErrorKind::InvalidOperation, msg))
    });
    env.add_function("raise_deep", |msg: String| -> Result<String, Error> {
        let cause = Error::new(ErrorKind::InvalidOperation, msg);
        Err(Error::new(ErrorKind::InvalidOperation, "bad value").with_source(cause))
    });
    env.add_template("chat", template).unwrap();
    env
}

fn message(role: &str, content: &str) -> Json {
    object(vec![
        ("role".into(), string(role)),
        ("content".into(), string(content)),
    ])
}

fn thinking(effort: Option<&str>) -> RenderFlags {
    RenderFlags {
        enable_thinking: true,
        reasoning_effort: effort.map(|s| s.to_string()),
        ..Default::default()
    }
}

fn render(template: &'static str, messages: &[Json], flags: &RenderFlags) -> Result<String, String> {
    let prepared = Prepared {
        messages: array(messages.to_vec()),
        enable_thinking: flags.enable_thinking,
    };
    render_chat(&env(template), &messages.to_vec(), &prepared, &None, flags)
}

fn hi(template: &'static str, flags: &RenderFlags) -> Result<String, String> {
    render(template, &[message("user", "hi")], flags)
}

#[test]
fn high_is_retried_as_xhigh() {
    let out = hi(KNOWS_XHIGH, &thinking(Some("high"))).unwrap();
    assert!(out.contains("Reasoning effort is set to xhigh."), "{out}");
    assert_eq!(out, hi(KNOWS_XHIGH, &thinking(Some("xhigh"))).unwrap());
}

#[test]
fn xhigh_is_retried_as_high() {
    assert_eq!(hi(KNOWS_HIGH, &thinking(Some("xhigh"))).unwrap(), "[high]");
}

#[test]
fn other_efforts_are_rendered_as_they_are() {
    let low = hi(KNOWS_XHIGH, &thinking(Some("low"))).unwrap();
    assert!(low.contains("Reasoning effort is set to low."), "{low}");
    let medium = hi(KNOWS_XHIGH, &thinking(Some("medium"))).unwrap();
    assert!(!medium.contains("Reasoning effort is set to"), "{medium}");
}

#[test]
fn unset_effort_is_the_neutral_tier() {
    let out = hi(KNOWS_XHIGH, &thinking(None)).unwrap();
    assert_eq!(out, "<|im_start|>user:hi<|im_end|>\n<|im_start|>assistant:");
    assert_eq!(hi(KNOWS_HIGH, &RenderFlags::default()).unwrap(), "[none]");
}

#[test]
fn an_unknown_effort_still_fails() {
    let msg = hi(KNOWS_XHIGH, &thinking(Some("turbo"))).unwrap_err();
    assert!(msg.starts_with("Failed to render Jinja chat template: "), "{msg}");
    assert!(msg.contains("Unexpected reasoning effort turbo"), "{msg}");
    let msg = hi(KNOWS_HIGH, &thinking(Some("low"))).unwrap_err();
    assert!(msg.contains("reasoning_effort must be either"), "{msg}");
}

#[test]
fn other_complaints_are_not_retried() {
    let msg = hi("{{ raise_exception('no system role') }}", &thinking(Some("high"))).unwrap_err();
    assert!(msg.contains("no system role"), "{msg}");
}

#[test]
fn the_causes_of_an_error_are_read() {
    const T: &str = "{% if reasoning_effort == 'high' %}\
                     {{ raise_deep('unknown reasoning effort') }}\
                     {% endif %}[{{ reasoning_effort }}]";
    assert_eq!(hi(T, &thinking(Some("high"))).unwrap(), "[xhigh]");
    const U: &str = "{{ raise_deep('out of memory') }}";
    let msg = hi(U, &thinking(Some("high"))).unwrap_err();
    assert!(msg.contains("bad value"), "{msg}");
}

#[test]
fn a_failed_retry_reports_its_own_error() {
    const T: &str = "{{ raise_exception('reasoning effort ' + reasoning_effort) }}";
    let msg = hi(T, &thinking(Some("high"))).unwrap_err();
    assert!(msg.contains("reasoning effort xhigh"), "{msg}");
}

#[test]
fn a_missing_template_is_reported() {
    let prepared = Prepared {
        messages: array(vec![]),
        enable_thinking: false,
    };
    let r = render_chat(
        &Environment::new(),
        &Vec::new(),
        &prepared,
        &None,
        &RenderFlags::default(),
    );
    assert_eq!(r.unwrap_err(), "Failed to get compiled template");
}

#[test]
fn a_last_assistant_message_is_continued() {
    let flags = RenderFlags {
        allow_continue_final: true,
        ..Default::default()
    };
    let messages = [message("user", "hi"), message("assistant", "The answer")];
    let out = render(KNOWS_XHIGH, &messages, &flags).unwrap();
    assert_eq!(
        out,
        "<|im_start|>user:hi<|im_end|>\n<|im_start|>assistant:The answer"
    );
    let out = render(KNOWS_XHIGH, &messages, &RenderFlags::default()).unwrap();
    assert!(out.ends_with("<|im_start|>assistant:"), "{out}");
    assert!(!continues_final(&flags, &vec![message("user", "hi")]));
    assert!(!continues_final(&flags, &vec![]));
}

#[test]
fn undefined_variables_stay_undefined() {
    const T: &str = "{{ preserve_thinking is undefined }} {{ tools is undefined }} \
                     {{ add_vision_id }} {{ disable_tool_steering }}";
    assert_eq!(hi(T, &RenderFlags::default()).unwrap(), "True True False False");
    let flags = RenderFlags {
        preserve_thinking: Some(false),
        disable_tool_steering: true,
        ..Default::default()
    };
    assert_eq!(hi(T, &flags).unwrap(), "False True False True");
}

#[test]
fn the_context_of_a_prompt() {
    let prepared = Prepared {
        messages: array(vec![]),
        enable_thinking: true,
    };
    let tools = Some(array(vec![string("t")]));
    let c = render_context(&prepared, &tools, &RenderFlags::default(), "low", true);
    assert_eq!(
        c,
        object(vec![
            ("messages".into(), array(vec![])),
            ("tools".into(), array(vec![string("t")])),
            ("add_generation_prompt".into(), Json::Bool(false)),
            ("enable_thinking".into(), Json::Bool(true)),
            ("reasoning_effort".into(), string("low")),
            ("disable_tool_steering".into(), Json::Bool(false)),
            ("add_vision_id".into(), Json::Bool(false)),
        ])
    );
}

fn complaint(text: &str, causes: &[&str]) -> Complaint {
    Complaint {
        text: text.into(),
        causes: causes.iter().map(|s| s.to_string()).collect(),
    }
}

#[test]
fn complaints_about_the_effort() {
    assert!(is_effort_rejection(&complaint("Unexpected Reasoning Effort high", &[])));
    assert!(is_effort_rejection(&complaint("bad value", &["x", "REASONING_EFFORT"])));
    assert!(!is_effort_rejection(&complaint("bad reasoning", &["an effort"])));
}

#[test]
fn attempts_are_judged() {
    match judge_attempt("high", Err(complaint("reasoning effort", &[]))) {
        Attempt::Retry(e) => assert_eq!(e, "xhigh"),
        _ => panic!("expected a retry"),
    }
    match judge_attempt("low", Err(complaint("reasoning effort", &[]))) {
        Attempt::Failed(m) => {
            assert_eq!(m, "Failed to render Jinja chat template: reasoning effort")
        }
        _ => panic!("expected a failure"),
    }
    match judge_attempt("low", Ok("t".into())) {
        Attempt::Rendered(t) => assert_eq!(t, "t"),
        _ => panic!("expected a text"),
    }
}

#[test]
fn small_rules() {
    assert_eq!(effort_synonym("high"), Some("xhigh"));
    assert_eq!(effort_synonym("xhigh"), Some("high"));
    assert_eq!(effort_synonym("low"), None);
    assert_eq!(resolve_effort(&Some("low".into()), false), "low");
    assert_eq!(resolve_effort(&None, true), "medium");
    assert_eq!(resolve_effort(&None, false), "none");
    assert_eq!(finish_prompt("a<|im_end|> \n".into(), true), "a");
    assert_eq!(finish_prompt("a \n".into(), true), "a");
    assert_eq!(finish_prompt("a<|im_end|>\n".into(), false), "a<|im_end|>\n");
}
