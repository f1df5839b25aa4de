//! Chat completion requests as they arrive.

use crate::float::Float32;
use crate::ir::request::ThinkingDirective;
use crate::json::Json;
use crate::openai::chat_message::IncomingMessage;
use crate::text::same_text;
use crate::tool_parser::{ToolChoice, ToolDefinition};
use vstd::prelude::*;

verus! {

/// Shape that the output must have, as the wire spells it.
#[derive(Debug)]
pub enum ResponseFormat {
    Text,
    JsonObject,
    JsonSchema { json_schema: JsonSchemaSpec },
}

/// A JSON schema with its name.
#[derive(Debug)]
pub struct JsonSchemaSpec {
    pub name: String,
    pub schema: Json,
    pub strict: bool,
}

/// A thinking object: its type and token budget.
#[derive(Debug)]
pub struct ThinkingParam {
    pub thinking_type: String,
    pub budget_tokens: Option<u32>,
}

/// How hard the model is to reason.
#[derive(Debug)]
pub struct ReasoningConfig {
    pub effort: Option<String>,
}

/// Arguments for the chat template.
#[derive(Debug, Clone, Copy, PartialEq, Eq, Structural)]
pub struct ChatTemplateKwargs {
    pub enable_thinking: Option<bool>,
    pub thinking_budget: Option<u32>,
}

/// Options of a streamed answer.
#[derive(Debug, Clone, Copy, PartialEq, Eq, Structural)]
pub struct StreamOptions {
    pub include_usage: bool,
}

/// A chat completion request.
#[derive(Debug)]
pub struct ChatCompletionRequest {
    pub model: String,
    pub messages: Vec<IncomingMessage>,
    pub tools: Option<Vec<ToolDefinition>>,
    pub tool_choice: Option<ToolChoice>,
    pub temperature: Option<Float32>,
    pub top_k: Option<u32>,
    pub top_p: Option<Float32>,
    pub top_n_sigma: Option<Float32>,
    pub min_p: Option<Float32>,
    pub repetition_penalty: Option<Float32>,
    pub presence_penalty: Option<Float32>,
    pub frequency_penalty: Option<Float32>,
    pub max_tokens: usize,
    pub min_tokens: usize,
    pub stop: Vec<String>,
    pub stream: bool,
    pub stream_options: Option<StreamOptions>,
    pub n: usize,
    pub response_format: Option<ResponseFormat>,
    pub thinking: Option<ThinkingParam>,
    pub thinking_token_budget: Option<u32>,
    pub reasoning: Option<ReasoningConfig>,
    pub chat_template_kwargs: Option<ChatTemplateKwargs>,
    pub enable_thinking: bool,
    pub repetition_detection: Option<Json>,
    pub adapter: Option<String>,
    pub src_lang: Option<String>,
    pub tgt_lang: Option<String>,
    pub num_beams: Option<u32>,
    pub length_penalty: Option<Float32>,
    pub early_stopping: Option<bool>,
    /// Token ids in decimal, each with its bias.
    pub logit_bias: Option<Vec<(String, Float32)>>,
    pub logprobs: Option<bool>,
    pub top_logprobs: Option<u8>,
    pub seed: Option<u64>,
    pub timeout: Option<Float32>,
    pub return_token_ids: bool,
    pub service_tier: Option<String>,
    pub store: Option<bool>,
    pub metadata: Option<Vec<(String, String)>>,
}

/// A thinking object: disabled, a budget, or as long as needed.
pub open spec fn object_directive(p: ThinkingParam) -> ThinkingDirective {
    if p.thinking_type@ == "disabled"@ {
        ThinkingDirective::Off
    } else {
        ThinkingDirective::On { budget: p.budget_tokens }
    }
}

/// A token budget; none at all is off.
pub open spec fn budget_directive(n: u32) -> ThinkingDirective {
    if n == 0 {
        ThinkingDirective::Off
    } else {
        ThinkingDirective::On { budget: Some(n) }
    }
}

/// The token budget of an effort; an unknown one gets that of `medium`.
pub open spec fn effort_directive(effort: Seq<char>) -> ThinkingDirective {
    if effort == "none"@ {
        ThinkingDirective::Off
    } else if effort == "minimal"@ {
        ThinkingDirective::On { budget: Some(64) }
    } else if effort == "low"@ {
        ThinkingDirective::On { budget: Some(128) }
    } else if effort == "high"@ {
        ThinkingDirective::On { budget: Some(512) }
    } else if effort == "xhigh"@ || effort == "max"@ {
        ThinkingDirective::On { budget: Some(1024) }
    } else {
        ThinkingDirective::On { budget: Some(256) }
    }
}

/// Template arguments: the budget counts before the flag.
pub open spec fn kwargs_directive(k: ChatTemplateKwargs) -> ThinkingDirective {
    match (k.thinking_budget, k.enable_thinking) {
        (Some(n), _) => budget_directive(n),
        (None, Some(true)) => ThinkingDirective::On { budget: None },
        (None, Some(false)) => ThinkingDirective::Off,
        (None, None) => ThinkingDirective::Unspecified,
    }
}

/// What a request wants of thinking, by the first of its channels that says
/// something: the thinking object, the token budget, the reasoning effort, the
/// template arguments, the legacy flag.
pub open spec fn directive_of(r: ChatCompletionRequest) -> ThinkingDirective {
    if let Some(p) = r.thinking {
        object_directive(p)
    } else if let Some(n) = r.thinking_token_budget {
        budget_directive(n)
    } else if r.reasoning is Some && r.reasoning->0.effort is Some {
        effort_directive(r.reasoning->0.effort->0@)
    } else if r.chat_template_kwargs is Some && !(kwargs_directive(
        r.chat_template_kwargs->0,
    ) is Unspecified) {
        kwargs_directive(r.chat_template_kwargs->0)
    } else if r.enable_thinking {
        ThinkingDirective::On { budget: None }
    } else {
        ThinkingDirective::Unspecified
    }
}

fn read_effort(effort: &str) -> (d: ThinkingDirective)
    ensures
        d == effort_directive(effort@),
{
    if same_text(effort, "none") {
        ThinkingDirective::Off
    } else if same_text(effort, "minimal") {
        ThinkingDirective::On { budget: Some(64) }
    } else if same_text(effort, "low") {
        ThinkingDirective::On { budget: Some(128) }
    } else if same_text(effort, "high") {
        ThinkingDirective::On { budget: Some(512) }
    } else if same_text(effort, "xhigh") || same_text(effort, "max") {
        ThinkingDirective::On { budget: Some(1024) }
    } else {
        ThinkingDirective::On { budget: Some(256) }
    }
}

fn read_budget(n: u32) -> (d: ThinkingDirective)
    ensures
        d == budget_directive(n),
{
    if n == 0 {
        ThinkingDirective::Off
    } else {
        ThinkingDirective::On { budget: Some(n) }
    }
}

fn read_kwargs(k: &ChatTemplateKwargs) -> (d: ThinkingDirective)
    ensures
        d == kwargs_directive(*k),
{
    match (k.thinking_budget, k.enable_thinking) {
        (Some(n), _) => read_budget(n),
        (None, Some(true)) => ThinkingDirective::On { budget: None },
        (None, Some(false)) => ThinkingDirective::Off,
        (None, None) => ThinkingDirective::Unspecified,
    }
}

impl ChatCompletionRequest {
    /// What the request wants of thinking.
    pub fn client_thinking_directive(&self) -> (d: ThinkingDirective)
        ensures
            d == directive_of(*self),
    {
        if let Some(p) = &self.thinking {
            if same_text(p.thinking_type.as_str(), "disabled") {
                return ThinkingDirective::Off;
            }
            return ThinkingDirective::On { budget: p.budget_tokens };
        }
        if let Some(n) = self.thinking_token_budget {
            return read_budget(n);
        }
        if let Some(r) = &self.reasoning {
            if let Some(effort) = &r.effort {
                return read_effort(effort.as_str());
            }
        }
        if let Some(k) = &self.chat_template_kwargs {
            let d = read_kwargs(k);
            if d.is_explicit() {
                return d;
            }
        }
        if self.enable_thinking {
            ThinkingDirective::On { budget: None }
        } else {
            ThinkingDirective::Unspecified
        }
    }
}

// ── laws ──

/// The first channel that says something decides, whatever the others say: a
/// thinking object, then a token budget, then an effort, then the template
/// arguments, then the legacy flag.
pub proof fn first_channel_decides(r: ChatCompletionRequest)
    ensures
        r.thinking matches Some(p) ==> {
            &&& p.thinking_type@ == "disabled"@ ==> directive_of(r) is Off
            &&& p.thinking_type@ != "disabled"@ ==> directive_of(r) == (ThinkingDirective::On {
                budget: p.budget_tokens,
            })
        },
        r.thinking is None ==> (r.thinking_token_budget matches Some(n) ==> {
            &&& n == 0 ==> directive_of(r) is Off
            &&& n > 0 ==> directive_of(r) == (ThinkingDirective::On { budget: Some(n) })
        }),
        r.thinking is None && r.thinking_token_budget is None ==> (r.reasoning matches Some(c) ==> (
        c.effort matches Some(e) ==> directive_of(r) == effort_directive(e@))),
        r.thinking is None && r.thinking_token_budget is None && (r.reasoning is None
            || r.reasoning->0.effort is None) ==> {
            &&& r.chat_template_kwargs matches Some(k) ==> {
                &&& k.thinking_budget matches Some(n) ==> (if n == 0 {
                    directive_of(r) is Off
                } else {
                    directive_of(r) == (ThinkingDirective::On { budget: Some(n) })
                })
                &&& k.thinking_budget is None && k.enable_thinking == Some(true) ==> directive_of(r)
                    == (ThinkingDirective::On { budget: None })
                &&& k.thinking_budget is None && k.enable_thinking == Some(false) ==> directive_of(
                    r,
                ) is Off
            }
            &&& r.chat_template_kwargs is None ==> {
                &&& r.enable_thinking ==> directive_of(r) == (ThinkingDirective::On {
                    budget: None,
                })
                &&& !r.enable_thinking ==> directive_of(r) is Unspecified
            }
        },
{
}

/// The budget that an effort stands for.
pub open spec fn effort_budget(effort: Seq<char>) -> u32 {
    match effort_directive(effort) {
        ThinkingDirective::On { budget: Some(n) } => n,
        _ => 0,
    }
}

/// Each effort thinks longer than the one below it, no effort not at all, and an
/// unknown one as long as the middle one.
pub proof fn efforts_rise(other: Seq<char>)
    ensures
        effort_directive("none"@) is Off,
        0 < effort_budget("minimal"@) < effort_budget("low"@) < effort_budget("medium"@)
            < effort_budget("high"@) < effort_budget("xhigh"@),
        2 * effort_budget("minimal"@) == effort_budget("low"@),
        2 * effort_budget("low"@) == effort_budget("medium"@),
        2 * effort_budget("medium"@) == effort_budget("high"@),
        2 * effort_budget("high"@) == effort_budget("xhigh"@),
        effort_budget("xhigh"@) == effort_budget("max"@) == 1024,
        other != "none"@ && other != "minimal"@ && other != "low"@ && other != "high"@ && other
            != "xhigh"@ && other != "max"@ ==> effort_directive(other) == effort_directive(
            "medium"@,
        ),
{
    reveal_strlit("none");
    reveal_strlit("minimal");
    reveal_strlit("low");
    reveal_strlit("medium");
    reveal_strlit("high");
    reveal_strlit("xhigh");
    reveal_strlit("max");
    assert("none"@.len() == 4 && "minimal"@.len() == 7 && "low"@.len() == 3 && "medium"@.len() == 6
        && "high"@.len() == 4 && "xhigh"@.len() == 5 && "max"@.len() == 3);
    assert("none"@[0] != "high"@[0]);
    assert("low"@[0] != "max"@[0]);
}

} // verus!
