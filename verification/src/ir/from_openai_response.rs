//! OpenAI chat response bodies as chat responses.

use crate::float::Float64;
use crate::ir::message::{ToolCall, ToolCallModel};
use crate::ir::response;
use crate::ir::response::{ChatResponse, Choice, FinishReason, Usage};
use crate::json;
use crate::json::{parse_json, Json, JsonView};
use crate::text;
use vstd::prelude::*;

verus! {

/// The fields of a response body that are read.
#[derive(Debug)]
pub struct OpenAiResponseView {
    pub id: String,
    pub usage: UsageView,
    pub choices: Vec<ChoiceView>,
}

#[derive(Debug)]
pub struct UsageView {
    pub prompt_tokens: usize,
    pub completion_tokens: usize,
}

#[derive(Debug)]
pub struct ChoiceView {
    pub message: MessageView,
    pub finish_reason: Option<String>,
}

#[derive(Debug)]
pub struct MessageView {
    pub content: Option<String>,
    pub reasoning_content: Option<String>,
    pub reasoning: Option<String>,
    pub tool_calls: Vec<ToolCallView>,
}

#[derive(Debug)]
pub struct ToolCallView {
    pub id: String,
    pub function: FunctionView,
}

#[derive(Debug)]
pub struct FunctionView {
    pub name: String,
    pub arguments: String,
}

/// The arguments that an argument text holds; an empty object when it is no
/// JSON.
pub open spec fn arguments_of(t: Seq<char>) -> JsonView {
    match json::parsed_json(t) {
        Some(j) => j,
        None => JsonView::Object(Seq::empty()),
    }
}

/// Parsed arguments; an empty object when there are none.
pub fn or_empty_object(parsed: Option<Json>) -> (j: Json)
    ensures
        j@ == match json::opt_view(parsed) {
            Some(v) => v,
            None => JsonView::Object(Seq::empty()),
        },
{
    match parsed {
        Some(j) => j,
        None => {
            let none: Vec<(String, Json)> = Vec::new();
            assert(json::entry_views(none@) =~= Seq::<(Seq<char>, JsonView)>::empty());
            json::object(none)
        },
    }
}

/// The arguments that an argument text holds; an empty object when it is no
/// JSON.
pub fn parse_arguments(t: &str) -> (j: Json)
    ensures
        j@ == arguments_of(t@),
{
    or_empty_object(parse_json(t))
}

/// What each tool call of a list says.
pub open spec fn call_models(s: Seq<ToolCall>) -> Seq<ToolCallModel> {
    s.map_values(|c: ToolCall| c@)
}

/// The first `n` tool calls of a body, arguments parsed.
pub open spec fn lowered_calls(calls: Seq<ToolCallView>, n: int) -> Seq<ToolCallModel> {
    Seq::new(
        n as nat,
        |i: int|
            ToolCallModel {
                id: calls[i].id@,
                name: calls[i].function.name@,
                arguments: arguments_of(calls[i].function.arguments@),
            },
    )
}

/// The reasoning of a body's message: `reasoning_content`, else `reasoning`,
/// and none when it is empty.
pub open spec fn lowered_reasoning(m: MessageView) -> Option<Seq<char>> {
    let r = match m.reasoning_content {
        Some(s) => Some(s@),
        None => text::opt_text(m.reasoning),
    };
    match r {
        Some(s) => if s.len() > 0 {
            Some(s)
        } else {
            None
        },
        None => None,
    }
}

/// `c` is the choice of a body that `v` describes.
pub open spec fn is_lowered_choice(c: Choice, v: ChoiceView) -> bool {
    &&& c.index == 0
    &&& text::opt_text(c.content) == Some(text::or_empty(text::opt_text(v.message.content)))
    &&& text::opt_text(c.reasoning) == lowered_reasoning(v.message)
    &&& call_models(c.tool_calls@) == lowered_calls(
        v.message.tool_calls@,
        v.message.tool_calls@.len() as int,
    )
    &&& c.refusal is None
    &&& c.finish_reason@ == response::finish_of(match v.finish_reason {
        Some(s) => s@,
        None => "stop"@,
    })
    &&& c.matched_stop is None
    &&& c.logprobs is None
}

/// `r` is the chat response of a body: its first choice, an empty one when it
/// has none.
pub open spec fn is_lowered(r: ChatResponse, body: OpenAiResponseView, model: Seq<char>) -> bool {
    &&& r.id@ == body.id@
    &&& r.model@ == model
    &&& r.usage.prompt_tokens == body.usage.prompt_tokens
    &&& r.usage.completion_tokens == body.usage.completion_tokens
    &&& r.usage.cached_prompt_tokens == 0
    &&& r.usage.reasoning_tokens == 0
    &&& r.choices@.len() == 1
    &&& if body.choices@.len() > 0 {
        is_lowered_choice(r.choices@[0], body.choices@[0])
    } else {
        let c = r.choices@[0];
        &&& c.content matches Some(t) && t@.len() == 0
        &&& c.reasoning is None
        &&& c.tool_calls@.len() == 0
        &&& c.finish_reason is Stop
        &&& c.refusal is None
        &&& c.matched_stop is None
    }
}

/// The tool calls of a body, arguments parsed.
fn lower_calls(calls: &Vec<ToolCallView>) -> (out: Vec<ToolCall>)
    ensures
        call_models(out@) == lowered_calls(calls@, calls@.len() as int),
{
    let mut out: Vec<ToolCall> = Vec::new();
    let mut i: usize = 0;
    assert(call_models(out@) =~= lowered_calls(calls@, 0));
    while i < calls.len()
        invariant
            i <= calls@.len(),
            call_models(out@) == lowered_calls(calls@, i as int),
        decreases calls@.len() - i,
    {
        let ghost before = out@;
        let tc = ToolCall {
            id: calls[i].id.clone(),
            name: calls[i].function.name.clone(),
            arguments: parse_arguments(calls[i].function.arguments.as_str()),
        };
        out.push(tc);
        proof {
            assert(call_models(out@) =~= call_models(before).push(tc@));
            assert(lowered_calls(calls@, i + 1) =~= lowered_calls(calls@, i as int).push(tc@));
        }
        i = i + 1;
    }
    out
}

fn lower_choice(v: &ChoiceView) -> (c: Choice)
    ensures
        is_lowered_choice(c, *v),
{
    let content: String = match &v.message.content {
        Some(s) => s.clone(),
        None => String::new(),
    };
    let trace: Option<String> = match &v.message.reasoning_content {
        Some(s) => Some(s.clone()),
        None => text::copy_opt(&v.message.reasoning),
    };
    let reasoning: Option<String> = match trace {
        Some(s) => if s.as_str().is_empty() {
            None
        } else {
            Some(s)
        },
        None => None,
    };
    let reason: &str = match &v.finish_reason {
        Some(s) => s.as_str(),
        None => "stop",
    };
    Choice {
        index: 0,
        content: Some(content),
        reasoning,
        tool_calls: lower_calls(&v.message.tool_calls),
        refusal: None,
        finish_reason: FinishReason::from(reason),
        matched_stop: None,
        logprobs: None,
    }
}

impl OpenAiResponseView {
    /// The chat response of the body. The id is kept as it is.
    pub fn into_ir(self, model: String) -> (r: ChatResponse)
        ensures
            is_lowered(r, self, model@),
            r.created == 0,
    {
        let choice: Choice = if self.choices.len() > 0 {
            lower_choice(&self.choices[0])
        } else {
            Choice {
                index: 0,
                content: Some(String::new()),
                reasoning: None,
                tool_calls: Vec::new(),
                refusal: None,
                finish_reason: FinishReason::Stop,
                matched_stop: None,
                logprobs: None,
            }
        };
        let choices: Vec<Choice> = vec![choice];
        ChatResponse {
            id: self.id,
            model,
            created: 0,
            choices,
            usage: Usage {
                prompt_tokens: self.usage.prompt_tokens,
                completion_tokens: self.usage.completion_tokens,
                cached_prompt_tokens: 0,
                reasoning_tokens: 0,
                time_to_first_token_ms: Float64 { bits: 0 },
                response_tokens_per_second: Float64 { bits: 0 },
            },
        }
    }
}

// ── laws ──

/// The answer of a body is kept: its id, its token counts, and of its first choice
/// the text, every tool call in order with its id, name and arguments, the
/// reasoning unless empty, and the finish reason, `stop` when there is none.
pub proof fn lowering_keeps_the_answer(
    r: ChatResponse,
    body: OpenAiResponseView,
    model: Seq<char>,
)
    requires
        is_lowered(r, body, model),
    ensures
        r.id@ == body.id@,
        r.model@ == model,
        r.usage.prompt_tokens == body.usage.prompt_tokens,
        r.usage.completion_tokens == body.usage.completion_tokens,
        r.choices@.len() == 1,
        body.choices@.len() > 0 ==> {
            let c = r.choices@[0];
            let v = body.choices@[0];
            let calls = v.message.tool_calls@;
            &&& c.content matches Some(t) && (match v.message.content {
                Some(given) => t@ == given@,
                None => t@.len() == 0,
            })
            &&& c.tool_calls@.len() == calls.len()
            &&& forall|i: int|
                0 <= i < calls.len() ==> {
                    &&& (#[trigger] c.tool_calls@[i]).id@ == calls[i].id@
                    &&& c.tool_calls@[i].name@ == calls[i].function.name@
                    &&& c.tool_calls@[i].arguments@ == match json::parsed_json(
                        calls[i].function.arguments@,
                    ) {
                        Some(j) => j,
                        None => JsonView::Object(Seq::empty()),
                    }
                }
            &&& response::finish_wire(c.finish_reason@) == match v.finish_reason {
                Some(s) => s@,
                None => "stop"@,
            }
            &&& match (v.message.reasoning_content, v.message.reasoning) {
                (Some(a), _) => text::or_empty(text::opt_text(c.reasoning)) == a@,
                (None, Some(b)) => text::or_empty(text::opt_text(c.reasoning)) == b@,
                (None, None) => c.reasoning is None,
            }
            &&& c.reasoning matches Some(t) ==> t@.len() > 0
        },
{
    if body.choices@.len() > 0 {
        let c = r.choices@[0];
        let v = body.choices@[0];
        let calls = v.message.tool_calls@;
        assert(call_models(c.tool_calls@).len() == c.tool_calls@.len());
        assert forall|i: int| 0 <= i < calls.len() implies {
            &&& (#[trigger] c.tool_calls@[i]).id@ == calls[i].id@
            &&& c.tool_calls@[i].name@ == calls[i].function.name@
            &&& c.tool_calls@[i].arguments@ == arguments_of(calls[i].function.arguments@)
        } by {
            assert(call_models(c.tool_calls@)[i] == c.tool_calls@[i]@);
        }
        response::finish_reason_survives_the_wire(
            c.finish_reason@,
            match v.finish_reason {
                Some(s) => s@,
                None => "stop"@,
            },
        );
        if let Some(a) = v.message.reasoning_content {
            if a@.len() == 0 {
                assert(a@ =~= Seq::<char>::empty());
            }
        } else if let Some(b) = v.message.reasoning {
            if b@.len() == 0 {
                assert(b@ =~= Seq::<char>::empty());
            }
        }
    }
}

} // verus!
