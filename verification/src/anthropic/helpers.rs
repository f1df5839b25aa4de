//! Small conversions between the OpenAI and the Anthropic vocabulary.

use crate::anthropic::types::{AnthropicTool, AnthropicToolChoice};
use crate::json;
use crate::json::{entry, object, string, Json, JsonView};
use crate::text::{copy_opt, same_text};
use crate::tool_parser::{FunctionDefinition, ToolChoice, ToolChoiceFunction, ToolDefinition};
use vstd::prelude::*;

verus! {

/// The Anthropic stop reason for an OpenAI finish reason.
pub open spec fn stop_reason(finish: Seq<char>) -> Seq<char> {
    if finish == "stop"@ {
        "end_turn"@
    } else if finish == "tool_calls"@ {
        "tool_use"@
    } else if finish == "length"@ {
        "max_tokens"@
    } else if finish == "content_filter"@ {
        "refusal"@
    } else {
        "end_turn"@
    }
}

/// The Anthropic stop reason for an OpenAI finish reason. Filtered output is a
/// refusal and no normal end; an unknown reason is a normal end.
pub fn convert_stop_reason(finish_reason: &str) -> (r: &'static str)
    ensures
        r@ == stop_reason(finish_reason@),
{
    if same_text(finish_reason, "stop") {
        "end_turn"
    } else if same_text(finish_reason, "tool_calls") {
        "tool_use"
    } else if same_text(finish_reason, "length") {
        "max_tokens"
    } else if same_text(finish_reason, "content_filter") {
        "refusal"
    } else {
        "end_turn"
    }
}

/// The body of an error answer.
pub open spec fn error_body(kind: Seq<char>, message: Seq<char>) -> JsonView {
    JsonView::Object(
        seq![
            ("type"@, JsonView::Str("error"@)),
            (
                "error"@,
                JsonView::Object(
                    seq![("type"@, JsonView::Str(kind)), ("message"@, JsonView::Str(message))],
                ),
            ),
        ],
    )
}

/// The body of an error answer.
pub fn anthropic_error(error_type: &str, message: &str) -> (j: Json)
    ensures
        j@ == error_body(error_type@, message@),
{
    let inner: Vec<(String, Json)> = vec![
        entry("type", string(error_type)),
        entry("message", string(message)),
    ];
    let all: Vec<(String, Json)> = vec![
        entry("type", string("error")),
        entry("error", object(inner)),
    ];
    proof {
        let want = error_body(error_type@, message@)->Object_0;
        assert(json::entry_views(inner@) =~= want[1].1->Object_0);
        assert(json::entry_views(all@) =~= want);
    }
    object(all)
}

impl From<&AnthropicTool> for ToolDefinition {
    /// The tool as an OpenAI function.
    fn from(t: &AnthropicTool) -> (r: Self)
        ensures
            r.tool_type@ == "function"@,
            r.function.name@ == t.name@,
            r.function.description == t.description,
            r.function.parameters matches Some(p) && p@ == t.input_schema@,
    {
        ToolDefinition {
            tool_type: "function".to_owned(),
            function: FunctionDefinition {
                name: t.name.clone(),
                description: copy_opt(&t.description),
                parameters: Some(t.input_schema.clone()),
            },
        }
    }
}

impl vstd::std_specs::convert::FromSpecImpl<&AnthropicTool> for ToolDefinition {
    open spec fn obeys_from_spec() -> bool {
        false
    }

    open spec fn from_spec(t: &AnthropicTool) -> Self {
        arbitrary()
    }
}

/// The mode that a tool choice has: `any` means `required`, and anything
/// unknown, as a choice of an unnamed tool, means `auto`.
pub open spec fn choice_mode(kind: Seq<char>) -> Seq<char> {
    if kind == "any"@ {
        "required"@
    } else if kind == "none"@ {
        "none"@
    } else {
        "auto"@
    }
}

impl From<&AnthropicToolChoice> for ToolChoice {
    /// The choice in OpenAI terms.
    fn from(tc: &AnthropicToolChoice) -> (r: Self)
        ensures
            if tc.choice_type@ == "tool"@ && tc.name is Some {
                r matches ToolChoice::Specific { function } && function.name@ == tc.name->0@
            } else {
                r matches ToolChoice::Mode(m) && m@ == choice_mode(tc.choice_type@)
            },
    {
        proof {
            reveal_strlit("any");
            reveal_strlit("none");
            reveal_strlit("tool");
            assert("any"@.len() == 3 && "none"@.len() == 4 && "tool"@.len() == 4);
            assert("none"@[0] != "tool"@[0]);
        }
        if same_text(tc.choice_type.as_str(), "any") {
            ToolChoice::Mode("required".to_owned())
        } else if same_text(tc.choice_type.as_str(), "none") {
            ToolChoice::Mode("none".to_owned())
        } else if same_text(tc.choice_type.as_str(), "tool") {
            match &tc.name {
                Some(name) => ToolChoice::Specific {
                    function: ToolChoiceFunction { name: name.clone() },
                },
                None => ToolChoice::Mode("auto".to_owned()),
            }
        } else {
            ToolChoice::Mode("auto".to_owned())
        }
    }
}

impl vstd::std_specs::convert::FromSpecImpl<&AnthropicToolChoice> for ToolChoice {
    open spec fn obeys_from_spec() -> bool {
        false
    }

    open spec fn from_spec(tc: &AnthropicToolChoice) -> Self {
        arbitrary()
    }
}

// ── laws ──

/// The mode of a tool choice: `any` asks for a call, `none` forbids one, and
/// `auto` and everything unknown leave it to the model.
pub proof fn choice_modes_are_known(kind: Seq<char>)
    ensures
        choice_mode("any"@) == "required"@,
        choice_mode("none"@) == "none"@,
        choice_mode("auto"@) == "auto"@,
        kind != "any"@ && kind != "none"@ ==> choice_mode(kind) == "auto"@,
{
    reveal_strlit("any");
    reveal_strlit("none");
    reveal_strlit("auto");
    assert("any"@.len() == 3 && "none"@.len() == 4 && "auto"@.len() == 4);
    assert("none"@[0] != "auto"@[0]);
}

/// Each finish reason has its stop reason, and no two that differ for a client
/// share one: only an unknown reason is a normal end like `stop`.
pub proof fn stop_reasons_are_told_apart(finish: Seq<char>)
    ensures
        stop_reason("stop"@) == "end_turn"@,
        stop_reason("tool_calls"@) == "tool_use"@,
        stop_reason("length"@) == "max_tokens"@,
        stop_reason("content_filter"@) == "refusal"@,
        finish != "tool_calls"@ && finish != "length"@ && finish != "content_filter"@
            ==> stop_reason(finish) == "end_turn"@,
{
    reveal_strlit("stop");
    reveal_strlit("length");
    reveal_strlit("tool_calls");
    reveal_strlit("content_filter");
    assert("stop"@.len() == 4 && "length"@.len() == 6 && "tool_calls"@.len() == 10
        && "content_filter"@.len() == 14);
}

} // verus!
