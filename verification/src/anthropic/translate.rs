//! Finished chat responses in the shape of the Messages API.

use crate::anthropic::translator;
use crate::anthropic::translator::strip_id;
use crate::anthropic::types::{AnthropicUsage, MessagesResponse, ResponseBlock};
use crate::ir::from_openai_response::OpenAiResponseView;
use crate::ir::message::{ToolCall, ToolCallModel};
use crate::ir::response::{ChatResponse, Choice, FinishReason, FinishView};
use crate::json::JsonView;
use crate::text;
use vstd::prelude::*;
use vstd::string::*;

verus! {

/// What a [`ResponseBlock`] says.
pub enum BlockView {
    Thinking(Seq<char>),
    Text(Seq<char>),
    ToolUse { id: Seq<char>, name: Seq<char>, input: JsonView },
}

impl View for ResponseBlock {
    type V = BlockView;

    open spec fn view(&self) -> BlockView {
        match self {
            ResponseBlock::Thinking { thinking } => BlockView::Thinking(thinking@),
            ResponseBlock::Text { text } => BlockView::Text(text@),
            ResponseBlock::ToolUse { id, name, input } => BlockView::ToolUse {
                id: id@,
                name: name@,
                input: input@,
            },
        }
    }
}

/// What each block of a list says.
pub open spec fn block_views(s: Seq<ResponseBlock>) -> Seq<BlockView> {
    s.map_values(|b: ResponseBlock| b@)
}

/// The block of a tool call.
pub open spec fn tool_use(tc: ToolCallModel) -> BlockView {
    BlockView::ToolUse { id: tc.id, name: tc.name, input: tc.arguments }
}

/// The blocks of the first `n` tool calls.
pub open spec fn tool_uses(calls: Seq<ToolCall>, n: int) -> Seq<BlockView> {
    Seq::new(n as nat, |i: int| tool_use(calls[i]@))
}

/// The blocks of a choice: reasoning, then text unless empty, then tool calls.
pub open spec fn choice_blocks(c: Choice) -> Seq<BlockView> {
    (match c.reasoning {
        Some(r) => seq![BlockView::Thinking(r@)],
        None => Seq::empty(),
    }) + (match c.content {
        Some(t) => if t@.len() > 0 {
            seq![BlockView::Text(t@)]
        } else {
            Seq::empty()
        },
        None => Seq::empty(),
    }) + tool_uses(c.tool_calls@, c.tool_calls@.len() as int)
}

/// The stop reason of a choice. A stop at one of the client's sequences has a
/// reason of its own; filtered output is a refusal.
pub open spec fn choice_stop(c: Choice) -> Seq<char> {
    match c.finish_reason@ {
        FinishView::Stop => if c.matched_stop is Some {
            "stop_sequence"@
        } else {
            "end_turn"@
        },
        FinishView::ToolCalls => "tool_use"@,
        FinishView::Length => "max_tokens"@,
        FinishView::ContentFilter => "refusal"@,
        FinishView::Other(_) => "end_turn"@,
    }
}

/// `r` is the finished message with id `id` for the chat response `ir`.
pub open spec fn is_message_for(r: MessagesResponse, id: Seq<char>, ir: ChatResponse) -> bool {
    &&& r.id@ == "msg_"@ + id
    &&& r.response_type@ == "message"@
    &&& r.role@ == "assistant"@
    &&& r.model@ == ir.model@
    &&& r.usage.input_tokens == ir.usage.prompt_tokens
    &&& r.usage.output_tokens == ir.usage.completion_tokens
    &&& r.usage.cache_read_input_tokens == ir.usage.cached_prompt_tokens
    &&& r.stop_reason is Some
    &&& if ir.choices@.len() > 0 {
        let c = ir.choices@[0];
        &&& block_views(r.content@) == choice_blocks(c)
        &&& r.stop_reason->0@ == choice_stop(c)
        &&& text::opt_text(r.stop_sequence) == text::opt_text(c.matched_stop)
    } else {
        &&& r.content@.len() == 0
        &&& r.stop_reason->0@ == "end_turn"@
        &&& r.stop_sequence is None
    }
}

fn push_block(out: &mut Vec<ResponseBlock>, b: ResponseBlock)
    ensures
        block_views(final(out)@) == block_views(old(out)@).push(b@),
{
    let ghost before = out@;
    out.push(b);
    assert(block_views(out@) =~= block_views(before).push(b@));
}

/// The blocks of a choice.
fn build_blocks(c: &Choice) -> (out: Vec<ResponseBlock>)
    ensures
        block_views(out@) == choice_blocks(*c),
{
    let mut out: Vec<ResponseBlock> = Vec::new();
    if let Some(r) = &c.reasoning {
        push_block(&mut out, ResponseBlock::Thinking { thinking: r.clone() });
    }
    if let Some(t) = &c.content {
        if !t.as_str().is_empty() {
            push_block(&mut out, ResponseBlock::Text { text: t.clone() });
        }
    }
    let ghost head = block_views(out@);
    let mut i: usize = 0;
    assert(head =~= head + tool_uses(c.tool_calls@, 0));
    while i < c.tool_calls.len()
        invariant
            i <= c.tool_calls@.len(),
            block_views(out@) == head + tool_uses(c.tool_calls@, i as int),
        decreases c.tool_calls@.len() - i,
    {
        let tc = &c.tool_calls[i];
        let b = ResponseBlock::ToolUse {
            id: tc.id.clone(),
            name: tc.name.clone(),
            input: tc.arguments.clone(),
        };
        push_block(&mut out, b);
        proof {
            assert(tool_uses(c.tool_calls@, i + 1) =~= tool_uses(c.tool_calls@, i as int).push(b@));
            assert(block_views(out@) =~= head + tool_uses(c.tool_calls@, i + 1));
        }
        i = i + 1;
    }
    assert(block_views(out@) =~= choice_blocks(*c));
    out
}

/// The finished message with id `id` for a chat response. Its first choice is
/// the one that counts.
pub fn build_message(id: &str, ir: &ChatResponse) -> (r: MessagesResponse)
    ensures
        is_message_for(r, id@, *ir),
{
    let mut msg_id: String = "msg_".to_owned();
    msg_id.append(id);
    let usage = AnthropicUsage {
        input_tokens: ir.usage.prompt_tokens,
        output_tokens: ir.usage.completion_tokens,
        cache_read_input_tokens: ir.usage.cached_prompt_tokens,
    };
    if ir.choices.len() == 0 {
        return MessagesResponse {
            id: msg_id,
            response_type: "message".to_owned(),
            role: "assistant".to_owned(),
            content: Vec::new(),
            model: ir.model.clone(),
            stop_reason: Some("end_turn".to_owned()),
            stop_sequence: None,
            usage,
        };
    }
    let c = &ir.choices[0];
    let reason: &str = match &c.finish_reason {
        FinishReason::Stop => if c.matched_stop.is_some() {
            "stop_sequence"
        } else {
            "end_turn"
        },
        FinishReason::ToolCalls => "tool_use",
        FinishReason::Length => "max_tokens",
        FinishReason::ContentFilter => "refusal",
        FinishReason::Other(_) => "end_turn",
    };
    MessagesResponse {
        id: msg_id,
        response_type: "message".to_owned(),
        role: "assistant".to_owned(),
        content: build_blocks(c),
        model: ir.model.clone(),
        stop_reason: Some(reason.to_owned()),
        stop_sequence: text::copy_opt(&c.matched_stop),
        usage,
    }
}

impl From<ChatResponse> for MessagesResponse {
    fn from(ir: ChatResponse) -> (r: Self)
        ensures
            is_message_for(r, ir.id@, ir),
    {
        build_message(ir.id.as_str(), &ir)
    }
}

impl vstd::std_specs::convert::FromSpecImpl<ChatResponse> for MessagesResponse {
    open spec fn obeys_from_spec() -> bool {
        false
    }

    open spec fn from_spec(ir: ChatResponse) -> Self {
        arbitrary()
    }
}

/// The id of a message for the chat completion `id`, without the prefix.
pub open spec fn bare_message_id(id: Seq<char>) -> Seq<char> {
    if id.len() == 0 {
        "unknown"@
    } else {
        translator::bare_id(id)
    }
}

/// The finished message for an OpenAI response body.
pub fn chat_to_anthropic_response(body: OpenAiResponseView, model: String) -> (r: MessagesResponse)
    ensures
        exists|ir: ChatResponse|
            crate::ir::from_openai_response::is_lowered(ir, body, model@) && #[trigger] is_message_for(
                r,
                bare_message_id(body.id@),
                ir,
            ),
{
    let id: String = if body.id.as_str().is_empty() {
        "unknown".to_owned()
    } else {
        strip_id(body.id.as_str())
    };
    let ir: ChatResponse = body.into_ir(model);
    let r = build_message(id.as_str(), &ir);
    assert(is_message_for(r, bare_message_id(body.id@), ir));
    r
}

// ── laws ──

/// A finished message holds the whole answer of the first choice: its reasoning,
/// then its text unless empty, then every tool call in order with its id, name
/// and arguments, and nothing else. The counts of tokens are those of the
/// response.
pub proof fn finished_messages_hold_the_answer(
    r: MessagesResponse,
    id: Seq<char>,
    ir: ChatResponse,
)
    requires
        is_message_for(r, id, ir),
        ir.choices@.len() > 0,
    ensures
        ({
            let c = ir.choices@[0];
            let thought: int = if c.reasoning is Some {
                1
            } else {
                0
            };
            let said: int = if c.content is Some && c.content->0@.len() > 0 {
                1
            } else {
                0
            };
            &&& r.content@.len() == thought + said + c.tool_calls@.len()
            &&& c.reasoning matches Some(t) ==> (r.content@[0] matches ResponseBlock::Thinking {
                thinking,
            } && thinking@ == t@)
            &&& said == 1 ==> (r.content@[thought] matches ResponseBlock::Text { text }
                && text@ == c.content->0@)
            &&& forall|i: int|
                0 <= i < c.tool_calls@.len() ==> (#[trigger] r.content@[thought + said + i] matches
                    ResponseBlock::ToolUse { id, name, input } && id@ == c.tool_calls@[i].id@
                    && name@ == c.tool_calls@[i].name@ && input@ == c.tool_calls@[i].arguments@)
            &&& r.usage.input_tokens == ir.usage.prompt_tokens
            &&& r.usage.output_tokens == ir.usage.completion_tokens
            &&& r.usage.cache_read_input_tokens == ir.usage.cached_prompt_tokens
            &&& r.model@ == ir.model@
            &&& r.id@ == "msg_"@ + id
        }),
{
    let c = ir.choices@[0];
    let blocks = block_views(r.content@);
    let thought: int = if c.reasoning is Some {
        1
    } else {
        0
    };
    let said: int = if c.content is Some && c.content->0@.len() > 0 {
        1
    } else {
        0
    };
    assert(blocks.len() == r.content@.len());
    if thought == 1 {
        assert(blocks[0] == r.content@[0]@);
    }
    if said == 1 {
        assert(blocks[thought] == r.content@[thought]@);
    }
    assert forall|i: int| 0 <= i < c.tool_calls@.len() implies (#[trigger] r.content@[thought + said
        + i] matches ResponseBlock::ToolUse { id, name, input } && id@ == c.tool_calls@[i].id@
        && name@ == c.tool_calls@[i].name@ && input@ == c.tool_calls@[i].arguments@) by {
        assert(blocks[thought + said + i] == r.content@[thought + said + i]@);
        assert(blocks[thought + said + i] == tool_use(c.tool_calls@[i]@));
    }
}

/// The stop reason of a finished message tells how the choice finished, and a
/// stop sequence that matched is named.
pub proof fn finished_messages_tell_their_end(r: MessagesResponse, id: Seq<char>, ir: ChatResponse)
    requires
        is_message_for(r, id, ir),
        ir.choices@.len() > 0,
    ensures
        ({
            let c = ir.choices@[0];
            let stop = text::opt_text(r.stop_reason);
            &&& c.finish_reason is Stop && c.matched_stop is None ==> stop == Some("end_turn"@)
            &&& c.finish_reason is Stop && c.matched_stop is Some ==> stop == Some(
                "stop_sequence"@,
            )
            &&& c.finish_reason is Length ==> stop == Some("max_tokens"@)
            &&& c.finish_reason is ToolCalls ==> stop == Some("tool_use"@)
            &&& c.finish_reason is ContentFilter ==> stop == Some("refusal"@)
            &&& c.finish_reason is Other ==> stop == Some("end_turn"@)
            &&& text::opt_text(r.stop_sequence) == text::opt_text(c.matched_stop)
        }),
{
}

} // verus!
