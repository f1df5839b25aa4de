//! Flattening message content for a multi-turn prompt.

use crate::anthropic::types;
use crate::anthropic::types::{AnthropicContent, ContentBlock};
use crate::json;
use crate::json::to_json_text;
use crate::text;
use crate::text::join;
use crate::tool_parser::{IncomingFunction, IncomingToolCall};
use vstd::prelude::*;

verus! {

/// A tool call of an earlier turn: id, name and argument text.
pub struct CallView {
    pub id: Option<Seq<char>>,
    pub name: Seq<char>,
    pub arguments: Seq<char>,
}

impl View for IncomingToolCall {
    type V = CallView;

    open spec fn view(&self) -> CallView {
        CallView {
            id: text::opt_text(self.id),
            name: self.function.name@,
            arguments: self.function.arguments@,
        }
    }
}

/// What each tool call of a list says.
pub open spec fn call_views(s: Seq<IncomingToolCall>) -> Seq<CallView> {
    s.map_values(|c: IncomingToolCall| c@)
}

/// The texts of the first `n` blocks: of text blocks and tool results.
pub open spec fn flat_texts(blocks: Seq<ContentBlock>, n: int) -> Seq<Seq<char>>
    decreases n,
{
    if n <= 0 {
        Seq::empty()
    } else {
        let before = flat_texts(blocks, n - 1);
        match blocks[n - 1] {
            ContentBlock::Text { text } => before.push(text@),
            ContentBlock::ToolResult { content, .. } => match content {
                Some(c) => before.push(types::tool_result_text(c)),
                None => before,
            },
            _ => before,
        }
    }
}

/// The tool calls among the first `n` blocks.
pub open spec fn flat_calls(blocks: Seq<ContentBlock>, n: int) -> Seq<CallView>
    decreases n,
{
    if n <= 0 {
        Seq::empty()
    } else {
        let before = flat_calls(blocks, n - 1);
        match blocks[n - 1] {
            ContentBlock::ToolUse { id, name, input } => before.push(
                CallView {
                    id: Some(id@),
                    name: name@,
                    arguments: json::json_text(input@),
                },
            ),
            _ => before,
        }
    }
}

/// The text of message content, its parts one behind the other, and its tool
/// calls. Thinking and images are left out.
pub fn flatten_content(content: &AnthropicContent) -> (r: (String, Vec<IncomingToolCall>))
    ensures
        match content {
            AnthropicContent::Text(s) => r.0@ == s@ && r.1@.len() == 0,
            AnthropicContent::Blocks(blocks) => r.0@ == text::joined(
                flat_texts(blocks@, blocks@.len() as int),
                Seq::empty(),
            ) && call_views(r.1@) == flat_calls(blocks@, blocks@.len() as int),
        },
{
    match content {
        AnthropicContent::Text(s) => (s.clone(), Vec::new()),
        AnthropicContent::Blocks(blocks) => {
            let mut parts: Vec<String> = Vec::new();
            let mut calls: Vec<IncomingToolCall> = Vec::new();
            let mut i: usize = 0;
            assert(text::texts(parts@) =~= Seq::<Seq<char>>::empty());
            assert(call_views(calls@) =~= Seq::<CallView>::empty());
            while i < blocks.len()
                invariant
                    i <= blocks@.len(),
                    text::texts(parts@) == flat_texts(blocks@, i as int),
                    call_views(calls@) == flat_calls(blocks@, i as int),
                decreases blocks@.len() - i,
            {
                let ghost parts_before = parts@;
                let ghost calls_before = calls@;
                match &blocks[i] {
                    ContentBlock::Text { text } => {
                        parts.push(text.clone());
                        assert(text::texts(parts@) =~= text::texts(parts_before).push(text@));
                    },
                    ContentBlock::ToolUse { id, name, input } => {
                        let call = IncomingToolCall {
                            id: Some(id.clone()),
                            function: IncomingFunction {
                                name: name.clone(),
                                arguments: to_json_text(input),
                            },
                        };
                        calls.push(call);
                        assert(call_views(calls@) =~= call_views(calls_before).push(call@));
                    },
                    ContentBlock::ToolResult { content, .. } => {
                        if let Some(c) = content {
                            let t: String = c.to_text();
                            parts.push(t);
                            assert(text::texts(parts@) =~= text::texts(parts_before).push(t@));
                        }
                    },
                    _ => {},
                }
                i = i + 1;
            }
            proof {
                reveal_strlit("");
                assert(""@ =~= Seq::<char>::empty());
            }
            (join(&parts, ""), calls)
        },
    }
}

// ── laws ──

/// The text of a block: its own, or that of a tool's result.
pub open spec fn block_text(b: ContentBlock) -> Seq<char> {
    match b {
        ContentBlock::Text { text } => text@,
        ContentBlock::ToolResult { content, .. } => match content {
            Some(c) => types::tool_result_text(c),
            None => Seq::empty(),
        },
        _ => Seq::empty(),
    }
}

/// The texts of the blocks one behind the other.
pub open spec fn all_text(blocks: Seq<ContentBlock>) -> Seq<char>
    decreases blocks.len(),
{
    if blocks.len() == 0 {
        Seq::empty()
    } else {
        block_text(blocks[0]) + all_text(blocks.skip(1))
    }
}

proof fn lemma_joined_push(parts: Seq<Seq<char>>, p: Seq<char>)
    ensures
        text::joined(parts.push(p), Seq::empty()) == text::joined(parts, Seq::empty()) + p,
{
    let none = Seq::<char>::empty();
    assert(parts.push(p).drop_last() =~= parts);
    if parts.len() == 0 {
        assert(text::joined(parts.push(p), none) =~= none + p);
    } else {
        assert(text::joined(parts.push(p), none) =~= text::joined(parts, none) + p);
    }
}

proof fn lemma_flat_text(blocks: Seq<ContentBlock>, n: int)
    requires
        0 <= n <= blocks.len(),
    ensures
        text::joined(flat_texts(blocks, n), Seq::empty()) + all_text(blocks.skip(n)) == all_text(
            blocks,
        ),
    decreases n,
{
    let none = Seq::<char>::empty();
    if n == 0 {
        assert(blocks.skip(0) =~= blocks);
        assert(text::joined(flat_texts(blocks, 0), none) + all_text(blocks) =~= all_text(blocks));
    } else {
        lemma_flat_text(blocks, n - 1);
        let b = blocks[n - 1];
        assert(blocks.skip(n - 1)[0] == b);
        assert(blocks.skip(n - 1).skip(1) =~= blocks.skip(n));
        lemma_joined_push(flat_texts(blocks, n - 1), block_text(b));
        let before = text::joined(flat_texts(blocks, n - 1), none);
        assert(text::joined(flat_texts(blocks, n), none) =~= before + block_text(b));
        assert(text::joined(flat_texts(blocks, n), none) + all_text(blocks.skip(n)) =~= before
            + all_text(blocks.skip(n - 1)));
    }
}

/// No text of a message is lost when it is flattened: the texts of its blocks
/// follow one another in order, with nothing in between.
pub proof fn flattening_keeps_all_text(blocks: Seq<ContentBlock>)
    ensures
        text::joined(flat_texts(blocks, blocks.len() as int), Seq::empty()) == all_text(blocks),
{
    lemma_flat_text(blocks, blocks.len() as int);
    let all = text::joined(flat_texts(blocks, blocks.len() as int), Seq::empty());
    assert(all_text(blocks.skip(blocks.len() as int)) =~= Seq::<char>::empty());
    assert(all + Seq::<char>::empty() =~= all);
}

/// How many of the first `n` blocks are tool calls.
pub open spec fn calls_before(blocks: Seq<ContentBlock>, n: int) -> nat
    decreases n,
{
    if n <= 0 {
        0
    } else {
        calls_before(blocks, n - 1) + if blocks[n - 1] is ToolUse {
            1nat
        } else {
            0nat
        }
    }
}

/// Every tool call of a message is kept when it is flattened, in order, under
/// its id and name and with its input as argument text.
pub proof fn flattening_keeps_all_calls(blocks: Seq<ContentBlock>, i: int)
    requires
        0 <= i < blocks.len(),
    ensures
        flat_calls(blocks, blocks.len() as int).len() == calls_before(blocks, blocks.len() as int),
        blocks[i] matches ContentBlock::ToolUse { id, name, input } ==> {
            let call = flat_calls(blocks, blocks.len() as int)[calls_before(blocks, i) as int];
            &&& calls_before(blocks, i) < flat_calls(blocks, blocks.len() as int).len()
            &&& call.id == Some(id@)
            &&& call.name == name@
            &&& call.arguments == json::json_text(input@)
        },
{
    lemma_flat_calls(blocks, i, blocks.len() as int);
}

proof fn lemma_flat_calls(blocks: Seq<ContentBlock>, i: int, n: int)
    requires
        0 <= n <= blocks.len(),
        0 <= i,
    ensures
        flat_calls(blocks, n).len() == calls_before(blocks, n),
        i < n && blocks[i] is ToolUse ==> {
            let call = flat_calls(blocks, n)[calls_before(blocks, i) as int];
            &&& calls_before(blocks, i) < flat_calls(blocks, n).len()
            &&& call.id == Some(blocks[i]->ToolUse_id@)
            &&& call.name == blocks[i]->ToolUse_name@
            &&& call.arguments == json::json_text(blocks[i]->ToolUse_input@)
        },
    decreases n,
{
    if n > 0 {
        lemma_flat_calls(blocks, i, n - 1);
    }
}

} // verus!
