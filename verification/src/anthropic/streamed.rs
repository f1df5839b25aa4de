//! What a client of the Messages API puts together from the events of a stream,
//! and that it is what was generated.

use crate::anthropic::helpers;
use crate::anthropic::translator;
use crate::anthropic::translator::{OpenBlock, SseView, TranslatorView};
use crate::ir::response::FinishView;
use crate::ir::stream::StreamDelta;
use crate::json;
use crate::json::JsonView;
use vstd::prelude::*;
use vstd::string::*;

verus! {

// ── what is generated ──

/// A piece of an answer as it is generated.
pub enum Piece {
    Text(Seq<char>),
    Thinking(Seq<char>),
    /// A fragment of the tool call in a slot.
    Call { slot: usize, id: Seq<char>, name: Seq<char>, args: Seq<char> },
}

/// The pieces that a delta carries.
pub open spec fn pieces_of_delta(d: StreamDelta) -> Seq<Piece> {
    match d {
        StreamDelta::Content { text, .. } => seq![Piece::Text(text@)],
        StreamDelta::Reasoning { text, .. } => seq![Piece::Thinking(text@)],
        StreamDelta::ToolCallStart { index, id, name } => seq![
            Piece::Call { slot: index, id: id@, name: name@, args: Seq::empty() },
        ],
        StreamDelta::ToolCallArgs { index, fragment, .. } => seq![
            Piece::Call { slot: index, id: Seq::empty(), name: Seq::empty(), args: fragment@ },
        ],
        _ => Seq::empty(),
    }
}

/// The pieces that a run of deltas carries.
pub open spec fn pieces_of_deltas(deltas: Seq<StreamDelta>) -> Seq<Piece>
    decreases deltas.len(),
{
    if deltas.len() == 0 {
        Seq::empty()
    } else {
        pieces_of_deltas(deltas.drop_last()) + pieces_of_delta(deltas.last())
    }
}

/// The text of a field that may be missing.
pub open spec fn text_or_none(t: Option<Seq<char>>) -> Seq<char> {
    match t {
        Some(t) => t,
        None => Seq::empty(),
    }
}

/// The piece that an entry of `tool_calls` carries.
pub open spec fn piece_of_call(call: JsonView) -> Piece {
    let function = match call.field("function"@) {
        Some(f) => f,
        None => JsonView::Null,
    };
    Piece::Call {
        slot: match call.uint_field("index"@) {
            Some(n) => n as usize,
            None => 0,
        },
        id: text_or_none(call.text_field("id"@)),
        name: text_or_none(function.text_field("name"@)),
        args: text_or_none(function.text_field("arguments"@)),
    }
}

/// The pieces that the delta object of a chunk carries.
pub open spec fn pieces_of_object(delta: JsonView) -> Seq<Piece> {
    let calls = match delta.field("tool_calls"@) {
        Some(JsonView::Array(items)) => items,
        _ => Seq::empty(),
    };
    seq![
        Piece::Thinking(text_or_none(delta.text_field("reasoning_content"@))),
        Piece::Text(text_or_none(delta.text_field("content"@))),
    ] + Seq::new(calls.len(), |i: int| piece_of_call(calls[i]))
}

/// The pieces that an OpenAI chunk carries, in its first choice.
pub open spec fn pieces_of_chunk(chunk: JsonView) -> Seq<Piece> {
    match chunk.field("choices"@) {
        Some(JsonView::Array(choices)) => if choices.len() == 0 {
            Seq::empty()
        } else {
            match choices[0].field("delta"@) {
                Some(delta) => pieces_of_object(delta),
                None => Seq::empty(),
            }
        },
        _ => Seq::empty(),
    }
}

/// The pieces that a run of chunks carries.
pub open spec fn pieces_of_chunks(chunks: Seq<JsonView>) -> Seq<Piece>
    decreases chunks.len(),
{
    if chunks.len() == 0 {
        Seq::empty()
    } else {
        pieces_of_chunks(chunks.drop_last()) + pieces_of_chunk(chunks.last())
    }
}

/// The answer text in a list of pieces.
pub open spec fn answer_in(pieces: Seq<Piece>) -> Seq<char>
    decreases pieces.len(),
{
    if pieces.len() == 0 {
        Seq::empty()
    } else {
        answer_in(pieces.drop_last()) + match pieces.last() {
            Piece::Text(t) => t,
            _ => Seq::empty(),
        }
    }
}

/// The reasoning text in a list of pieces.
pub open spec fn thoughts_in(pieces: Seq<Piece>) -> Seq<char>
    decreases pieces.len(),
{
    if pieces.len() == 0 {
        Seq::empty()
    } else {
        thoughts_in(pieces.drop_last()) + match pieces.last() {
            Piece::Thinking(t) => t,
            _ => Seq::empty(),
        }
    }
}

/// A content block of the finished message.
pub enum Block {
    Text(Seq<char>),
    Thinking(Seq<char>),
    ToolUse { id: Seq<char>, name: Seq<char>, input: Seq<char> },
}

/// The blocks put together so far, and the slot of the last one when it is a
/// tool call.
pub struct Assembly {
    pub blocks: Seq<Block>,
    pub slot: Option<usize>,
}

/// The blocks with one more piece: text and thinking continue the last block
/// when it is of their kind and start one otherwise. A fragment continues
/// the call of its slot when that is last, and starts one when it has a name.
pub open spec fn joined(a: Assembly, p: Piece) -> Assembly {
    let last = a.blocks.len() - 1;
    match p {
        Piece::Text(t) => if t.len() == 0 {
            a
        } else if last >= 0 && a.blocks[last] is Text {
            Assembly {
                blocks: a.blocks.update(last, Block::Text(a.blocks[last]->Text_0 + t)),
                slot: None,
            }
        } else {
            Assembly { blocks: a.blocks.push(Block::Text(t)), slot: None }
        },
        Piece::Thinking(t) => if t.len() == 0 {
            a
        } else if last >= 0 && a.blocks[last] is Thinking {
            Assembly {
                blocks: a.blocks.update(last, Block::Thinking(a.blocks[last]->Thinking_0 + t)),
                slot: None,
            }
        } else {
            Assembly { blocks: a.blocks.push(Block::Thinking(t)), slot: None }
        },
        Piece::Call { slot, id, name, args } => if last >= 0 && a.slot == Some(slot) {
            match a.blocks[last] {
                Block::ToolUse { id, name, input } => Assembly {
                    blocks: a.blocks.update(
                        last,
                        Block::ToolUse { id, name, input: input + args },
                    ),
                    slot: Some(slot),
                },
                _ => a,
            }
        } else if name.len() == 0 {
            a
        } else {
            Assembly {
                blocks: a.blocks.push(Block::ToolUse { id, name, input: args }),
                slot: Some(slot),
            }
        },
    }
}

/// The blocks with all of `pieces`.
pub open spec fn joined_all(a: Assembly, pieces: Seq<Piece>) -> Assembly
    decreases pieces.len(),
{
    if pieces.len() == 0 {
        a
    } else {
        joined(joined_all(a, pieces.drop_last()), pieces.last())
    }
}

/// The blocks that all of `pieces` make up.
pub open spec fn assembled(pieces: Seq<Piece>) -> Seq<Block> {
    joined_all(Assembly { blocks: Seq::empty(), slot: None }, pieces).blocks
}

// ── what a client reads ──

/// The text of kind `kind` that an event adds to a block.
pub open spec fn added_text(e: SseView, kind: Seq<char>, key: Seq<char>) -> Seq<char> {
    if e.event == "content_block_delta"@ {
        match e.data.field("delta"@) {
            Some(d) => if d.text_field("type"@) == Some(kind) {
                text_or_none(d.text_field(key))
            } else {
                Seq::empty()
            },
            None => Seq::empty(),
        }
    } else {
        Seq::empty()
    }
}

/// The texts of kind `kind` in all of `events`, one after the other.
pub open spec fn added_texts(events: Seq<SseView>, kind: Seq<char>, key: Seq<char>) -> Seq<char>
    decreases events.len(),
{
    if events.len() == 0 {
        Seq::empty()
    } else {
        added_texts(events.drop_last(), kind, key) + added_text(events.last(), kind, key)
    }
}

/// The block that a `content_block` object opens.
pub open spec fn read_block(c: JsonView) -> Option<Block> {
    if c.text_field("type"@) == Some("text"@) {
        Some(Block::Text(text_or_none(c.text_field("text"@))))
    } else if c.text_field("type"@) == Some("thinking"@) {
        Some(Block::Thinking(text_or_none(c.text_field("thinking"@))))
    } else if c.text_field("type"@) == Some("tool_use"@) {
        Some(
            Block::ToolUse {
                id: text_or_none(c.text_field("id"@)),
                name: text_or_none(c.text_field("name"@)),
                input: Seq::empty(),
            },
        )
    } else {
        None
    }
}

/// The block with what a `delta` object adds to it.
pub open spec fn read_delta(b: Block, d: JsonView) -> Block {
    match b {
        Block::Text(t) => if d.text_field("type"@) == Some("text_delta"@) {
            Block::Text(t + text_or_none(d.text_field("text"@)))
        } else {
            b
        },
        Block::Thinking(t) => if d.text_field("type"@) == Some("thinking_delta"@) {
            Block::Thinking(t + text_or_none(d.text_field("thinking"@)))
        } else {
            b
        },
        Block::ToolUse { id, name, input } => if d.text_field("type"@) == Some(
            "input_json_delta"@,
        ) {
            Block::ToolUse { id, name, input: input + text_or_none(d.text_field("partial_json"@)) }
        } else {
            b
        },
    }
}

/// The blocks of a client after one more event. A block is opened under the
/// next index only, and text goes to the block that the event names.
pub open spec fn read_event(blocks: Seq<Block>, e: SseView) -> Seq<Block> {
    let index = match e.data.uint_field("index"@) {
        Some(n) => n as int,
        None => -1,
    };
    if e.event == "content_block_start"@ {
        match e.data.field("content_block"@) {
            Some(c) => match read_block(c) {
                Some(b) => if index == blocks.len() {
                    blocks.push(b)
                } else {
                    blocks
                },
                None => blocks,
            },
            None => blocks,
        }
    } else if e.event == "content_block_delta"@ && 0 <= index < blocks.len() {
        match e.data.field("delta"@) {
            Some(d) => blocks.update(index, read_delta(blocks[index], d)),
            None => blocks,
        }
    } else {
        blocks
    }
}

/// The blocks of a client after all of `events`.
pub open spec fn read_events(blocks: Seq<Block>, events: Seq<SseView>) -> Seq<Block>
    decreases events.len(),
{
    if events.len() == 0 {
        blocks
    } else {
        read_event(read_events(blocks, events.drop_last()), events.last())
    }
}

// ── reading back what is written ──

proof fn lemma_keys()
    ensures
        "type"@ != "index"@,
        "type"@ != "delta"@,
        "type"@ != "content_block"@,
        "type"@ != "text"@,
        "type"@ != "thinking"@,
        "type"@ != "partial_json"@,
        "type"@ != "id"@,
        "type"@ != "name"@,
        "id"@ != "name"@,
        "index"@ != "delta"@,
        "index"@ != "content_block"@,
        "text"@ != "thinking"@,
        "text"@ != "tool_use"@,
        "thinking"@ != "tool_use"@,
        "text_delta"@ != "thinking_delta"@,
        "text_delta"@ != "input_json_delta"@,
        "thinking_delta"@ != "input_json_delta"@,
{
    reveal_strlit("type");
    reveal_strlit("index");
    reveal_strlit("delta");
    reveal_strlit("content_block");
    reveal_strlit("text");
    reveal_strlit("thinking");
    reveal_strlit("partial_json");
    reveal_strlit("id");
    reveal_strlit("name");
    reveal_strlit("tool_use");
    reveal_strlit("text_delta");
    reveal_strlit("thinking_delta");
    reveal_strlit("input_json_delta");
    assert("type"@.len() == 4 && "index"@.len() == 5 && "delta"@.len() == 5
        && "content_block"@.len() == 13 && "text"@.len() == 4 && "thinking"@.len() == 8
        && "partial_json"@.len() == 12 && "id"@.len() == 2 && "name"@.len() == 4
        && "tool_use"@.len() == 8 && "text_delta"@.len() == 10 && "thinking_delta"@.len() == 14
        && "input_json_delta"@.len() == 16);
    assert("type"@[1] != "text"@[1]);
    assert("type"@[0] != "name"@[0]);
    assert("index"@[0] != "delta"@[0]);
    assert("thinking"@[1] != "tool_use"@[1]);
}

/// What a client reads in a `content_block_start` event.
proof fn lemma_read_start(block: u32, content: JsonView)
    ensures
        ({
            let e = translator::block_start(block, content);
            &&& e.data.uint_field("index"@) == Some(block as u64)
            &&& e.data.field("content_block"@) == Some(content)
        }),
{
    lemma_keys();
    reveal_with_fuel(json::entry_at, 4);
    let e = translator::block_start(block, content);
    let o = e.data->Object_0;
    assert(o.len() == 3 && o[0].0 == "type"@ && o[1].0 == "index"@ && o[2].0 == "content_block"@);
    assert(json::entry_at(o, "index"@, 0) == 1);
    assert(json::entry_at(o, "content_block"@, 0) == 2);
}

/// What a client reads in a `content_block_delta` event.
proof fn lemma_read_delta(block: u32, delta: JsonView)
    ensures
        ({
            let e = translator::block_delta(block, delta);
            &&& e.data.uint_field("index"@) == Some(block as u64)
            &&& e.data.field("delta"@) == Some(delta)
        }),
{
    lemma_keys();
    reveal_with_fuel(json::entry_at, 4);
    let e = translator::block_delta(block, delta);
    let o = e.data->Object_0;
    assert(o.len() == 3 && o[0].0 == "type"@ && o[1].0 == "index"@ && o[2].0 == "delta"@);
    assert(json::entry_at(o, "index"@, 0) == 1);
    assert(json::entry_at(o, "delta"@, 0) == 2);
}

/// What a client reads in an object of a type and a text.
proof fn lemma_read_typed(kind: Seq<char>, key: Seq<char>, t: Seq<char>)
    requires
        key != "type"@,
    ensures
        translator::typed_text(kind, key, t).text_field("type"@) == Some(kind),
        translator::typed_text(kind, key, t).text_field(key) == Some(t),
{
    reveal_with_fuel(json::entry_at, 3);
    let o = translator::typed_text(kind, key, t)->Object_0;
    assert(o.len() == 2 && o[0].0 == "type"@ && o[1].0 == key);
    assert(json::entry_at(o, "type"@, 0) == 0);
    assert(json::entry_at(o, key, 0) == 1);
}

/// What a client reads in the object that opens a tool call.
proof fn lemma_read_tool(id: Seq<char>, name: Seq<char>)
    ensures
        read_block(translator::tool_block(id, name)) == Some(
            Block::ToolUse { id, name, input: Seq::empty() },
        ),
{
    lemma_keys();
    reveal_with_fuel(json::entry_at, 4);
    let c = translator::tool_block(id, name);
    let o = c->Object_0;
    assert(o[0].0 == "type"@ && o[1].0 == "id"@ && o[2].0 == "name"@);
    assert(json::entry_at(o, "type"@, 0) == 0);
    assert(json::entry_at(o, "id"@, 0) == 1);
    assert(json::entry_at(o, "name"@, 0) == 2);
}

proof fn lemma_read_add(blocks: Seq<Block>, a: Seq<SseView>, b: Seq<SseView>)
    ensures
        read_events(blocks, a + b) == read_events(read_events(blocks, a), b),
    decreases b.len(),
{
    if b.len() == 0 {
        assert(a + b =~= a);
    } else {
        assert((a + b).drop_last() =~= a + b.drop_last());
        assert((a + b).last() == b.last());
        lemma_read_add(blocks, a, b.drop_last());
    }
}

proof fn lemma_read_one(blocks: Seq<Block>, e: SseView)
    ensures
        read_events(blocks, seq![e]) == read_event(blocks, e),
{
    assert(seq![e].drop_last() =~= Seq::<SseView>::empty());
    assert(read_events(blocks, seq![e].drop_last()) == blocks);
}

proof fn lemma_added_add(a: Seq<SseView>, b: Seq<SseView>, kind: Seq<char>, key: Seq<char>)
    ensures
        added_texts(a + b, kind, key) == added_texts(a, kind, key) + added_texts(b, kind, key),
    decreases b.len(),
{
    if b.len() == 0 {
        assert(a + b =~= a);
        assert(added_texts(a, kind, key) + added_texts(b, kind, key) =~= added_texts(a, kind, key));
    } else {
        assert((a + b).drop_last() =~= a + b.drop_last());
        assert((a + b).last() == b.last());
        lemma_added_add(a, b.drop_last(), kind, key);
        assert(added_texts(a + b, kind, key) =~= added_texts(a, kind, key) + added_texts(
            b,
            kind,
            key,
        ));
    }
}

proof fn lemma_added_one(e: SseView, kind: Seq<char>, key: Seq<char>)
    ensures
        added_texts(seq![e], kind, key) == added_text(e, kind, key),
{
    assert(seq![e].drop_last() =~= Seq::<SseView>::empty());
    assert(added_texts(seq![e].drop_last(), kind, key) =~= Seq::<char>::empty());
    assert(added_texts(seq![e], kind, key) =~= added_text(e, kind, key));
}

proof fn lemma_joined_add(a: Assembly, x: Seq<Piece>, y: Seq<Piece>)
    ensures
        joined_all(a, x + y) == joined_all(joined_all(a, x), y),
    decreases y.len(),
{
    if y.len() == 0 {
        assert(x + y =~= x);
    } else {
        assert((x + y).drop_last() =~= x + y.drop_last());
        assert((x + y).last() == y.last());
        lemma_joined_add(a, x, y.drop_last());
    }
}

proof fn lemma_joined_one(a: Assembly, p: Piece)
    ensures
        joined_all(a, seq![p]) == joined(a, p),
{
    assert(seq![p].drop_last() =~= Seq::<Piece>::empty());
    assert(joined_all(a, seq![p].drop_last()) == a);
}

// ── one piece ──

/// The state and the events that one piece leads to.
spec fn piece_step(st: TranslatorView, p: Piece) -> (TranslatorView, Seq<SseView>) {
    match p {
        Piece::Text(t) => translator::on_text(st, t),
        Piece::Thinking(t) => translator::on_thinking(st, t),
        Piece::Call { slot, id, name, args } => translator::on_tool(st, slot, id, name, args),
    }
}

/// The translator and the blocks put together stand at the same place.
spec fn tracks(st: TranslatorView, a: Assembly) -> bool {
    match st.open {
        OpenBlock::Closed => a.blocks.len() == 0 && st.block == 0 && a.slot is None,
        OpenBlock::Text => a.blocks.len() == st.block + 1 && a.blocks.last() is Text
            && a.slot is None,
        OpenBlock::Thinking => a.blocks.len() == st.block + 1 && a.blocks.last() is Thinking
            && a.slot is None,
        OpenBlock::ToolUse(slot) => a.blocks.len() == st.block + 1 && a.blocks.last() is ToolUse
            && a.slot == Some(slot),
    }
}

/// Opening a block adds an empty one behind the blocks there are.
proof fn lemma_read_opened(st: TranslatorView, a: Assembly, kind: OpenBlock, content: JsonView)
    requires
        tracks(st, a),
        st.block < u32::MAX,
        st.open != kind,
        read_block(content) is Some,
    ensures
        ({
            let (next, events) = translator::opened(st, kind, content);
            &&& next.block == a.blocks.len()
            &&& next.open == kind
            &&& read_events(a.blocks, events) == a.blocks.push(read_block(content)->0)
        }),
{
    translator::lemma_event_names();
    let (c, stop) = translator::closed(st);
    let start = translator::block_start(c.block, content);
    lemma_read_start(c.block, content);
    assert(read_events(a.blocks, Seq::<SseView>::empty()) == a.blocks);
    if !(st.open is Closed) {
        lemma_read_one(a.blocks, translator::block_stop(st.block));
    }
    assert(read_events(a.blocks, stop) == a.blocks);
    lemma_read_one(a.blocks, start);
    lemma_read_add(a.blocks, stop, seq![start]);
}

/// Text that is added goes to the last block.
proof fn lemma_read_added(blocks: Seq<Block>, block: u32, delta: JsonView)
    requires
        blocks.len() == block + 1,
    ensures
        read_events(blocks, seq![translator::block_delta(block, delta)]) == blocks.update(
            block as int,
            read_delta(blocks[block as int], delta),
        ),
{
    translator::lemma_event_names();
    lemma_read_delta(block, delta);
    lemma_read_one(blocks, translator::block_delta(block, delta));
}

/// A client reads every piece as it joins the blocks.
proof fn lemma_piece(st: TranslatorView, a: Assembly, p: Piece)
    requires
        tracks(st, a),
        st.block < u32::MAX,
    ensures
        ({
            let (next, events) = piece_step(st, p);
            &&& tracks(next, joined(a, p))
            &&& read_events(a.blocks, events) == joined(a, p).blocks
            &&& next.block <= st.block + 1
        }),
{
    lemma_keys();
    let (next, events) = piece_step(st, p);
    let want = joined(a, p).blocks;
    match p {
        Piece::Text(t) => if t.len() > 0 {
            let content = translator::typed_text("text"@, "text"@, Seq::empty());
            let delta = translator::typed_text("text_delta"@, "text"@, t);
            lemma_read_typed("text"@, "text"@, Seq::empty());
            lemma_read_typed("text_delta"@, "text"@, t);
            let first = translator::opened(st, OpenBlock::Text, content).1;
            if st.open != OpenBlock::Text {
                lemma_read_opened(st, a, OpenBlock::Text, content);
            } else {
                assert(read_events(a.blocks, first) == a.blocks);
            }
            let mid = read_events(a.blocks, first);
            lemma_read_added(mid, next.block, delta);
            lemma_read_add(a.blocks, first, seq![translator::block_delta(next.block, delta)]);
            assert(Seq::<char>::empty() + t =~= t);
            assert(read_events(a.blocks, events) =~= want);
        },
        Piece::Thinking(t) => if t.len() > 0 {
            let content = translator::typed_text("thinking"@, "thinking"@, Seq::empty());
            let delta = translator::typed_text("thinking_delta"@, "thinking"@, t);
            lemma_read_typed("thinking"@, "thinking"@, Seq::empty());
            lemma_read_typed("thinking_delta"@, "thinking"@, t);
            let first = translator::opened(st, OpenBlock::Thinking, content).1;
            if st.open != OpenBlock::Thinking {
                lemma_read_opened(st, a, OpenBlock::Thinking, content);
            } else {
                assert(read_events(a.blocks, first) == a.blocks);
            }
            let mid = read_events(a.blocks, first);
            lemma_read_added(mid, next.block, delta);
            lemma_read_add(a.blocks, first, seq![translator::block_delta(next.block, delta)]);
            assert(Seq::<char>::empty() + t =~= t);
            assert(read_events(a.blocks, events) =~= want);
        },
        Piece::Call { slot, id, name, args } => {
            let content = translator::tool_block(id, name);
            let delta = translator::typed_text("input_json_delta"@, "partial_json"@, args);
            lemma_read_tool(id, name);
            lemma_read_typed("input_json_delta"@, "partial_json"@, args);
            let kind = OpenBlock::ToolUse(slot);
            if st.open == kind || name.len() > 0 {
                let first = translator::opened(st, kind, content).1;
                if st.open != kind {
                    lemma_read_opened(st, a, kind, content);
                } else {
                    assert(read_events(a.blocks, first) == a.blocks);
                }
                let mid = read_events(a.blocks, first);
                assert(Seq::<char>::empty() + args =~= args);
                if args.len() > 0 {
                    lemma_read_added(mid, next.block, delta);
                    lemma_read_add(
                        a.blocks,
                        first,
                        seq![translator::block_delta(next.block, delta)],
                    );
                } else {
                    assert(args =~= Seq::<char>::empty());
                    if st.open == kind {
                        let last = a.blocks.len() - 1;
                        let input = a.blocks[last]->ToolUse_input;
                        assert(input + args =~= input);
                    }
                }
                assert(read_events(a.blocks, events) =~= want);
            }
        },
    }
}

/// The text that a piece adds to blocks of each kind is its own.
proof fn lemma_piece_added(st: TranslatorView, p: Piece)
    ensures
        added_texts(piece_step(st, p).1, "text_delta"@, "text"@) == answer_in(seq![p]),
        added_texts(piece_step(st, p).1, "thinking_delta"@, "thinking"@) == thoughts_in(seq![p]),
{
    lemma_keys();
    translator::lemma_event_names();
    let none = Seq::<char>::empty();
    assert(seq![p].drop_last() =~= Seq::<Piece>::empty());
    assert(answer_in(seq![p].drop_last()) =~= none);
    assert(thoughts_in(seq![p].drop_last()) =~= none);
    match p {
        Piece::Text(t) => {
            assert(answer_in(seq![p]) =~= t);
            assert(thoughts_in(seq![p]) =~= none);
            if t.len() > 0 {
                lemma_step_added(
                    st,
                    OpenBlock::Text,
                    translator::typed_text("text"@, "text"@, none),
                    "text_delta"@,
                    "text"@,
                    t,
                );
            } else {
                assert(t =~= none);
            }
        },
        Piece::Thinking(t) => {
            assert(answer_in(seq![p]) =~= none);
            assert(thoughts_in(seq![p]) =~= t);
            if t.len() > 0 {
                lemma_step_added(
                    st,
                    OpenBlock::Thinking,
                    translator::typed_text("thinking"@, "thinking"@, none),
                    "thinking_delta"@,
                    "thinking"@,
                    t,
                );
            } else {
                assert(t =~= none);
            }
        },
        Piece::Call { slot, id, name, args } => {
            assert(answer_in(seq![p]) =~= none);
            assert(thoughts_in(seq![p]) =~= none);
            lemma_step_added(
                st,
                OpenBlock::ToolUse(slot),
                translator::tool_block(id, name),
                "input_json_delta"@,
                "partial_json"@,
                args,
            );
            lemma_opened_added(
                st,
                OpenBlock::ToolUse(slot),
                translator::tool_block(id, name),
                "text_delta"@,
                "text"@,
            );
            lemma_opened_added(
                st,
                OpenBlock::ToolUse(slot),
                translator::tool_block(id, name),
                "thinking_delta"@,
                "thinking"@,
            );
        },
    }
}

/// Opening a block adds no text.
proof fn lemma_opened_added(
    st: TranslatorView,
    open: OpenBlock,
    content: JsonView,
    kind: Seq<char>,
    key: Seq<char>,
)
    ensures
        added_texts(translator::opened(st, open, content).1, kind, key) == Seq::<char>::empty(),
{
    translator::lemma_event_names();
    let none = Seq::<char>::empty();
    if st.open != open {
        let (c, stop) = translator::closed(st);
        let start = translator::block_start(c.block, content);
        if !(st.open is Closed) {
            lemma_added_one(translator::block_stop(st.block), kind, key);
        }
        assert(added_texts(stop, kind, key) =~= none);
        lemma_added_one(start, kind, key);
        lemma_added_add(stop, seq![start], kind, key);
        assert(none + none =~= none);
    }
}

/// Text in a block that is opened for it adds that text, under its kind only.
proof fn lemma_step_added(
    st: TranslatorView,
    open: OpenBlock,
    content: JsonView,
    kind: Seq<char>,
    key: Seq<char>,
    t: Seq<char>,
)
    requires
        key != "type"@,
    ensures
        ({
            let (a, events) = translator::opened(st, open, content);
            let delta = translator::block_delta(a.block, translator::typed_text(kind, key, t));
            &&& added_texts(events + seq![delta], kind, key) == t
            &&& forall|other: Seq<char>, k: Seq<char>|
                other != kind ==> #[trigger] added_texts(events + seq![delta], other, k)
                    == Seq::<char>::empty()
        }),
{
    let (a, events) = translator::opened(st, open, content);
    let body = translator::typed_text(kind, key, t);
    let delta = translator::block_delta(a.block, body);
    let none = Seq::<char>::empty();
    lemma_read_delta(a.block, body);
    lemma_read_typed(kind, key, t);
    lemma_opened_added(st, open, content, kind, key);
    lemma_added_one(delta, kind, key);
    lemma_added_add(events, seq![delta], kind, key);
    assert(none + t =~= t);
    assert forall|other: Seq<char>, k: Seq<char>| other != kind implies #[trigger] added_texts(
        events + seq![delta],
        other,
        k,
    ) == none by {
        lemma_opened_added(st, open, content, other, k);
        lemma_added_one(delta, other, k);
        lemma_added_add(events, seq![delta], other, k);
        assert(none + none =~= none);
    }
}

proof fn lemma_answer_add(x: Seq<Piece>, y: Seq<Piece>)
    ensures
        answer_in(x + y) == answer_in(x) + answer_in(y),
        thoughts_in(x + y) == thoughts_in(x) + thoughts_in(y),
    decreases y.len(),
{
    if y.len() == 0 {
        assert(x + y =~= x);
        assert(answer_in(x) + answer_in(y) =~= answer_in(x));
        assert(thoughts_in(x) + thoughts_in(y) =~= thoughts_in(x));
    } else {
        assert((x + y).drop_last() =~= x + y.drop_last());
        assert((x + y).last() == y.last());
        lemma_answer_add(x, y.drop_last());
        assert(answer_in(x + y) =~= answer_in(x) + answer_in(y));
        assert(thoughts_in(x + y) =~= thoughts_in(x) + thoughts_in(y));
    }
}

// ── opening and ending a message ──

/// An event that carries no content.
spec fn is_frame(e: SseView) -> bool {
    e.event == "message_start"@ || e.event == "content_block_stop"@ || e.event == "message_delta"@
        || e.event == "message_stop"@
}

/// Events without content say nothing to a client's blocks.
proof fn lemma_frames(blocks: Seq<Block>, events: Seq<SseView>)
    requires
        forall|i: int| 0 <= i < events.len() ==> is_frame(#[trigger] events[i]),
    ensures
        read_events(blocks, events) == blocks,
        forall|kind: Seq<char>, key: Seq<char>|
            #[trigger] added_texts(events, kind, key) == Seq::<char>::empty(),
    decreases events.len(),
{
    translator::lemma_event_names();
    let none = Seq::<char>::empty();
    if events.len() > 0 {
        let most = events.drop_last();
        assert forall|i: int| 0 <= i < most.len() implies is_frame(#[trigger] most[i]) by {
            assert(most[i] == events[i]);
        }
        lemma_frames(blocks, most);
        assert(is_frame(events[events.len() - 1]));
        assert(none + none =~= none);
        assert forall|kind: Seq<char>, key: Seq<char>| #[trigger]
            added_texts(events, kind, key) == none by {
            assert(added_texts(most, kind, key) == none);
        }
    }
}

/// Opening a message says nothing to a client's blocks.
proof fn lemma_started_frames(st: TranslatorView, blocks: Seq<Block>)
    ensures
        read_events(blocks, translator::started(st).1) == blocks,
        forall|kind: Seq<char>, key: Seq<char>|
            #[trigger] added_texts(translator::started(st).1, kind, key) == Seq::<char>::empty(),
{
    lemma_frames(blocks, translator::started(st).1);
}

/// Ending a message says nothing to a client's blocks.
proof fn lemma_ended_frames(st: TranslatorView, reason: Seq<char>, blocks: Seq<Block>)
    ensures
        read_events(blocks, translator::ended(st, reason).1) == blocks,
        forall|kind: Seq<char>, key: Seq<char>|
            #[trigger] added_texts(translator::ended(st, reason).1, kind, key)
                == Seq::<char>::empty(),
{
    let (a, start) = translator::started(st);
    let (b, stop) = translator::closed(a);
    let events = translator::ended(st, reason).1;
    if !st.finished {
        let tail = seq![translator::message_delta(b, reason), translator::message_stop()];
        assert forall|i: int| 0 <= i < events.len() implies is_frame(#[trigger] events[i]) by {
            if i < start.len() {
                assert(events[i] == start[i]);
            } else if i < start.len() + stop.len() {
                assert(events[i] == stop[i - start.len()]);
            } else {
                assert(events[i] == tail[i - start.len() - stop.len()]);
            }
        }
    }
    lemma_frames(blocks, events);
}

// ── deltas ──

/// One delta: the events read as its pieces joined.
proof fn lemma_delta(st: TranslatorView, a: Assembly, d: StreamDelta)
    requires
        tracks(st, a),
        st.block < u32::MAX,
    ensures
        ({
            let (next, events) = translator::delta_step(st, d);
            let after = joined_all(a, pieces_of_delta(d));
            &&& read_events(a.blocks, events) == after.blocks
            &&& !(d is Finish) ==> tracks(next, after) && next.block <= st.block + 1
        }),
{
    let (s, start) = translator::started(st);
    lemma_started_frames(st, a.blocks);
    let none = Seq::<char>::empty();
    match d {
        StreamDelta::Content { text, .. } => {
            let p = Piece::Text(text@);
            lemma_piece(s, a, p);
            lemma_joined_one(a, p);
            lemma_read_add(a.blocks, start, piece_step(s, p).1);
        },
        StreamDelta::Reasoning { text, .. } => {
            let p = Piece::Thinking(text@);
            lemma_piece(s, a, p);
            lemma_joined_one(a, p);
            lemma_read_add(a.blocks, start, piece_step(s, p).1);
        },
        StreamDelta::ToolCallStart { index, id, name } => {
            let p = Piece::Call { slot: index, id: id@, name: name@, args: none };
            lemma_piece(s, a, p);
            lemma_joined_one(a, p);
            lemma_read_add(a.blocks, start, piece_step(s, p).1);
        },
        StreamDelta::ToolCallArgs { index, fragment, .. } => {
            let p = Piece::Call { slot: index, id: none, name: none, args: fragment@ };
            lemma_piece(s, a, p);
            lemma_joined_one(a, p);
            lemma_read_add(a.blocks, start, piece_step(s, p).1);
        },
        StreamDelta::Finish { reason, usage, .. } => {
            lemma_ended_frames(
                translator::with_usage(st, usage),
                helpers::stop_reason(crate::ir::response::finish_wire(reason@)),
                a.blocks,
            );
        },
        StreamDelta::Refusal { .. } => {},
        StreamDelta::Error { .. } => {},
    }
}

proof fn lemma_run(model: Seq<char>, id: Seq<char>, deltas: Seq<StreamDelta>)
    requires
        deltas.len() < u32::MAX,
        forall|k: int| 0 <= k < deltas.len() ==> !((#[trigger] deltas[k]) is Finish),
    ensures
        ({
            let (st, events) = translator::run(translator::fresh(model, id), deltas);
            let a = joined_all(
                Assembly { blocks: Seq::empty(), slot: None },
                pieces_of_deltas(deltas),
            );
            &&& tracks(st, a)
            &&& read_events(Seq::empty(), events) == a.blocks
            &&& st.block <= deltas.len()
        }),
    decreases deltas.len(),
{
    let a0 = Assembly { blocks: Seq::empty(), slot: None };
    if deltas.len() > 0 {
        let most = deltas.drop_last();
        assert forall|k: int| 0 <= k < most.len() implies !((#[trigger] most[k]) is Finish) by {
            assert(most[k] == deltas[k]);
        }
        lemma_run(model, id, most);
        let (before, sent) = translator::run(translator::fresh(model, id), most);
        assert(!(deltas[deltas.len() - 1] is Finish));
        lemma_delta(before, joined_all(a0, pieces_of_deltas(most)), deltas.last());
        lemma_joined_add(a0, pieces_of_deltas(most), pieces_of_delta(deltas.last()));
        lemma_read_add(
            Seq::empty(),
            sent,
            translator::delta_step(before, deltas.last()).1,
        );
    }
}

/// A client that reads the events of a stream has the blocks that were
/// generated: every piece of text, thinking and tool call arguments, in order and
/// in its own block, every call under its id and name, and nothing else. The
/// end of the message and the final flush add nothing.
pub proof fn clients_read_what_was_generated(
    model: Seq<char>,
    id: Seq<char>,
    deltas: Seq<StreamDelta>,
    last: StreamDelta,
)
    requires
        deltas.len() + 1 < u32::MAX,
        forall|k: int| 0 <= k < deltas.len() ==> !((#[trigger] deltas[k]) is Finish),
    ensures
        ({
            let all = deltas.push(last);
            let (st, events) = translator::run(translator::fresh(model, id), all);
            let flushed = events + translator::ended(st, "end_turn"@).1;
            &&& read_events(Seq::empty(), events) == assembled(pieces_of_deltas(all))
            &&& read_events(Seq::empty(), flushed) == assembled(pieces_of_deltas(all))
        }),
{
    let a0 = Assembly { blocks: Seq::empty(), slot: None };
    let all = deltas.push(last);
    assert(all.drop_last() =~= deltas);
    lemma_run(model, id, deltas);
    let (before, sent) = translator::run(translator::fresh(model, id), deltas);
    lemma_delta(before, joined_all(a0, pieces_of_deltas(deltas)), last);
    lemma_joined_add(a0, pieces_of_deltas(deltas), pieces_of_delta(last));
    let (st, more) = translator::delta_step(before, last);
    lemma_read_add(Seq::empty(), sent, more);
    let read = read_events(Seq::empty(), sent + more);
    lemma_ended_frames(st, "end_turn"@, read);
    lemma_read_add(Seq::empty(), sent + more, translator::ended(st, "end_turn"@).1);
}

proof fn lemma_delta_added(st: TranslatorView, d: StreamDelta)
    ensures
        added_texts(translator::delta_step(st, d).1, "text_delta"@, "text"@) == answer_in(
            pieces_of_delta(d),
        ),
        added_texts(translator::delta_step(st, d).1, "thinking_delta"@, "thinking"@)
            == thoughts_in(pieces_of_delta(d)),
{
    let (s, start) = translator::started(st);
    lemma_started_frames(st, Seq::empty());
    let none = Seq::<char>::empty();
    let pieces = pieces_of_delta(d);
    if pieces.len() > 0 {
        let p = pieces[0];
        assert(pieces =~= seq![p]);
        lemma_piece_added(s, p);
        let events = piece_step(s, p).1;
        lemma_added_add(start, events, "text_delta"@, "text"@);
        lemma_added_add(start, events, "thinking_delta"@, "thinking"@);
        assert(added_texts(start, "text_delta"@, "text"@) == none);
        assert(added_texts(start, "thinking_delta"@, "thinking"@) == none);
        assert(none + answer_in(pieces) =~= answer_in(pieces));
        assert(none + thoughts_in(pieces) =~= thoughts_in(pieces));
    } else if let StreamDelta::Finish { reason, usage, .. } = d {
        lemma_ended_frames(
            translator::with_usage(st, usage),
            helpers::stop_reason(crate::ir::response::finish_wire(reason@)),
            Seq::empty(),
        );
    }
}

/// No answer text and no reasoning is lost, doubled or moved: from any state and
/// over any run of deltas, the texts of the `text_delta` events one after the
/// other are the texts of the content deltas, and those of the `thinking_delta`
/// events the texts of the reasoning deltas.
pub proof fn streamed_text_is_kept(st: TranslatorView, deltas: Seq<StreamDelta>)
    ensures
        added_texts(translator::run(st, deltas).1, "text_delta"@, "text"@) == answer_in(
            pieces_of_deltas(deltas),
        ),
        added_texts(translator::run(st, deltas).1, "thinking_delta"@, "thinking"@) == thoughts_in(
            pieces_of_deltas(deltas),
        ),
    decreases deltas.len(),
{
    if deltas.len() > 0 {
        let most = deltas.drop_last();
        streamed_text_is_kept(st, most);
        let (before, sent) = translator::run(st, most);
        let events = translator::delta_step(before, deltas.last()).1;
        lemma_delta_added(before, deltas.last());
        lemma_added_add(sent, events, "text_delta"@, "text"@);
        lemma_added_add(sent, events, "thinking_delta"@, "thinking"@);
        lemma_answer_add(pieces_of_deltas(most), pieces_of_delta(deltas.last()));
    }
}

// ── chunks ──

/// The pieces of the first `n` entries of `tool_calls`.
spec fn pieces_of_calls(calls: Seq<JsonView>, n: int) -> Seq<Piece> {
    Seq::new(n as nat, |i: int| piece_of_call(calls[i]))
}

proof fn lemma_calls(st: TranslatorView, a: Assembly, calls: Seq<JsonView>, n: int)
    requires
        tracks(st, a),
        0 <= n <= calls.len(),
        st.block + n < u32::MAX,
    ensures
        ({
            let (next, events) = translator::on_fragments(st, calls, n);
            let after = joined_all(a, pieces_of_calls(calls, n));
            &&& read_events(a.blocks, events) == after.blocks
            &&& tracks(next, after)
            &&& next.block <= st.block + n
        }),
    decreases n,
{
    if n > 0 {
        lemma_calls(st, a, calls, n - 1);
        let (before, sent) = translator::on_fragments(st, calls, n - 1);
        let first = pieces_of_calls(calls, n - 1);
        let p = piece_of_call(calls[n - 1]);
        lemma_piece(before, joined_all(a, first), p);
        lemma_joined_one(joined_all(a, first), p);
        lemma_joined_add(a, first, seq![p]);
        assert(pieces_of_calls(calls, n) =~= first + seq![p]);
        lemma_read_add(a.blocks, sent, piece_step(before, p).1);
    } else {
        assert(pieces_of_calls(calls, n) =~= Seq::<Piece>::empty());
    }
}

proof fn lemma_calls_added(st: TranslatorView, calls: Seq<JsonView>, n: int)
    requires
        0 <= n <= calls.len(),
    ensures
        added_texts(translator::on_fragments(st, calls, n).1, "text_delta"@, "text"@)
            == answer_in(pieces_of_calls(calls, n)),
        added_texts(translator::on_fragments(st, calls, n).1, "thinking_delta"@, "thinking"@)
            == thoughts_in(pieces_of_calls(calls, n)),
    decreases n,
{
    if n > 0 {
        lemma_calls_added(st, calls, n - 1);
        let (before, sent) = translator::on_fragments(st, calls, n - 1);
        let first = pieces_of_calls(calls, n - 1);
        let p = piece_of_call(calls[n - 1]);
        let events = piece_step(before, p).1;
        lemma_piece_added(before, p);
        lemma_added_add(sent, events, "text_delta"@, "text"@);
        lemma_added_add(sent, events, "thinking_delta"@, "thinking"@);
        lemma_answer_add(first, seq![p]);
        assert(pieces_of_calls(calls, n) =~= first + seq![p]);
    } else {
        assert(pieces_of_calls(calls, n) =~= Seq::<Piece>::empty());
    }
}

/// The delta object of a chunk: the events read as its pieces joined, and add
/// their text.
proof fn lemma_object(st: TranslatorView, a: Assembly, delta: JsonView)
    requires
        tracks(st, a),
        st.block + translator::call_fragments(delta).len() + 2 < u32::MAX,
    ensures
        ({
            let (next, events) = translator::on_delta_object(st, delta);
            let after = joined_all(a, pieces_of_object(delta));
            &&& read_events(a.blocks, events) == after.blocks
            &&& tracks(next, after)
            &&& next.block <= st.block + translator::call_fragments(delta).len() + 2
        }),
{
    let calls = translator::call_fragments(delta);
    let thought = Piece::Thinking(text_or_none(delta.text_field("reasoning_content"@)));
    let said = Piece::Text(text_or_none(delta.text_field("content"@)));
    let (s1, start) = translator::signalled(st, delta);
    let (s2, thinking) = piece_step(s1, thought);
    let (s3, answer) = piece_step(s2, said);
    let tools = translator::on_calls(s3, delta).1;
    lemma_started_frames(st, a.blocks);
    assert(read_events(a.blocks, start) == a.blocks);
    let a1 = joined(a, thought);
    let a2 = joined(a1, said);
    lemma_piece(s1, a, thought);
    lemma_piece(s2, a1, said);
    lemma_calls(s3, a2, calls, calls.len() as int);
    lemma_read_add(a.blocks, start, thinking);
    lemma_read_add(a.blocks, start + thinking, answer);
    lemma_read_add(a.blocks, start + thinking + answer, tools);
    lemma_joined_one(a, thought);
    lemma_joined_one(a1, said);
    lemma_joined_add(a, seq![thought], seq![said]);
    let two = seq![thought, said];
    assert(two =~= seq![thought] + seq![said]);
    lemma_joined_add(a, two, pieces_of_calls(calls, calls.len() as int));
    assert(pieces_of_object(delta) =~= two + pieces_of_calls(calls, calls.len() as int));
}

proof fn lemma_object_added(st: TranslatorView, delta: JsonView)
    ensures
        added_texts(translator::on_delta_object(st, delta).1, "text_delta"@, "text"@)
            == answer_in(pieces_of_object(delta)),
        added_texts(translator::on_delta_object(st, delta).1, "thinking_delta"@, "thinking"@)
            == thoughts_in(pieces_of_object(delta)),
{
    let none = Seq::<char>::empty();
    let calls = translator::call_fragments(delta);
    let thought = Piece::Thinking(text_or_none(delta.text_field("reasoning_content"@)));
    let said = Piece::Text(text_or_none(delta.text_field("content"@)));
    let (s1, start) = translator::signalled(st, delta);
    let (s2, thinking) = piece_step(s1, thought);
    let (s3, answer) = piece_step(s2, said);
    let tools = translator::on_calls(s3, delta).1;
    let called = pieces_of_calls(calls, calls.len() as int);
    lemma_started_frames(st, Seq::empty());
    assert(added_texts(Seq::<SseView>::empty(), "text_delta"@, "text"@) == none);
    assert(added_texts(Seq::<SseView>::empty(), "thinking_delta"@, "thinking"@) == none);
    assert(added_texts(start, "text_delta"@, "text"@) == none);
    assert(added_texts(start, "thinking_delta"@, "thinking"@) == none);
    lemma_piece_added(s1, thought);
    lemma_piece_added(s2, said);
    lemma_calls_added(s3, calls, calls.len() as int);
    lemma_added_add(start, thinking, "text_delta"@, "text"@);
    lemma_added_add(start + thinking, answer, "text_delta"@, "text"@);
    lemma_added_add(start + thinking + answer, tools, "text_delta"@, "text"@);
    lemma_added_add(start, thinking, "thinking_delta"@, "thinking"@);
    lemma_added_add(start + thinking, answer, "thinking_delta"@, "thinking"@);
    lemma_added_add(start + thinking + answer, tools, "thinking_delta"@, "thinking"@);
    lemma_answer_add(seq![thought], seq![said]);
    let two = seq![thought, said];
    assert(two =~= seq![thought] + seq![said]);
    lemma_answer_add(two, called);
    assert(pieces_of_object(delta) =~= two + called);
    assert(none + answer_in(seq![thought]) =~= answer_in(seq![thought]));
    assert(none + thoughts_in(seq![thought]) =~= thoughts_in(seq![thought]));
}

/// One chunk: the events read as its pieces joined.
proof fn lemma_chunk(st: TranslatorView, a: Assembly, chunk: JsonView)
    requires
        tracks(st, a),
        st.block + translator::fragment_count(chunk) + 2 < u32::MAX,
    ensures
        ({
            let (next, events) = translator::chunk_step(st, chunk);
            let after = joined_all(a, pieces_of_chunk(chunk));
            &&& read_events(a.blocks, events) == after.blocks
            &&& !translator::ends_message(chunk) ==> tracks(next, after) && next.block <= st.block
                + translator::fragment_count(chunk) + 2
        }),
{
    let known = translator::with_chunk_facts(st, chunk);
    assert(tracks(known, a));
    if let Some(choice) = translator::first_choice(chunk) {
        let (b, events) = match choice.field("delta"@) {
            Some(delta) => translator::on_delta_object(known, delta),
            None => (known, Seq::empty()),
        };
        if let Some(delta) = choice.field("delta"@) {
            lemma_object(known, a, delta);
        }
        if let Some(reason) = choice.text_field("finish_reason"@) {
            let why = helpers::stop_reason(reason);
            lemma_ended_frames(b, why, read_events(a.blocks, events));
            lemma_read_add(a.blocks, events, translator::ended(b, why).1);
        }
    }
}

proof fn lemma_chunk_run(model: Seq<char>, id: Seq<char>, chunks: Seq<JsonView>)
    requires
        translator::most_blocks(chunks) < u32::MAX,
        forall|k: int| 0 <= k < chunks.len() ==> !translator::ends_message(#[trigger] chunks[k]),
    ensures
        ({
            let (st, events) = translator::chunk_run(translator::fresh(model, id), chunks);
            let a = joined_all(
                Assembly { blocks: Seq::empty(), slot: None },
                pieces_of_chunks(chunks),
            );
            &&& tracks(st, a)
            &&& read_events(Seq::empty(), events) == a.blocks
            &&& st.block <= translator::most_blocks(chunks)
        }),
    decreases chunks.len(),
{
    let a0 = Assembly { blocks: Seq::empty(), slot: None };
    if chunks.len() > 0 {
        let most = chunks.drop_last();
        assert forall|k: int| 0 <= k < most.len() implies !translator::ends_message(
            #[trigger] most[k],
        ) by {
            assert(most[k] == chunks[k]);
        }
        lemma_chunk_run(model, id, most);
        let (before, sent) = translator::chunk_run(translator::fresh(model, id), most);
        assert(!translator::ends_message(chunks[chunks.len() - 1]));
        lemma_chunk(before, joined_all(a0, pieces_of_chunks(most)), chunks.last());
        lemma_joined_add(a0, pieces_of_chunks(most), pieces_of_chunk(chunks.last()));
        lemma_read_add(
            Seq::empty(),
            sent,
            translator::chunk_step(before, chunks.last()).1,
        );
    }
}

/// A client that reads the events of a run of OpenAI chunks has the blocks that
/// the chunks carry, as with deltas.
pub proof fn clients_read_what_chunks_carry(
    model: Seq<char>,
    id: Seq<char>,
    chunks: Seq<JsonView>,
    last: JsonView,
)
    requires
        translator::most_blocks(chunks.push(last)) < u32::MAX,
        forall|k: int| 0 <= k < chunks.len() ==> !translator::ends_message(#[trigger] chunks[k]),
    ensures
        ({
            let all = chunks.push(last);
            let (st, events) = translator::chunk_run(translator::fresh(model, id), all);
            let flushed = events + translator::ended(st, "end_turn"@).1;
            &&& read_events(Seq::empty(), events) == assembled(pieces_of_chunks(all))
            &&& read_events(Seq::empty(), flushed) == assembled(pieces_of_chunks(all))
        }),
{
    let a0 = Assembly { blocks: Seq::empty(), slot: None };
    let all = chunks.push(last);
    assert(all.drop_last() =~= chunks);
    lemma_chunk_run(model, id, chunks);
    let (before, sent) = translator::chunk_run(translator::fresh(model, id), chunks);
    lemma_chunk(before, joined_all(a0, pieces_of_chunks(chunks)), last);
    lemma_joined_add(a0, pieces_of_chunks(chunks), pieces_of_chunk(last));
    let (st, more) = translator::chunk_step(before, last);
    lemma_read_add(Seq::empty(), sent, more);
    let read = read_events(Seq::empty(), sent + more);
    lemma_ended_frames(st, "end_turn"@, read);
    lemma_read_add(Seq::empty(), sent + more, translator::ended(st, "end_turn"@).1);
}

proof fn lemma_chunk_added(st: TranslatorView, chunk: JsonView)
    ensures
        added_texts(translator::chunk_step(st, chunk).1, "text_delta"@, "text"@) == answer_in(
            pieces_of_chunk(chunk),
        ),
        added_texts(translator::chunk_step(st, chunk).1, "thinking_delta"@, "thinking"@)
            == thoughts_in(pieces_of_chunk(chunk)),
{
    let none = Seq::<char>::empty();
    let known = translator::with_chunk_facts(st, chunk);
    assert(added_texts(Seq::<SseView>::empty(), "text_delta"@, "text"@) == none);
    assert(added_texts(Seq::<SseView>::empty(), "thinking_delta"@, "thinking"@) == none);
    if let Some(choice) = translator::first_choice(chunk) {
        let (b, events) = match choice.field("delta"@) {
            Some(delta) => translator::on_delta_object(known, delta),
            None => (known, Seq::empty()),
        };
        if let Some(delta) = choice.field("delta"@) {
            lemma_object_added(known, delta);
        }
        if let Some(reason) = choice.text_field("finish_reason"@) {
            let why = helpers::stop_reason(reason);
            let end = translator::ended(b, why).1;
            lemma_ended_frames(b, why, Seq::empty());
            lemma_added_add(events, end, "text_delta"@, "text"@);
            lemma_added_add(events, end, "thinking_delta"@, "thinking"@);
            assert(added_texts(end, "text_delta"@, "text"@) == none);
            assert(added_texts(end, "thinking_delta"@, "thinking"@) == none);
            let pieces = pieces_of_chunk(chunk);
            assert(answer_in(pieces) + none =~= answer_in(pieces));
            assert(thoughts_in(pieces) + none =~= thoughts_in(pieces));
        }
    }
}

/// No text of an OpenAI stream is lost, doubled or moved: from any state and over
/// any run of chunks, the texts of the `text_delta` events one after the other
/// are the chunks' `content`, and those of the `thinking_delta` events their
/// `reasoning_content`.
pub proof fn chunked_text_is_kept(st: TranslatorView, chunks: Seq<JsonView>)
    ensures
        added_texts(translator::chunk_run(st, chunks).1, "text_delta"@, "text"@) == answer_in(
            pieces_of_chunks(chunks),
        ),
        added_texts(translator::chunk_run(st, chunks).1, "thinking_delta"@, "thinking"@)
            == thoughts_in(pieces_of_chunks(chunks)),
    decreases chunks.len(),
{
    if chunks.len() > 0 {
        let most = chunks.drop_last();
        chunked_text_is_kept(st, most);
        let (before, sent) = translator::chunk_run(st, most);
        let events = translator::chunk_step(before, chunks.last()).1;
        lemma_chunk_added(before, chunks.last());
        lemma_added_add(sent, events, "text_delta"@, "text"@);
        lemma_added_add(sent, events, "thinking_delta"@, "thinking"@);
        lemma_answer_add(pieces_of_chunks(most), pieces_of_chunk(chunks.last()));
    }
}

// ── how a message begins and ends ──

/// The message object of a `message_start` event names the model, an assistant
/// and an id.
pub open spec fn opens_message(e: SseView, model: Seq<char>, id: Seq<char>) -> bool {
    &&& e.event == "message_start"@
    &&& e.data.field("message"@) matches Some(m) && m.text_field("model"@) == Some(model)
        && m.text_field("role"@) == Some("assistant"@) && m.text_field("id"@) == Some(id)
}

/// The stop reason and the token counts of a `message_delta` event.
pub open spec fn reports_end(e: SseView, reason: Seq<char>, input: usize, output: usize) -> bool {
    &&& e.event == "message_delta"@
    &&& e.data.field("delta"@) matches Some(d) && d.text_field("stop_reason"@) == Some(reason)
    &&& e.data.field("usage"@) matches Some(u) && u.uint_field("input_tokens"@) == Some(
        input as u64,
    ) && u.uint_field("output_tokens"@) == Some(output as u64)
}

proof fn lemma_read_message_start(st: TranslatorView)
    ensures
        opens_message(translator::message_start(st), st.model, translator::message_id(st.msg_id)),
{
    reveal_strlit("type");
    reveal_strlit("message");
    reveal_strlit("id");
    reveal_strlit("role");
    reveal_strlit("model");
    assert("type"@.len() == 4 && "message"@.len() == 7 && "id"@.len() == 2 && "role"@.len() == 4
        && "model"@.len() == 5);
    assert("type"@[0] != "role"@[0]);
    reveal_with_fuel(json::entry_at, 5);
    let e = translator::message_start(st);
    let o = e.data->Object_0;
    assert(o[0].0 == "type"@ && o[1].0 == "message"@);
    assert(json::entry_at(o, "message"@, 0) == 1);
    let m = o[1].1->Object_0;
    assert(json::entry_at(m, "id"@, 0) == 0);
    assert(json::entry_at(m, "role"@, 0) == 2);
    assert(json::entry_at(m, "model"@, 0) == 3);
}

proof fn lemma_read_message_delta(st: TranslatorView, reason: Seq<char>)
    ensures
        reports_end(
            translator::message_delta(st, reason),
            reason,
            st.prompt_tokens,
            st.completion_tokens,
        ),
        translator::message_delta(st, reason).data.field("usage"@) matches Some(u) && u.uint_field(
            "cache_read_input_tokens"@,
        ) == Some(st.cached_tokens as u64),
{
    reveal_strlit("type");
    reveal_strlit("delta");
    reveal_strlit("usage");
    reveal_strlit("output_tokens");
    reveal_strlit("input_tokens");
    reveal_strlit("cache_read_input_tokens");
    assert("type"@.len() == 4 && "delta"@.len() == 5 && "usage"@.len() == 5
        && "output_tokens"@.len() == 13 && "input_tokens"@.len() == 12
        && "cache_read_input_tokens"@.len() == 23);
    assert("delta"@[0] != "usage"@[0]);
    reveal_with_fuel(json::entry_at, 4);
    let o = translator::message_delta(st, reason).data->Object_0;
    assert(o[0].0 == "type"@ && o[1].0 == "delta"@ && o[2].0 == "usage"@);
    assert(json::entry_at(o, "delta"@, 0) == 1);
    assert(json::entry_at(o, "usage"@, 0) == 2);
    let d = o[1].1->Object_0;
    assert(json::entry_at(d, "stop_reason"@, 0) == 0);
    let u = o[2].1->Object_0;
    assert(json::entry_at(u, "output_tokens"@, 0) == 0);
    assert(json::entry_at(u, "input_tokens"@, 0) == 1);
    assert(json::entry_at(u, "cache_read_input_tokens"@, 0) == 2);
}

/// A message that ends, ends with its stop reason and usage and then its end.
proof fn lemma_end_of(st: TranslatorView, reason: Seq<char>)
    requires
        !st.finished,
    ensures
        ({
            let events = translator::ended(st, reason).1;
            &&& events.len() >= 2
            &&& events.last().event == "message_stop"@
            &&& reports_end(
                events[events.len() - 2],
                reason,
                st.prompt_tokens,
                st.completion_tokens,
            )
            &&& events[events.len() - 2].data.field("usage"@) matches Some(u) && u.uint_field(
                "cache_read_input_tokens"@,
            ) == Some(st.cached_tokens as u64)
        }),
{
    let (a, start) = translator::started(st);
    let (b, stop) = translator::closed(a);
    lemma_read_message_delta(b, reason);
    let events = translator::ended(st, reason).1;
    let tail = seq![translator::message_delta(b, reason), translator::message_stop()];
    assert(events =~= start + stop + tail);
    assert(events[events.len() - 2] == tail[0]);
    assert(events.last() == tail[1]);
}

/// A finish is reported as it came: the stop reason of its kind and the token
/// counts of its usage, just before the message's end.
pub proof fn finishes_are_reported(st: TranslatorView, d: StreamDelta)
    requires
        !st.finished,
        d is Finish,
    ensures
        ({
            let events = translator::delta_step(st, d).1;
            let usage = d->Finish_usage;
            let reason = match d->Finish_reason@ {
                FinishView::Stop => "end_turn"@,
                FinishView::Length => "max_tokens"@,
                FinishView::ToolCalls => "tool_use"@,
                FinishView::ContentFilter => "refusal"@,
                FinishView::Other(s) => helpers::stop_reason(s),
            };
            &&& events.len() >= 2
            &&& events.last().event == "message_stop"@
            &&& reports_end(
                events[events.len() - 2],
                reason,
                usage.prompt_tokens,
                usage.completion_tokens,
            )
            &&& events[events.len() - 2].data.field("usage"@) matches Some(u) && u.uint_field(
                "cache_read_input_tokens"@,
            ) == Some(usage.cached_prompt_tokens as u64)
        }),
{
    let reason = d->Finish_reason@;
    let why = helpers::stop_reason(crate::ir::response::finish_wire(reason));
    lemma_finish_words();
    lemma_end_of(translator::with_usage(st, d->Finish_usage), why);
}

proof fn lemma_finish_words()
    ensures
        "stop"@ != "length"@,
        "stop"@ != "tool_calls"@,
        "stop"@ != "content_filter"@,
        "length"@ != "tool_calls"@,
        "length"@ != "content_filter"@,
        "tool_calls"@ != "content_filter"@,
{
    reveal_strlit("stop");
    reveal_strlit("length");
    reveal_strlit("tool_calls");
    reveal_strlit("content_filter");
    assert("stop"@.len() == 4 && "length"@.len() == 6 && "tool_calls"@.len() == 10
        && "content_filter"@.len() == 14);
}

/// The finish reason of a chunk ends the message with the stop reason that it
/// stands for, an unknown one as a normal end, and with the token counts that
/// the chunk reports or that were known before.
pub proof fn chunk_finishes_are_reported(st: TranslatorView, chunk: JsonView, finish: Seq<char>)
    requires
        !st.finished,
        translator::first_choice(chunk) matches Some(c) && c.text_field("finish_reason"@) == Some(
            finish,
        ),
    ensures
        ({
            let events = translator::chunk_step(st, chunk).1;
            let usage = match chunk.field("usage"@) {
                Some(u) => u,
                None => JsonView::Null,
            };
            let input = match usage.uint_field("prompt_tokens"@) {
                Some(n) => n as usize,
                None => st.prompt_tokens,
            };
            let output = match usage.uint_field("completion_tokens"@) {
                Some(n) => n as usize,
                None => st.completion_tokens,
            };
            let e = events[events.len() - 2];
            &&& events.len() >= 2
            &&& events.last().event == "message_stop"@
            &&& finish == "stop"@ ==> reports_end(e, "end_turn"@, input, output)
            &&& finish == "length"@ ==> reports_end(e, "max_tokens"@, input, output)
            &&& finish == "tool_calls"@ ==> reports_end(e, "tool_use"@, input, output)
            &&& finish == "content_filter"@ ==> reports_end(e, "refusal"@, input, output)
            &&& finish != "stop"@ && finish != "length"@ && finish != "tool_calls"@ && finish
                != "content_filter"@ ==> reports_end(e, "end_turn"@, input, output)
        }),
{
    lemma_finish_words();
    let known = translator::with_chunk_facts(st, chunk);
    let choice = translator::first_choice(chunk)->0;
    let (b, events) = match choice.field("delta"@) {
        Some(delta) => translator::on_delta_object(known, delta),
        None => (known, Seq::empty()),
    };
    let why = helpers::stop_reason(finish);
    if let Some(delta) = choice.field("delta"@) {
        lemma_object_keeps_counts(known, delta);
    }
    lemma_end_of(b, why);
    let end = translator::ended(b, why).1;
    assert(translator::chunk_step(st, chunk).1 =~= events + end);
    let n = events.len() + end.len();
    assert((events + end)[n - 2] == end[end.len() - 2]);
    assert((events + end)[n - 1] == end[end.len() - 1]);
}

/// Content leaves the token counts, and the message unfinished.
proof fn lemma_object_keeps_counts(st: TranslatorView, delta: JsonView)
    ensures
        ({
            let next = translator::on_delta_object(st, delta).0;
            &&& next.prompt_tokens == st.prompt_tokens
            &&& next.completion_tokens == st.completion_tokens
            &&& next.finished == st.finished
        }),
{
    let (a, _) = translator::signalled(st, delta);
    let (b, _) = translator::on_thinking(a, translator::text_or_empty(delta, "reasoning_content"@));
    let (c, _) = translator::on_text(b, translator::text_or_empty(delta, "content"@));
    let calls = translator::call_fragments(delta);
    lemma_calls_keep_counts(c, calls, calls.len() as int);
}

proof fn lemma_calls_keep_counts(st: TranslatorView, calls: Seq<JsonView>, n: int)
    ensures
        ({
            let next = translator::on_fragments(st, calls, n).0;
            &&& next.prompt_tokens == st.prompt_tokens
            &&& next.completion_tokens == st.completion_tokens
            &&& next.finished == st.finished
        }),
    decreases n,
{
    if n > 0 {
        lemma_calls_keep_counts(st, calls, n - 1);
    }
}

/// The id of a message is that of its completion without the prefixes: what is
/// left does not begin with one, is the end of the id, and is the whole id when
/// that has none; a further prefix changes nothing.
pub proof fn message_ids_lose_their_prefixes(id: Seq<char>)
    ensures
        ({
            let bare = translator::bare_id(id);
            &&& !crate::text::starts_with(bare, "chatcmpl-"@)
            &&& bare.len() <= id.len()
            &&& bare == id.skip(id.len() - bare.len())
            &&& !crate::text::starts_with(id, "chatcmpl-"@) ==> bare == id
            &&& translator::bare_id("chatcmpl-"@ + id) == bare
        }),
    decreases id.len(),
{
    reveal_strlit("chatcmpl-");
    let n = "chatcmpl-"@.len() as int;
    assert(n == 9);
    let bare = translator::bare_id(id);
    if crate::text::starts_with(id, "chatcmpl-"@) {
        let rest = id.subrange(n, id.len() as int);
        message_ids_lose_their_prefixes(rest);
        assert(bare == translator::bare_id(rest));
        assert(bare =~= id.skip(id.len() - bare.len()));
    } else {
        assert(bare =~= id.skip(0));
    }
    let longer = "chatcmpl-"@ + id;
    assert(longer.subrange(n, longer.len() as int) =~= id);
    assert(longer.subrange(0, n) =~= "chatcmpl-"@);
}

/// Every delta that says something about a message opens it first: the first
/// event of a message names the model and the id it was created with, before
/// anything else, also when the delta itself is empty.
pub proof fn messages_open_at_the_first_delta(model: Seq<char>, id: Seq<char>, d: StreamDelta)
    requires
        !(d is Refusal || d is Error),
    ensures
        ({
            let events = translator::delta_step(translator::fresh(model, id), d).1;
            &&& events.len() > 0
            &&& opens_message(events[0], model, translator::message_id(id))
        }),
{
    let st = translator::fresh(model, id);
    lemma_read_message_start(st);
    if let StreamDelta::Finish { usage, reason, .. } = d {
        let known = translator::with_usage(st, usage);
        lemma_read_message_start(known);
        let start = translator::started(known).1;
        assert(start =~= seq![translator::message_start(known)]);
    } else {
        let start = translator::started(st).1;
        assert(start =~= seq![translator::message_start(st)]);
        assert(translator::delta_step(st, d).1[0] == start[0]);
    }
}

/// A chunk whose delta has a role, content, reasoning or tool calls opens the
/// message, with the id that the message was created with or else the chunk's,
/// and with the tokens of the prompt that the chunk reports.
pub proof fn chunked_messages_open_at_their_first_chunk(
    model: Seq<char>,
    id: Seq<char>,
    chunk: JsonView,
    delta: JsonView,
)
    requires
        translator::first_choice(chunk) matches Some(c) && c.field("delta"@) == Some(delta),
        delta.field("role"@) is Some || delta.field("content"@) is Some || delta.field(
            "tool_calls"@,
        ) is Some || delta.field("reasoning_content"@) is Some,
    ensures
        ({
            let events = translator::chunk_step(translator::fresh(model, id), chunk).1;
            let named = if id.len() > 0 {
                id
            } else {
                text_or_none(chunk.text_field("id"@))
            };
            &&& events.len() > 0
            &&& opens_message(events[0], model, translator::message_id(named))
        }),
{
    let st = translator::fresh(model, id);
    let known = translator::with_chunk_facts(st, chunk);
    lemma_read_message_start(known);
    if id.len() == 0 {
        assert(id =~= Seq::<char>::empty());
    }
    let start = translator::signalled(known, delta).1;
    assert(start =~= seq![translator::message_start(known)]);
    let (a, _) = translator::signalled(known, delta);
    let (b, thinking) = translator::on_thinking(
        a,
        translator::text_or_empty(delta, "reasoning_content"@),
    );
    let (c, answer) = translator::on_text(b, translator::text_or_empty(delta, "content"@));
    let (d, tools) = translator::on_calls(c, delta);
    let events = translator::on_delta_object(known, delta).1;
    assert(events == start + thinking + answer + tools);
    assert(events[0] == start[0]);
    assert(translator::chunk_step(st, chunk).1[0] == events[0]);
}

/// A message that breaks off is told to end as a turn does, with the token counts
/// known so far.
pub proof fn broken_off_messages_report_their_end(st: TranslatorView, reason: Seq<char>)
    requires
        !st.finished,
    ensures
        ({
            let events = translator::ended(st, reason).1;
            &&& events.len() >= 2
            &&& events.last().event == "message_stop"@
            &&& reports_end(
                events[events.len() - 2],
                reason,
                st.prompt_tokens,
                st.completion_tokens,
            )
        }),
{
    lemma_end_of(st, reason);
}

/// The id of a message is `msg_` and the bare id of its completion, and one that
/// is not known is called so.
pub proof fn message_ids_carry_their_completion(id: Seq<char>)
    ensures
        id.len() > 0 ==> translator::message_id(id) == "msg_"@ + translator::bare_id(id),
        translator::message_id(Seq::empty()) == "msg_unknown"@,
{
}

} // verus!
