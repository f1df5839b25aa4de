//! Wire types of the Messages API.

use crate::float::Float32;
use crate::json::Json;
use crate::text;
use crate::text::{join, same_text};
use vstd::prelude::*;
use vstd::string::*;

verus! {

// ── requests ──

/// A request for a message.
#[derive(Debug)]
pub struct MessagesRequest {
    pub model: String,
    pub max_tokens: usize,
    pub system: Option<SystemContent>,
    pub messages: Vec<AnthropicMessage>,
    pub temperature: Option<Float32>,
    pub top_k: Option<u32>,
    pub top_p: Option<Float32>,
    pub tools: Option<Vec<AnthropicTool>>,
    pub tool_choice: Option<AnthropicToolChoice>,
    pub stop_sequences: Vec<String>,
    pub stream: bool,
    pub thinking: Option<ThinkingConfig>,
}

/// System content: a text or a list of blocks.
#[derive(Debug)]
pub enum SystemContent {
    Text(String),
    Blocks(Vec<SystemBlock>),
}

/// A block of system content.
#[derive(Debug)]
pub struct SystemBlock {
    pub block_type: String,
    pub text: Option<String>,
}

/// A message of a conversation.
#[derive(Debug)]
pub struct AnthropicMessage {
    pub role: String,
    pub content: AnthropicContent,
}

/// Message content: a text or a list of blocks.
#[derive(Debug)]
pub enum AnthropicContent {
    Text(String),
    Blocks(Vec<ContentBlock>),
}

/// A block of message content.
#[derive(Debug)]
pub enum ContentBlock {
    Text { text: String },
    ToolUse { id: String, name: String, input: Json },
    ToolResult {
        tool_use_id: String,
        content: Option<ToolResultContent>,
        /// The tool failed.
        is_error: Option<bool>,
    },
    Thinking { thinking: Option<String> },
    Image { source: ImageSourceBlock },
    Unknown,
}

/// An image: inline data with its media type, or a URL.
#[derive(Debug)]
pub struct ImageSourceBlock {
    pub source_type: String,
    pub media_type: Option<String>,
    pub data: Option<String>,
    pub url: Option<String>,
}

/// Tool result content: a text or a list of blocks.
#[derive(Debug)]
pub enum ToolResultContent {
    Text(String),
    Blocks(Vec<ContentBlock>),
}

/// A tool that the model may use.
#[derive(Debug)]
pub struct AnthropicTool {
    pub name: String,
    pub description: Option<String>,
    pub input_schema: Json,
}

/// Which tools the model has to use.
#[derive(Debug)]
pub struct AnthropicToolChoice {
    pub choice_type: String,
    /// The tool, for the type `tool`.
    pub name: Option<String>,
}

/// Whether and how long the model may think.
#[derive(Debug)]
pub struct ThinkingConfig {
    pub thinking_type: String,
    pub budget_tokens: Option<usize>,
}

/// The texts of the first `n` system blocks of type `text`.
pub open spec fn system_texts(blocks: Seq<SystemBlock>, n: int) -> Seq<Seq<char>>
    decreases n,
{
    if n <= 0 {
        Seq::empty()
    } else {
        let before = system_texts(blocks, n - 1);
        match blocks[n - 1].text {
            Some(t) => if blocks[n - 1].block_type@ == "text"@ {
                before.push(t@)
            } else {
                before
            },
            None => before,
        }
    }
}

/// The text of system content: text blocks are joined by newlines.
pub open spec fn system_text(c: SystemContent) -> Seq<char> {
    match c {
        SystemContent::Text(s) => s@,
        SystemContent::Blocks(blocks) => text::joined(
            system_texts(blocks@, blocks@.len() as int),
            "\n"@,
        ),
    }
}

impl SystemContent {
    /// The text, text blocks joined by newlines.
    pub fn to_text(&self) -> (out: String)
        ensures
            out@ == system_text(*self),
    {
        match self {
            SystemContent::Text(s) => s.clone(),
            SystemContent::Blocks(blocks) => {
                let mut parts: Vec<String> = Vec::new();
                let mut i: usize = 0;
                assert(text::texts(parts@) =~= Seq::<Seq<char>>::empty());
                while i < blocks.len()
                    invariant
                        i <= blocks@.len(),
                        text::texts(parts@) == system_texts(blocks@, i as int),
                    decreases blocks@.len() - i,
                {
                    let ghost before = parts@;
                    if let Some(t) = &blocks[i].text {
                        if same_text(blocks[i].block_type.as_str(), "text") {
                            parts.push(t.clone());
                            assert(text::texts(parts@) =~= text::texts(before).push(t@));
                        }
                    }
                    i = i + 1;
                }
                join(&parts, "\n")
            },
        }
    }
}

/// The string that the vision encoder takes for an image: a `data:` URI for
/// inline data, else the URL. `None` when the needed fields are missing.
pub open spec fn image_uri(s: ImageSourceBlock) -> Option<Seq<char>> {
    if s.source_type@ == "base64"@ {
        match s.data {
            Some(d) => Some(
                "data:"@ + (match s.media_type {
                    Some(m) => m@,
                    None => "image/png"@,
                }) + ";base64,"@ + d@,
            ),
            None => None,
        }
    } else if s.source_type@ == "url"@ {
        text::opt_text(s.url)
    } else {
        None
    }
}

impl ImageSourceBlock {
    /// The string that the vision encoder takes for the image.
    pub fn to_image_uri(&self) -> (r: Option<String>)
        ensures
            text::opt_text(r) == image_uri(*self),
    {
        if same_text(self.source_type.as_str(), "base64") {
            match &self.data {
                Some(d) => {
                    let mut uri: String = "data:".to_owned();
                    match &self.media_type {
                        Some(m) => {
                            uri.append(m.as_str());
                        },
                        None => {
                            uri.append("image/png");
                        },
                    }
                    uri.append(";base64,");
                    uri.append(d.as_str());
                    Some(uri)
                },
                None => None,
            }
        } else if same_text(self.source_type.as_str(), "url") {
            text::copy_opt(&self.url)
        } else {
            None
        }
    }
}

/// The texts of the text blocks among the first `n` blocks.
pub open spec fn block_texts(blocks: Seq<ContentBlock>, n: int) -> Seq<Seq<char>>
    decreases n,
{
    if n <= 0 {
        Seq::empty()
    } else {
        match blocks[n - 1] {
            ContentBlock::Text { text } => block_texts(blocks, n - 1).push(text@),
            _ => block_texts(blocks, n - 1),
        }
    }
}

/// The text of tool result content: text blocks are joined by newlines.
pub open spec fn tool_result_text(c: ToolResultContent) -> Seq<char> {
    match c {
        ToolResultContent::Text(s) => s@,
        ToolResultContent::Blocks(blocks) => text::joined(
            block_texts(blocks@, blocks@.len() as int),
            "\n"@,
        ),
    }
}

impl ToolResultContent {
    /// The text, text blocks joined by newlines.
    pub fn to_text(&self) -> (out: String)
        ensures
            out@ == tool_result_text(*self),
    {
        match self {
            ToolResultContent::Text(s) => s.clone(),
            ToolResultContent::Blocks(blocks) => {
                let mut parts: Vec<String> = Vec::new();
                let mut i: usize = 0;
                assert(text::texts(parts@) =~= Seq::<Seq<char>>::empty());
                while i < blocks.len()
                    invariant
                        i <= blocks@.len(),
                        text::texts(parts@) == block_texts(blocks@, i as int),
                    decreases blocks@.len() - i,
                {
                    let ghost before = parts@;
                    if let ContentBlock::Text { text } = &blocks[i] {
                        parts.push(text.clone());
                        assert(text::texts(parts@) =~= text::texts(before).push(text@));
                    }
                    i = i + 1;
                }
                join(&parts, "\n")
            },
        }
    }
}

// ── responses ──

/// A finished message.
#[derive(Debug)]
pub struct MessagesResponse {
    pub id: String,
    pub response_type: String,
    pub role: String,
    pub content: Vec<ResponseBlock>,
    pub model: String,
    pub stop_reason: Option<String>,
    pub stop_sequence: Option<String>,
    pub usage: AnthropicUsage,
}

/// A block of a finished message.
#[derive(Debug)]
pub enum ResponseBlock {
    Thinking { thinking: String },
    Text { text: String },
    ToolUse { id: String, name: String, input: Json },
}

/// Token accounting of a message.
#[derive(Debug, Clone, Copy, PartialEq, Eq, Structural)]
pub struct AnthropicUsage {
    pub input_tokens: usize,
    pub output_tokens: usize,
    /// Input tokens served from the prefix cache.
    pub cache_read_input_tokens: usize,
}

// ── laws ──

/// The texts of the system blocks that have one.
pub open spec fn readable(b: SystemBlock) -> bool {
    b.text is Some && b.block_type@ == "text"@
}

/// The text of system content is that of its text blocks, line after line: with
/// one more text block, that is the next line; with one more of another kind
/// nothing changes.
pub proof fn system_text_has_every_block(blocks: Seq<SystemBlock>)
    requires
        blocks.len() > 0,
    ensures
        ({
            let n = blocks.len() as int;
            let before = system_texts(blocks, n - 1);
            let after = system_texts(blocks, n);
            let last = blocks.last();
            &&& readable(last) ==> after == before.push(last.text->0@)
            &&& !readable(last) ==> after == before
            &&& readable(last) && before.len() > 0 ==> text::joined(after, "\n"@) == text::joined(
                before,
                "\n"@,
            ) + "\n"@ + last.text->0@
            &&& readable(last) && before.len() == 0 ==> text::joined(after, "\n"@) == last.text->0@
        }),
{
    let n = blocks.len() as int;
    let before = system_texts(blocks, n - 1);
    if readable(blocks.last()) {
        assert(before.push(blocks.last().text->0@).drop_last() =~= before);
    }
}

/// A single text block of system content, or a tool result's, is its text.
pub proof fn single_blocks_are_their_text(t: String)
    ensures
        system_text(SystemContent::Text(t)) == t@,
        tool_result_text(ToolResultContent::Text(t)) == t@,
{
}

/// The text of a tool result has every text block of it, line after line.
pub proof fn result_text_has_every_block(blocks: Seq<ContentBlock>)
    requires
        blocks.len() > 0,
    ensures
        ({
            let n = blocks.len() as int;
            let before = block_texts(blocks, n - 1);
            let after = block_texts(blocks, n);
            &&& blocks.last() matches ContentBlock::Text { text } ==> after == before.push(text@)
            &&& !(blocks.last() is Text) ==> after == before
            &&& blocks.last() is Text && before.len() > 0 ==> text::joined(after, "\n"@)
                == text::joined(before, "\n"@) + "\n"@ + blocks.last()->Text_text@
            &&& blocks.last() is Text && before.len() == 0 ==> text::joined(after, "\n"@)
                == blocks.last()->Text_text@
        }),
{
    let n = blocks.len() as int;
    let before = block_texts(blocks, n - 1);
    if blocks.last() is Text {
        assert(before.push(blocks.last()->Text_text@).drop_last() =~= before);
    }
}

/// Inline image data comes out whole behind its media type, a URL as it is, and
/// an image without what its type needs not at all.
pub proof fn image_uris_hold_their_data(s: ImageSourceBlock)
    ensures
        s.source_type@ == "base64"@ && s.data is Some ==> (image_uri(s) matches Some(u) && {
            let head = "data:"@ + (match s.media_type {
                Some(m) => m@,
                None => "image/png"@,
            }) + ";base64,"@;
            &&& u.len() == head.len() + s.data->0@.len()
            &&& u.take(head.len() as int) == head
            &&& u.skip(head.len() as int) == s.data->0@
        }),
        s.source_type@ == "base64"@ && s.data is None ==> image_uri(s) is None,
        s.source_type@ == "url"@ ==> image_uri(s) == text::opt_text(s.url),
        s.source_type@ != "url"@ && s.source_type@ != "base64"@ ==> image_uri(s) is None,
{
    reveal_strlit("base64");
    reveal_strlit("url");
    assert("base64"@.len() == 6 && "url"@.len() == 3);
    if s.source_type@ == "base64"@ && s.data is Some {
        let head = "data:"@ + (match s.media_type {
            Some(m) => m@,
            None => "image/png"@,
        }) + ";base64,"@;
        let u = image_uri(s)->0;
        assert(u =~= head + s.data->0@);
        assert(u.take(head.len() as int) =~= head);
        assert(u.skip(head.len() as int) =~= s.data->0@);
    }
}

} // verus!
