//! Chat messages as they arrive.

use crate::tool_parser::IncomingToolCall;
use vstd::prelude::*;

verus! {

/// Message content, taken apart: its text, and its images as URIs.
#[derive(Debug, Clone, PartialEq)]
pub struct ParsedContent {
    pub text: String,
    pub images: Vec<String>,
}

impl Default for ParsedContent {
    fn default() -> (r: Self)
        ensures
            r.text@.len() == 0,
            r.images@.len() == 0,
    {
        ParsedContent { text: String::new(), images: Vec::new() }
    }
}

/// A message of a chat request.
#[derive(Debug, Clone, PartialEq)]
pub struct IncomingMessage {
    pub role: String,
    pub content: ParsedContent,
    pub tool_calls: Option<Vec<IncomingToolCall>>,
    pub tool_call_id: Option<String>,
    pub name: Option<String>,
    pub reasoning_content: Option<String>,
}

} // verus!
