//! Tool definitions and tool calls as every API surface writes them.

use crate::json::Json;
use vstd::prelude::*;

verus! {

/// A function that the model may call.
#[derive(Debug, PartialEq)]
pub struct FunctionDefinition {
    pub name: String,
    pub description: Option<String>,
    /// JSON schema of the arguments.
    pub parameters: Option<Json>,
}

/// A tool that the model may use.
#[derive(Debug, PartialEq)]
pub struct ToolDefinition {
    pub tool_type: String,
    pub function: FunctionDefinition,
}

/// The function that a tool choice names.
#[derive(Debug, PartialEq)]
pub struct ToolChoiceFunction {
    pub name: String,
}

/// Which tools the model has to use.
#[derive(Debug, PartialEq)]
pub enum ToolChoice {
    /// `auto`, `none` or `required`.
    Mode(String),
    Specific { function: ToolChoiceFunction },
}

/// The function of a tool call, its arguments as JSON text.
#[derive(Debug, Clone, PartialEq)]
pub struct IncomingFunction {
    pub name: String,
    pub arguments: String,
}

/// A tool call of an earlier assistant turn.
#[derive(Debug, Clone, PartialEq)]
pub struct IncomingToolCall {
    pub id: Option<String>,
    pub function: IncomingFunction,
}

/// A tool call of a response.
#[derive(Debug, Clone, PartialEq)]
pub struct ToolCall {
    pub id: String,
    pub call_type: String,
    pub function: IncomingFunction,
}

} // verus!
