//! Request translation, streaming and scheduling rules of an inference server.

pub mod anthropic;
pub mod api;
pub mod citation;
pub mod citation_found;
pub mod citation_structured;
pub mod cli;
pub mod debug_io;
pub mod float;
pub mod ir;
pub mod json;
pub mod main_modules;
pub mod model_resolver;
pub mod openai;
pub mod scheduler;
pub mod text;
pub mod tokenizer;
pub mod tool_parser;
