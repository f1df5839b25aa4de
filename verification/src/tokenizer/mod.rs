//! Prompts from chat messages.

pub mod chat_render;
pub mod vocabulary;
