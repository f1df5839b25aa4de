//! The API surfaces of the server.

pub mod chat;
pub mod chat_stream;
pub mod completions_logprobs;
pub mod responses_stream;
pub mod responses_streamed;
pub mod responses_translate;
