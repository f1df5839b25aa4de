//! Canonical, model-agnostic chat types. Each API surface converts its wire
//! format into these; the core pipeline reads nothing else.

pub mod from_openai_response;
pub mod message;
pub mod request;
pub mod response;
pub mod stream;
