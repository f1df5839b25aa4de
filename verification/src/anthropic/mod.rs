//! The Anthropic Messages API.

pub mod convert;
pub mod handlers;
pub mod helpers;
pub mod streamed;
pub mod translate;
pub mod translator;
pub mod types;
