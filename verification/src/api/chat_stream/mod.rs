//! Streamed chat completions.

pub mod handle_error;
