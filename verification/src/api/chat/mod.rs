//! Chat completions.

pub mod echo;
pub mod msg_entry;
pub mod msg_kept;
pub mod pipeline;
pub mod thinking;
