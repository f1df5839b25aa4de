//! What is settled before the server serves.

pub mod config;
pub mod kv_cache;
