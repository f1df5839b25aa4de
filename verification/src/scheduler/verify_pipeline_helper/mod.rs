//! Picks of a verify step.

pub mod fast_masked;
