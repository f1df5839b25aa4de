//! Parts of the server's start-up.

pub mod serve_phases;
