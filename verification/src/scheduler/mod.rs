//! Decisions of the step scheduler.

pub mod beam_prefill;
pub mod logprobs;
pub mod mtp_gate;
pub mod prefill_a_step_params;
pub mod verify_pipeline_helper;
pub mod vocab_masks;
