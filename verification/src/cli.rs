//! The command-line settings that the serving rules read.

use vstd::prelude::*;

verus! {

/// Settings of the `serve` command.
pub struct ServeArgs {
    pub model: Option<String>,
    pub model_from_path: Option<String>,
    pub cache_dir: Option<String>,
    pub speculative: bool,
    pub self_speculative: bool,
    pub ngram_speculative: bool,
    pub num_drafts: usize,
    pub max_prefill_tokens: usize,
    pub max_seq_len: usize,
    pub max_batch_size: usize,
    pub block_size: usize,
    pub enable_prefix_caching: bool,
    pub ssm_checkpoint_interval: usize,
    pub ssm_cache_slots: usize,
    pub high_speed_swap: bool,
    pub high_speed_swap_cache_blocks_per_seq: u32,
    pub kv_cache_dtype: String,
    pub kv_high_precision_layers: String,
}

} // verus!
