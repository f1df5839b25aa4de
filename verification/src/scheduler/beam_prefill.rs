//! Beam hypotheses, as both prefill entry points resolve them.

use crate::float::Float32;
use vstd::prelude::*;
use vstd::slice::*;

verus! {

/// What a sequence asks of beam search.
#[derive(Debug, Clone, Copy, PartialEq, Eq, Structural)]
pub struct BeamSettings {
    pub src_lang_id: u32,
    pub tgt_lang_id: u32,
    /// Pool slot of the adapter; -1 is the active one.
    pub adapter_slot: i32,
    pub num_beams: u32,
    pub length_penalty: Float32,
    pub early_stopping: bool,
}

/// One search of a batch.
pub struct BeamReq {
    pub prompt_tokens: Vec<u32>,
    pub settings: BeamSettings,
    pub max_new: usize,
}

/// How a request gets its hypothesis.
pub enum BeamPlan {
    /// It has been found in a search that was shared with other requests.
    Found(Vec<u32>),
    /// It has to be searched for.
    Search(BeamReq),
}

/// The hypothesis that was computed ahead, or else the search for it.
pub fn resolve_beam_hyp(
    precomputed: Option<Vec<u32>>,
    settings: BeamSettings,
    prompt_tokens: &[u32],
    max_tokens: usize,
) -> (plan: BeamPlan)
    ensures
        match precomputed {
            Some(h) => plan == BeamPlan::Found(h),
            None => plan matches BeamPlan::Search(req) && req.prompt_tokens@ == prompt_tokens@
                && req.settings == settings && req.max_new == max_tokens,
        },
{
    match precomputed {
        Some(h) => BeamPlan::Found(h),
        None => BeamPlan::Search(
            BeamReq { prompt_tokens: slice_to_vec(prompt_tokens), settings, max_new: max_tokens },
        ),
    }
}

/// The hypothesis of a batch of one search: the last it holds, or an empty one.
pub fn winning_hypothesis(batch: Vec<Vec<u32>>) -> (hyp: Vec<u32>)
    ensures
        hyp@ == if batch@.len() > 0 {
            batch@.last()@
        } else {
            Seq::empty()
        },
{
    let mut batch = batch;
    match batch.pop() {
        Some(h) => h,
        None => Vec::new(),
    }
}

} // verus!
