//! The prefill budget and the precision of the KV cache.

use crate::cli::ServeArgs;
use crate::text;
use crate::text::{chars_of, parse_number, same_text, to_lowercase};
use vstd::prelude::*;
use vstd::string::*;

verus! {

/// The prefill size of the command line when the user sets none.
pub const DEFAULT_MAX_PREFILL_TOKENS: usize = 8192;

/// Attention layers up to which a third of them can be counted in single
/// precision.
pub const MAX_COUNTED_LAYERS: usize = 0x100_0000;

/// How many tokens a prefill chunk, a batch and a speculative step may have.
#[derive(Debug, Clone, Copy, PartialEq, Eq, Structural)]
pub struct PrefillBudget {
    pub prefill_budget: usize,
    pub max_batch_tokens: usize,
    pub spec_tokens: usize,
}

/// The smaller of two numbers.
pub open spec fn smaller(a: int, b: int) -> int {
    if a <= b {
        a
    } else {
        b
    }
}

/// The larger of two numbers.
pub open spec fn larger(a: int, b: int) -> int {
    if a >= b {
        a
    } else {
        b
    }
}

/// The user chose a prefill size.
pub open spec fn user_set_prefill(args: ServeArgs) -> bool {
    args.max_prefill_tokens != DEFAULT_MAX_PREFILL_TOKENS
}

/// Tokens of a speculative step: the drafts, the verified token and the bonus.
pub open spec fn spec_tokens_of(args: ServeArgs) -> int {
    if args.speculative || args.self_speculative || args.ngram_speculative {
        args.num_drafts + 2
    } else {
        1
    }
}

/// The prefill size that is asked for: the user's, then that of the state-space
/// layers, then the default, and the whole sequence when chunking is off.
pub open spec fn asked_prefill(args: ServeArgs, ssm_prefill_chunk: int) -> int {
    if user_set_prefill(args) && args.max_prefill_tokens > 0 {
        args.max_prefill_tokens as int
    } else if ssm_prefill_chunk > 0 {
        ssm_prefill_chunk
    } else if args.max_prefill_tokens > 0 {
        args.max_prefill_tokens as int
    } else {
        args.max_seq_len as int
    }
}

/// Snapshots of the state-space layers can be reused by later requests.
pub open spec fn snapshots_reusable(args: ServeArgs) -> bool {
    !user_set_prefill(args) && args.enable_prefix_caching && args.ssm_checkpoint_interval > 0
        && args.ssm_cache_slots > 0
}

/// Tokens between two checkpoints.
pub open spec fn checkpoint_tokens(args: ServeArgs) -> int {
    args.ssm_checkpoint_interval * args.block_size
}

/// The prefill size with chunks that end at checkpoints, where that matters.
pub open spec fn aligned_prefill(args: ServeArgs, ssm_prefill_chunk: int) -> int {
    let asked = asked_prefill(args, ssm_prefill_chunk);
    if snapshots_reusable(args) && asked > checkpoint_tokens(args) && checkpoint_tokens(args) > 0 {
        checkpoint_tokens(args)
    } else {
        asked
    }
}

/// Tokens that the rolling window of the high-speed swap holds.
pub open spec fn swap_window(args: ServeArgs) -> int {
    args.high_speed_swap_cache_blocks_per_seq * args.block_size
}

/// The prefill size, kept within the rolling window.
pub open spec fn budget_of(args: ServeArgs, ssm_prefill_chunk: int) -> int {
    let aligned = aligned_prefill(args, ssm_prefill_chunk);
    if args.high_speed_swap {
        smaller(aligned, larger(swap_window(args) - args.max_batch_size, 0))
    } else {
        aligned
    }
}

/// The products and sums of the settings fit the machine.
pub open spec fn fits(args: ServeArgs, ssm_prefill_chunk: int) -> bool {
    &&& spec_tokens_of(args) <= usize::MAX
    &&& snapshots_reusable(args) ==> checkpoint_tokens(args) <= usize::MAX
    &&& args.high_speed_swap ==> swap_window(args) <= usize::MAX
    &&& budget_of(args, ssm_prefill_chunk) + args.max_batch_size <= usize::MAX
}

/// The prefill size that is asked for.
fn asked_size(args: &ServeArgs, ssm_prefill_chunk: usize) -> (n: usize)
    ensures
        n == asked_prefill(*args, ssm_prefill_chunk as int),
{
    if args.max_prefill_tokens != DEFAULT_MAX_PREFILL_TOKENS && args.max_prefill_tokens > 0 {
        args.max_prefill_tokens
    } else if ssm_prefill_chunk > 0 {
        ssm_prefill_chunk
    } else if args.max_prefill_tokens > 0 {
        args.max_prefill_tokens
    } else {
        args.max_seq_len
    }
}

/// Whether the products and sums of the settings fit the machine. What a setting
/// that is off would need does not matter.
pub fn settings_fit(args: &ServeArgs, ssm_prefill_chunk: usize) -> (r: bool)
    ensures
        r == fits(*args, ssm_prefill_chunk as int),
{
    if (args.speculative || args.self_speculative || args.ngram_speculative)
        && args.num_drafts.checked_add(2).is_none() {
        return false;
    }
    let user_set: bool = args.max_prefill_tokens != DEFAULT_MAX_PREFILL_TOKENS;
    let mut budget: usize = asked_size(args, ssm_prefill_chunk);
    if !user_set && args.enable_prefix_caching && args.ssm_checkpoint_interval > 0
        && args.ssm_cache_slots > 0 {
        assert(0 <= args.ssm_checkpoint_interval * args.block_size) by (nonlinear_arith);
        match args.ssm_checkpoint_interval.checked_mul(args.block_size) {
            Some(target) => {
                if budget > target && target > 0 {
                    budget = target;
                }
            },
            None => {
                return false;
            },
        }
    }
    if args.high_speed_swap {
        assert(0 <= args.high_speed_swap_cache_blocks_per_seq * args.block_size)
            by (nonlinear_arith);
        let blocks: usize = args.high_speed_swap_cache_blocks_per_seq as usize;
        match blocks.checked_mul(args.block_size) {
            Some(window) => {
                let chunk_max: usize = if window >= args.max_batch_size {
                    window - args.max_batch_size
                } else {
                    0
                };
                if chunk_max < budget {
                    budget = chunk_max;
                }
            },
            None => {
                return false;
            },
        }
    }
    budget.checked_add(args.max_batch_size).is_some()
}

/// The prefill budget of the settings.
pub fn resolve_prefill_budget(args: &ServeArgs, ssm_prefill_chunk: usize) -> (b: PrefillBudget)
    requires
        fits(*args, ssm_prefill_chunk as int),
    ensures
        b.spec_tokens == spec_tokens_of(*args),
        b.prefill_budget == budget_of(*args, ssm_prefill_chunk as int),
        b.max_batch_tokens == larger(
            b.prefill_budget + args.max_batch_size,
            b.spec_tokens as int,
        ),
{
    let spec_tokens: usize = if args.speculative || args.self_speculative
        || args.ngram_speculative {
        args.num_drafts + 2
    } else {
        1
    };
    let user_set: bool = args.max_prefill_tokens != DEFAULT_MAX_PREFILL_TOKENS;
    let asked: usize = asked_size(args, ssm_prefill_chunk);
    let mut aligned: usize = asked;
    if !user_set && args.enable_prefix_caching && args.ssm_checkpoint_interval > 0
        && args.ssm_cache_slots > 0 {
        assert(0 <= args.ssm_checkpoint_interval * args.block_size) by (nonlinear_arith);
        let target: usize = args.ssm_checkpoint_interval * args.block_size;
        if asked > target && target > 0 {
            aligned = target;
        }
    }
    let mut prefill_budget: usize = aligned;
    if args.high_speed_swap {
        assert(0 <= args.high_speed_swap_cache_blocks_per_seq * args.block_size)
            by (nonlinear_arith);
        let blocks: usize = args.high_speed_swap_cache_blocks_per_seq as usize;
        let window: usize = blocks * args.block_size;
        let chunk_max: usize = if window >= args.max_batch_size {
            window - args.max_batch_size
        } else {
            0
        };
        if chunk_max < prefill_budget {
            prefill_budget = chunk_max;
        }
    }
    let mut max_batch_tokens: usize = prefill_budget + args.max_batch_size;
    if max_batch_tokens < spec_tokens {
        max_batch_tokens = spec_tokens;
    }
    PrefillBudget { prefill_budget, max_batch_tokens, spec_tokens }
}

/// The precision of the KV cache. `T` is the parsed precision.
pub struct KvCachePlan<T> {
    pub effective_kv_dtype_str: String,
    pub kv_dtype: T,
    /// Attention layers at either end that keep full precision.
    pub high_precision_layers: usize,
    pub hss_cache_blocks_per_seq: Option<u32>,
}

/// The precision to use: the user's, unless the user left the default and the
/// model recommends another.
pub open spec fn effective_dtype(user: Seq<char>, recommended: Seq<char>) -> Seq<char> {
    if recommended.len() > 0 && user == "fp8"@ {
        recommended
    } else {
        user
    }
}

/// The precision to use for the KV cache, by name.
pub fn effective_kv_dtype(user: &str, recommended: &str) -> (r: String)
    ensures
        r@ == effective_dtype(user@, recommended@),
{
    let n: usize = chars_of(recommended).len();
    if n == 0 || same_text(user, recommended) {
        user.to_owned()
    } else if same_text(user, "fp8") {
        recommended.to_owned()
    } else {
        user.to_owned()
    }
}

/// The layers that a setting in lower case asks for.
pub open spec fn asked_layers(setting: Seq<char>, num_attn_layers: int) -> int {
    if setting == "max"@ || setting == "all"@ {
        num_attn_layers
    } else if setting == "auto"@ {
        2
    } else {
        match text::spelled_number(setting, usize::MAX as nat) {
            Some(n) => n as int,
            None => 0,
        }
    }
}

/// The layers that keep full precision. With a turbo precision there are some
/// in any case: a third of the attention layers, rounded up, and at least two.
pub open spec fn kept_layers(setting: Seq<char>, num_attn_layers: int, is_turbo: bool) -> int {
    let asked = asked_layers(setting, num_attn_layers);
    if asked == 0 && is_turbo {
        larger((num_attn_layers + 2) / 3, 2)
    } else {
        asked
    }
}

/// The layers that keep full precision, for a setting in lower case.
pub fn high_precision_layers(setting: &str, num_attn_layers: usize, is_turbo: bool) -> (n: usize)
    requires
        is_turbo ==> num_attn_layers <= MAX_COUNTED_LAYERS,
    ensures
        n == kept_layers(setting@, num_attn_layers as int, is_turbo),
{
    let asked: usize = if same_text(setting, "max") || same_text(setting, "all") {
        num_attn_layers
    } else if same_text(setting, "auto") {
        2
    } else {
        match parse_number(&chars_of(setting), usize::MAX as u64) {
            Some(n) => n as usize,
            None => 0,
        }
    };
    if asked == 0 && is_turbo {
        let third: usize = (num_attn_layers + 2) / 3;
        if third >= 2 {
            third
        } else {
            2
        }
    } else {
        asked
    }
}

/// The plan of the KV cache, once the name of the precision has been parsed.
pub fn resolve_kv_cache_config<T>(
    args: &ServeArgs,
    num_attn_layers: usize,
    recommended: &str,
    kv_dtype: T,
    is_turbo: bool,
) -> (plan: KvCachePlan<T>)
    requires
        is_turbo ==> num_attn_layers <= MAX_COUNTED_LAYERS,
    ensures
        plan.effective_kv_dtype_str@ == effective_dtype(args.kv_cache_dtype@, recommended@),
        plan.kv_dtype == kv_dtype,
        plan.high_precision_layers == kept_layers(
            text::lower_case(args.kv_high_precision_layers@),
            num_attn_layers as int,
            is_turbo,
        ),
        plan.hss_cache_blocks_per_seq == if args.high_speed_swap {
            Some(args.high_speed_swap_cache_blocks_per_seq)
        } else {
            None
        },
{
    let effective_kv_dtype_str: String = effective_kv_dtype(
        args.kv_cache_dtype.as_str(),
        recommended,
    );
    let setting: String = to_lowercase(args.kv_high_precision_layers.as_str());
    let layers: usize = high_precision_layers(setting.as_str(), num_attn_layers, is_turbo);
    KvCachePlan {
        effective_kv_dtype_str,
        kv_dtype,
        high_precision_layers: layers,
        hss_cache_blocks_per_seq: if args.high_speed_swap {
            Some(args.high_speed_swap_cache_blocks_per_seq)
        } else {
            None
        },
    }
}

// ── laws ──

/// With the high-speed swap on, a prefill chunk and a full batch fit the
/// rolling window together.
pub proof fn chunks_stay_within_the_window(args: ServeArgs, ssm_prefill_chunk: int)
    requires
        args.high_speed_swap,
        swap_window(args) >= args.max_batch_size,
    ensures
        budget_of(args, ssm_prefill_chunk) + args.max_batch_size <= swap_window(args),
{
}

/// With reusable snapshots a prefill chunk is never longer than the distance of
/// two checkpoints, so that every prompt longer than that leaves one behind.
pub proof fn chunks_reach_a_checkpoint(args: ServeArgs, ssm_prefill_chunk: int)
    requires
        snapshots_reusable(args),
        args.block_size > 0,
    ensures
        budget_of(args, ssm_prefill_chunk) <= checkpoint_tokens(args),
{
    assert(args.ssm_checkpoint_interval * args.block_size > 0) by (nonlinear_arith)
        requires
            args.ssm_checkpoint_interval > 0,
            args.block_size > 0,
    ;
}

/// A prefill size that the user sets is kept, save for the rolling window.
pub proof fn user_prefill_is_kept(args: ServeArgs, ssm_prefill_chunk: int)
    requires
        user_set_prefill(args),
        args.max_prefill_tokens > 0,
        !args.high_speed_swap,
    ensures
        budget_of(args, ssm_prefill_chunk) == args.max_prefill_tokens,
{
}

/// Without a size of the user's, the size of the state-space layers counts, then
/// the default; a size of 0 takes the whole sequence. Snapshots that are not
/// reused and a swap that is off change nothing of it.
pub proof fn default_prefill_follows_the_layers(args: ServeArgs, ssm_prefill_chunk: int)
    requires
        !args.high_speed_swap,
        !args.enable_prefix_caching || args.ssm_checkpoint_interval == 0 || args.ssm_cache_slots
            == 0,
        ssm_prefill_chunk >= 0,
    ensures
        !user_set_prefill(args) && ssm_prefill_chunk > 0 ==> budget_of(args, ssm_prefill_chunk)
            == ssm_prefill_chunk,
        !user_set_prefill(args) && ssm_prefill_chunk == 0 ==> budget_of(args, ssm_prefill_chunk)
            == 8192,
        args.max_prefill_tokens == 0 && ssm_prefill_chunk == 0 ==> budget_of(
            args,
            ssm_prefill_chunk,
        ) == args.max_seq_len,
        args.max_prefill_tokens == 0 && ssm_prefill_chunk > 0 ==> budget_of(args, ssm_prefill_chunk)
            == ssm_prefill_chunk,
{
}

/// A prefill never gets more than it asks for, and less only for a checkpoint or
/// the rolling window.
pub proof fn prefill_is_cut_only_for_a_reason(args: ServeArgs, ssm_prefill_chunk: int)
    requires
        ssm_prefill_chunk >= 0,
    ensures
        budget_of(args, ssm_prefill_chunk) <= asked_prefill(args, ssm_prefill_chunk),
        budget_of(args, ssm_prefill_chunk) < asked_prefill(args, ssm_prefill_chunk) ==> {
            ||| snapshots_reusable(args) && budget_of(args, ssm_prefill_chunk)
                == checkpoint_tokens(args)
            ||| args.high_speed_swap && budget_of(args, ssm_prefill_chunk) == larger(
                swap_window(args) - args.max_batch_size,
                0,
            )
        },
{
}

/// A speculative step has a token for each draft, one to verify and the bonus,
/// whichever way it speculates; any other step has one.
pub proof fn speculative_steps_hold_their_drafts(args: ServeArgs)
    ensures
        args.speculative ==> spec_tokens_of(args) == args.num_drafts + 2,
        args.self_speculative ==> spec_tokens_of(args) == args.num_drafts + 2,
        args.ngram_speculative ==> spec_tokens_of(args) == args.num_drafts + 2,
        !args.speculative && !args.self_speculative && !args.ngram_speculative ==> spec_tokens_of(
            args,
        ) == 1,
{
}

/// A precision that the user chose is kept; the default gives way to a
/// recommendation, where there is one.
pub proof fn chosen_precision_is_kept(user: Seq<char>, recommended: Seq<char>)
    ensures
        user != "fp8"@ ==> effective_dtype(user, recommended) == user,
        recommended.len() > 0 ==> effective_dtype("fp8"@, recommended) == recommended,
        effective_dtype(user, Seq::empty()) == user,
{
}

/// The layers that keep full precision: all, two, or as many as are asked for in
/// digits; and with a turbo precision never none: at least a third, and two.
pub proof fn precise_layers_are_kept(setting: Seq<char>, layers: int, n: nat)
    requires
        layers >= 0,
    ensures
        kept_layers("max"@, layers, false) == layers,
        kept_layers("all"@, layers, false) == layers,
        kept_layers("auto"@, layers, false) == 2,
        kept_layers("auto"@, layers, true) == 2,
        setting != "max"@ && setting != "all"@ && setting != "auto"@ && text::spelled_number(
            setting,
            usize::MAX as nat,
        ) == Some(n) ==> {
            &&& kept_layers(setting, layers, false) == n
            &&& n > 0 ==> kept_layers(setting, layers, true) == n
        },
        kept_layers(setting, layers, true) > 0,
        asked_layers(setting, layers) == 0 ==> {
            &&& kept_layers(setting, layers, true) >= 2
            &&& 3 * kept_layers(setting, layers, true) >= layers
            &&& layers > 6 ==> 3 * (kept_layers(setting, layers, true) - 1) < layers
        },
{
    reveal_strlit("max");
    reveal_strlit("all");
    reveal_strlit("auto");
    assert("max"@.len() == 3 && "all"@.len() == 3 && "auto"@.len() == 4);
    match text::spelled_number(setting, usize::MAX as nat) {
        Some(k) => assert(k >= 0),
        None => {},
    }
}

} // verus!
