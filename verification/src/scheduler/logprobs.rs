//! Rows of the logits buffer, one per token position.
//!
//! The device keeps logits as BF16, the upper half of an FP32 value. A row is
//! widened here; its log-softmax is floating-point work for the caller.

use crate::float::Float32;
use vstd::prelude::*;

verus! {

/// The logits of one position, the token sampled there, and how many
/// alternatives are wanted.
pub struct LogprobRow {
    pub logits: Vec<Float32>,
    pub token_id: u32,
    pub k: usize,
}

/// The FP32 bits of a BF16 value, given its two bytes.
pub open spec fn widened(lo: u8, hi: u8) -> Float32 {
    Float32 { bits: (hi * 0x100_0000 + lo * 0x1_0000) as u32 }
}

/// Row `row` of a BF16 buffer with `vocab` values a row.
pub open spec fn row_of(buf: Seq<u8>, vocab: nat, row: int) -> Seq<Float32> {
    Seq::new(
        vocab,
        |j: int| widened(buf[2 * (row * vocab + j)], buf[2 * (row * vocab + j) + 1]),
    )
}

/// `r` asks for the logprobs of `token` over row `row` of the buffer.
pub open spec fn is_row(
    r: LogprobRow,
    buf: Seq<u8>,
    vocab: nat,
    row: int,
    token: u32,
    k: u8,
) -> bool {
    r.logits@ == row_of(buf, vocab, row) && r.token_id == token && r.k == k
}

fn bf16_to_f32(lo: u8, hi: u8) -> (f: Float32)
    ensures
        f == widened(lo, hi),
{
    Float32 { bits: (hi as u32) * 0x100_0000 + (lo as u32) * 0x1_0000 }
}

fn widen_row(buf: &[u8], vocab: usize, row: usize) -> (out: Vec<Float32>)
    requires
        2 * ((row + 1) * vocab) <= buf@.len(),
    ensures
        out@ == row_of(buf@, vocab as nat, row as int),
{
    let ghost blen: usize = buf.len();
    assert(row * vocab + vocab == (row + 1) * vocab) by (nonlinear_arith);
    assert(0 <= row * vocab) by (nonlinear_arith);
    let base: usize = row * vocab;
    let mut out: Vec<Float32> = Vec::new();
    let mut j: usize = 0;
    while j < vocab
        invariant
            j <= vocab,
            base == row * vocab,
            2 * (base + vocab) <= buf@.len(),
            buf@.len() == blen,
            out@.len() == j,
            forall|i: int|
                0 <= i < j ==> #[trigger] out@[i] == widened(
                    buf@[2 * (row * vocab + i)],
                    buf@[2 * (row * vocab + i) + 1],
                ),
        decreases vocab - j,
    {
        let lo: u8 = buf[2 * (base + j)];
        let hi: u8 = buf[2 * (base + j) + 1];
        out.push(bf16_to_f32(lo, hi));
        j = j + 1;
    }
    assert(out@ =~= row_of(buf@, vocab as nat, row as int));
    out
}

/// The rows of a verify step, one for each of its tokens. Without a copy of the
/// buffer there is none.
pub fn extract_verify_logprobs(
    vocab: usize,
    copied: Option<&[u8]>,
    tokens: &[u32],
    k_logprobs: u8,
) -> (rows: Vec<LogprobRow>)
    requires
        copied matches Some(buf) ==> buf@.len() == tokens@.len() * vocab * 2,
    ensures
        match copied {
            Some(buf) => rows@.len() == tokens@.len() && forall|i: int|
                0 <= i < rows@.len() ==> is_row(
                    #[trigger] rows@[i],
                    buf@,
                    vocab as nat,
                    i,
                    tokens@[i],
                    k_logprobs,
                ),
            None => rows@.len() == 0,
        },
{
    let mut rows: Vec<LogprobRow> = Vec::new();
    match copied {
        Some(buf) => {
            let mut i: usize = 0;
            while i < tokens.len()
                invariant
                    i <= tokens@.len(),
                    buf@.len() == tokens@.len() * vocab * 2,
                    rows@.len() == i,
                    forall|j: int|
                        0 <= j < i ==> is_row(
                            #[trigger] rows@[j],
                            buf@,
                            vocab as nat,
                            j,
                            tokens@[j],
                            k_logprobs,
                        ),
                decreases tokens@.len() - i,
            {
                let ghost n = tokens@.len() as int;
                assert((i + 1) * vocab <= n * vocab) by (nonlinear_arith)
                    requires
                        i + 1 <= n,
                        0 <= vocab,
                ;
                let logits: Vec<Float32> = widen_row(buf, vocab, i);
                rows.push(LogprobRow { logits, token_id: tokens[i], k: k_logprobs as usize });
                i = i + 1;
            }
        },
        None => {},
    }
    rows
}

/// The row of a single sampled token. Without a copy of the buffer there is
/// none.
pub fn extract_single_logprobs(
    vocab: usize,
    copied: Option<&[u8]>,
    sampled_token: u32,
    k_logprobs: u8,
) -> (row: Option<LogprobRow>)
    requires
        copied matches Some(buf) ==> buf@.len() == vocab * 2,
    ensures
        match row {
            Some(r) => copied matches Some(buf) && is_row(
                r,
                buf@,
                vocab as nat,
                0,
                sampled_token,
                k_logprobs,
            ),
            None => copied is None,
        },
{
    match copied {
        Some(buf) => {
            let logits: Vec<Float32> = widen_row(buf, vocab, 0);
            Some(LogprobRow { logits, token_id: sampled_token, k: k_logprobs as usize })
        },
        None => None,
    }
}

// ── laws ──

/// Widening keeps the two bytes as they are, as the upper half of the result,
/// the second byte above the first; the lower half is zero.
pub proof fn widening_keeps_both_bytes(lo: u8, hi: u8)
    ensures
        widened(lo, hi).bits / 0x1_0000 == 0x100 * hi + lo,
        widened(lo, hi).bits % 0x1_0000 == 0,
{
}

/// The rows of a buffer lie one behind the other: row `r + 1` of a buffer is row
/// `r` of what lies behind its first row. The first row is made of the first
/// pairs of bytes.
pub proof fn rows_lie_one_behind_the_other(buf: Seq<u8>, vocab: nat, row: int, j: int)
    requires
        0 <= row,
        0 <= j < vocab,
        2 * ((row + 2) * vocab) <= buf.len(),
    ensures
        row_of(buf, vocab, row).len() == vocab,
        row_of(buf, vocab, row + 1)[j] == row_of(buf.skip(2 * vocab as int), vocab, row)[j],
        row_of(buf, vocab, 0)[j] == widened(buf[2 * j], buf[2 * j + 1]),
{
    assert((row + 1) * vocab == row * vocab + vocab) by (nonlinear_arith);
    assert((row + 2) * vocab == row * vocab + 2 * vocab) by (nonlinear_arith);
    assert(0 <= row * vocab) by (nonlinear_arith)
        requires
            0 <= row,
    ;
    assert(0 * vocab == 0) by (nonlinear_arith);
}

} // verus!
