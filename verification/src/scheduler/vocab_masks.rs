//! Per-token classification masks, derived from the resolved tokenizer.
//!
//! Each mask is indexed by token id, so it belongs to the vocabulary that it
//! was built from. Every mask is optional, and one that is absent, or too short
//! for an id, classifies nothing: a guard without its mask is inert.

use crate::text;
use crate::text::push_decimal;
use std::sync::Arc;
use vstd::prelude::*;
use vstd::string::*;

verus! {

/// The token classification masks of one vocabulary.
#[derive(Clone)]
pub struct VocabMasks {
    /// The token decodes to a run of ASCII digits, with one leading space or
    /// none.
    pub numeric: Option<Arc<Vec<bool>>>,
    /// The token decodes to text that ends in a well-formed boundary.
    pub boundary: Option<Arc<Vec<bool>>>,
    /// The token decodes to text whose last character is alphanumeric.
    pub mid_word: Option<Arc<Vec<bool>>>,
    /// The token decodes to text that starts with `=`.
    pub eq_prefix: Option<Arc<Vec<bool>>>,
}

/// What a mask says of a token id.
pub open spec fn marked(mask: Option<Arc<Vec<bool>>>, id: u32) -> bool {
    match mask {
        Some(m) => id < m@.len() && m@[id as int],
        None => false,
    }
}

/// How many of the first `n` ids a mask marks.
pub open spec fn population(m: Seq<bool>, n: int) -> nat
    decreases n,
{
    if n <= 0 {
        0
    } else {
        population(m, n - 1) + if m[n - 1] {
            1nat
        } else {
            0
        }
    }
}

/// A mask in words: how many ids it marks, of how many, or `none`.
pub open spec fn summary(mask: Option<Arc<Vec<bool>>>) -> Seq<char> {
    match mask {
        Some(m) => text::decimal(population(m@, m@.len() as int)) + "/"@ + text::decimal(m@.len()),
        None => "none"@,
    }
}

impl Default for VocabMasks {
    /// No mask at all.
    fn default() -> (m: Self)
        ensures
            m == (VocabMasks { numeric: None, boundary: None, mid_word: None, eq_prefix: None }),
    {
        VocabMasks { numeric: None, boundary: None, mid_word: None, eq_prefix: None }
    }
}

fn at(mask: &Option<Arc<Vec<bool>>>, id: u32) -> (r: bool)
    ensures
        r == marked(*mask, id),
{
    match mask {
        Some(m) => {
            let i: usize = id as usize;
            i < m.len() && m[i]
        },
        None => false,
    }
}

fn push_summary(out: &mut String, mask: &Option<Arc<Vec<bool>>>)
    ensures
        final(out)@ == old(out)@ + summary(*mask),
{
    match mask {
        Some(m) => {
            let mut n: usize = 0;
            let mut i: usize = 0;
            while i < m.len()
                invariant
                    n <= i <= m@.len(),
                    n == population(m@, i as int),
                decreases m@.len() - i,
            {
                if m[i] {
                    n = n + 1;
                }
                i = i + 1;
            }
            push_decimal(out, n as u64);
            out.append("/");
            push_decimal(out, m.len() as u64);
            assert(out@ =~= old(out)@ + summary(*mask));
        },
        None => {
            out.append("none");
        },
    }
}

impl VocabMasks {
    /// The numeric mask marks the id.
    pub fn is_numeric(&self, id: u32) -> (r: bool)
        ensures
            r == marked(self.numeric, id),
    {
        at(&self.numeric, id)
    }

    /// The boundary mask marks the id.
    pub fn is_boundary(&self, id: u32) -> (r: bool)
        ensures
            r == marked(self.boundary, id),
    {
        at(&self.boundary, id)
    }

    /// The mid-word mask marks the id.
    pub fn is_mid_word(&self, id: u32) -> (r: bool)
        ensures
            r == marked(self.mid_word, id),
    {
        at(&self.mid_word, id)
    }

    /// The `=` mask marks the id.
    pub fn is_eq_prefix(&self, id: u32) -> (r: bool)
        ensures
            r == marked(self.eq_prefix, id),
    {
        at(&self.eq_prefix, id)
    }

    /// The masks in words: the population of each rather than its entries.
    pub fn debug_text(&self) -> (r: String)
        ensures
            r@ == "VocabMasks { numeric: \""@ + summary(self.numeric) + "\", boundary: \""@
                + summary(self.boundary) + "\", mid_word: \""@ + summary(self.mid_word)
                + "\", eq_prefix: \""@ + summary(self.eq_prefix) + "\" }"@,
    {
        let mut out: String = "VocabMasks { numeric: \"".to_owned();
        push_summary(&mut out, &self.numeric);
        out.append("\", boundary: \"");
        push_summary(&mut out, &self.boundary);
        out.append("\", mid_word: \"");
        push_summary(&mut out, &self.mid_word);
        out.append("\", eq_prefix: \"");
        push_summary(&mut out, &self.eq_prefix);
        out.append("\" }");
        out
    }
}

// ── laws ──

/// A mask that is absent, or too short for an id, marks nothing; any other says
/// what its entry says.
pub proof fn masks_say_what_their_entries_say(m: Arc<Vec<bool>>, id: u32)
    ensures
        !marked(None, id),
        id >= m@.len() ==> !marked(Some(m), id),
        id < m@.len() ==> marked(Some(m), id) == m@[id as int],
{
}

/// The population of a mask is the number of ids that it marks.
pub proof fn population_counts_the_marked(m: Seq<bool>, n: int)
    requires
        0 <= n <= m.len(),
    ensures
        population(m, n) == m.take(n).filter(|b: bool| b).len(),
        population(m, n) <= n,
    decreases n,
{
    reveal(Seq::filter);
    if n > 0 {
        population_counts_the_marked(m, n - 1);
        assert(m.take(n).drop_last() =~= m.take(n - 1));
        assert(m.take(n).last() == m[n - 1]);
    } else {
        assert(m.take(0) =~= Seq::<bool>::empty());
    }
}

} // verus!
