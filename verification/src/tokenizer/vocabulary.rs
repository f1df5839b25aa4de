//! The vocabulary of a tokenizer.

use vstd::prelude::*;

verus! {

/// A tokenizer of a model, `tokenizers::Tokenizer`.
#[verifier::external_type_specification]
#[verifier::external_body]
pub struct ExTokenizer(tokenizers::Tokenizer);

/// The id of each token that a tokenizer knows, added tokens included.
pub uninterp spec fn token_ids(tokenizer: tokenizers::Tokenizer) -> Map<Seq<char>, u32>;

/// How many tokens a tokenizer counts, added tokens included.
pub uninterp spec fn token_count(tokenizer: tokenizers::Tokenizer) -> usize;

/// The id under a token, or nothing when there is no such token.
pub open spec fn id_in(ids: Map<Seq<char>, u32>, token: Seq<char>) -> Option<u32> {
    if ids.contains_key(token) {
        Some(ids[token])
    } else {
        None
    }
}

/// `tokenizers::Tokenizer::token_to_id`: looks a token up among the added tokens
/// and then in the vocabulary of the model, and changes neither. Which ids a
/// tokenizer holds is not stated.
#[verifier::external_body]
pub(crate) fn token_to_id(tokenizer: &tokenizers::Tokenizer, token: &str) -> (id: Option<u32>)
    ensures
        id == id_in(token_ids(*tokenizer), token@),
{
    tokenizer.token_to_id(token)
}

/// `tokenizers::Tokenizer::get_vocab_size`, asked for added tokens too: the size
/// of the model's vocabulary and the added tokens that are not in it. The number
/// is not tied to the ids, since a model may list a token twice.
#[verifier::external_body]
pub(crate) fn vocab_size_of(tokenizer: &tokenizers::Tokenizer) -> (n: usize)
    ensures
        n == token_count(*tokenizer),
{
    tokenizer.get_vocab_size(true)
}

} // verus!
