//! Log-probabilities of legacy completions: four parallel lists, one item per
//! token.

use crate::float::Float32;
use crate::text::chars_of;
use vstd::prelude::*;

verus! {

/// A scored token and its alternatives.
#[derive(Debug)]
pub struct TokenLogprobs {
    pub token_id: u32,
    pub logprob: Float32,
    pub top: Vec<(u32, Float32)>,
}

/// The log-probabilities of a completion. A token without a score has `None`.
#[derive(Debug)]
pub struct CompletionLogprobs {
    pub tokens: Vec<String>,
    pub token_logprobs: Vec<Option<Float32>>,
    /// Alternatives by their text, each text once.
    pub top_logprobs: Vec<Option<Vec<(String, Float32)>>>,
    /// Where each token begins: the characters of the decoded tokens before it.
    pub text_offset: Vec<usize>,
}

/// `f` decodes any token, the same token always to the same text.
pub open spec fn is_decoder<F: Fn(u32) -> String>(f: F) -> bool {
    &&& forall|id: u32| f.requires((id,))
    &&& forall|id: u32, a: String, b: String|
        #![trigger f.ensures((id,), a), f.ensures((id,), b)]
        f.ensures((id,), a) && f.ensures((id,), b) ==> a@ == b@
}

/// `s` is what `f` decodes `id` to.
pub open spec fn decodes_to<F: Fn(u32) -> String>(f: F, id: u32, s: Seq<char>) -> bool {
    exists|a: String| #[trigger] f.ensures((id,), a) && a@ == s
}

/// The text that `f` decodes `id` to.
pub open spec fn decoded<F: Fn(u32) -> String>(f: F, id: u32) -> Seq<char> {
    choose|s: Seq<char>| decodes_to(f, id, s)
}

/// The characters of the first `n` decoded tokens.
pub open spec fn decoded_chars<F: Fn(u32) -> String>(f: F, ids: Seq<u32>, n: int) -> nat
    decreases n,
{
    if n <= 0 {
        0
    } else {
        decoded_chars(f, ids, n - 1) + decoded(f, ids[n - 1]).len()
    }
}

/// The tokens of a completion: the prompt when it is echoed, then what was
/// generated.
pub open spec fn shown_ids(echo: bool, prompt: Seq<u32>, generated: Seq<u32>) -> Seq<u32> {
    if echo {
        prompt + generated
    } else {
        generated
    }
}

/// Entry `j` of a list of scores, when there is one.
pub open spec fn score_at(lps: Seq<TokenLogprobs>, j: int) -> Option<TokenLogprobs> {
    if 0 <= j < lps.len() {
        Some(lps[j])
    } else {
        None
    }
}

/// The score of shown token `i`. Prompt scores begin with the second token.
/// Scores of generated tokens stand at the end: those missing in front are of
/// the first tokens.
pub open spec fn score_of(
    echo: bool,
    prompt: Seq<u32>,
    prompt_lps: Seq<TokenLogprobs>,
    generated: Seq<u32>,
    gen_lps: Seq<TokenLogprobs>,
    i: int,
) -> Option<TokenLogprobs> {
    let shown_prompt = if echo {
        prompt.len() as int
    } else {
        0
    };
    let missing = if generated.len() >= gen_lps.len() {
        generated.len() - gen_lps.len()
    } else {
        0
    };
    if i < shown_prompt {
        score_at(prompt_lps, i - 1)
    } else {
        score_at(gen_lps, i - shown_prompt - missing)
    }
}

/// The first `n` alternatives by text: a text that comes again takes the later
/// score.
pub open spec fn by_text<F: Fn(u32) -> String>(f: F, top: Seq<(u32, Float32)>, n: int) -> Seq<
    (Seq<char>, Float32),
>
    decreases n,
{
    if n <= 0 {
        Seq::empty()
    } else {
        with_text(by_text(f, top, n - 1), decoded(f, top[n - 1].0), top[n - 1].1)
    }
}

/// The pairs with the score of `t` set to `p`.
pub open spec fn with_text(pairs: Seq<(Seq<char>, Float32)>, t: Seq<char>, p: Float32) -> Seq<
    (Seq<char>, Float32),
> {
    let i = text_at(pairs, t, 0);
    if 0 <= i < pairs.len() {
        pairs.update(i, (t, p))
    } else {
        pairs.push((t, p))
    }
}

/// Position of the first pair at or after `i` with text `t`, or the length.
pub open spec fn text_at(pairs: Seq<(Seq<char>, Float32)>, t: Seq<char>, i: int) -> int
    decreases pairs.len() - i,
{
    if i < 0 || i >= pairs.len() {
        pairs.len() as int
    } else if pairs[i].0 == t {
        i
    } else {
        text_at(pairs, t, i + 1)
    }
}

/// What each pair of a list says.
pub open spec fn pairs_view(s: Seq<(String, Float32)>) -> Seq<(Seq<char>, Float32)> {
    s.map_values(|p: (String, Float32)| (p.0@, p.1))
}

/// The item of the alternatives list for a score.
pub open spec fn is_top_of<F: Fn(u32) -> String>(
    f: F,
    item: Option<Vec<(String, Float32)>>,
    lp: Option<TokenLogprobs>,
) -> bool {
    match lp {
        Some(l) => item matches Some(v) && pairs_view(v@) == by_text(
            f,
            l.top@,
            l.top@.len() as int,
        ),
        None => item is None,
    }
}

/// The scores of the tokens so far: item `i` is that of shown token `i`.
pub open spec fn is_logprobs<F: Fn(u32) -> String>(
    f: F,
    ids: Seq<u32>,
    scores: Seq<Option<TokenLogprobs>>,
    out: CompletionLogprobs,
) -> bool {
    &&& out.tokens@.len() == ids.len()
    &&& out.token_logprobs@.len() == ids.len()
    &&& out.top_logprobs@.len() == ids.len()
    &&& out.text_offset@.len() == ids.len()
    &&& forall|i: int|
        0 <= i < ids.len() ==> (#[trigger] out.tokens@[i])@ == decoded(f, ids[i])
    &&& forall|i: int|
        0 <= i < ids.len() ==> #[trigger] out.token_logprobs@[i] == (match scores[i] {
            Some(l) => Some(l.logprob),
            None => None,
        })
    &&& forall|i: int|
        0 <= i < ids.len() ==> is_top_of(f, #[trigger] out.top_logprobs@[i], scores[i])
    &&& forall|i: int|
        0 <= i < ids.len() ==> #[trigger] out.text_offset@[i] == decoded_chars(f, ids, i)
}

proof fn lemma_decoded<F: Fn(u32) -> String>(f: F, id: u32, a: String)
    requires
        is_decoder(f),
        f.ensures((id,), a),
    ensures
        a@ == decoded(f, id),
{
    assert(decodes_to(f, id, a@));
    let s = decoded(f, id);
    assert(decodes_to(f, id, s));
    let b = choose|b: String| #[trigger] f.ensures((id,), b) && b@ == s;
    assert(f.ensures((id,), b));
}

proof fn lemma_decoded_chars_grow<F: Fn(u32) -> String>(f: F, ids: Seq<u32>, a: int, b: int)
    requires
        0 <= a <= b,
    ensures
        decoded_chars(f, ids, a) <= decoded_chars(f, ids, b),
    decreases b - a,
{
    if a < b {
        lemma_decoded_chars_grow(f, ids, a, b - 1);
    }
}

proof fn lemma_decoded_chars_prefix<F: Fn(u32) -> String>(f: F, a: Seq<u32>, b: Seq<u32>, n: int)
    requires
        0 <= n <= a.len(),
        n <= b.len(),
        a.take(n) == b.take(n),
    ensures
        decoded_chars(f, a, n) == decoded_chars(f, b, n),
    decreases n,
{
    if n > 0 {
        assert(a.take(n - 1) =~= a.take(n).take(n - 1));
        assert(b.take(n - 1) =~= b.take(n).take(n - 1));
        assert(a[n - 1] == a.take(n)[n - 1]);
        assert(b[n - 1] == b.take(n)[n - 1]);
        lemma_decoded_chars_prefix(f, a, b, n - 1);
    }
}

/// The alternatives of a score by their text.
fn collect_top<F: Fn(u32) -> String>(f: &F, top: &Vec<(u32, Float32)>) -> (out: Vec<
    (String, Float32),
>)
    requires
        is_decoder(*f),
    ensures
        pairs_view(out@) == by_text(*f, top@, top@.len() as int),
{
    let mut out: Vec<(String, Float32)> = Vec::new();
    let mut i: usize = 0;
    assert(pairs_view(out@) =~= Seq::<(Seq<char>, Float32)>::empty());
    while i < top.len()
        invariant
            i <= top@.len(),
            is_decoder(*f),
            pairs_view(out@) == by_text(*f, top@, i as int),
        decreases top@.len() - i,
    {
        let piece: String = f(top[i].0);
        proof {
            lemma_decoded(*f, top@[i as int].0, piece);
        }
        let ghost before = pairs_view(out@);
        let mut k: usize = 0;
        while k < out.len() && !(out[k].0 == piece)
            invariant
                k <= out@.len(),
                before == pairs_view(out@),
                text_at(before, piece@, 0) == text_at(before, piece@, k as int),
            decreases out@.len() - k,
        {
            assert(before[k as int].0 == out@[k as int].0@);
            k = k + 1;
        }
        let ghost held = out@;
        if k < out.len() {
            assert(before[k as int].0 == out@[k as int].0@);
            out[k] = (piece, top[i].1);
            assert(pairs_view(out@) =~= before.update(k as int, (piece@, top@[i as int].1)));
        } else {
            out.push((piece, top[i].1));
            assert(pairs_view(out@) =~= before.push((piece@, top@[i as int].1)));
        }
        i = i + 1;
    }
    out
}

/// Appends a token with its score.
fn push_token<F: Fn(u32) -> String>(
    f: &F,
    out: &mut CompletionLogprobs,
    offset: usize,
    id: u32,
    lp: Option<&TokenLogprobs>,
    Ghost(ids): Ghost<Seq<u32>>,
    Ghost(scores): Ghost<Seq<Option<TokenLogprobs>>>,
) -> (next: usize)
    requires
        is_decoder(*f),
        scores.len() == ids.len(),
        is_logprobs(*f, ids, scores, *old(out)),
        offset == decoded_chars(*f, ids, ids.len() as int),
        decoded_chars(*f, ids.push(id), ids.len() as int + 1) <= usize::MAX,
    ensures
        is_logprobs(
            *f,
            ids.push(id),
            scores.push(
                match lp {
                    Some(l) => Some(*l),
                    None => None,
                },
            ),
            *final(out),
        ),
        next == decoded_chars(*f, ids.push(id), ids.len() as int + 1),
{
    let piece: String = f(id);
    let ghost all = ids.push(id);
    let ghost score = match lp {
        Some(l) => Some(*l),
        None => None,
    };
    let ghost marks = scores.push(score);
    proof {
        lemma_decoded(*f, id, piece);
        assert(all.take(ids.len() as int) =~= ids.take(ids.len() as int));
        lemma_decoded_chars_prefix(*f, all, ids, ids.len() as int);
    }
    let chars: usize = chars_of(piece.as_str()).len();
    let top: Option<Vec<(String, Float32)>> = match lp {
        Some(l) => Some(collect_top(f, &l.top)),
        None => None,
    };
    let logprob: Option<Float32> = match lp {
        Some(l) => Some(l.logprob),
        None => None,
    };
    let ghost before = *out;
    out.text_offset.push(offset);
    out.tokens.push(piece);
    out.token_logprobs.push(logprob);
    out.top_logprobs.push(top);
    proof {
        assert forall|i: int| 0 <= i < all.len() implies (#[trigger] out.tokens@[i])@ == decoded(
            *f,
            all[i],
        ) by {
            if i < ids.len() {
                assert(out.tokens@[i] == before.tokens@[i]);
            }
        }
        assert forall|i: int| 0 <= i < all.len() implies #[trigger] out.token_logprobs@[i] == (
        match marks[i] {
            Some(l) => Some(l.logprob),
            None => None,
        }) by {
            if i < ids.len() {
                assert(out.token_logprobs@[i] == before.token_logprobs@[i]);
            }
        }
        assert forall|i: int| 0 <= i < all.len() implies is_top_of(
            *f,
            #[trigger] out.top_logprobs@[i],
            marks[i],
        ) by {
            if i < ids.len() {
                assert(out.top_logprobs@[i] == before.top_logprobs@[i]);
            }
        }
        assert forall|i: int| 0 <= i < all.len() implies #[trigger] out.text_offset@[i]
            == decoded_chars(*f, all, i) by {
            if i < ids.len() {
                assert(out.text_offset@[i] == before.text_offset@[i]);
                assert(all.take(i) =~= ids.take(i));
            }
            assert(all.take(i) =~= ids.take(i));
            lemma_decoded_chars_prefix(*f, all, ids, i);
        }
    }
    offset + chars
}

/// Assembles the log-probabilities of a completion. `prompt_lps[i]` scores prompt
/// token `i + 1`; the first echoed token has no score. When the first generated
/// tokens have no scores, theirs are `None` too.
pub fn build_completion_logprobs<F: Fn(u32) -> String>(
    decode: &F,
    echo: bool,
    prompt_tokens: &[u32],
    prompt_lps: &[TokenLogprobs],
    gen_tokens: &[u32],
    gen_lps: &[TokenLogprobs],
) -> (out: CompletionLogprobs)
    requires
        is_decoder(*decode),
        decoded_chars(
            *decode,
            shown_ids(echo, prompt_tokens@, gen_tokens@),
            shown_ids(echo, prompt_tokens@, gen_tokens@).len() as int,
        ) <= usize::MAX,
    ensures
        is_logprobs(
            *decode,
            shown_ids(echo, prompt_tokens@, gen_tokens@),
            shown_scores(echo, prompt_tokens@, prompt_lps@, gen_tokens@, gen_lps@),
            out,
        ),
{
    let ghost shown = shown_ids(echo, prompt_tokens@, gen_tokens@);
    let ghost scores = Seq::new(
        shown.len(),
        |i: int| score_of(echo, prompt_tokens@, prompt_lps@, gen_tokens@, gen_lps@, i),
    );
    let mut out = CompletionLogprobs {
        tokens: Vec::new(),
        token_logprobs: Vec::new(),
        top_logprobs: Vec::new(),
        text_offset: Vec::new(),
    };
    let mut offset: usize = 0;
    let ghost mut n: int = 0;
    assert(shown.take(0) =~= Seq::<u32>::empty());
    assert(scores.take(0) =~= Seq::<Option<TokenLogprobs>>::empty());
    if echo {
        let mut i: usize = 0;
        while i < prompt_tokens.len()
            invariant
                i <= prompt_tokens@.len(),
                is_decoder(*decode),
                echo,
                shown == shown_ids(echo, prompt_tokens@, gen_tokens@),
                scores == Seq::new(
                    shown.len(),
                    |i: int| score_of(echo, prompt_tokens@, prompt_lps@, gen_tokens@, gen_lps@, i),
                ),
                decoded_chars(*decode, shown, shown.len() as int) <= usize::MAX,
                n == i,
                is_logprobs(*decode, shown.take(n), scores.take(n), out),
                offset == decoded_chars(*decode, shown.take(n), n),
            decreases prompt_tokens@.len() - i,
        {
            let lp: Option<&TokenLogprobs> = if i >= 1 && i - 1 < prompt_lps.len() {
                Some(&prompt_lps[i - 1])
            } else {
                None
            };
            let id: u32 = prompt_tokens[i];
            proof {
                assert(shown[n] == id);
                assert(shown.take(n).push(id) =~= shown.take(n + 1));
                assert(shown.take(n + 1).take(n + 1) =~= shown.take(n + 1));
                lemma_decoded_chars_prefix(*decode, shown.take(n + 1), shown, n + 1);
                lemma_decoded_chars_grow(*decode, shown, n + 1, shown.len() as int);
            }
            offset =
            push_token(
                decode,
                &mut out,
                offset,
                id,
                lp,
                Ghost(shown.take(n)),
                Ghost(scores.take(n)),
            );
            proof {
                assert(scores[n] == (match lp {
                    Some(l) => Some(*l),
                    None => None,
                }));
                assert(scores.take(n).push(scores[n]) =~= scores.take(n + 1));
                n = n + 1;
            }
            i = i + 1;
        }
    }
    let missing: usize = if gen_tokens.len() >= gen_lps.len() {
        gen_tokens.len() - gen_lps.len()
    } else {
        0
    };
    let ghost base = n;
    let mut i: usize = 0;
    while i < gen_tokens.len()
        invariant
            i <= gen_tokens@.len(),
            is_decoder(*decode),
            shown == shown_ids(echo, prompt_tokens@, gen_tokens@),
            scores == Seq::new(
                shown.len(),
                |i: int| score_of(echo, prompt_tokens@, prompt_lps@, gen_tokens@, gen_lps@, i),
            ),
            decoded_chars(*decode, shown, shown.len() as int) <= usize::MAX,
            base == (if echo {
                prompt_tokens@.len() as int
            } else {
                0
            }),
            missing == (if gen_tokens@.len() >= gen_lps@.len() {
                gen_tokens@.len() - gen_lps@.len()
            } else {
                0
            }),
            n == base + i,
            is_logprobs(*decode, shown.take(n), scores.take(n), out),
            offset == decoded_chars(*decode, shown.take(n), n),
        decreases gen_tokens@.len() - i,
    {
        let lp: Option<&TokenLogprobs> = if i >= missing && i - missing < gen_lps.len() {
            Some(&gen_lps[i - missing])
        } else {
            None
        };
        let id: u32 = gen_tokens[i];
        proof {
            assert(shown[n] == id);
            assert(shown.take(n).push(id) =~= shown.take(n + 1));
            assert(shown.take(n + 1).take(n + 1) =~= shown.take(n + 1));
            lemma_decoded_chars_prefix(*decode, shown.take(n + 1), shown, n + 1);
            lemma_decoded_chars_grow(*decode, shown, n + 1, shown.len() as int);
        }
        offset =
        push_token(decode, &mut out, offset, id, lp, Ghost(shown.take(n)), Ghost(scores.take(n)));
        proof {
            assert(scores[n] == (match lp {
                Some(l) => Some(*l),
                None => None,
            }));
            assert(scores.take(n).push(scores[n]) =~= scores.take(n + 1));
            n = n + 1;
        }
        i = i + 1;
    }
    proof {
        assert(shown.take(n) =~= shown);
        assert(scores.take(n) =~= scores);
    }
    out
}

// ── laws ──

/// The scores of a completion's tokens, as its log-probabilities are built from
/// them.
pub open spec fn shown_scores(
    echo: bool,
    prompt: Seq<u32>,
    prompt_lps: Seq<TokenLogprobs>,
    generated: Seq<u32>,
    gen_lps: Seq<TokenLogprobs>,
) -> Seq<Option<TokenLogprobs>> {
    Seq::new(
        shown_ids(echo, prompt, generated).len(),
        |i: int| score_of(echo, prompt, prompt_lps, generated, gen_lps, i),
    )
}

/// The lists are parallel and together spell the text: the first token begins at
/// 0 and every other where the one before it ends.
pub proof fn offsets_follow_the_tokens<F: Fn(u32) -> String>(
    f: F,
    ids: Seq<u32>,
    scores: Seq<Option<TokenLogprobs>>,
    out: CompletionLogprobs,
)
    requires
        is_logprobs(f, ids, scores, out),
    ensures
        out.tokens@.len() == ids.len(),
        out.token_logprobs@.len() == ids.len(),
        out.top_logprobs@.len() == ids.len(),
        out.text_offset@.len() == ids.len(),
        ids.len() > 0 ==> out.text_offset@[0] == 0,
        forall|i: int|
            0 <= i < ids.len() - 1 ==> out.text_offset@[i + 1] == #[trigger] out.text_offset@[i]
                + out.tokens@[i]@.len(),
{
    assert forall|i: int| 0 <= i < ids.len() - 1 implies out.text_offset@[i + 1]
        == #[trigger] out.text_offset@[i] + out.tokens@[i]@.len() by {
        assert(out.text_offset@[i + 1] == decoded_chars(f, ids, i + 1));
        assert(out.tokens@[i]@ == decoded(f, ids[i]));
    }
}

/// Every generated token is shown, behind the prompt when that is echoed, with
/// the score that was taken for it: the scores belong to the last tokens.
pub proof fn generated_tokens_have_their_scores<F: Fn(u32) -> String>(
    f: F,
    echo: bool,
    prompt: Seq<u32>,
    prompt_lps: Seq<TokenLogprobs>,
    generated: Seq<u32>,
    gen_lps: Seq<TokenLogprobs>,
    out: CompletionLogprobs,
    back: int,
)
    requires
        is_logprobs(
            f,
            shown_ids(echo, prompt, generated),
            shown_scores(echo, prompt, prompt_lps, generated, gen_lps),
            out,
        ),
        gen_lps.len() <= generated.len(),
        0 < back <= generated.len(),
    ensures
        ({
            let i = out.tokens@.len() - back;
            let id = generated[generated.len() - back];
            &&& out.tokens@.len() == generated.len() + if echo {
                prompt.len()
            } else {
                0
            }
            &&& out.tokens@[i]@ == decoded(f, id)
            &&& out.token_logprobs@[i] == if back <= gen_lps.len() {
                Some(gen_lps[gen_lps.len() - back].logprob)
            } else {
                None
            }
            &&& out.top_logprobs@[i] is Some <==> back <= gen_lps.len()
        }),
{
    let ids = shown_ids(echo, prompt, generated);
    let scores = shown_scores(echo, prompt, prompt_lps, generated, gen_lps);
    let i = ids.len() - back;
    assert(ids[i] == generated[generated.len() - back]);
    assert(out.token_logprobs@[i] == (match scores[i] {
        Some(l) => Some(l.logprob),
        None => None,
    }));
    assert(is_top_of(f, out.top_logprobs@[i], scores[i]));
    assert(out.tokens@[i]@ == decoded(f, ids[i]));
}

/// An echoed prompt is shown first, its first token without a score and every
/// other with the one that was taken for it.
pub proof fn echoed_tokens_have_their_scores<F: Fn(u32) -> String>(
    f: F,
    prompt: Seq<u32>,
    prompt_lps: Seq<TokenLogprobs>,
    generated: Seq<u32>,
    gen_lps: Seq<TokenLogprobs>,
    out: CompletionLogprobs,
    i: int,
)
    requires
        is_logprobs(
            f,
            shown_ids(true, prompt, generated),
            shown_scores(true, prompt, prompt_lps, generated, gen_lps),
            out,
        ),
        0 <= i < prompt.len(),
    ensures
        out.tokens@[i]@ == decoded(f, prompt[i]),
        out.token_logprobs@[i] == if 1 <= i <= prompt_lps.len() {
            Some(prompt_lps[i - 1].logprob)
        } else {
            None
        },
{
    let ids = shown_ids(true, prompt, generated);
    let scores = shown_scores(true, prompt, prompt_lps, generated, gen_lps);
    assert(ids[i] == prompt[i]);
    assert(out.tokens@[i]@ == decoded(f, ids[i]));
    assert(out.token_logprobs@[i] == (match scores[i] {
        Some(l) => Some(l.logprob),
        None => None,
    }));
}

/// Alternative `i` of `top` is the last one with its text.
pub open spec fn is_last_of_its_text<F: Fn(u32) -> String>(
    f: F,
    top: Seq<(u32, Float32)>,
    i: int,
) -> bool {
    forall|j: int| i < j < top.len() ==> decoded(f, (#[trigger] top[j]).0) != decoded(f, top[i].0)
}

/// Every alternative is listed by its text, each text once: a text that several
/// have stands with the score of the last of them, and nothing else is listed.
pub proof fn alternatives_are_listed_by_text<F: Fn(u32) -> String>(
    f: F,
    top: Seq<(u32, Float32)>,
    n: int,
)
    requires
        0 <= n <= top.len(),
    ensures
        forall|a: int, b: int|
            0 <= a < b < by_text(f, top, n).len() ==> (#[trigger] by_text(f, top, n)[a]).0 != (
            #[trigger] by_text(f, top, n)[b]).0,
        forall|i: int|
            0 <= i < n && #[trigger] is_last_of_its_text(f, top.take(n), i) ==> by_text(
                f,
                top,
                n,
            ).contains((decoded(f, top[i].0), top[i].1)),
        forall|k: int|
            0 <= k < by_text(f, top, n).len() ==> is_alternative(
                f,
                top.take(n),
                #[trigger] by_text(f, top, n)[k],
            ),
    decreases n,
{
    if n > 0 {
        let most = top.take(n - 1);
        let all = top.take(n);
        alternatives_are_listed_by_text(f, top, n - 1);
        let before = by_text(f, top, n - 1);
        let after = by_text(f, top, n);
        let t = decoded(f, top[n - 1].0);
        let p = top[n - 1].1;
        lemma_text_at(before, t, 0);
        let at = text_at(before, t, 0);
        assert(after[at] == (t, p));
        assert forall|k: int| 0 <= k < after.len() implies is_alternative(
            f,
            all,
            #[trigger] after[k],
        ) by {
            if k == at {
                assert(all[n - 1] == top[n - 1]);
            } else {
                assert(after[k] == before[k]);
                assert(is_alternative(f, most, before[k]));
                let i = choose|i: int|
                    0 <= i < most.len() && before[k] == (decoded(f, (#[trigger] most[i]).0), most[i].1);
                assert(all[i] == most[i]);
            }
        }
        assert forall|i: int| 0 <= i < n && #[trigger] is_last_of_its_text(f, all, i) implies
            after.contains((decoded(f, top[i].0), top[i].1)) by {
            if i < n - 1 {
                assert(all[n - 1].0 == top[n - 1].0);
                assert(all[i] == top[i]);
                assert(decoded(f, top[n - 1].0) != decoded(f, top[i].0));
                assert forall|j: int| i < j < most.len() implies decoded(f, (#[trigger] most[j]).0)
                    != decoded(f, most[i].0) by {
                    assert(all[j] == most[j]);
                }
                assert(is_last_of_its_text(f, most, i));
                let want = (decoded(f, top[i].0), top[i].1);
                let k = choose|k: int| 0 <= k < before.len() && before[k] == want;
                assert(k != at);
                assert(after[k] == want);
            } else {
                assert(after[at] == (t, p));
            }
        }
    }
}

/// The pair is the text and the score of some alternative.
pub open spec fn is_alternative<F: Fn(u32) -> String>(
    f: F,
    top: Seq<(u32, Float32)>,
    pair: (Seq<char>, Float32),
) -> bool {
    exists|i: int| 0 <= i < top.len() && pair == (decoded(f, (#[trigger] top[i]).0), top[i].1)
}

proof fn lemma_text_at(pairs: Seq<(Seq<char>, Float32)>, t: Seq<char>, i: int)
    requires
        0 <= i <= pairs.len(),
    ensures
        i <= text_at(pairs, t, i) <= pairs.len(),
        text_at(pairs, t, i) < pairs.len() ==> pairs[text_at(pairs, t, i)].0 == t,
        forall|k: int| i <= k < text_at(pairs, t, i) ==> (#[trigger] pairs[k]).0 != t,
    decreases pairs.len() - i,
{
    if i < pairs.len() && pairs[i].0 != t {
        lemma_text_at(pairs, t, i + 1);
    }
}

} // verus!
