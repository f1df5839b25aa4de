//! Citation extraction from assistant content, provider-neutral.
//!
//! [`extract_url_citations`] finds bare and markdown-link URLs outside code
//! spans. [`extract`] recognises three structured patterns: markdown
//! footnotes, numeric bracket references and `Sources:` sections.
//! [`merged_citations`] runs both and cites each URL once, where it comes first.
//!
//! Positions inside the module count characters; the offsets of a
//! [`Citation`] count bytes of the UTF-8 text.

use crate::citation_structured;
use crate::citation_structured::{
    footnote_citations, numeric_ref_citations, sources_block_citations, RefKind,
};
use crate::text;
use crate::text::{
    byte_offsets, chars_of, find_char, find_text, is_white_space, push_repeated, string_of,
    text_at, width_of,
};
use vstd::prelude::*;
use vstd::utf8::*;

verus! {

/// A URL citation found in assistant text, with byte offsets into the
/// content it was extracted from.
#[derive(Debug, Clone, PartialEq, Eq)]
pub struct Citation {
    pub start_index: usize,
    pub end_index: usize,
    pub url: String,
    pub title: String,
}

/// What a [`Citation`] says.
pub struct CitationView {
    pub start: nat,
    pub end: nat,
    pub url: Seq<char>,
    pub title: Seq<char>,
}

impl View for Citation {
    type V = CitationView;

    open spec fn view(&self) -> CitationView {
        CitationView {
            start: self.start_index as nat,
            end: self.end_index as nat,
            url: self.url@,
            title: self.title@,
        }
    }
}

/// What each citation of a list says.
pub open spec fn citations(s: Seq<Citation>) -> Seq<CitationView> {
    s.map_values(|c: Citation| c@)
}

pub proof fn lemma_citations_push(s: Seq<Citation>, c: Citation)
    ensures
        citations(s.push(c)) == citations(s).push(c@),
{
    assert(citations(s.push(c)) =~= citations(s).push(c@));
}

// ── document order ──

/// Puts `c` into `s` behind every citation that starts no later.
pub open spec fn insert_by_start(s: Seq<CitationView>, c: CitationView) -> Seq<CitationView>
    decreases s.len(),
{
    if s.len() == 0 || s.last().start <= c.start {
        s.push(c)
    } else {
        insert_by_start(s.drop_last(), c).push(s.last())
    }
}

/// `s` in document order: by start, citations with the same start in the
/// order they had.
pub open spec fn document_order(s: Seq<CitationView>) -> Seq<CitationView>
    decreases s.len(),
{
    if s.len() == 0 {
        s
    } else {
        insert_by_start(document_order(s.drop_last()), s.last())
    }
}

/// The citations start no earlier than the ones before them.
pub open spec fn in_document_order(s: Seq<CitationView>) -> bool {
    forall|i: int, j: int| 0 <= i <= j < s.len() ==> s[i].start <= s[j].start
}

proof fn lemma_insert_by_start(s: Seq<CitationView>, c: CitationView)
    requires
        in_document_order(s),
    ensures
        in_document_order(insert_by_start(s, c)),
        insert_by_start(s, c).to_multiset() == s.to_multiset().insert(c),
        s.len() > 0 && s.last().start > c.start ==> insert_by_start(s, c).last() == s.last(),
        s.len() == 0 || s.last().start <= c.start ==> insert_by_start(s, c).last() == c,
        insert_by_start(s, c).len() == s.len() + 1,
        forall|k: int|
            0 <= k < s.len() + 1 ==> #[trigger] insert_by_start(s, c)[k] == c || s.contains(
                insert_by_start(s, c)[k],
            ),
    decreases s.len(),
{
    broadcast use vstd::seq_lib::group_to_multiset_ensures;

    if s.len() == 0 || s.last().start <= c.start {
        assert forall|k: int| 0 <= k < s.len() + 1 implies #[trigger] insert_by_start(s, c)[k] == c
            || s.contains(insert_by_start(s, c)[k]) by {
            if k < s.len() {
                assert(insert_by_start(s, c)[k] == s[k]);
            }
        }
    } else {
        let p = s.drop_last();
        let r = insert_by_start(p, c);
        lemma_insert_by_start(p, c);
        assert(s =~= p.push(s.last()));
        assert(s.to_multiset() =~= p.to_multiset().insert(s.last()));
        assert(insert_by_start(s, c).to_multiset() =~= r.to_multiset().insert(s.last()));
        assert(insert_by_start(s, c).to_multiset() =~= s.to_multiset().insert(c));
        assert forall|k: int| 0 <= k < s.len() + 1 implies #[trigger] insert_by_start(s, c)[k] == c
            || s.contains(insert_by_start(s, c)[k]) by {
            if k < s.len() {
                assert(insert_by_start(s, c)[k] == r[k]);
                if r[k] != c {
                    let q = choose|q: int| 0 <= q < p.len() && p[q] == r[k];
                    assert(s[q] == r[k]);
                }
            } else {
                assert(s[s.len() - 1] == s.last());
            }
        }
        assert forall|i: int, j: int|
            0 <= i <= j < insert_by_start(s, c).len() implies insert_by_start(s, c)[i].start
            <= insert_by_start(s, c)[j].start by {
            if i < s.len() && j == s.len() {
                assert(insert_by_start(s, c)[i] == r[i]);
                if r[i] != c {
                    let q = choose|q: int| 0 <= q < p.len() && p[q] == r[i];
                    assert(s[q].start <= s[s.len() - 1].start);
                }
            } else if j < s.len() {
                assert(insert_by_start(s, c)[i] == r[i]);
                assert(insert_by_start(s, c)[j] == r[j]);
            }
        }
    }
}

/// Putting citations in document order sorts them by start and neither adds,
/// drops nor changes one.
pub proof fn document_order_sorts(s: Seq<CitationView>)
    ensures
        in_document_order(document_order(s)),
        document_order(s).to_multiset() == s.to_multiset(),
        document_order(s).len() == s.len(),
    decreases s.len(),
{
    broadcast use vstd::seq_lib::group_to_multiset_ensures;

    if s.len() > 0 {
        document_order_sorts(s.drop_last());
        lemma_insert_by_start(document_order(s.drop_last()), s.last());
        assert(s =~= s.drop_last().push(s.last()));
    }
}

/// Puts a list of citations in document order.
fn sort_by_start(list: Vec<Citation>) -> (out: Vec<Citation>)
    ensures
        citations(out@) == document_order(citations(list@)),
{
    let mut rest: Vec<Citation> = list;
    let mut queue: Vec<Citation> = Vec::new();
    // Take the items front to back: reverse first, then pop.
    while rest.len() > 0
        invariant
            citations(list@) == citations(rest@) + citations(queue@).reverse(),
        decreases rest@.len(),
    {
        let ghost before = rest@;
        let ghost queued = queue@;
        if let Some(c) = rest.pop() {
            queue.push(c);
            proof {
                assert(before =~= rest@.push(c));
                lemma_citations_push(rest@, c);
                lemma_citations_push(queued, c);
                assert(citations(list@) =~= citations(rest@) + citations(queue@).reverse());
            }
        }
    }
    let mut out: Vec<Citation> = Vec::new();
    let ghost mut done: Seq<CitationView> = Seq::empty();
    while queue.len() > 0
        invariant
            citations(list@) == done + citations(queue@).reverse(),
            citations(out@) == document_order(done),
        decreases queue@.len(),
    {
        let ghost queued = queue@;
        if let Some(c) = queue.pop() {
            proof {
                assert(queued =~= queue@.push(c));
                lemma_citations_push(queue@, c);
                assert(done.push(c@).drop_last() =~= done);
                assert(citations(list@) =~= done.push(c@) + citations(queue@).reverse());
                done = done.push(c@);
            }
            insert_sorted(&mut out, c);
        }
    }
    assert(citations(list@) =~= done);
    out
}

/// Inserts `c` behind every citation of `out` that starts no later.
fn insert_sorted(out: &mut Vec<Citation>, c: Citation)
    ensures
        citations(final(out)@) == insert_by_start(citations(old(out)@), c@),
{
    let mut pos: usize = out.len();
    let ghost all = citations(out@);
    assert(all.take(pos as int) =~= all);
    assert(insert_by_start(all, c@) =~= insert_by_start(all, c@) + all.skip(pos as int));
    while pos > 0 && out[pos - 1].start_index > c.start_index
        invariant
            pos <= out@.len(),
            all == citations(out@),
            insert_by_start(all, c@) == insert_by_start(all.take(pos as int), c@) + all.skip(
                pos as int,
            ),
        decreases pos,
    {
        proof {
            assert(all.take(pos as int).drop_last() =~= all.take(pos - 1));
            assert(all.take(pos as int).last() == all[pos - 1]);
            assert(insert_by_start(all, c@) =~= insert_by_start(all.take(pos - 1), c@) + all.skip(
                pos - 1,
            ));
        }
        pos = pos - 1;
    }
    proof {
        if pos > 0 {
            assert(all.take(pos as int).last() == all[pos - 1]);
        }
        assert(insert_by_start(all.take(pos as int), c@) == all.take(pos as int).push(c@));
        assert(citations(out@.insert(pos as int, c)) =~= all.take(pos as int).push(c@) + all.skip(
            pos as int,
        ));
    }
    out.insert(pos, c);
}

// ── code spans ──

/// The end of the code span that opens with the backtick at `i`: behind the
/// next triple backtick for a fence, else behind the next backtick; the end
/// of the text when it never closes.
pub open spec fn code_span_end(s: Seq<char>, i: int) -> int {
    if text::matches_at(s, "```"@, i) {
        let close = text::next_text(s, "```"@, i + 3);
        if close < s.len() {
            close + 3
        } else {
            s.len() as int
        }
    } else {
        let close = text::next_char(s, '`', i + 1);
        if close < s.len() {
            close + 1
        } else {
            s.len() as int
        }
    }
}

/// `s` with every character but newlines replaced by a space.
pub open spec fn blanked(s: Seq<char>) -> Seq<char> {
    Seq::new(s.len(), |k: int| if s[k] == '\n' { '\n' } else { ' ' })
}

/// `s` from position `i` on, with code spans blanked.
pub open spec fn masked_from(s: Seq<char>, i: int) -> Seq<char>
    decreases s.len() - i,
{
    if i < 0 || i >= s.len() {
        Seq::empty()
    } else if s[i] == '`' {
        let end = code_span_end(s, i);
        if !(i < end <= s.len()) {
            Seq::empty()
        } else {
            blanked(s.subrange(i, end)) + masked_from(s, end)
        }
    } else {
        seq![s[i]] + masked_from(s, i + 1)
    }
}

/// `s` with code spans blanked.
pub open spec fn masked(s: Seq<char>) -> Seq<char> {
    masked_from(s, 0)
}

proof fn lemma_code_span_end(s: Seq<char>, i: int)
    requires
        0 <= i < s.len(),
        s[i] == '`',
    ensures
        i < code_span_end(s, i) <= s.len(),
{
    reveal_strlit("```");
    if text::matches_at(s, "```"@, i) {
        text::lemma_next_text(s, "```"@, i + 3);
    } else {
        text::lemma_next_char(s, '`', i + 1);
    }
}

proof fn lemma_masked_from(s: Seq<char>, i: int)
    requires
        0 <= i <= s.len(),
    ensures
        masked_from(s, i).len() == s.len() - i,
        forall|k: int|
            0 <= k < s.len() - i ==> #[trigger] masked_from(s, i)[k] == s[i + k] || masked_from(
                s,
                i,
            )[k] == ' ',
        forall|k: int|
            0 <= k < s.len() - i ==> (#[trigger] masked_from(s, i)[k] == '\n') == (s[i + k]
                == '\n'),
        forall|k: int| 0 <= k < s.len() - i ==> #[trigger] masked_from(s, i)[k] != '`',
    decreases s.len() - i,
{
    if i < s.len() {
        if s[i] == '`' {
            lemma_code_span_end(s, i);
            lemma_masked_from(s, code_span_end(s, i));
        } else {
            lemma_masked_from(s, i + 1);
        }
    }
}

proof fn lemma_masked_without_code(s: Seq<char>, i: int)
    requires
        0 <= i <= s.len(),
        !s.contains('`'),
    ensures
        masked_from(s, i) == s.subrange(i, s.len() as int),
    decreases s.len() - i,
{
    if i < s.len() {
        assert(s[i] != '`');
        lemma_masked_without_code(s, i + 1);
        assert(seq![s[i]] + s.subrange(i + 1, s.len() as int) =~= s.subrange(i, s.len() as int));
    } else {
        assert(masked_from(s, i) =~= s.subrange(i, s.len() as int));
    }
}

/// Masking keeps every position and only ever replaces a character by a
/// space. It keeps every line end, and makes none.
pub proof fn masking_keeps_positions(s: Seq<char>)
    ensures
        masked(s).len() == s.len(),
        forall|k: int| 0 <= k < s.len() ==> #[trigger] masked(s)[k] == s[k] || masked(s)[k] == ' ',
        forall|k: int|
            0 <= k < s.len() ==> (#[trigger] masked(s)[k] == '\n') == (s[k] == '\n'),
{
    lemma_masked_from(s, 0);
}

/// Masking leaves no backtick, changes nothing in a text without one, and so
/// changes nothing the second time.
pub proof fn masking_leaves_no_code(s: Seq<char>)
    ensures
        !masked(s).contains('`'),
        !s.contains('`') ==> masked(s) == s,
        masked(masked(s)) == masked(s),
{
    lemma_masked_from(s, 0);
    let m = masked(s);
    assert(!m.contains('`')) by {
        if m.contains('`') {
            let k = choose|k: int| 0 <= k < m.len() && m[k] == '`';
            assert(masked_from(s, 0)[k] != '`');
        }
    }
    lemma_masked_without_code(m, 0);
    assert(m.subrange(0, m.len() as int) =~= m);
    if !s.contains('`') {
        lemma_masked_without_code(s, 0);
        assert(s.subrange(0, s.len() as int) =~= s);
    }
}

/// Appends `s[from..to]` with everything but newlines replaced by spaces.
fn blank(out: &mut Vec<char>, s: &Vec<char>, from: usize, to: usize)
    requires
        from <= to <= s@.len(),
    ensures
        final(out)@ == old(out)@ + blanked(s@.subrange(from as int, to as int)),
{
    let mut k: usize = from;
    let ghost start = out@;
    while k < to
        invariant
            from <= k <= to <= s@.len(),
            out@ == start + blanked(s@.subrange(from as int, k as int)),
        decreases to - k,
    {
        if s[k] == '\n' {
            out.push('\n');
        } else {
            out.push(' ');
        }
        k = k + 1;
        assert(out@ =~= start + blanked(s@.subrange(from as int, k as int)));
    }
}

/// A copy of `s` where the insides of fenced and inline code spans are
/// spaces, position by position. Newlines stay.
fn mask_chars(s: &Vec<char>) -> (out: Vec<char>)
    ensures
        out@ == masked(s@),
        out@.len() == s@.len(),
        forall|k: int| 0 <= k < s@.len() ==> #[trigger] out@[k] == s@[k] || out@[k] == ' ',
{
    let mut out: Vec<char> = Vec::new();
    let mut i: usize = 0;
    while i < s.len()
        invariant
            i <= s@.len(),
            masked(s@) == out@ + masked_from(s@, i as int),
        decreases s@.len() - i,
    {
        let ghost before = out@;
        if s[i] == '`' {
            proof {
                lemma_code_span_end(s@, i as int);
                reveal_strlit("```");
            }
            let end: usize = if text_at(s, "```", i) {
                let close: usize = find_text(s, "```", i + 3);
                if close < s.len() {
                    close + 3
                } else {
                    s.len()
                }
            } else {
                let close: usize = find_char(s, '`', i + 1);
                if close < s.len() {
                    close + 1
                } else {
                    s.len()
                }
            };
            blank(&mut out, s, i, end);
            assert(masked(s@) =~= out@ + masked_from(s@, end as int));
            i = end;
        } else {
            out.push(s[i]);
            assert(before + masked_from(s@, i as int) =~= out@ + masked_from(s@, i + 1));
            i = i + 1;
        }
    }
    proof {
        assert(masked_from(s@, i as int) =~= Seq::<char>::empty());
        assert(out@ =~= masked(s@));
        lemma_masked_from(s@, 0);
    }
    out
}

/// The first `n` characters of `s` as its masked copy `m` shows them, a masked
/// one as so many spaces as it has bytes.
pub open spec fn spread(s: Seq<char>, m: Seq<char>, n: int) -> Seq<char>
    decreases n,
{
    if n <= 0 {
        Seq::empty()
    } else {
        spread(s, m, n - 1) + spread_one(s[n - 1], m[n - 1])
    }
}

/// A character, or so many spaces as it has bytes where its mask differs.
pub open spec fn spread_one(c: char, mask: char) -> Seq<char> {
    if c == mask {
        seq![c]
    } else {
        text::repeated(' ', text::utf8_width(c) as int)
    }
}

/// `s` with code spans blanked, byte by byte.
pub open spec fn masked_text(s: Seq<char>) -> Seq<char> {
    spread(s, masked(s), s.len() as int)
}

/// A copy of `content` where the insides of fenced and inline code spans are
/// spaces and every byte keeps its offset. Newlines stay.
pub fn mask_code_spans(content: &str) -> (out: String)
    ensures
        out@ == masked_text(content@),
{
    let s: Vec<char> = chars_of(content);
    let m: Vec<char> = mask_chars(&s);
    let mut out: String = String::new();
    let mut i: usize = 0;
    while i < s.len()
        invariant
            i <= s@.len(),
            m@.len() == s@.len(),
            out@ == spread(s@, m@, i as int),
        decreases s@.len() - i,
    {
        let ghost before = out@;
        if s[i] == m[i] {
            out.push(s[i]);
            assert(out@ =~= before + seq![s@[i as int]]);
        } else {
            push_repeated(&mut out, ' ', width_of(s[i]));
        }
        i = i + 1;
    }
    out
}

// ── markdown links ──

/// `s` is an http or https URL with something behind the scheme: more than
/// the eight bytes of `https://`.
pub open spec fn is_full_url(s: Seq<char>) -> bool {
    is_url_at(s, 0) && text::byte_len(s) > 8
}

/// `http://` or `https://` stands in `s` at `i`.
pub open spec fn is_url_at(s: Seq<char>, i: int) -> bool {
    text::matches_at(s, "http://"@, i) || text::matches_at(s, "https://"@, i)
}

/// Position of the `)` that closes a parenthesis opened before `i`, with
/// `depth` further ones open; the length when it is never closed.
pub open spec fn paren_close(s: Seq<char>, i: int, depth: int) -> int
    decreases s.len() - i,
{
    if i < 0 || i >= s.len() {
        s.len() as int
    } else if s[i] == '(' {
        paren_close(s, i + 1, depth + 1)
    } else if s[i] == ')' {
        if depth == 0 {
            i
        } else {
            paren_close(s, i + 1, depth - 1)
        }
    } else {
        paren_close(s, i + 1, depth)
    }
}

pub(crate) proof fn lemma_paren_close(s: Seq<char>, i: int, depth: int)
    requires
        0 <= i <= s.len(),
    ensures
        i <= paren_close(s, i, depth) <= s.len(),
    decreases s.len() - i,
{
    if i < s.len() {
        if s[i] == '(' {
            lemma_paren_close(s, i + 1, depth + 1);
        } else if s[i] == ')' {
            if depth != 0 {
                lemma_paren_close(s, i + 1, depth - 1);
            }
        } else {
            lemma_paren_close(s, i + 1, depth);
        }
    }
}

/// Position of the `)` that balances the `(` before `i`, or the length.
/// Pairs of parentheses inside a URL are stepped over.
fn balanced_paren_close(s: &Vec<char>, i: usize) -> (r: usize)
    requires
        i <= s@.len(),
    ensures
        r == paren_close(s@, i as int, 0),
        i <= r <= s@.len(),
{
    let mut depth: usize = 0;
    let mut k: usize = i;
    while k < s.len()
        invariant
            i <= k <= s@.len(),
            depth <= k,
            paren_close(s@, i as int, 0) == paren_close(s@, k as int, depth as int),
        decreases s@.len() - k,
    {
        if s[k] == '(' {
            depth = depth + 1;
        } else if s[k] == ')' {
            if depth == 0 {
                return k;
            }
            depth = depth - 1;
        }
        k = k + 1;
    }
    k
}

/// The citation of the markdown link with target `s[from..to]` and title
/// `title`, when the target is a URL.
pub open spec fn link_citation(
    s: Seq<char>,
    title: Seq<char>,
    from: int,
    to: int,
) -> Seq<CitationView> {
    let target = text::trim(s.subrange(from, to));
    if is_full_url(target) {
        seq![
            CitationView {
                start: text::byte_offset(s, from),
                end: text::byte_offset(s, to),
                url: target,
                title,
            },
        ]
    } else {
        Seq::empty()
    }
}

/// The markdown links `[title](url)` of `s` from `scan` on, found in its
/// masked copy `m`.
pub open spec fn links_from(m: Seq<char>, s: Seq<char>, scan: int) -> Seq<CitationView>
    decreases s.len() - scan,
{
    let lb = text::next_char(m, '[', scan);
    if scan < 0 || m.len() != s.len() || lb >= m.len() || lb < scan {
        Seq::empty()
    } else {
        let rb = text::next_char(m, ']', lb + 1);
        if rb >= m.len() || rb < lb + 1 {
            links_from(m, s, lb + 1)
        } else if !(rb + 1 < m.len() && m[rb + 1] == '(') {
            links_from(m, s, rb + 1)
        } else {
            let close = paren_close(m, rb + 2, 0);
            if close >= m.len() || close < rb + 2 {
                links_from(m, s, rb + 2)
            } else {
                link_citation(s, s.subrange(lb + 1, rb), rb + 2, close) + links_from(
                    m,
                    s,
                    close + 1,
                )
            }
        }
    }
}

/// The markdown links of `s`, found in its masked copy `m`. `offs` holds the
/// byte offsets of `s`.
fn markdown_links(m: &Vec<char>, s: &Vec<char>, offs: &Vec<usize>) -> (out: Vec<Citation>)
    requires
        m@.len() == s@.len(),
        are_offsets(offs@, s@),
    ensures
        citations(out@) == links_from(m@, s@, 0),
{
    let mut out: Vec<Citation> = Vec::new();
    let mut scan: usize = 0;
    assert(citations(out@) =~= Seq::<CitationView>::empty());
    while scan < m.len()
        invariant
            scan <= m@.len(),
            m@.len() == s@.len(),
            are_offsets(offs@, s@),
            links_from(m@, s@, 0) =~= citations(out@) + links_from(m@, s@, scan as int),
        decreases m@.len() - scan,
    {
        let lb: usize = find_char(m, '[', scan);
        if lb >= m.len() {
            scan = m.len();
            continue ;
        }
        let rb: usize = find_char(m, ']', lb + 1);
        if rb >= m.len() {
            scan = lb + 1;
            continue ;
        }
        if rb + 1 >= m.len() || m[rb + 1] != '(' {
            scan = rb + 1;
            continue ;
        }
        let close: usize = balanced_paren_close(m, rb + 2);
        if close >= m.len() {
            scan = rb + 2;
            continue ;
        }
        let (a, b) = text::trim_range(s, rb + 2, close);
        let ghost before = out@;
        proof {
            text::lemma_byte_offset_split(s@, a as int, b as int);
        }
        let is_url: bool = text::text_within(s, "http://", a, b) || text::text_within(
            s,
            "https://",
            a,
            b,
        );
        if is_url && offs[b] - offs[a] > 8 {
            let c = Citation {
                start_index: offs[rb + 2],
                end_index: offs[close],
                url: string_of(s, a, b),
                title: string_of(s, lb + 1, rb),
            };
            out.push(c);
            proof {
                lemma_citations_push(before, c);
                assert(links_from(m@, s@, scan as int) =~= seq![c@] + links_from(m@, s@, close + 1));
            }
        } else {
            assert(links_from(m@, s@, scan as int) =~= links_from(m@, s@, close + 1));
        }
        scan = close + 1;
    }
    assert(links_from(m@, s@, scan as int) =~= Seq::<CitationView>::empty());
    out
}

/// `offs` holds the byte offset of every position of `s`.
pub open spec fn are_offsets(offs: Seq<usize>, s: Seq<char>) -> bool {
    &&& offs.len() == s.len() + 1
    &&& forall|i: int| 0 <= i <= s.len() ==> #[trigger] offs[i] == text::byte_offset(s, i)
}

// ── bare URLs ──

/// A bare URL ends before such a character.
pub open spec fn ends_bare_url(c: char) -> bool {
    text::is_space(c) || c == ']' || c == '}' || c == '"' || c == '<' || c == '>' || c == '`' || c
        == '\\'
}

/// First position at or after `i` that ends a bare URL, or the length.
pub open spec fn bare_url_end(s: Seq<char>, i: int) -> int
    decreases s.len() - i,
{
    if i < 0 || i >= s.len() {
        s.len() as int
    } else if ends_bare_url(s[i]) {
        i
    } else {
        bare_url_end(s, i + 1)
    }
}

/// The last character of `s` belongs to the sentence and not to the URL:
/// punctuation, an emphasis marker, or a closing parenthesis without its
/// opening one.
pub open spec fn has_sentence_tail(s: Seq<char>) -> bool {
    &&& s.len() > 0
    &&& {
        let c = s.last();
        ||| c == '.' || c == ',' || c == ';' || c == ':' || c == '!' || c == '?' || c == '*' || c
            == '_'
        ||| c == ')' && text::count_char(s, ')') > text::count_char(s, '(')
    }
}

/// `s` without its sentence tail.
pub open spec fn without_sentence_tail(s: Seq<char>) -> Seq<char>
    decreases s.len(),
{
    if has_sentence_tail(s) {
        without_sentence_tail(s.drop_last())
    } else {
        s
    }
}

/// A citation of `links` shares a byte with `start..end`.
pub open spec fn overlaps_any(links: Seq<CitationView>, start: nat, end: nat) -> bool {
    exists|k: int| 0 <= k < links.len() && start < (#[trigger] links[k]).end && end > links[k].start
}

/// The citation of the bare URL that starts at `h` in `s`, unless it is only
/// a scheme or a link covers it.
pub open spec fn bare_citation(
    s: Seq<char>,
    links: Seq<CitationView>,
    h: int,
) -> Seq<CitationView> {
    let raw = without_sentence_tail(s.subrange(h, bare_url_end(s, h)));
    let start = text::byte_offset(s, h);
    let end = start + text::byte_len(raw);
    if text::byte_len(raw) > 8 && !overlaps_any(links, start, end) {
        seq![CitationView { start, end, url: raw, title: raw }]
    } else {
        Seq::empty()
    }
}

/// The bare URLs of `s` from `i` on, outside code (`m` is the masked copy)
/// and not covered by `links`.
pub open spec fn bare_from(
    m: Seq<char>,
    s: Seq<char>,
    links: Seq<CitationView>,
    i: int,
) -> Seq<CitationView>
    decreases
            (if i < s.len() {
                s.len() - i
            } else {
                0
            }),
{
    let h = text::next_text(m, "http"@, i);
    if i < 0 || m.len() != s.len() || h >= m.len() || h < i {
        Seq::empty()
    } else if !is_url_at(m, h) {
        bare_from(m, s, links, h + 4)
    } else {
        let end = bare_url_end(s, h);
        let next = if end > h {
            end
        } else {
            h + 1
        };
        bare_citation(s, links, h) + bare_from(m, s, links, next)
    }
}

/// The URL citations of `s`: links and uncovered bare URLs outside code, in
/// document order.
pub open spec fn url_citations(s: Seq<char>) -> Seq<CitationView> {
    let m = masked(s);
    let links = links_from(m, s, 0);
    document_order(links + bare_from(m, s, links, 0))
}

/// First position at or after `i` that ends a bare URL, or the length.
fn find_bare_url_end(s: &Vec<char>, i: usize) -> (r: usize)
    requires
        i <= s@.len(),
    ensures
        r == bare_url_end(s@, i as int),
        i <= r <= s@.len(),
{
    let mut k: usize = i;
    while k < s.len()
        invariant
            i <= k <= s@.len(),
            bare_url_end(s@, i as int) == bare_url_end(s@, k as int),
        decreases s@.len() - k,
    {
        let c: char = s[k];
        if is_white_space(c) || c == ']' || c == '}' || c == '"' || c == '<' || c == '>' || c == '`'
            || c == '\\' {
            return k;
        }
        k = k + 1;
    }
    k
}

/// End of `s[from..to]` without its sentence tail.
fn strip_sentence_tail(s: &Vec<char>, from: usize, to: usize) -> (r: usize)
    requires
        from <= to <= s@.len(),
    ensures
        from <= r <= to,
        s@.subrange(from as int, r as int) == without_sentence_tail(
            s@.subrange(from as int, to as int),
        ),
{
    let mut end: usize = to;
    while end > from
        invariant
            from <= end <= to <= s@.len(),
            without_sentence_tail(s@.subrange(from as int, to as int)) == without_sentence_tail(
                s@.subrange(from as int, end as int),
            ),
        decreases end - from,
    {
        let c: char = s[end - 1];
        let strip: bool = if c == ')' {
            text::count_within(s, ')', from, end) > text::count_within(s, '(', from, end)
        } else {
            c == '.' || c == ',' || c == ';' || c == ':' || c == '!' || c == '?' || c == '*' || c
                == '_'
        };
        assert(strip == has_sentence_tail(s@.subrange(from as int, end as int)));
        if !strip {
            return end;
        }
        assert(s@.subrange(from as int, end as int).drop_last() =~= s@.subrange(
            from as int,
            end - 1,
        ));
        end = end - 1;
    }
    assert(s@.subrange(from as int, end as int) =~= Seq::<char>::empty());
    end
}

/// Whether a citation of `links` shares a byte with `start..end`.
fn covered(links: &Vec<Citation>, n: usize, start: usize, end: usize) -> (r: bool)
    requires
        n <= links@.len(),
    ensures
        r == overlaps_any(citations(links@.take(n as int)), start as nat, end as nat),
{
    let ghost all = citations(links@.take(n as int));
    let mut k: usize = 0;
    while k < n
        invariant
            k <= n <= links@.len(),
            all == citations(links@.take(n as int)),
            forall|j: int|
                0 <= j < k ==> !(start < (#[trigger] all[j]).end && end > all[j].start),
        decreases n - k,
    {
        assert(all[k as int] == links@[k as int]@);
        if start < links[k].end_index && end > links[k].start_index {
            return true;
        }
        k = k + 1;
    }
    false
}

/// Finds the http and https URLs of `content` outside code spans: markdown
/// links with their title, and bare URLs with themselves as title.
pub fn extract_url_citations(content: &str) -> (out: Vec<Citation>)
    ensures
        citations(out@) == url_citations(content@),
{
    let s: Vec<char> = chars_of(content);
    let offs: Vec<usize> = byte_offsets(&s);
    let m: Vec<char> = mask_chars(&s);
    let mut out: Vec<Citation> = markdown_links(&m, &s, &offs);
    let n: usize = out.len();
    let ghost links = citations(out@);
    assert(out@.take(n as int) =~= out@);
    let mut i: usize = 0;
    assert(links + bare_from(m@, s@, links, 0) =~= citations(out@) + bare_from(m@, s@, links, 0));
    while i < m.len()
        invariant
            i <= m@.len(),
            m@.len() == s@.len(),
            m@ == masked(s@),
            forall|k: int| 0 <= k < s@.len() ==> #[trigger] m@[k] == s@[k] || m@[k] == ' ',
            are_offsets(offs@, s@),
            n <= out@.len(),
            citations(out@.take(n as int)) == links,
            links + bare_from(m@, s@, links, 0) == citations(out@) + bare_from(
                m@,
                s@,
                links,
                i as int,
            ),
        decreases m@.len() - i,
    {
        let h: usize = find_text(&m, "http", i);
        if h >= m.len() {
            assert(bare_from(m@, s@, links, m@.len() as int) =~= bare_from(
                m@,
                s@,
                links,
                i as int,
            ));
            i = m.len();
            continue ;
        }
        proof {
            reveal_strlit("http");
        }
        if !(text_at(&m, "http://", h) || text_at(&m, "https://", h)) {
            i = h + 4;
            continue ;
        }
        let end: usize = find_bare_url_end(&s, h);
        let raw_end: usize = strip_sentence_tail(&s, h, end);
        proof {
            text::lemma_byte_offset_split(s@, h as int, raw_end as int);
        }
        let ghost before = out@;
        if offs[raw_end] - offs[h] > 8 && !covered(&out, n, offs[h], offs[raw_end]) {
            let c = Citation {
                start_index: offs[h],
                end_index: offs[raw_end],
                url: string_of(&s, h, raw_end),
                title: string_of(&s, h, raw_end),
            };
            out.push(c);
            proof {
                lemma_citations_push(before, c);
                assert(out@.take(n as int) =~= before.take(n as int));
                assert(bare_citation(s@, links, h as int) =~= seq![c@]);
            }
        } else {
            assert(bare_citation(s@, links, h as int) =~= Seq::<CitationView>::empty());
        }
        let next: usize = if end > h {
            end
        } else {
            h + 1
        };
        assert(links + bare_from(m@, s@, links, 0) =~= citations(out@) + bare_from(
            m@,
            s@,
            links,
            next as int,
        ));
        i = next;
    }
    assert(bare_from(m@, s@, links, i as int) =~= Seq::<CitationView>::empty());
    assert(citations(out@) =~= links + bare_from(m@, s@, links, 0));
    sort_by_start(out)
}

// ── merging ──

/// A citation of `s` has the URL `url`.
pub open spec fn has_url(s: Seq<CitationView>, url: Seq<char>) -> bool {
    exists|k: int| 0 <= k < s.len() && (#[trigger] s[k]).url == url
}

/// The first citation of each URL of `s`.
pub open spec fn first_per_url(s: Seq<CitationView>) -> Seq<CitationView>
    decreases s.len(),
{
    if s.len() == 0 {
        s
    } else {
        let before = first_per_url(s.drop_last());
        if has_url(before, s.last().url) {
            before
        } else {
            before.push(s.last())
        }
    }
}

/// Both lists in document order, each URL where it comes first. Of two
/// citations of a URL at the same place, the one of `primary` stays.
pub open spec fn merged(
    primary: Seq<CitationView>,
    secondary: Seq<CitationView>,
) -> Seq<CitationView> {
    first_per_url(document_order(primary + secondary))
}

/// Whether a citation of `list` has the URL `url`.
fn contains_url(list: &Vec<Citation>, url: &String) -> (r: bool)
    ensures
        r == has_url(citations(list@), url@),
{
    let mut k: usize = 0;
    while k < list.len()
        invariant
            k <= list@.len(),
            forall|j: int| 0 <= j < k ==> (#[trigger] citations(list@)[j]).url != url@,
        decreases list@.len() - k,
    {
        assert(citations(list@)[k as int] == list@[k as int]@);
        if list[k].url == *url {
            return true;
        }
        k = k + 1;
    }
    false
}

/// A copy of a citation.
fn copy_of(c: &Citation) -> (r: Citation)
    ensures
        r@ == c@,
{
    Citation {
        start_index: c.start_index,
        end_index: c.end_index,
        url: c.url.clone(),
        title: c.title.clone(),
    }
}

/// Merges two lists in document order, deduped by URL: of the citations of a
/// URL, the first in document order stays.
pub fn merge_dedupe(primary: Vec<Citation>, secondary: Vec<Citation>) -> (out: Vec<Citation>)
    ensures
        citations(out@) == merged(citations(primary@), citations(secondary@)),
        in_document_order(citations(out@)),
        forall|i: int, j: int| 0 <= i < j < out@.len() ==> out@[i].url@ != out@[j].url@,
{
    let mut all: Vec<Citation> = primary;
    let mut rest: Vec<Citation> = secondary;
    proof {
        lemma_citations_add(primary@, secondary@);
    }
    all.append(&mut rest);
    let sorted: Vec<Citation> = sort_by_start(all);
    let ghost order = citations(sorted@);
    let mut out: Vec<Citation> = Vec::new();
    let mut k: usize = 0;
    assert(order.take(0) =~= Seq::<CitationView>::empty());
    assert(citations(out@) =~= Seq::<CitationView>::empty());
    while k < sorted.len()
        invariant
            k <= sorted@.len(),
            order == citations(sorted@),
            citations(out@) == first_per_url(order.take(k as int)),
        decreases sorted@.len() - k,
    {
        let ghost before = out@;
        assert(order.take(k + 1).drop_last() =~= order.take(k as int));
        assert(order.take(k + 1).last() == sorted@[k as int]@);
        if !contains_url(&out, &sorted[k].url) {
            let c = copy_of(&sorted[k]);
            out.push(c);
            proof {
                lemma_citations_push(before, c);
            }
        }
        k = k + 1;
    }
    assert(order.take(k as int) =~= order);
    proof {
        merging_cites_each_url_once(citations(primary@), citations(secondary@));
        assert forall|i: int, j: int| 0 <= i < j < out@.len() implies out@[i].url@ != out@[j].url@ by {
            assert(citations(out@)[i].url != citations(out@)[j].url);
        }
    }
    out
}

// ── both extractors ──

/// The structured citations of `s`, pattern by pattern: footnotes, numeric
/// references, sections of sources.
pub open spec fn found_structures(s: Seq<char>) -> Seq<CitationView> {
    citation_structured::footnotes_from(
        s,
        citation_structured::definitions_in(RefKind::Footnote, s),
        0,
    ) + citation_structured::numeric_refs_from(
        s,
        citation_structured::definitions_in(RefKind::Numeric, s),
        0,
    ) + citation_structured::source_sections(s)
}

/// The structured citations of `s`, in document order.
pub open spec fn structured_citations(s: Seq<char>) -> Seq<CitationView> {
    document_order(found_structures(s))
}

/// The citations of `s`: those of both extractors, each URL where it comes
/// first.
pub open spec fn all_citations(s: Seq<char>) -> Seq<CitationView> {
    merged(url_citations(s), structured_citations(s))
}

proof fn lemma_citations_add(a: Seq<Citation>, b: Seq<Citation>)
    ensures
        citations(a + b) == citations(a) + citations(b),
{
    assert(citations(a + b) =~= citations(a) + citations(b));
}

/// Finds the structured citations of `content`, in document order. Each has a
/// full URL.
pub fn extract(content: &str) -> (out: Vec<Citation>)
    ensures
        citations(out@) == structured_citations(content@),
        in_document_order(citations(out@)),
        all_full_urls(citations(out@)),
{
    proof {
        citations_have_full_urls(content@);
        document_order_sorts(found_structures(content@));
    }
    let mut out: Vec<Citation> = footnote_citations(content);
    let mut refs: Vec<Citation> = numeric_ref_citations(content);
    let mut sources: Vec<Citation> = sources_block_citations(content);
    proof {
        lemma_citations_add(out@, refs@);
        lemma_citations_add(out@ + refs@, sources@);
    }
    out.append(&mut refs);
    out.append(&mut sources);
    sort_by_start(out)
}

/// Runs both extractors and returns the citations deduped on URL; `None` when
/// nothing was found.
pub fn merged_citations(content: &str) -> (r: Option<Vec<Citation>>)
    ensures
        match r {
            Some(out) => citations(out@) == all_citations(content@) && out@.len() > 0 && (forall|
                i: int,
                j: int,
            |
                0 <= i < j < out@.len() ==> out@[i].url@ != out@[j].url@),
            None => all_citations(content@).len() == 0,
        },
{
    let bare: Vec<Citation> = extract_url_citations(content);
    let structured: Vec<Citation> = extract(content);
    let merged: Vec<Citation> = merge_dedupe(bare, structured);
    assert(citations(merged@).len() == merged@.len());
    if merged.len() == 0 {
        None
    } else {
        Some(merged)
    }
}

// ── laws ──

pub(crate) proof fn lemma_document_order_members(s: Seq<CitationView>)
    ensures
        forall|c: CitationView| document_order(s).contains(c) <==> #[trigger] s.contains(c),
{
    broadcast use vstd::seq_lib::group_to_multiset_ensures;

    document_order_sorts(s);
    assert forall|c: CitationView| document_order(s).contains(c) <==> #[trigger] s.contains(
        c,
    ) by {
        assert(document_order(s).contains(c) <==> document_order(s).to_multiset().count(c) > 0);
        assert(s.contains(c) <==> s.to_multiset().count(c) > 0);
    }
}

/// A citation of `s` has the URL of `c` and starts no later.
pub open spec fn cited_by(s: Seq<CitationView>, c: CitationView) -> bool {
    exists|k: int| 0 <= k < s.len() && (#[trigger] s[k]).url == c.url && s[k].start <= c.start
}

/// Keeping the first citation of each URL adds none, leaves no URL twice and
/// every URL where it comes first.
pub proof fn each_url_is_kept_once(s: Seq<CitationView>)
    ensures
        forall|k: int| 0 <= k < first_per_url(s).len() ==> s.contains(#[trigger] first_per_url(s)[k]),
        forall|i: int, j: int|
            0 <= i < j < first_per_url(s).len() ==> (#[trigger] first_per_url(s)[i]).url != (
            #[trigger] first_per_url(s)[j]).url,
        in_document_order(s) ==> in_document_order(first_per_url(s)),
        in_document_order(s) ==> forall|k: int|
            0 <= k < s.len() ==> cited_by(first_per_url(s), #[trigger] s[k]),
    decreases s.len(),
{
    if s.len() > 0 {
        let p = s.drop_last();
        let before = first_per_url(p);
        let kept = first_per_url(s);
        each_url_is_kept_once(p);
        assert forall|k: int| 0 <= k < before.len() implies s.contains(#[trigger] before[k]) by {
            let q = choose|q: int| 0 <= q < p.len() && p[q] == before[k];
            assert(s[q] == before[k]);
        }
        assert(s.contains(s.last())) by {
            assert(s[s.len() - 1] == s.last());
        }
        if in_document_order(s) {
            assert forall|k: int| 0 <= k < before.len() implies (#[trigger] before[k]).start
                <= s.last().start by {
                let q = choose|q: int| 0 <= q < s.len() && s[q] == before[k];
                assert(s[q].start <= s[s.len() - 1].start);
            }
            assert(in_document_order(p));
            assert forall|k: int| 0 <= k < s.len() implies cited_by(kept, #[trigger] s[k]) by {
                if k < p.len() {
                    assert(p[k] == s[k]);
                    let j = choose|j: int|
                        0 <= j < before.len() && (#[trigger] before[j]).url == s[k].url
                            && before[j].start <= s[k].start;
                    assert(kept[j] == before[j]);
                } else if has_url(before, s.last().url) {
                    let j = choose|j: int|
                        0 <= j < before.len() && (#[trigger] before[j]).url == s.last().url;
                    assert(kept[j] == before[j]);
                } else {
                    assert(kept[before.len() as int] == s.last());
                }
            }
        }
    }
}

/// Merging gives citations of either list in document order, no URL twice, and
/// for every citation of either list one of its URL that starts no later.
pub proof fn merging_cites_each_url_once(primary: Seq<CitationView>, secondary: Seq<CitationView>)
    ensures
        in_document_order(merged(primary, secondary)),
        forall|k: int|
            0 <= k < merged(primary, secondary).len() ==> (primary + secondary).contains(
                #[trigger] merged(primary, secondary)[k],
            ),
        forall|i: int, j: int|
            0 <= i < j < merged(primary, secondary).len() ==> (#[trigger] merged(
                primary,
                secondary,
            )[i]).url != (#[trigger] merged(primary, secondary)[j]).url,
        forall|c: CitationView| #[trigger]
            (primary + secondary).contains(c) ==> cited_by(merged(primary, secondary), c),
{
    let all = primary + secondary;
    let order = document_order(all);
    document_order_sorts(all);
    lemma_document_order_members(all);
    each_url_is_kept_once(order);
    assert forall|k: int| 0 <= k < merged(primary, secondary).len() implies all.contains(
        #[trigger] merged(primary, secondary)[k],
    ) by {
        assert(order.contains(merged(primary, secondary)[k]));
    }
    assert forall|c: CitationView| #[trigger] all.contains(c) implies cited_by(
        merged(primary, secondary),
        c,
    ) by {
        assert(order.contains(c));
        let k = choose|k: int| 0 <= k < order.len() && order[k] == c;
        assert(cited_by(merged(primary, secondary), order[k]));
    }
}

/// The merged citations of a text are in document order, cite no URL twice, and
/// cite every URL that either extractor found where it comes first.
pub proof fn merged_citations_cite_each_url_once(s: Seq<char>)
    ensures
        in_document_order(all_citations(s)),
        forall|k: int|
            0 <= k < all_citations(s).len() ==> url_citations(s).contains(
                #[trigger] all_citations(s)[k],
            ) || structured_citations(s).contains(all_citations(s)[k]),
        forall|i: int, j: int|
            0 <= i < j < all_citations(s).len() ==> (#[trigger] all_citations(s)[i]).url != (
            #[trigger] all_citations(s)[j]).url,
        forall|k: int|
            0 <= k < url_citations(s).len() ==> cited_by(
                all_citations(s),
                #[trigger] url_citations(s)[k],
            ),
        forall|k: int|
            0 <= k < structured_citations(s).len() ==> cited_by(
                all_citations(s),
                #[trigger] structured_citations(s)[k],
            ),
{
    let p = url_citations(s);
    let q = structured_citations(s);
    merging_cites_each_url_once(p, q);
    assert forall|k: int| 0 <= k < all_citations(s).len() implies p.contains(
        #[trigger] all_citations(s)[k],
    ) || q.contains(all_citations(s)[k]) by {
        let c = all_citations(s)[k];
        assert((p + q).contains(c));
        let j = choose|j: int| 0 <= j < (p + q).len() && (p + q)[j] == c;
        if j < p.len() {
            assert(p[j] == c);
        } else {
            assert(q[j - p.len()] == c);
        }
    }
    assert forall|k: int| 0 <= k < p.len() implies cited_by(all_citations(s), #[trigger] p[k]) by {
        assert((p + q)[k] == p[k]);
        assert((p + q).contains(p[k]));
    }
    assert forall|k: int| 0 <= k < q.len() implies cited_by(all_citations(s), #[trigger] q[k]) by {
        assert((p + q)[p.len() + k] == q[k]);
        assert((p + q).contains(q[k]));
    }
}

/// The bytes `b` are the bytes `a` with some replaced by spaces, no line end
/// among them.
pub open spec fn blanks_bytes(a: Seq<u8>, b: Seq<u8>) -> bool {
    &&& b.len() == a.len()
    &&& forall|j: int| 0 <= j < a.len() ==> #[trigger] b[j] == a[j] || b[j] == 0x20
    &&& forall|j: int| 0 <= j < a.len() ==> ((#[trigger] b[j] == 0x0a) == (a[j] == 0x0a))
}

/// No byte is a backtick.
pub open spec fn no_backtick(b: Seq<u8>) -> bool {
    forall|j: int| 0 <= j < b.len() ==> #[trigger] b[j] != 0x60
}

proof fn lemma_encode_add(a: Seq<char>, b: Seq<char>)
    ensures
        encode_utf8(a + b) == encode_utf8(a) + encode_utf8(b),
    decreases a.len(),
{
    if a.len() == 0 {
        assert(a + b =~= b);
        assert(encode_utf8(a) + encode_utf8(b) =~= encode_utf8(b));
    } else {
        assert((a + b).drop_first() =~= a.drop_first() + b);
        lemma_encode_add(a.drop_first(), b);
        assert(encode_utf8(a + b) =~= encode_utf8(a) + encode_utf8(b));
    }
}

proof fn lemma_encode_one(c: char)
    ensures
        encode_utf8(seq![c]) == encode_scalar(c as u32),
        encode_scalar(c as u32).len() == text::utf8_width(c),
        c as u32 <= 0x7f ==> encode_scalar(c as u32) == seq![c as u8],
        c as u32 > 0x7f ==> forall|j: int|
            0 <= j < encode_scalar(c as u32).len() ==> #[trigger] encode_scalar(c as u32)[j]
                >= 0x80,
{
    let u = c as u32;
    char_is_scalar(c);
    assert(seq![c].drop_first() =~= Seq::<char>::empty());
    assert(encode_utf8(Seq::<char>::empty()) =~= Seq::<u8>::empty());
    assert(encode_utf8(seq![c]) == encode_scalar(u) + encode_utf8(seq![c].drop_first()));
    assert(encode_utf8(seq![c]) =~= encode_scalar(u));
    if u <= 0x7f {
        assert((u & 0x7f) as u8 == u as u8) by (bit_vector)
            requires
                u <= 0x7f,
        ;
        assert(encode_scalar(u) =~= seq![c as u8]);
    } else {
        assert(0xc0 | ((u >> 6) & 0x1f) as u8 >= 0x80) by (bit_vector);
        assert(0xe0 | ((u >> 12) & 0x0f) as u8 >= 0x80) by (bit_vector);
        assert(0xf0 | ((u >> 18) & 0x7) as u8 >= 0x80) by (bit_vector);
        assert(0x80 | (u & 0x3f) as u8 >= 0x80) by (bit_vector);
        assert(0x80 | ((u >> 6) & 0x3f) as u8 >= 0x80) by (bit_vector);
        assert(0x80 | ((u >> 12) & 0x3f) as u8 >= 0x80) by (bit_vector);
    }
}

proof fn lemma_encode_spaces(n: int)
    requires
        0 <= n,
    ensures
        encode_utf8(text::repeated(' ', n)) == Seq::new(n as nat, |i: int| 0x20u8),
    decreases n,
{
    if n == 0 {
        assert(encode_utf8(text::repeated(' ', 0)) =~= Seq::new(0, |i: int| 0x20u8));
    } else {
        lemma_encode_spaces(n - 1);
        lemma_encode_one(' ');
        lemma_encode_add(text::repeated(' ', n - 1), seq![' ']);
        assert(text::repeated(' ', n) =~= text::repeated(' ', n - 1) + seq![' ']);
        assert(encode_utf8(text::repeated(' ', n)) =~= Seq::new(n as nat, |i: int| 0x20u8));
    }
}

proof fn lemma_spread_one(c: char, mask: char)
    requires
        mask == c || mask == ' ',
        (mask == '\n') == (c == '\n'),
        mask != '`',
    ensures
        blanks_bytes(encode_utf8(seq![c]), encode_utf8(spread_one(c, mask))),
        no_backtick(encode_utf8(spread_one(c, mask))),
{
    lemma_encode_one(c);
    if c != mask {
        lemma_encode_spaces(text::utf8_width(c) as int);
    }
}

proof fn lemma_spread(s: Seq<char>, m: Seq<char>, n: int)
    requires
        0 <= n <= s.len(),
        m.len() == s.len(),
        forall|k: int| 0 <= k < s.len() ==> #[trigger] m[k] == s[k] || m[k] == ' ',
        forall|k: int| 0 <= k < s.len() ==> (#[trigger] m[k] == '\n') == (s[k] == '\n'),
        !m.contains('`'),
    ensures
        blanks_bytes(encode_utf8(s.take(n)), encode_utf8(spread(s, m, n))),
        no_backtick(encode_utf8(spread(s, m, n))),
        !spread(s, m, n).contains('`'),
    decreases n,
{
    if n == 0 {
        assert(s.take(0) =~= Seq::<char>::empty());
        assert(encode_utf8(s.take(0)) =~= Seq::<u8>::empty());
    } else {
        lemma_spread(s, m, n - 1);
        let c = s[n - 1];
        let mask = m[n - 1];
        assert(mask != '`') by {
            assert(m.contains(m[n - 1]));
        }
        lemma_spread_one(c, mask);
        let one = spread_one(c, mask);
        let before = spread(s, m, n - 1);
        assert(s.take(n) =~= s.take(n - 1) + seq![c]);
        lemma_encode_add(s.take(n - 1), seq![c]);
        lemma_encode_add(before, one);
        let a = encode_utf8(s.take(n - 1));
        let b = encode_utf8(before);
        let x = encode_utf8(seq![c]);
        let y = encode_utf8(one);
        assert forall|j: int| 0 <= j < (a + x).len() implies ({
            &&& #[trigger] (b + y)[j] == (a + x)[j] || (b + y)[j] == 0x20
            &&& ((b + y)[j] == 0x0a) == ((a + x)[j] == 0x0a)
            &&& (b + y)[j] != 0x60
        }) by {
            if j < a.len() {
                assert((b + y)[j] == b[j]);
            } else {
                assert((b + y)[j] == y[j - b.len()]);
            }
        }
        assert forall|k: int| 0 <= k < (before + one).len() implies #[trigger] (before + one)[k]
            != '`' by {
            if k < before.len() {
                assert(before.contains(before[k]));
            } else {
                assert((before + one)[k] == one[k - before.len()]);
            }
        }
    }
}

proof fn lemma_spread_same(s: Seq<char>, n: int)
    requires
        0 <= n <= s.len(),
    ensures
        spread(s, s, n) == s.take(n),
    decreases n,
{
    if n == 0 {
        assert(s.take(0) =~= Seq::<char>::empty());
    } else {
        lemma_spread_same(s, n - 1);
        assert(s.take(n) =~= s.take(n - 1) + seq![s[n - 1]]);
    }
}

/// The masked text has the bytes of the text, with some replaced by spaces: as
/// many bytes, the same line ends, and no backtick. A text without backticks is
/// unchanged, and so is one that has been masked.
pub proof fn masked_text_keeps_bytes(s: Seq<char>)
    ensures
        blanks_bytes(encode_utf8(s), encode_utf8(masked_text(s))),
        no_backtick(encode_utf8(masked_text(s))),
        !s.contains('`') ==> masked_text(s) == s,
        masked_text(masked_text(s)) == masked_text(s),
{
    let m = masked(s);
    let t = masked_text(s);
    masking_keeps_positions(s);
    masking_leaves_no_code(s);
    lemma_spread(s, m, s.len() as int);
    assert(s.take(s.len() as int) =~= s);
    if !s.contains('`') {
        lemma_spread_same(s, s.len() as int);
    }
    masking_leaves_no_code(t);
    lemma_spread_same(t, t.len() as int);
    assert(t.take(t.len() as int) =~= t);
}

/// `c` starts at a position of `s` outside code: where the masked copy shows a
/// URL, or right behind a parenthesis that it shows.
pub open spec fn starts_outside_code(s: Seq<char>, c: CitationView) -> bool {
    exists|h: int| #[trigger] outside_code_at(s, c, h)
}

/// `c` starts at position `h` of `s`, outside code.
pub open spec fn outside_code_at(s: Seq<char>, c: CitationView, h: int) -> bool {
    &&& 0 <= h <= s.len()
    &&& c.start == text::byte_offset(s, h)
    &&& is_url_at(masked(s), h) || (h > 0 && masked(s)[h - 1] == '(')
}

proof fn lemma_links_outside_code(s: Seq<char>, scan: int)
    requires
        0 <= scan,
    ensures
        forall|k: int|
            0 <= k < links_from(masked(s), s, scan).len() ==> starts_outside_code(
                s,
                #[trigger] links_from(masked(s), s, scan)[k],
            ),
    decreases s.len() - scan,
{
    let m = masked(s);
    masking_keeps_positions(s);
    let lb = text::next_char(m, '[', scan);
    if lb < m.len() && lb >= scan {
        let rb = text::next_char(m, ']', lb + 1);
        text::lemma_next_char(m, ']', lb + 1);
        if rb >= m.len() || rb < lb + 1 {
            lemma_links_outside_code(s, lb + 1);
            assert(links_from(m, s, scan) == links_from(m, s, lb + 1));
        } else if !(rb + 1 < m.len() && m[rb + 1] == '(') {
            lemma_links_outside_code(s, rb + 1);
            assert(links_from(m, s, scan) == links_from(m, s, rb + 1));
        } else {
            let close = paren_close(m, rb + 2, 0);
            if close >= m.len() || close < rb + 2 {
                lemma_links_outside_code(s, rb + 2);
                assert(links_from(m, s, scan) == links_from(m, s, rb + 2));
            } else {
                lemma_links_outside_code(s, close + 1);
                let c = link_citation(s, s.subrange(lb + 1, rb), rb + 2, close);
                let rest = links_from(m, s, close + 1);
                assert(links_from(m, s, scan) == c + rest);
                assert forall|k: int| 0 <= k < (c + rest).len() implies starts_outside_code(
                    s,
                    #[trigger] (c + rest)[k],
                ) by {
                    if k < c.len() {
                        assert(outside_code_at(s, c[k], rb + 2));
                    } else {
                        assert((c + rest)[k] == rest[k - c.len()]);
                    }
                }
            }
        }
    }
}

proof fn lemma_bare_outside_code(s: Seq<char>, links: Seq<CitationView>, i: int)
    requires
        0 <= i,
    ensures
        forall|k: int|
            0 <= k < bare_from(masked(s), s, links, i).len() ==> starts_outside_code(
                s,
                #[trigger] bare_from(masked(s), s, links, i)[k],
            ),
    decreases
            (if i < s.len() {
                s.len() - i
            } else {
                0
            }),
{
    let m = masked(s);
    masking_keeps_positions(s);
    let h = text::next_text(m, "http"@, i);
    if h < m.len() && h >= i {
        if !is_url_at(m, h) {
            lemma_bare_outside_code(s, links, h + 4);
            assert(bare_from(m, s, links, i) == bare_from(m, s, links, h + 4));
        } else {
            let end = bare_url_end(s, h);
            let next = if end > h {
                end
            } else {
                h + 1
            };
            lemma_bare_outside_code(s, links, next);
            let c = bare_citation(s, links, h);
            let rest = bare_from(m, s, links, next);
            assert(bare_from(m, s, links, i) == c + rest);
            assert forall|k: int| 0 <= k < (c + rest).len() implies starts_outside_code(
                s,
                #[trigger] (c + rest)[k],
            ) by {
                if k < c.len() {
                    assert(outside_code_at(s, c[k], h));
                } else {
                    assert((c + rest)[k] == rest[k - c.len()]);
                }
            }
        }
    }
}

/// No URL citation starts inside a code span.
pub proof fn url_citations_start_outside_code(s: Seq<char>)
    ensures
        forall|k: int|
            0 <= k < url_citations(s).len() ==> starts_outside_code(
                s,
                #[trigger] url_citations(s)[k],
            ),
{
    let m = masked(s);
    let links = links_from(m, s, 0);
    let bare = bare_from(m, s, links, 0);
    lemma_links_outside_code(s, 0);
    lemma_bare_outside_code(s, links, 0);
    lemma_document_order_members(links + bare);
    assert forall|k: int| 0 <= k < url_citations(s).len() implies starts_outside_code(
        s,
        #[trigger] url_citations(s)[k],
    ) by {
        let c = url_citations(s)[k];
        assert(document_order(links + bare).contains(c));
        assert((links + bare).contains(c));
        let j = choose|j: int| 0 <= j < (links + bare).len() && (links + bare)[j] == c;
        if j < links.len() {
            assert(links[j] == c);
        } else {
            assert(bare[j - links.len()] == c);
        }
    }
}

/// `c` spans `s[a..b]`, and that text is its URL, white space around the target
/// of a link aside.
pub open spec fn spans_at(s: Seq<char>, c: CitationView, a: int, b: int) -> bool {
    &&& 0 <= a <= b <= s.len()
    &&& c.start == text::byte_offset(s, a)
    &&& c.end == text::byte_offset(s, b)
    &&& c.url == s.subrange(a, b) || c.url == text::trim(s.subrange(a, b))
}

/// `c` spans its URL in `s`.
pub open spec fn spans_url(s: Seq<char>, c: CitationView) -> bool {
    exists|a: int, b: int| #[trigger] spans_at(s, c, a, b)
}

pub(crate) proof fn lemma_without_sentence_tail_prefix(s: Seq<char>)
    ensures
        without_sentence_tail(s).len() <= s.len(),
        without_sentence_tail(s) == s.subrange(0, without_sentence_tail(s).len() as int),
    decreases s.len(),
{
    if has_sentence_tail(s) {
        lemma_without_sentence_tail_prefix(s.drop_last());
        assert(s.drop_last().subrange(0, without_sentence_tail(s).len() as int) =~= s.subrange(
            0,
            without_sentence_tail(s).len() as int,
        ));
    } else {
        assert(s.subrange(0, s.len() as int) =~= s);
    }
}

pub(crate) proof fn lemma_bare_url_end(s: Seq<char>, i: int)
    requires
        0 <= i <= s.len(),
    ensures
        i <= bare_url_end(s, i) <= s.len(),
    decreases s.len() - i,
{
    if i < s.len() && !ends_bare_url(s[i]) {
        lemma_bare_url_end(s, i + 1);
    }
}

proof fn lemma_links_span(s: Seq<char>, scan: int)
    requires
        0 <= scan,
    ensures
        forall|k: int|
            0 <= k < links_from(masked(s), s, scan).len() ==> spans_url(
                s,
                #[trigger] links_from(masked(s), s, scan)[k],
            ),
    decreases s.len() - scan,
{
    let m = masked(s);
    masking_keeps_positions(s);
    let lb = text::next_char(m, '[', scan);
    if lb < m.len() && lb >= scan {
        let rb = text::next_char(m, ']', lb + 1);
        text::lemma_next_char(m, ']', lb + 1);
        if rb >= m.len() || rb < lb + 1 {
            lemma_links_span(s, lb + 1);
            assert(links_from(m, s, scan) == links_from(m, s, lb + 1));
        } else if !(rb + 1 < m.len() && m[rb + 1] == '(') {
            lemma_links_span(s, rb + 1);
            assert(links_from(m, s, scan) == links_from(m, s, rb + 1));
        } else {
            let close = paren_close(m, rb + 2, 0);
            if close >= m.len() || close < rb + 2 {
                lemma_links_span(s, rb + 2);
                assert(links_from(m, s, scan) == links_from(m, s, rb + 2));
            } else {
                lemma_links_span(s, close + 1);
                let c = link_citation(s, s.subrange(lb + 1, rb), rb + 2, close);
                let rest = links_from(m, s, close + 1);
                assert(links_from(m, s, scan) == c + rest);
                assert forall|k: int| 0 <= k < (c + rest).len() implies spans_url(
                    s,
                    #[trigger] (c + rest)[k],
                ) by {
                    if k < c.len() {
                        assert(spans_at(s, c[k], rb + 2, close));
                    } else {
                        assert((c + rest)[k] == rest[k - c.len()]);
                    }
                }
            }
        }
    }
}

proof fn lemma_bare_spans(s: Seq<char>, links: Seq<CitationView>, i: int)
    requires
        0 <= i,
    ensures
        forall|k: int|
            0 <= k < bare_from(masked(s), s, links, i).len() ==> spans_url(
                s,
                #[trigger] bare_from(masked(s), s, links, i)[k],
            ),
    decreases
            (if i < s.len() {
                s.len() - i
            } else {
                0
            }),
{
    let m = masked(s);
    masking_keeps_positions(s);
    let h = text::next_text(m, "http"@, i);
    if h < m.len() && h >= i {
        if !is_url_at(m, h) {
            lemma_bare_spans(s, links, h + 4);
            assert(bare_from(m, s, links, i) == bare_from(m, s, links, h + 4));
        } else {
            let end = bare_url_end(s, h);
            let next = if end > h {
                end
            } else {
                h + 1
            };
            lemma_bare_spans(s, links, next);
            let c = bare_citation(s, links, h);
            let rest = bare_from(m, s, links, next);
            assert(bare_from(m, s, links, i) == c + rest);
            lemma_bare_url_end(s, h);
            let whole = s.subrange(h, end);
            let raw = without_sentence_tail(whole);
            lemma_without_sentence_tail_prefix(whole);
            assert(raw =~= s.subrange(h, h + raw.len()));
            text::lemma_byte_offset_split(s, h, h + raw.len());
            assert forall|k: int| 0 <= k < (c + rest).len() implies spans_url(
                s,
                #[trigger] (c + rest)[k],
            ) by {
                if k < c.len() {
                    assert(spans_at(s, c[k], h, h + raw.len()));
                } else {
                    assert((c + rest)[k] == rest[k - c.len()]);
                }
            }
        }
    }
}

/// The offsets of a URL citation are those of its URL: the text between them is
/// the URL, white space around the target of a link aside.
pub proof fn url_citations_span_their_urls(s: Seq<char>)
    ensures
        forall|k: int|
            0 <= k < url_citations(s).len() ==> spans_url(s, #[trigger] url_citations(s)[k]),
{
    let m = masked(s);
    let links = links_from(m, s, 0);
    let bare = bare_from(m, s, links, 0);
    lemma_links_span(s, 0);
    lemma_bare_spans(s, links, 0);
    lemma_document_order_members(links + bare);
    assert forall|k: int| 0 <= k < url_citations(s).len() implies spans_url(
        s,
        #[trigger] url_citations(s)[k],
    ) by {
        let c = url_citations(s)[k];
        assert(document_order(links + bare).contains(c));
        assert((links + bare).contains(c));
        let j = choose|j: int| 0 <= j < (links + bare).len() && (links + bare)[j] == c;
        if j < links.len() {
            assert(links[j] == c);
        } else {
            assert(bare[j - links.len()] == c);
        }
    }
}

/// No byte lies in the spans of both.
pub open spec fn apart(a: CitationView, b: CitationView) -> bool {
    a.end <= b.start || b.end <= a.start
}

/// No byte lies in the spans of two citations of `s`.
pub open spec fn all_apart(s: Seq<CitationView>) -> bool {
    forall|i: int, j: int| 0 <= i < j < s.len() ==> apart(#[trigger] s[i], #[trigger] s[j])
}

proof fn lemma_links_apart(m: Seq<char>, s: Seq<char>, scan: int)
    requires
        0 <= scan,
    ensures
        all_apart(links_from(m, s, scan)),
        forall|k: int|
            0 <= k < links_from(m, s, scan).len() ==> scan <= s.len() && text::byte_offset(s, scan)
                <= (#[trigger] links_from(m, s, scan)[k]).start,
    decreases s.len() - scan,
{
    let lb = text::next_char(m, '[', scan);
    if m.len() == s.len() && lb < m.len() && lb >= scan {
        let rb = text::next_char(m, ']', lb + 1);
        text::lemma_next_char(m, ']', lb + 1);
        if rb >= m.len() || rb < lb + 1 {
            lemma_links_apart(m, s, lb + 1);
            text::lemma_byte_offset_split(s, scan, lb + 1);
        } else if !(rb + 1 < m.len() && m[rb + 1] == '(') {
            lemma_links_apart(m, s, rb + 1);
            text::lemma_byte_offset_split(s, scan, rb + 1);
        } else {
            let close = paren_close(m, rb + 2, 0);
            if close >= m.len() || close < rb + 2 {
                lemma_links_apart(m, s, rb + 2);
                text::lemma_byte_offset_split(s, scan, rb + 2);
            } else {
                lemma_links_apart(m, s, close + 1);
                text::lemma_byte_offset_split(s, scan, rb + 2);
                text::lemma_byte_offset_split(s, close, close + 1);
                text::lemma_byte_offset_split(s, rb + 2, close + 1);
                let c = link_citation(s, s.subrange(lb + 1, rb), rb + 2, close);
                let rest = links_from(m, s, close + 1);
                assert(links_from(m, s, scan) == c + rest);
                assert forall|k: int| 0 <= k < (c + rest).len() implies text::byte_offset(s, scan)
                    <= (#[trigger] (c + rest)[k]).start by {
                    if k >= c.len() {
                        assert((c + rest)[k] == rest[k - c.len()]);
                    }
                }
                assert forall|i: int, j: int| 0 <= i < j < (c + rest).len() implies apart(
                    #[trigger] (c + rest)[i],
                    #[trigger] (c + rest)[j],
                ) by {
                    assert((c + rest)[j] == rest[j - c.len()]);
                    if i >= c.len() {
                        assert((c + rest)[i] == rest[i - c.len()]);
                    }
                }
            }
        }
    }
}

proof fn lemma_bare_apart(m: Seq<char>, s: Seq<char>, links: Seq<CitationView>, i: int)
    requires
        0 <= i,
    ensures
        all_apart(bare_from(m, s, links, i)),
        forall|k: int|
            0 <= k < bare_from(m, s, links, i).len() ==> i <= s.len() && text::byte_offset(s, i)
                <= (#[trigger] bare_from(m, s, links, i)[k]).start,
        forall|k: int, l: int|
            0 <= k < links.len() && 0 <= l < bare_from(m, s, links, i).len() ==> apart(
                #[trigger] links[k],
                #[trigger] bare_from(m, s, links, i)[l],
            ),
    decreases
            (if i < s.len() {
                s.len() - i
            } else {
                0
            }),
{
    let h = text::next_text(m, "http"@, i);
    if m.len() == s.len() && h < m.len() && h >= i {
        if !is_url_at(m, h) {
            lemma_bare_apart(m, s, links, h + 4);
            if h + 4 <= s.len() {
                text::lemma_byte_offset_split(s, i, h + 4);
            }
        } else {
            let end = bare_url_end(s, h);
            let next = if end > h {
                end
            } else {
                h + 1
            };
            lemma_bare_url_end(s, h);
            lemma_bare_apart(m, s, links, next);
            let c = bare_citation(s, links, h);
            let rest = bare_from(m, s, links, next);
            let whole = s.subrange(h, end);
            let raw = without_sentence_tail(whole);
            lemma_without_sentence_tail_prefix(whole);
            text::lemma_byte_offset_split(s, i, h);
            text::lemma_byte_offset_split(s, h, next);
            text::lemma_byte_offset_split(s, h, end);
            assert(whole =~= raw + whole.subrange(raw.len() as int, whole.len() as int));
            text::lemma_byte_len_add(raw, whole.subrange(raw.len() as int, whole.len() as int));
            assert(bare_from(m, s, links, i) == c + rest);
            assert forall|k: int| 0 <= k < (c + rest).len() implies text::byte_offset(s, i) <= (
            #[trigger] (c + rest)[k]).start by {
                if k >= c.len() {
                    assert((c + rest)[k] == rest[k - c.len()]);
                }
            }
            assert forall|a: int, b: int| 0 <= a < b < (c + rest).len() implies apart(
                #[trigger] (c + rest)[a],
                #[trigger] (c + rest)[b],
            ) by {
                assert((c + rest)[b] == rest[b - c.len()]);
                if a >= c.len() {
                    assert((c + rest)[a] == rest[a - c.len()]);
                }
            }
            assert forall|k: int, l: int|
                0 <= k < links.len() && 0 <= l < (c + rest).len() implies apart(
                #[trigger] links[k],
                #[trigger] (c + rest)[l],
            ) by {
                if l >= c.len() {
                    assert((c + rest)[l] == rest[l - c.len()]);
                }
            }
        }
    }
}

proof fn lemma_insert_apart(s: Seq<CitationView>, c: CitationView)
    requires
        all_apart(s),
        forall|k: int| 0 <= k < s.len() ==> apart(#[trigger] s[k], c),
    ensures
        all_apart(insert_by_start(s, c)),
        insert_by_start(s, c).len() == s.len() + 1,
        forall|k: int|
            0 <= k < s.len() + 1 ==> #[trigger] insert_by_start(s, c)[k] == c || s.contains(
                insert_by_start(s, c)[k],
            ),
    decreases s.len(),
{
    let out = insert_by_start(s, c);
    if s.len() == 0 || s.last().start <= c.start {
        assert forall|k: int| 0 <= k < out.len() implies #[trigger] out[k] == c || s.contains(
            out[k],
        ) by {
            if k < s.len() {
                assert(out[k] == s[k]);
            }
        }
    } else {
        let p = s.drop_last();
        let r = insert_by_start(p, c);
        assert forall|k: int| 0 <= k < p.len() implies apart(#[trigger] p[k], c) by {
            assert(p[k] == s[k]);
        }
        assert(all_apart(p)) by {
            assert forall|i: int, j: int| 0 <= i < j < p.len() implies apart(
                #[trigger] p[i],
                #[trigger] p[j],
            ) by {
                assert(p[i] == s[i] && p[j] == s[j]);
            }
        }
        lemma_insert_apart(p, c);
        assert(s[s.len() - 1] == s.last());
        assert forall|k: int| 0 <= k < out.len() implies #[trigger] out[k] == c || s.contains(
            out[k],
        ) by {
            if k < s.len() {
                assert(out[k] == r[k]);
                if r[k] != c {
                    let q = choose|q: int| 0 <= q < p.len() && p[q] == r[k];
                    assert(s[q] == r[k]);
                }
            }
        }
        assert forall|i: int, j: int| 0 <= i < j < out.len() implies apart(
            #[trigger] out[i],
            #[trigger] out[j],
        ) by {
            assert(out[i] == r[i]);
            if j < r.len() {
                assert(out[j] == r[j]);
            } else if r[i] != c {
                let q = choose|q: int| 0 <= q < p.len() && p[q] == r[i];
                assert(s[q] == r[i]);
            }
        }
    }
}

proof fn lemma_document_order_apart(s: Seq<CitationView>)
    requires
        all_apart(s),
    ensures
        all_apart(document_order(s)),
        forall|k: int|
            0 <= k < document_order(s).len() ==> s.contains(#[trigger] document_order(s)[k]),
    decreases s.len(),
{
    if s.len() > 0 {
        let p = s.drop_last();
        let c = s.last();
        let order = document_order(p);
        assert(all_apart(p)) by {
            assert forall|i: int, j: int| 0 <= i < j < p.len() implies apart(
                #[trigger] p[i],
                #[trigger] p[j],
            ) by {
                assert(p[i] == s[i] && p[j] == s[j]);
            }
        }
        lemma_document_order_apart(p);
        assert forall|k: int| 0 <= k < order.len() implies apart(#[trigger] order[k], c)
            && s.contains(order[k]) by {
            let q = choose|q: int| 0 <= q < p.len() && p[q] == order[k];
            assert(s[q] == order[k]);
            assert(s[s.len() - 1] == c);
        }
        lemma_insert_apart(order, c);
        assert(s[s.len() - 1] == c);
        assert forall|k: int| 0 <= k < document_order(s).len() implies s.contains(
            #[trigger] document_order(s)[k],
        ) by {
            let d = document_order(s)[k];
            if d != c {
                let q = choose|q: int| 0 <= q < order.len() && order[q] == d;
                assert(s.contains(order[q]));
            }
        }
    }
}

/// No byte of a text lies in two URL citations.
pub proof fn url_citations_do_not_overlap(s: Seq<char>)
    ensures
        all_apart(url_citations(s)),
{
    let m = masked(s);
    let links = links_from(m, s, 0);
    let bare = bare_from(m, s, links, 0);
    let all = links + bare;
    lemma_links_apart(m, s, 0);
    lemma_bare_apart(m, s, links, 0);
    assert forall|i: int, j: int| 0 <= i < j < all.len() implies apart(
        #[trigger] all[i],
        #[trigger] all[j],
    ) by {
        if j < links.len() {
            assert(all[i] == links[i] && all[j] == links[j]);
        } else {
            assert(all[j] == bare[j - links.len()]);
            if i < links.len() {
                assert(all[i] == links[i]);
            } else {
                assert(all[i] == bare[i - links.len()]);
            }
        }
    }
    lemma_document_order_apart(all);
}

/// The URL of every citation of `s` is an http or https URL with something
/// behind the scheme.
pub open spec fn all_full_urls(s: Seq<CitationView>) -> bool {
    forall|k: int| 0 <= k < s.len() ==> is_full_url((#[trigger] s[k]).url)
}

proof fn lemma_prefix_in_pattern(s: Seq<char>, pat: Seq<char>, n: int)
    requires
        text::matches_at(s, pat, 0),
        text::is_ascii_text(pat),
        0 <= n <= pat.len(),
    ensures
        text::byte_len(s.take(n)) == n,
    decreases n,
{
    if n > 0 {
        lemma_prefix_in_pattern(s, pat, n - 1);
        assert(s.take(n).drop_last() =~= s.take(n - 1));
        assert(s.take(n).last() == s.subrange(0, pat.len() as int)[n - 1]);
        assert(text::utf8_width(pat[n - 1]) == 1);
    }
}

/// A text that begins a URL and is longer than a scheme is a full URL.
pub proof fn lemma_long_prefix_is_full_url(s: Seq<char>, url: Seq<char>)
    requires
        is_url_at(s, 0),
        url.is_prefix_of(s),
        text::byte_len(url) > 8,
    ensures
        is_full_url(url),
{
    reveal_strlit("http://");
    reveal_strlit("https://");
    assert(url =~= s.take(url.len() as int));
    if text::matches_at(s, "http://"@, 0) {
        if url.len() < 7 {
            lemma_prefix_in_pattern(s, "http://"@, url.len() as int);
        }
        assert(url.subrange(0, 7) =~= s.subrange(0, 7));
    } else {
        if url.len() < 8 {
            lemma_prefix_in_pattern(s, "https://"@, url.len() as int);
        }
        assert(url.subrange(0, 8) =~= s.subrange(0, 8));
    }
}

pub proof fn lemma_full_urls_add(a: Seq<CitationView>, b: Seq<CitationView>)
    requires
        all_full_urls(a),
        all_full_urls(b),
    ensures
        all_full_urls(a + b),
{
    assert forall|k: int| 0 <= k < (a + b).len() implies is_full_url((#[trigger] (a + b)[k]).url) by {
        if k < a.len() {
            assert((a + b)[k] == a[k]);
        } else {
            assert((a + b)[k] == b[k - a.len()]);
        }
    }
}

proof fn lemma_full_urls_in_order(s: Seq<CitationView>)
    requires
        all_full_urls(s),
    ensures
        all_full_urls(document_order(s)),
{
    lemma_document_order_members(s);
    assert forall|k: int| 0 <= k < document_order(s).len() implies is_full_url(
        (#[trigger] document_order(s)[k]).url,
    ) by {
        assert(s.contains(document_order(s)[k]));
        let j = choose|j: int| 0 <= j < s.len() && s[j] == document_order(s)[k];
        assert(is_full_url(s[j].url));
    }
}

proof fn lemma_links_are_full(m: Seq<char>, s: Seq<char>, scan: int)
    requires
        0 <= scan,
    ensures
        all_full_urls(links_from(m, s, scan)),
    decreases s.len() - scan,
{
    let lb = text::next_char(m, '[', scan);
    if m.len() == s.len() && lb < m.len() && lb >= scan {
        let rb = text::next_char(m, ']', lb + 1);
        if rb >= m.len() || rb < lb + 1 {
            lemma_links_are_full(m, s, lb + 1);
        } else if !(rb + 1 < m.len() && m[rb + 1] == '(') {
            lemma_links_are_full(m, s, rb + 1);
        } else {
            let close = paren_close(m, rb + 2, 0);
            if close >= m.len() || close < rb + 2 {
                lemma_links_are_full(m, s, rb + 2);
            } else {
                lemma_links_are_full(m, s, close + 1);
                lemma_full_urls_add(
                    link_citation(s, s.subrange(lb + 1, rb), rb + 2, close),
                    links_from(m, s, close + 1),
                );
            }
        }
    }
}

pub(crate) proof fn lemma_unmasked_url(s: Seq<char>, pat: Seq<char>, h: int)
    requires
        text::matches_at(masked(s), pat, h),
        !pat.contains(' '),
    ensures
        text::matches_at(s, pat, h),
{
    masking_keeps_positions(s);
    let m = masked(s);
    assert forall|k: int| 0 <= k < pat.len() implies s[h + k] == #[trigger] pat[k] by {
        assert(m.subrange(h, h + pat.len())[k] == m[h + k]);
        assert(pat.contains(pat[k]));
    }
    assert(s.subrange(h, h + pat.len()) =~= pat);
}

proof fn lemma_bare_are_full(s: Seq<char>, links: Seq<CitationView>, i: int)
    requires
        0 <= i,
    ensures
        all_full_urls(bare_from(masked(s), s, links, i)),
    decreases
            (if i < s.len() {
                s.len() - i
            } else {
                0
            }),
{
    let m = masked(s);
    masking_keeps_positions(s);
    let h = text::next_text(m, "http"@, i);
    if h < m.len() && h >= i {
        if !is_url_at(m, h) {
            lemma_bare_are_full(s, links, h + 4);
        } else {
            let end = bare_url_end(s, h);
            let next = if end > h {
                end
            } else {
                h + 1
            };
            lemma_bare_url_end(s, h);
            lemma_bare_are_full(s, links, next);
            let c = bare_citation(s, links, h);
            let whole = s.subrange(h, end);
            let raw = without_sentence_tail(whole);
            lemma_without_sentence_tail_prefix(whole);
            reveal_strlit("http://");
            reveal_strlit("https://");
            let rest = s.subrange(h, s.len() as int);
            if text::matches_at(m, "http://"@, h) {
                lemma_unmasked_url(s, "http://"@, h);
                assert(rest.subrange(0, 7) =~= s.subrange(h, h + 7));
            } else {
                lemma_unmasked_url(s, "https://"@, h);
                assert(rest.subrange(0, 8) =~= s.subrange(h, h + 8));
            }
            assert(raw =~= rest.subrange(0, raw.len() as int));
            if text::byte_len(raw) > 8 {
                lemma_long_prefix_is_full_url(rest, raw);
            }
            lemma_full_urls_add(c, bare_from(m, s, links, next));
        }
    }
}

/// Every citation of a text has an http or https URL with something behind the
/// scheme, whichever extractor found it.
pub proof fn citations_have_full_urls(s: Seq<char>)
    ensures
        all_full_urls(url_citations(s)),
        all_full_urls(structured_citations(s)),
        all_full_urls(all_citations(s)),
{
    let m = masked(s);
    let links = links_from(m, s, 0);
    let p = url_citations(s);
    let q = structured_citations(s);
    lemma_links_are_full(m, s, 0);
    lemma_bare_are_full(s, links, 0);
    lemma_full_urls_add(links, bare_from(m, s, links, 0));
    lemma_full_urls_in_order(links + bare_from(m, s, links, 0));
    let footnotes = citation_structured::footnotes_from(
        s,
        citation_structured::definitions_in(RefKind::Footnote, s),
        0,
    );
    let refs = citation_structured::numeric_refs_from(
        s,
        citation_structured::definitions_in(RefKind::Numeric, s),
        0,
    );
    let sources = citation_structured::source_sections(s);
    citation_structured::structured_urls_are_full(s);
    lemma_full_urls_add(footnotes, refs);
    lemma_full_urls_add(footnotes + refs, sources);
    lemma_full_urls_in_order(footnotes + refs + sources);
    merging_cites_each_url_once(p, q);
    lemma_full_urls_add(p, q);
    assert forall|k: int| 0 <= k < all_citations(s).len() implies is_full_url(
        (#[trigger] all_citations(s)[k]).url,
    ) by {
        assert((p + q).contains(all_citations(s)[k]));
        let j = choose|j: int| 0 <= j < (p + q).len() && (p + q)[j] == all_citations(s)[k];
        assert(is_full_url((p + q)[j].url));
    }
}

} // verus!
