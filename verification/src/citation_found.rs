//! That the citations of a text miss nothing: every URL outside code is covered.

use crate::citation;
use crate::citation::CitationView;
use crate::citation_structured;
use crate::citation_structured::{DefinitionView, RefKind};
use crate::text;
use vstd::prelude::*;
use vstd::string::*;

verus! {

/// A citation covers the byte at `offset`.
pub open spec fn is_covered(s: Seq<CitationView>, offset: nat) -> bool {
    exists|k: int| 0 <= k < s.len() && (#[trigger] s[k]).start <= offset < s[k].end
}

/// A citation runs from position `p` of `s` to `q`, and is the target of a
/// markdown link.
pub open spec fn cites_target(s: Seq<char>, cited: Seq<CitationView>, p: int, q: int) -> bool {
    &&& 2 <= p <= q < s.len()
    &&& s[p - 2] == ']'
    &&& s[p - 1] == '('
    &&& s[q] == ')'
    &&& exists|k: int|
        0 <= k < cited.len() && (#[trigger] cited[k]).start == text::byte_offset(s, p)
            && cited[k].end == text::byte_offset(s, q)
}

/// Position `h` of `s` stands in one run of URL characters with the target
/// `p..q` of a cited link, behind it: the run starts at `a` in the target.
pub open spec fn trails_link(
    s: Seq<char>,
    cited: Seq<CitationView>,
    h: int,
    a: int,
    p: int,
    q: int,
) -> bool {
    &&& p <= a < q <= h
    &&& citation::is_url_at(citation::masked(s), a)
    &&& h < citation::bare_url_end(s, a)
    &&& cites_target(s, cited, p, q)
}

/// Position `h` of `s` trails some link.
pub open spec fn trails_some_link(s: Seq<char>, cited: Seq<CitationView>, h: int) -> bool {
    exists|a: int, p: int, q: int| #[trigger] trails_link(s, cited, h, a, p, q)
}

/// The URL that stands in `s` at `h`, up to its end and without the sentence's
/// own punctuation.
pub open spec fn url_text(s: Seq<char>, h: int) -> Seq<char> {
    citation::without_sentence_tail(s.subrange(h, citation::bare_url_end(s, h)))
}

// ── runs of URL characters ──

/// A URL in the masked copy is one in the text: its first characters.
proof fn lemma_url_chars(s: Seq<char>, h: int)
    requires
        citation::is_url_at(citation::masked(s), h),
    ensures
        0 <= h,
        h + 7 <= s.len(),
        s[h] == 'h',
        s[h + 1] == 't',
        s[h + 2] == 't',
        s[h + 3] == 'p',
        s[h + 6] == '/',
        text::matches_at(citation::masked(s), "http"@, h),
        forall|k: int| h <= k < h + 7 ==> #[trigger] citation::masked(s)[k] == s[k],
{
    reveal_strlit("http://");
    reveal_strlit("https://");
    reveal_strlit("http");
    let m = citation::masked(s);
    citation::masking_keeps_positions(s);
    let pat = if text::matches_at(m, "http://"@, h) {
        "http://"@
    } else {
        "https://"@
    };
    let n = pat.len() as int;
    assert forall|k: int| 0 <= k < n implies #[trigger] m[h + k] == pat[k] by {
        assert(m.subrange(h, h + n)[k] == m[h + k]);
    }
    assert(m[h + 0] == 'h' && m[h + 1] == 't' && m[h + 2] == 't' && m[h + 3] == 'p' && m[h + 6]
        == '/');
    assert(m[h + 4] != ' ' && m[h + 5] != ' ');
    assert(m.subrange(h, h + 4) =~= "http"@);
}

/// A run of URL characters ends at the same place from wherever it is read.
proof fn lemma_run_end(s: Seq<char>, a: int, h: int)
    requires
        0 <= a <= h < citation::bare_url_end(s, a),
        h < s.len(),
    ensures
        citation::bare_url_end(s, h) == citation::bare_url_end(s, a),
    decreases h - a,
{
    if a < h {
        lemma_run_end(s, a + 1, h);
    }
}

/// Nothing inside a run ends it.
proof fn lemma_run_inside(s: Seq<char>, a: int, k: int)
    requires
        0 <= a <= k < citation::bare_url_end(s, a),
        k < s.len(),
    ensures
        !citation::ends_bare_url(s[k]),
    decreases k - a,
{
    if a < k {
        lemma_run_inside(s, a + 1, k);
    }
}

/// Stripping stops behind a slash.
proof fn lemma_strip_stops(x: Seq<char>, k: int)
    requires
        0 <= k < x.len(),
        x[k] == '/',
    ensures
        citation::without_sentence_tail(x).len() > k,
    decreases x.len(),
{
    if citation::has_sentence_tail(x) {
        if k == x.len() - 1 {
            assert(x.last() == '/');
        } else {
            lemma_strip_stops(x.drop_last(), k);
        }
    }
}

/// A URL that starts inside the run of another lies inside that one's text, and
/// two such starts are at least four characters apart.
proof fn lemma_run_covers(s: Seq<char>, a: int, h: int)
    requires
        citation::is_url_at(citation::masked(s), a),
        citation::is_url_at(citation::masked(s), h),
        a < h < citation::bare_url_end(s, a),
    ensures
        url_text(s, a).len() > h - a,
        text::byte_len(url_text(s, a)) > 8,
{
    lemma_url_chars(s, a);
    lemma_url_chars(s, h);
    assert(h >= a + 4);
    citation::lemma_bare_url_end(s, a);
    lemma_run_end(s, a, h);
    let end = citation::bare_url_end(s, a);
    lemma_slash_in_run(s, h);
    let whole = s.subrange(a, end);
    assert(whole[h + 6 - a] == s[h + 6]);
    lemma_strip_stops(whole, h + 6 - a);
    text::lemma_byte_len_at_least_len(url_text(s, a));
}

/// The run of a URL goes past its scheme.
proof fn lemma_slash_in_run(s: Seq<char>, h: int)
    requires
        citation::is_url_at(citation::masked(s), h),
    ensures
        h + 6 < citation::bare_url_end(s, h),
{
    lemma_url_chars(s, h);
    reveal_strlit("http://");
    reveal_strlit("https://");
    let m = citation::masked(s);
    assert forall|k: int| h <= k < h + 7 implies !citation::ends_bare_url(#[trigger] s[k]) by {
        let pat = if text::matches_at(m, "http://"@, h) {
            "http://"@
        } else {
            "https://"@
        };
        assert(m.subrange(h, h + pat.len())[k - h] == m[k]);
        assert(m[k] == pat[k - h]);
    }
    lemma_run_goes_on(s, h, h + 7);
}

proof fn lemma_run_goes_on(s: Seq<char>, h: int, to: int)
    requires
        0 <= h <= to <= s.len(),
        forall|k: int| h <= k < to ==> !citation::ends_bare_url(#[trigger] s[k]),
    ensures
        citation::bare_url_end(s, h) >= to,
    decreases to - h,
{
    citation::lemma_bare_url_end(s, h);
    if h < to {
        assert(!citation::ends_bare_url(s[h]));
        lemma_run_goes_on(s, h + 1, to);
    }
}

// ── links ──

/// The citation `c` is the target `p..q` of a markdown link.
pub open spec fn is_target(m: Seq<char>, s: Seq<char>, c: CitationView, p: int, q: int) -> bool {
    &&& 2 <= p <= q < m.len()
    &&& m[p - 2] == ']'
    &&& m[p - 1] == '('
    &&& m[q] == ')'
    &&& c.start == text::byte_offset(s, p)
    &&& c.end == text::byte_offset(s, q)
}

/// The citation is the target of some markdown link.
pub open spec fn has_target(m: Seq<char>, s: Seq<char>, c: CitationView) -> bool {
    exists|p: int, q: int| #[trigger] is_target(m, s, c, p, q)
}

proof fn lemma_paren_closes(s: Seq<char>, i: int, depth: int)
    requires
        0 <= i <= s.len(),
    ensures
        citation::paren_close(s, i, depth) < s.len() ==> s[citation::paren_close(s, i, depth)]
            == ')',
    decreases s.len() - i,
{
    if i < s.len() {
        if s[i] == '(' {
            lemma_paren_closes(s, i + 1, depth + 1);
        } else if s[i] == ')' {
            if depth != 0 {
                lemma_paren_closes(s, i + 1, depth - 1);
            }
        } else {
            lemma_paren_closes(s, i + 1, depth);
        }
    }
}

proof fn lemma_links_have_targets(m: Seq<char>, s: Seq<char>, scan: int)
    requires
        0 <= scan,
    ensures
        forall|k: int|
            0 <= k < citation::links_from(m, s, scan).len() ==> has_target(
                m,
                s,
                #[trigger] citation::links_from(m, s, scan)[k],
            ),
    decreases s.len() - scan,
{
    let lb = text::next_char(m, '[', scan);
    if m.len() == s.len() && lb < m.len() && lb >= scan {
        let rb = text::next_char(m, ']', lb + 1);
        text::lemma_next_char(m, ']', lb + 1);
        if rb >= m.len() || rb < lb + 1 {
            lemma_links_have_targets(m, s, lb + 1);
            assert(citation::links_from(m, s, scan) == citation::links_from(m, s, lb + 1));
        } else if !(rb + 1 < m.len() && m[rb + 1] == '(') {
            lemma_links_have_targets(m, s, rb + 1);
            assert(citation::links_from(m, s, scan) == citation::links_from(m, s, rb + 1));
        } else {
            let close = citation::paren_close(m, rb + 2, 0);
            if close >= m.len() || close < rb + 2 {
                lemma_links_have_targets(m, s, rb + 2);
            assert(citation::links_from(m, s, scan) == citation::links_from(m, s, rb + 2));
            } else {
                lemma_links_have_targets(m, s, close + 1);
                lemma_paren_closes(m, rb + 2, 0);
                let c = citation::link_citation(s, s.subrange(lb + 1, rb), rb + 2, close);
                let rest = citation::links_from(m, s, close + 1);
                assert(citation::links_from(m, s, scan) == c + rest);
                assert forall|k: int| 0 <= k < (c + rest).len() implies has_target(
                    m,
                    s,
                    #[trigger] (c + rest)[k],
                ) by {
                    if k < c.len() {
                        assert(is_target(m, s, c[k], rb + 2, close));
                    } else {
                        assert((c + rest)[k] == rest[k - c.len()]);
                    }
                }
            }
        }
    }
}

/// A URL text that shares a byte with a link's target starts inside it.
proof fn lemma_overlap_starts_inside(s: Seq<char>, c: CitationView, a: int, p: int, q: int)
    requires
        citation::is_url_at(citation::masked(s), a),
        is_target(citation::masked(s), s, c, p, q),
        text::byte_offset(s, a) < c.end,
        text::byte_offset(s, a) + text::byte_len(url_text(s, a)) > c.start,
    ensures
        p <= a < q,
        s[p - 2] == ']',
        s[p - 1] == '(',
        s[q] == ')',
{
    let m = citation::masked(s);
    citation::masking_keeps_positions(s);
    lemma_url_chars(s, a);
    assert(m[p - 2] == s[p - 2] && m[p - 1] == s[p - 1] && m[q] == s[q]);
    if a >= q {
        text::lemma_byte_offset_split(s, q, a);
    }
    if a < p {
        assert(a < p - 2);
        citation::lemma_bare_url_end(s, a);
        let end = citation::bare_url_end(s, a);
        if end > p - 2 {
            lemma_run_inside(s, a, p - 2);
        }
        let whole = s.subrange(a, end);
        let raw = url_text(s, a);
        citation::lemma_without_sentence_tail_prefix(whole);
        assert(whole.subrange(0, raw.len() as int) =~= s.subrange(a, a + raw.len()));
        text::lemma_byte_offset_split(s, a, a + raw.len());
        text::lemma_byte_offset_split(s, a + raw.len(), p);
    }
}

// ── every URL ──

/// A URL at or behind `i` is covered by a link or a bare URL found from `i` on,
/// or trails a link.
proof fn lemma_url_found(s: Seq<char>, i: int, h: int)
    requires
        0 <= i <= h,
        citation::is_url_at(citation::masked(s), h),
        text::byte_len(url_text(s, h)) > 8,
    ensures
        ({
            let m = citation::masked(s);
            let links = citation::links_from(m, s, 0);
            let found = links + citation::bare_from(m, s, links, i);
            is_covered(found, text::byte_offset(s, h)) || trails_some_link(s, links, h)
        }),
    decreases h - i,
{
    let m = citation::masked(s);
    let links = citation::links_from(m, s, 0);
    let bare = citation::bare_from(m, s, links, i);
    citation::masking_keeps_positions(s);
    lemma_url_chars(s, h);
    let a = text::next_text(m, "http"@, i);
    text::lemma_next_text(m, "http"@, i);
    assert(a <= h);
    reveal_strlit("http");
    assert(m.subrange(a, a + 4)[0] == m[a] && m.subrange(a, a + 4)[1] == m[a + 1] && m.subrange(
        a,
        a + 4,
    )[2] == m[a + 2] && m.subrange(a, a + 4)[3] == m[a + 3]);
    if !citation::is_url_at(m, a) {
        assert(m[h] == 'h');
        assert(h >= a + 4);
        lemma_url_found(s, a + 4, h);
    } else {
        let end = citation::bare_url_end(s, a);
        let c = citation::bare_citation(s, links, a);
        let next = if end > a {
            end
        } else {
            a + 1
        };
        let rest = citation::bare_from(m, s, links, next);
        assert(bare == c + rest);
        lemma_slash_in_run(s, a);
        if next <= h {
            lemma_url_found(s, next, h);
            let offset = text::byte_offset(s, h);
            if is_covered(links + rest, offset) {
                let k = choose|k: int|
                    0 <= k < (links + rest).len() && (#[trigger] (links + rest)[k]).start <= offset
                        < (links + rest)[k].end;
                if k < links.len() {
                    assert((links + bare)[k] == (links + rest)[k]);
                } else {
                    let j = k + c.len();
                    assert((links + bare)[j] == rest[k - links.len()]);
                    assert((links + bare)[j] == (links + rest)[k]);
                }
            }
        } else {
            if a < h {
                lemma_run_covers(s, a, h);
            } else {
                text::lemma_byte_len_at_least_len(url_text(s, a));
            }
            lemma_run_found(s, a, h, i);
        }
    }
}

/// A URL inside the run that is looked at is covered by it or by a link, or
/// trails a link.
proof fn lemma_run_found(s: Seq<char>, a: int, h: int, i: int)
    requires
        0 <= i <= a <= h < citation::bare_url_end(s, a),
        a == text::next_text(citation::masked(s), "http"@, i),
        citation::is_url_at(citation::masked(s), a),
        h < s.len(),
        text::byte_len(url_text(s, a)) > 8,
        url_text(s, a).len() > h - a || a == h,
    ensures
        ({
            let m = citation::masked(s);
            let links = citation::links_from(m, s, 0);
            let found = links + citation::bare_from(m, s, links, i);
            is_covered(found, text::byte_offset(s, h)) || trails_some_link(s, links, h)
        }),
{
    let m = citation::masked(s);
    let links = citation::links_from(m, s, 0);
    let bare = citation::bare_from(m, s, links, i);
    citation::masking_keeps_positions(s);
    citation::lemma_bare_url_end(s, a);
    let c = citation::bare_citation(s, links, a);
    let end = citation::bare_url_end(s, a);
    let rest = citation::bare_from(m, s, links, end);
    assert(bare == c + rest);
    let raw = url_text(s, a);
    let start = text::byte_offset(s, a);
    let whole = s.subrange(a, end);
    citation::lemma_without_sentence_tail_prefix(whole);
    if raw.len() == 0 {
        assert(text::byte_len(raw) == 0);
    }
    assert(raw =~= s.subrange(a, a + raw.len()));
    text::lemma_byte_offset_split(s, a, h);
    text::lemma_byte_offset_split(s, a, a + raw.len());
    text::lemma_byte_offset_split(s, h, a + raw.len());
    text::lemma_byte_len_at_least_len(s.subrange(h, a + raw.len()));
    if !citation::overlaps_any(links, start, start + text::byte_len(raw)) {
        assert((links + bare)[links.len() as int] == c[0]);
    } else {
        let k = choose|k: int|
            0 <= k < links.len() && start < (#[trigger] links[k]).end && start + text::byte_len(raw)
                > links[k].start;
        lemma_links_have_targets(m, s, 0);
        assert(has_target(m, s, links[k]));
        let (p, q) = choose|p: int, q: int| #[trigger] is_target(m, s, links[k], p, q);
        lemma_overlap_starts_inside(s, links[k], a, p, q);
        if h < q {
            text::lemma_byte_offset_split(s, p, h);
            text::lemma_byte_offset_split(s, h, q);
            text::lemma_byte_len_at_least_len(s.subrange(h, q));
            assert((links + bare)[k] == links[k]);
        } else {
            assert(cites_target(s, links, p, q));
            assert(trails_link(s, links, h, a, p, q));
        }
    }
}

/// No URL is missed: wherever `http://` or `https://` stands outside code and
/// begins a URL of more than eight bytes, a citation covers it. The one exception
/// is a URL that follows the target of a cited link in the same run of URL
/// characters, as in `[a](https://a.org)https://b.org`.
pub proof fn every_url_is_cited(s: Seq<char>, h: int)
    requires
        citation::is_url_at(citation::masked(s), h),
        text::byte_len(url_text(s, h)) > 8,
    ensures
        is_covered(citation::url_citations(s), text::byte_offset(s, h)) || trails_some_link(
            s,
            citation::url_citations(s),
            h,
        ),
{
    let m = citation::masked(s);
    let links = citation::links_from(m, s, 0);
    let found = links + citation::bare_from(m, s, links, 0);
    let cited = citation::url_citations(s);
    let offset = text::byte_offset(s, h);
    lemma_url_chars(s, h);
    lemma_url_found(s, 0, h);
    citation::lemma_document_order_members(found);
    if is_covered(found, offset) {
        let k = choose|k: int|
            0 <= k < found.len() && (#[trigger] found[k]).start <= offset < found[k].end;
        assert(found.contains(found[k]));
        let j = choose|j: int| 0 <= j < cited.len() && cited[j] == found[k];
        assert(cited[j].start <= offset < cited[j].end);
    } else {
        let (a, p, q) = choose|a: int, p: int, q: int| #[trigger]
            trails_link(s, links, h, a, p, q);
        let k = choose|k: int|
            0 <= k < links.len() && (#[trigger] links[k]).start == text::byte_offset(s, p)
                && links[k].end == text::byte_offset(s, q);
        assert(found[k] == links[k]);
        assert(found.contains(found[k]));
        let j = choose|j: int| 0 <= j < cited.len() && cited[j] == found[k];
        assert(cites_target(s, cited, p, q));
        assert(trails_link(s, cited, h, a, p, q));
    }
}

// ── every link ──

/// A markdown link `[title](target)` outside code whose title stands between
/// the brackets at `lb` and `rb` and whose target ends at `close`: the first
/// opening bracket behind the last closing one, in no other link's parentheses.
pub open spec fn is_link(m: Seq<char>, lb: int, rb: int, close: int) -> bool {
    &&& 0 <= lb < rb
    &&& rb + 2 <= close < m.len()
    &&& m[lb] == '['
    &&& m[rb] == ']'
    &&& m[rb + 1] == '('
    &&& close == citation::paren_close(m, rb + 2, 0)
    &&& forall|k: int| lb < k < rb ==> #[trigger] m[k] != ']'
    &&& forall|k: int| 0 <= k < lb && #[trigger] m[k] == '[' ==> closes_before(m, k, lb)
    &&& forall|k: int|
        0 <= k < lb && #[trigger] m[k] == ']' && m[k + 1] == '(' ==> !(lb
            < citation::paren_close(m, k + 2, 0) < m.len())
}

/// A closing bracket stands between `k` and `lb`.
pub open spec fn closes_before(m: Seq<char>, k: int, lb: int) -> bool {
    exists|j: int| k < j < lb && #[trigger] m[j] == ']'
}

/// A link at or behind `scan` is found from there.
proof fn lemma_link_found(m: Seq<char>, s: Seq<char>, scan: int, lb: int, rb: int, close: int)
    requires
        m.len() == s.len(),
        is_link(m, lb, rb, close),
        0 <= scan <= lb,
        citation::is_full_url(text::trim(s.subrange(rb + 2, close))),
    ensures
        citation::links_from(m, s, scan).contains(
            CitationView {
                start: text::byte_offset(s, rb + 2),
                end: text::byte_offset(s, close),
                url: text::trim(s.subrange(rb + 2, close)),
                title: s.subrange(lb + 1, rb),
            },
        ),
    decreases lb - scan,
{
    let want = CitationView {
        start: text::byte_offset(s, rb + 2),
        end: text::byte_offset(s, close),
        url: text::trim(s.subrange(rb + 2, close)),
        title: s.subrange(lb + 1, rb),
    };
    let l = text::next_char(m, '[', scan);
    text::lemma_next_char(m, '[', scan);
    let r = text::next_char(m, ']', l + 1);
    assert(l <= lb);
    text::lemma_next_char(m, ']', l + 1);
    let all = citation::links_from(m, s, scan);
    if l == lb {
        assert(r == rb);
        let c = citation::link_citation(s, s.subrange(lb + 1, rb), rb + 2, close);
        let rest = citation::links_from(m, s, close + 1);
        assert(all == c + rest);
        assert((c + rest)[0] == want);
        assert(all.contains(want));
    } else {
        assert(m[l] == '[');
        assert(closes_before(m, l, lb));
        let j = choose|j: int| l < j < lb && #[trigger] m[j] == ']';
        assert(r <= j);
        assert(m[r] == ']');
        if m[r + 1] != '(' {
            lemma_link_found(m, s, r + 1, lb, rb, close);
            assert(all == citation::links_from(m, s, r + 1));
        } else {
            let end = citation::paren_close(m, r + 2, 0);
            citation::lemma_paren_close(m, r + 2, 0);
            if end >= m.len() {
                lemma_link_found(m, s, r + 2, lb, rb, close);
                assert(all == citation::links_from(m, s, r + 2));
            } else {
                lemma_paren_closes(m, r + 2, 0);
                assert(end < lb);
                lemma_link_found(m, s, end + 1, lb, rb, close);
                let c = citation::link_citation(s, s.subrange(l + 1, r), r + 2, end);
                let rest = citation::links_from(m, s, end + 1);
                assert(all == c + rest);
                let k = choose|k: int| 0 <= k < rest.len() && rest[k] == want;
                assert((c + rest)[c.len() + k] == want);
            }
        }
    }
}

/// Every markdown link to an http or https URL outside code is cited, over its
/// target and under its own title.
pub proof fn every_link_is_cited(s: Seq<char>, lb: int, rb: int, close: int)
    requires
        is_link(citation::masked(s), lb, rb, close),
        citation::is_full_url(text::trim(s.subrange(rb + 2, close))),
    ensures
        citation::url_citations(s).contains(
            CitationView {
                start: text::byte_offset(s, rb + 2),
                end: text::byte_offset(s, close),
                url: text::trim(s.subrange(rb + 2, close)),
                title: s.subrange(lb + 1, rb),
            },
        ),
{
    let m = citation::masked(s);
    let links = citation::links_from(m, s, 0);
    let found = links + citation::bare_from(m, s, links, 0);
    let want = CitationView {
        start: text::byte_offset(s, rb + 2),
        end: text::byte_offset(s, close),
        url: text::trim(s.subrange(rb + 2, close)),
        title: s.subrange(lb + 1, rb),
    };
    citation::masking_keeps_positions(s);
    lemma_link_found(m, s, 0, lb, rb, close);
    let k = choose|k: int| 0 <= k < links.len() && links[k] == want;
    assert(found[k] == want);
    assert(found.contains(want));
    citation::lemma_document_order_members(found);
}

/// The parenthesis that closes a link's target is the first one that no opening
/// one in the target matches.
pub proof fn targets_end_at_their_parenthesis(s: Seq<char>, i: int)
    requires
        0 <= i <= s.len(),
    ensures
        ({
            let close = citation::paren_close(s, i, 0);
            &&& i <= close <= s.len()
            &&& close < s.len() ==> s[close] == ')' && text::count_char(
                s.subrange(i, close),
                '(',
            ) == text::count_char(s.subrange(i, close), ')')
            &&& forall|k: int|
                i <= k <= close ==> text::count_char(#[trigger] s.subrange(i, k), ')')
                    <= text::count_char(s.subrange(i, k), '(')
        }),
{
    assert(s.subrange(i, i) =~= Seq::<char>::empty());
    lemma_depth(s, i, i, 0);
}

/// Parentheses counted from `i`, with `depth` open at `k`.
proof fn lemma_depth(s: Seq<char>, i: int, k: int, depth: int)
    requires
        0 <= i <= k <= s.len(),
        depth >= 0,
        text::count_char(s.subrange(i, k), '(') == text::count_char(s.subrange(i, k), ')') + depth,
    ensures
        ({
            let close = citation::paren_close(s, k, depth);
            &&& k <= close <= s.len()
            &&& close < s.len() ==> s[close] == ')' && text::count_char(
                s.subrange(i, close),
                '(',
            ) == text::count_char(s.subrange(i, close), ')')
            &&& forall|j: int|
                k <= j <= close ==> text::count_char(#[trigger] s.subrange(i, j), ')')
                    <= text::count_char(s.subrange(i, j), '(')
        }),
    decreases s.len() - k,
{
    if k < s.len() {
        assert(s.subrange(i, k + 1).drop_last() =~= s.subrange(i, k));
        assert(s.subrange(i, k + 1).last() == s[k]);
        if s[k] == '(' {
            lemma_depth(s, i, k + 1, depth + 1);
        } else if s[k] == ')' {
            if depth > 0 {
                lemma_depth(s, i, k + 1, depth - 1);
            }
        } else {
            lemma_depth(s, i, k + 1, depth);
        }
    }
}

// ── where a bare URL ends ──

/// A bare URL runs to white space or one of the characters that never stand in
/// one, or to the end of the text.
pub proof fn bare_urls_run_to_a_delimiter(s: Seq<char>, i: int)
    requires
        0 <= i <= s.len(),
    ensures
        ({
            let end = citation::bare_url_end(s, i);
            &&& i <= end <= s.len()
            &&& end < s.len() ==> text::is_space(s[end]) || seq![
                ']',
                '}',
                '"',
                '<',
                '>',
                '`',
                '\\',
            ].contains(s[end])
            &&& forall|k: int|
                i <= k < end ==> !text::is_space(#[trigger] s[k]) && s[k] != ']' && s[k] != '}'
                    && s[k] != '"' && s[k] != '<' && s[k] != '>' && s[k] != '`' && s[k] != '\\'
        }),
    decreases s.len() - i,
{
    let all = seq![']', '}', '"', '<', '>', '`', '\\'];
    assert(all[0] == ']' && all[1] == '}' && all[2] == '"' && all[3] == '<' && all[4] == '>'
        && all[5] == '`' && all[6] == '\\');
    if i < s.len() && !citation::ends_bare_url(s[i]) {
        bare_urls_run_to_a_delimiter(s, i + 1);
    }
}

/// The last character of `s` is the sentence's: punctuation or an emphasis
/// marker, or a closing parenthesis that opens nowhere in `s`.
pub open spec fn ends_sentence(s: Seq<char>) -> bool {
    &&& s.len() > 0
    &&& s.last() == '.' || s.last() == ',' || s.last() == ';' || s.last() == ':' || s.last() == '!'
        || s.last() == '?' || s.last() == '*' || s.last() == '_' || (s.last() == ')'
        && text::count_char(s, ')') > text::count_char(s, '('))
}

/// What is left of a URL without the sentence's punctuation is the longest
/// beginning of it that does not end in any: all that is cut off is such.
pub proof fn sentence_tails_are_cut_off(s: Seq<char>)
    ensures
        ({
            let url = citation::without_sentence_tail(s);
            &&& url.len() <= s.len()
            &&& url == s.take(url.len() as int)
            &&& !ends_sentence(url)
            &&& forall|n: int| url.len() < n <= s.len() ==> ends_sentence(#[trigger] s.take(n))
        }),
    decreases s.len(),
{
    assert(s.take(s.len() as int) =~= s);
    let url = citation::without_sentence_tail(s);
    if citation::has_sentence_tail(s) {
        let most = s.drop_last();
        sentence_tails_are_cut_off(most);
        assert forall|n: int| url.len() < n <= s.len() implies ends_sentence(
            #[trigger] s.take(n),
        ) by {
            if n < s.len() {
                assert(s.take(n) =~= most.take(n));
            }
        }
        assert(s.take(url.len() as int) =~= most.take(url.len() as int));
    }
}

// ── what is code ──

/// Masking from a position on is masking the rest.
proof fn lemma_masked_rest(s: Seq<char>, i: int, k: int)
    requires
        0 <= i <= k <= s.len(),
    ensures
        citation::masked_from(s, k) == citation::masked_from(s.skip(i), k - i),
    decreases s.len() - k,
{
    let t = s.skip(i);
    if k < s.len() {
        assert(t[k - i] == s[k]);
        if s[k] == '`' {
            assert(text::matches_at(s, "```"@, k) == text::matches_at(t, "```"@, k - i)) by {
                if k + "```"@.len() <= s.len() {
                    assert(s.subrange(k, k + "```"@.len()) =~= t.subrange(
                        k - i,
                        k - i + "```"@.len(),
                    ));
                }
            }
            lemma_next_text_rest(s, "```"@, i, k + 3);
            lemma_next_char_rest(s, '`', i, k + 1);
            let end = citation::code_span_end(s, k);
            assert(end == citation::code_span_end(t, k - i) + i);
            if k < end <= s.len() {
                lemma_masked_rest(s, i, end);
                assert(s.subrange(k, end) =~= t.subrange(k - i, end - i));
            }
        } else {
            lemma_masked_rest(s, i, k + 1);
        }
    }
}

proof fn lemma_next_text_rest(s: Seq<char>, pat: Seq<char>, i: int, k: int)
    requires
        0 <= i <= k,
        i <= s.len(),
    ensures
        text::next_text(s, pat, k) == text::next_text(s.skip(i), pat, k - i) + i,
    decreases s.len() - k,
{
    let t = s.skip(i);
    if k < s.len() {
        if k + pat.len() <= s.len() {
            assert(s.subrange(k, k + pat.len()) =~= t.subrange(k - i, k - i + pat.len()));
        }
        lemma_next_text_rest(s, pat, i, k + 1);
    }
}

proof fn lemma_next_char_rest(s: Seq<char>, c: char, i: int, k: int)
    requires
        0 <= i <= k,
        i <= s.len(),
    ensures
        text::next_char(s, c, k) == text::next_char(s.skip(i), c, k - i) + i,
    decreases s.len() - k,
{
    if k < s.len() {
        assert(s.skip(i)[k - i] == s[k]);
        lemma_next_char_rest(s, c, i, k + 1);
    }
}

/// Text in front of the first backtick is kept.
proof fn lemma_masked_front(s: Seq<char>, i: int, n: int)
    requires
        0 <= i <= n <= s.len(),
        forall|k: int| i <= k < n ==> #[trigger] s[k] != '`',
    ensures
        citation::masked_from(s, i) == s.subrange(i, n) + citation::masked_from(s, n),
    decreases n - i,
{
    if i < n {
        lemma_masked_front(s, i + 1, n);
        assert(s.subrange(i, n) =~= seq![s[i]] + s.subrange(i + 1, n));
        assert(citation::masked_from(s, i) =~= s.subrange(i, n) + citation::masked_from(s, n));
    } else {
        assert(s.subrange(i, n) =~= Seq::<char>::empty());
        assert(citation::masked_from(s, i) =~= s.subrange(i, n) + citation::masked_from(s, n));
    }
}

/// `m` shows `s` up to `a`, blanks from there to `b` but for line ends, and the
/// masked rest behind.
pub open spec fn blanks_between(s: Seq<char>, a: int, b: int) -> bool {
    let m = citation::masked(s);
    &&& m.len() == s.len()
    &&& m.take(a) == s.take(a)
    &&& forall|k: int| a <= k < b ==> #[trigger] m[k] == if s[k] == '\n' {
        '\n'
    } else {
        ' '
    }
    &&& m.skip(b) == citation::masked(s.skip(b))
}

/// The first code span of a text is blanked and nothing before it: from its
/// backtick to the next one, from three backticks to the next three, or to the
/// end of the text when it is never closed. What follows is masked by itself.
pub proof fn code_is_blanked(s: Seq<char>, a: int)
    requires
        0 <= a < s.len(),
        s[a] == '`',
        forall|k: int| 0 <= k < a ==> #[trigger] s[k] != '`',
    ensures
        !text::matches_at(s, "```"@, a) ==> {
            let next = text::next_char(s, '`', a + 1);
            blanks_between(
                s,
                a,
                if next < s.len() {
                    next + 1
                } else {
                    s.len() as int
                },
            )
        },
        text::matches_at(s, "```"@, a) ==> {
            let next = text::next_text(s, "```"@, a + 3);
            blanks_between(
                s,
                a,
                if next < s.len() {
                    next + 3
                } else {
                    s.len() as int
                },
            )
        },
{
    reveal_strlit("```");
    citation::masking_keeps_positions(s);
    text::lemma_next_char(s, '`', a + 1);
    text::lemma_next_text(s, "```"@, a + 3);
    let m = citation::masked(s);
    let end = citation::code_span_end(s, a);
    lemma_masked_front(s, 0, a);
    lemma_masked_rest(s, end, end);
    let span = citation::blanked(s.subrange(a, end));
    let rest = citation::masked(s.skip(end));
    assert(m == s.subrange(0, a) + (span + rest));
    citation::masking_keeps_positions(s.skip(end));
    assert(m.take(a) =~= s.take(a));
    assert(m.skip(end) =~= rest);
    assert forall|k: int| a <= k < end implies #[trigger] m[k] == if s[k] == '\n' {
        '\n'
    } else {
        ' '
    } by {
        assert(m[k] == span[k - a]);
        assert(s.subrange(a, end)[k - a] == s[k]);
    }
}

// ── every reference ──

/// Line `k` of `lines` defines `label` as `d`, and no later one defines it.
pub open spec fn defines(
    kind: RefKind,
    s: Seq<char>,
    lines: Seq<(int, int)>,
    k: int,
    d: DefinitionView,
) -> bool {
    &&& 0 <= k < lines.len()
    &&& citation_structured::line_definition(kind, s.subrange(lines[k].0, lines[k].1)) == Some(d)
    &&& forall|j: int|
        k < j < lines.len() ==> {
            let later = citation_structured::line_definition(
                kind,
                s.subrange((#[trigger] lines[j]).0, lines[j].1),
            );
            later is None || later->0.label != d.label
        }
}

proof fn lemma_lookup_line(
    kind: RefKind,
    s: Seq<char>,
    lines: Seq<(int, int)>,
    k: int,
    d: DefinitionView,
)
    requires
        defines(kind, s, lines, k, d),
    ensures
        citation_structured::lookup(
            citation_structured::definitions(kind, s, lines),
            d.label,
        ) == Some(d),
    decreases lines.len(),
{
    let most = lines.drop_last();
    let before = citation_structured::definitions(kind, s, most);
    let last = lines.len() - 1;
    assert(lines[last] == lines.last());
    if k < last {
        assert forall|j: int| k < j < most.len() implies {
            let later = citation_structured::line_definition(
                kind,
                s.subrange((#[trigger] most[j]).0, most[j].1),
            );
            later is None || later->0.label != d.label
        } by {
            assert(most[j] == lines[j]);
        }
        assert(most[k] == lines[k]);
        lemma_lookup_line(kind, s, most, k, d);
        let later = citation_structured::line_definition(
            kind,
            s.subrange(lines[last].0, lines[last].1),
        );
        if later is Some {
            assert(before.push(later->0).drop_last() =~= before);
        }
    } else {
        assert(before.push(d).last() == d);
    }
}

/// The citation of a reference at `start..end` that `d` defines.
pub open spec fn reference_citation(
    s: Seq<char>,
    start: int,
    end: int,
    d: DefinitionView,
) -> CitationView {
    CitationView {
        start: text::byte_offset(s, start),
        end: text::byte_offset(s, end),
        url: d.url,
        title: match d.title {
            Some(t) => t,
            None => d.label,
        },
    }
}

proof fn lemma_footnote_found(
    s: Seq<char>,
    defs: Seq<DefinitionView>,
    i: int,
    start: int,
    close: int,
    d: DefinitionView,
)
    requires
        0 <= i <= start,
        text::matches_at(s, "[^"@, start),
        close == text::next_char(s, ']', start),
        close < s.len(),
        !citation_structured::is_footnote_site(s, start, close),
        forall|k: int| 0 <= k < start && #[trigger] text::matches_at(s, "[^"@, k) ==> text::next_char(
            s,
            ']',
            k,
        ) < start,
        citation_structured::lookup(defs, d.label) == Some(d),
        d.label == s.subrange(start + 2, close),
    ensures
        citation_structured::footnotes_from(s, defs, i).contains(
            reference_citation(s, start, close + 1, d),
        ),
    decreases start - i,
{
    let want = reference_citation(s, start, close + 1, d);
    let a = text::next_text(s, "[^"@, i);
    text::lemma_next_text(s, "[^"@, i);
    assert(a <= start);
    text::lemma_next_char(s, ']', a);
    let b = text::next_char(s, ']', a);
    let all = citation_structured::footnotes_from(s, defs, i);
    let rest = citation_structured::footnotes_from(s, defs, b + 1);
    if a == start {
        let c = citation_structured::ref_citation(
            s,
            defs,
            s.subrange(start + 2, close),
            start,
            close + 1,
        );
        assert(all == c + rest);
        assert((c + rest)[0] == want);
    } else {
        assert(text::matches_at(s, "[^"@, a));
        assert(b < start);
        lemma_footnote_found(s, defs, b + 1, start, close, d);
        let k = choose|k: int| 0 <= k < rest.len() && rest[k] == want;
        if citation_structured::is_footnote_site(s, a, b) {
            assert(all == rest);
        } else {
            let c = citation_structured::ref_citation(s, defs, s.subrange(a + 2, b), a, b + 1);
            assert(all == c + rest);
            assert((c + rest)[c.len() + k] == want);
        }
    }
}

/// Every footnote reference whose label some line defines is cited, with the URL
/// and title of the last such line.
pub proof fn every_footnote_is_cited(
    s: Seq<char>,
    start: int,
    close: int,
    k: int,
    d: DefinitionView,
)
    requires
        text::matches_at(s, "[^"@, start),
        close == text::next_char(s, ']', start),
        close < s.len(),
        !(citation_structured::begins_line(s, start) && close + 1 < s.len() && s[close + 1] == ':'),
        forall|j: int| 0 <= j < start && #[trigger] text::matches_at(s, "[^"@, j) ==> text::next_char(
            s,
            ']',
            j,
        ) < start,
        defines(RefKind::Footnote, s, text::lines_from(s, 0), k, d),
        d.label == s.subrange(start + 2, close),
    ensures
        citation::structured_citations(s).contains(reference_citation(s, start, close + 1, d)),
{
    let lines = text::lines_from(s, 0);
    let defs = citation_structured::definitions_in(RefKind::Footnote, s);
    lemma_lookup_line(RefKind::Footnote, s, lines, k, d);
    lemma_footnote_found(s, defs, 0, start, close, d);
    let notes = citation_structured::footnotes_from(s, defs, 0);
    let want = reference_citation(s, start, close + 1, d);
    let j = choose|j: int| 0 <= j < notes.len() && notes[j] == want;
    assert(citation::found_structures(s)[j] == want);
    assert(citation::found_structures(s).contains(want));
    citation::lemma_document_order_members(citation::found_structures(s));
}

proof fn lemma_number_found(
    s: Seq<char>,
    defs: Seq<DefinitionView>,
    i: int,
    start: int,
    close: int,
    d: DefinitionView,
)
    requires
        0 <= i <= start < s.len(),
        s[start] == '[',
        close == text::next_char(s, ']', start + 1),
        close < s.len(),
        text::is_number(s.subrange(start + 1, close)),
        !citation_structured::is_numeric_site(s, start),
        citation_structured::lookup(defs, d.label) == Some(d),
        d.label == s.subrange(start + 1, close),
    ensures
        citation_structured::numeric_refs_from(s, defs, i).contains(
            reference_citation(s, start, close + 1, d),
        ),
    decreases start - i,
{
    let want = reference_citation(s, start, close + 1, d);
    let a = text::next_char(s, '[', i);
    text::lemma_next_char(s, '[', i);
    assert(a <= start);
    let b = text::next_char(s, ']', a + 1);
    text::lemma_next_char(s, ']', a + 1);
    text::lemma_next_char(s, ']', start + 1);
    assert(b <= close);
    let all = citation_structured::numeric_refs_from(s, defs, i);
    let label = s.subrange(a + 1, b);
    if a == start {
        let rest = citation_structured::numeric_refs_from(s, defs, close + 1);
        let c = citation_structured::ref_citation(s, defs, label, start, close + 1);
        assert(all == c + rest);
        assert((c + rest)[0] == want);
    } else if text::is_number(label) {
        if b > start {
            assert(label[start - a - 1] == s[start]);
        }
        assert(b < start);
        let rest = citation_structured::numeric_refs_from(s, defs, b + 1);
        lemma_number_found(s, defs, b + 1, start, close, d);
        let c = if citation_structured::is_numeric_site(s, a) {
            Seq::empty()
        } else {
            citation_structured::ref_citation(s, defs, label, a, b + 1)
        };
        assert(all == c + rest);
        let k = choose|k: int| 0 <= k < rest.len() && rest[k] == want;
        assert((c + rest)[c.len() + k] == want);
    } else {
        lemma_number_found(s, defs, a + 1, start, close, d);
        assert(all == citation_structured::numeric_refs_from(s, defs, a + 1));
    }
}

/// Every numeric reference whose number some line defines is cited, with the URL
/// and title of the last such line.
pub proof fn every_number_is_cited(
    s: Seq<char>,
    start: int,
    close: int,
    k: int,
    d: DefinitionView,
)
    requires
        0 <= start < s.len(),
        s[start] == '[',
        close == text::next_char(s, ']', start + 1),
        close < s.len(),
        text::is_number(s.subrange(start + 1, close)),
        !citation_structured::is_numeric_site(s, start),
        defines(RefKind::Numeric, s, text::lines_from(s, 0), k, d),
        d.label == s.subrange(start + 1, close),
    ensures
        citation::structured_citations(s).contains(reference_citation(s, start, close + 1, d)),
{
    let lines = text::lines_from(s, 0);
    let defs = citation_structured::definitions_in(RefKind::Numeric, s);
    lemma_lookup_line(RefKind::Numeric, s, lines, k, d);
    lemma_number_found(s, defs, 0, start, close, d);
    let notes = citation_structured::footnotes_from(
        s,
        citation_structured::definitions_in(RefKind::Footnote, s),
        0,
    );
    let numbers = citation_structured::numeric_refs_from(s, defs, 0);
    let want = reference_citation(s, start, close + 1, d);
    let j = choose|j: int| 0 <= j < numbers.len() && numbers[j] == want;
    assert(citation::found_structures(s)[notes.len() + j] == want);
    assert(citation::found_structures(s).contains(want));
    citation::lemma_document_order_members(citation::found_structures(s));
}

// ── every source ──

/// Lines `0..=k` of a section are its sources so far: blank lines first, and
/// from the first source on none.
pub open spec fn are_sources(s: Seq<char>, lines: Seq<(int, int)>, first: int, k: int) -> bool {
    &&& 0 <= first <= k < lines.len()
    &&& forall|j: int|
        0 <= j < first ==> text::trim_start(s.subrange((#[trigger] lines[j]).0, lines[j].1)).len()
            == 0
    &&& forall|j: int|
        first <= j <= k ==> citation_structured::bullet_citation(
            s,
            (#[trigger] lines[j]).0,
            lines[j].1,
        ) is Some && text::trim_start(s.subrange(lines[j].0, lines[j].1)).len() > 0
}

proof fn lemma_source_found(
    s: Seq<char>,
    lines: Seq<(int, int)>,
    first: int,
    k: int,
    i: int,
    seen: bool,
)
    requires
        are_sources(s, lines, first, k),
        0 <= i <= k,
        seen == (i > first),
    ensures
        citation_structured::section_from(s, lines, i, seen).contains(
            citation_structured::bullet_citation(s, lines[k].0, lines[k].1)->0,
        ),
    decreases k - i,
{
    let want = citation_structured::bullet_citation(s, lines[k].0, lines[k].1)->0;
    let (a, b) = lines[i];
    let all = citation_structured::section_from(s, lines, i, seen);
    if i < first {
        lemma_source_found(s, lines, first, k, i + 1, false);
    } else {
        let c = seq![citation_structured::bullet_citation(s, a, b)->0];
        let rest = citation_structured::section_from(s, lines, i + 1, true);
        assert(all == c + rest);
        if i == k {
            assert((c + rest)[0] == want);
        } else {
            lemma_source_found(s, lines, first, k, i + 1, true);
            let j = choose|j: int| 0 <= j < rest.len() && rest[j] == want;
            assert((c + rest)[1 + j] == want);
        }
    }
}

proof fn lemma_section_found(
    s: Seq<char>,
    marker: Seq<char>,
    i: int,
    h: int,
    c: CitationView,
)
    requires
        marker.len() > 0,
        0 <= i <= h,
        text::matches_at(text::ascii_lowercase(s), marker, h),
        text::ascii_lowercase(s).len() == s.len(),
        citation_structured::at_line_start(s, h),
        forall|p: int|
            0 <= p < h && #[trigger] text::matches_at(text::ascii_lowercase(s), marker, p) ==> p
                + marker.len() <= h,
        citation_structured::section_from(
            s,
            text::lines_from(s, h + marker.len()),
            0,
            false,
        ).contains(c),
    ensures
        citation_structured::sections_from(s, text::ascii_lowercase(s), marker, i).contains(c),
    decreases h - i,
{
    let lower = text::ascii_lowercase(s);
    let p = text::next_text(lower, marker, i);
    text::lemma_next_text(lower, marker, i);
    assert(p <= h);
    let after = p + marker.len();
    let all = citation_structured::sections_from(s, lower, marker, i);
    let rest = citation_structured::sections_from(s, lower, marker, after);
    let here = if citation_structured::at_line_start(s, p) {
        citation_structured::section_from(s, text::lines_from(s, after), 0, false)
    } else {
        Seq::empty()
    };
    assert(all == here + rest);
    if p == h {
        let k = choose|k: int| 0 <= k < here.len() && here[k] == c;
        assert((here + rest)[k] == c);
    } else {
        assert(text::matches_at(lower, marker, p));
        lemma_section_found(s, marker, after, h, c);
        let k = choose|k: int| 0 <= k < rest.len() && rest[k] == c;
        assert((here + rest)[here.len() + k] == c);
    }
}

/// A heading of sources stands in `s` at `h`.
pub open spec fn heads_sources(s: Seq<char>, marker: Seq<char>, h: int) -> bool {
    &&& marker == "sources:"@ || marker == "references:"@ || marker == "citations:"@
    &&& text::matches_at(text::ascii_lowercase(s), marker, h)
    &&& h == 0 || s[h - 1] == '\n'
}

/// Every source listed under a heading at the beginning of a line is cited: each
/// line from the first that holds a URL up to one that holds none.
pub proof fn every_source_is_cited(
    s: Seq<char>,
    marker: Seq<char>,
    h: int,
    first: int,
    k: int,
)
    requires
        heads_sources(s, marker, h),
        are_sources(s, text::lines_from(s, h + marker.len()), first, k),
    ensures
        ({
            let line = text::lines_from(s, h + marker.len())[k];
            citation::structured_citations(s).contains(
                citation_structured::bullet_citation(s, line.0, line.1)->0,
            )
        }),
{
    reveal_strlit("sources:");
    reveal_strlit("references:");
    reveal_strlit("citations:");
    let lower = text::ascii_lowercase(s);
    let lines = text::lines_from(s, h + marker.len());
    let c = citation_structured::bullet_citation(s, lines[k].0, lines[k].1)->0;
    assert(lower.len() == s.len());
    lemma_source_found(s, lines, first, k, 0, false);
    assert forall|p: int| 0 <= p < h && #[trigger] text::matches_at(lower, marker, p) implies p
        + marker.len() <= h by {
        lemma_markers_apart(s, marker, p, h);
    }
    lemma_section_found(s, marker, 0, h, c);
    let notes = citation_structured::footnotes_from(
        s,
        citation_structured::definitions_in(RefKind::Footnote, s),
        0,
    );
    let numbers = citation_structured::numeric_refs_from(
        s,
        citation_structured::definitions_in(RefKind::Numeric, s),
        0,
    );
    let one = citation_structured::sections_from(s, lower, "sources:"@, 0);
    let two = citation_structured::sections_from(s, lower, "references:"@, 0);
    let three = citation_structured::sections_from(s, lower, "citations:"@, 0);
    let mine = citation_structured::sections_from(s, lower, marker, 0);
    let j = choose|j: int| 0 <= j < mine.len() && mine[j] == c;
    let before = if marker == "sources:"@ {
        0
    } else if marker == "references:"@ {
        one.len() as int
    } else {
        (one.len() + two.len()) as int
    };
    assert((one + two + three)[before + j] == c);
    let at = notes.len() + numbers.len() + before + j;
    assert(citation::found_structures(s)[at] == c);
    assert(citation::found_structures(s).contains(c));
    citation::lemma_document_order_members(citation::found_structures(s));
}

/// No heading begins inside another.
proof fn lemma_markers_apart(s: Seq<char>, marker: Seq<char>, p: int, h: int)
    requires
        heads_sources(s, marker, h),
        0 <= p < h,
        text::matches_at(text::ascii_lowercase(s), marker, p),
    ensures
        p + marker.len() <= h,
{
    reveal_strlit("sources:");
    reveal_strlit("references:");
    reveal_strlit("citations:");
    let lower = text::ascii_lowercase(s);
    let n = marker.len() as int;
    if p + n > h {
        assert(lower.subrange(p, p + n)[h - 1 - p] == lower[h - 1]);
        assert(lower[h - 1] == marker[h - 1 - p]);
        assert(s[h - 1] == '\n');
        assert(lower[h - 1] == '\n');
    }
}

// ── what a line defines ──

proof fn lemma_skip_front(s: Seq<char>, i: int, n: int)
    requires
        0 <= i <= n < s.len(),
        forall|k: int| i <= k < n ==> text::is_space(#[trigger] s[k]),
        !text::is_space(s[n]),
    ensures
        text::skip_space(s, i, s.len() as int) == n,
    decreases n - i,
{
    if i < n {
        assert(text::is_space(s[i]));
        lemma_skip_front(s, i + 1, n);
    }
}

proof fn lemma_trim_indent(indent: Seq<char>, t: Seq<char>)
    requires
        forall|k: int| 0 <= k < indent.len() ==> text::is_space(#[trigger] indent[k]),
        t.len() > 0,
        !text::is_space(t[0]),
    ensures
        text::trim_start(indent + t) == t,
{
    let s = indent + t;
    assert(s[indent.len() as int] == t[0]);
    lemma_skip_front(s, 0, indent.len() as int);
    assert(text::trim_start(s) =~= t);
}

/// A URL as a definition or a source may name it, and what follows it: no
/// delimiter in the URL, one behind it, and no punctuation at its end.
pub open spec fn is_named_url(url: Seq<char>, rest: Seq<char>) -> bool {
    &&& citation::is_url_at(url, 0)
    &&& text::byte_len(url) > 8
    &&& forall|k: int|
        0 <= k < url.len() ==> !text::is_space(#[trigger] url[k]) && url[k] != ')' && url[k] != ']'
            && url[k] != '>' && url[k] != '`'
    &&& !seq!['.', ',', ';', ':', '!', '?'].contains(url.last())
    &&& rest.len() == 0 || text::is_space(rest[0]) || rest[0] == ')' || rest[0] == ']' || rest[0]
        == '>' || rest[0] == '`'
}

/// The URL that a text begins with is read up to its delimiter, and what follows
/// it is left.
pub proof fn named_urls_are_read(url: Seq<char>, rest: Seq<char>)
    requires
        is_named_url(url, rest),
    ensures
        citation_structured::url_and_rest(url + rest) == Some((url, rest)),
{
    let s = url + rest;
    lemma_token_end(s, 0, url.len() as int);
    assert(s.subrange(0, url.len() as int) =~= url);
    assert(s.subrange(url.len() as int, s.len() as int) =~= rest);
    let marks = seq!['.', ',', ';', ':', '!', '?'];
    assert(marks[0] == '.' && marks[1] == ',' && marks[2] == ';' && marks[3] == ':' && marks[4]
        == '!' && marks[5] == '?');
    assert(!citation_structured::is_punctuation(url.last())) by {
        if citation_structured::is_punctuation(url.last()) {
            assert(marks.contains(url.last()));
        }
    }
    assert(citation_structured::without_punctuation(url) == url);
    if text::matches_at(url, "http://"@, 0) {
        assert(s.subrange(0, "http://"@.len() as int) =~= url.subrange(
            0,
            "http://"@.len() as int,
        ));
    } else {
        assert(s.subrange(0, "https://"@.len() as int) =~= url.subrange(
            0,
            "https://"@.len() as int,
        ));
    }
}

proof fn lemma_token_end(s: Seq<char>, i: int, n: int)
    requires
        0 <= i <= n <= s.len(),
        forall|k: int| i <= k < n ==> !citation_structured::ends_url_token(#[trigger] s[k]),
        n == s.len() || citation_structured::ends_url_token(s[n]),
    ensures
        citation_structured::url_token_end(s, i) == n,
    decreases n - i,
{
    if i < n {
        assert(!citation_structured::ends_url_token(s[i]));
        lemma_token_end(s, i + 1, n);
    }
}

/// A URL begins with a letter that is no white space.
proof fn lemma_url_begins(url: Seq<char>)
    requires
        citation::is_url_at(url, 0),
    ensures
        url.len() > 0,
        url[0] == 'h',
{
    reveal_strlit("http://");
    reveal_strlit("https://");
    let pat = if text::matches_at(url, "http://"@, 0) {
        "http://"@
    } else {
        "https://"@
    };
    assert(url.subrange(0, pat.len() as int)[0] == url[0]);
}

proof fn lemma_definition_of(label: Seq<char>, gap: Seq<char>, url: Seq<char>, rest: Seq<char>)
    requires
        is_named_url(url, rest),
        forall|k: int| 0 <= k < gap.len() ==> text::is_space(#[trigger] gap[k]),
    ensures
        citation_structured::definition_of(label, gap + (url + rest)) == Some(
            DefinitionView { label, url, title: citation_structured::title_of(rest) },
        ),
{
    named_urls_are_read(url, rest);
    lemma_url_begins(url);
    assert((url + rest)[0] == 'h');
    lemma_trim_indent(gap, url + rest);
}

/// The first closing bracket of a text whose label has none.
proof fn lemma_label_closes(head: Seq<char>, label: Seq<char>, tail: Seq<char>)
    requires
        !label.contains(']'),
        tail.len() > 0,
        tail[0] == ']',
    ensures
        text::next_char(head + label + tail, ']', head.len() as int) == head.len() + label.len(),
{
    let s = head + label + tail;
    let n = (head.len() + label.len()) as int;
    text::lemma_next_char(s, ']', head.len() as int);
    assert(s[n] == ']');
    assert forall|k: int| head.len() <= k < n implies s[k] != ']' by {
        assert(s[k] == label[k - head.len()]);
        assert(label.contains(label[k - head.len()]));
    }
}

/// A line `[^label]: url title` defines its label: the URL behind the colon, and
/// the text behind the URL, if any, as title.
pub proof fn footnote_lines_define(
    indent: Seq<char>,
    label: Seq<char>,
    gap: Seq<char>,
    url: Seq<char>,
    rest: Seq<char>,
)
    requires
        forall|k: int| 0 <= k < indent.len() ==> text::is_space(#[trigger] indent[k]),
        forall|k: int| 0 <= k < gap.len() ==> text::is_space(#[trigger] gap[k]),
        !label.contains(']'),
        is_named_url(url, rest),
    ensures
        citation_structured::line_definition(
            RefKind::Footnote,
            indent + ("[^"@ + label + "]:"@ + gap + url + rest),
        ) == Some(DefinitionView { label, url, title: citation_structured::title_of(rest) }),
{
    reveal_strlit("[^");
    reveal_strlit("]:");
    let t = "[^"@ + label + "]:"@ + gap + url + rest;
    assert(t[0] == '[');
    lemma_trim_indent(indent, t);
    let tail = "]:"@ + gap + url + rest;
    assert(t =~= "[^"@ + label + tail);
    assert(tail[0] == ']');
    lemma_label_closes("[^"@, label, tail);
    let close = (2 + label.len()) as int;
    assert(t[close + 1] == tail[1]);
    assert(t.subrange(0, 2) =~= "[^"@);
    assert(t.subrange(2, close) =~= label);
    assert(t.subrange(close + 2, t.len() as int) =~= gap + (url + rest));
    lemma_definition_of(label, gap, url, rest);
}

/// A line `[1] url title` defines its number, with or without a colon behind the
/// bracket.
pub proof fn numbered_lines_define(
    indent: Seq<char>,
    label: Seq<char>,
    gap: Seq<char>,
    url: Seq<char>,
    rest: Seq<char>,
)
    requires
        forall|k: int| 0 <= k < indent.len() ==> text::is_space(#[trigger] indent[k]),
        forall|k: int| 0 <= k < gap.len() ==> text::is_space(#[trigger] gap[k]),
        text::is_number(label),
        is_named_url(url, rest),
    ensures
        citation_structured::line_definition(
            RefKind::Numeric,
            indent + ("["@ + label + "]"@ + gap + url + rest),
        ) == Some(DefinitionView { label, url, title: citation_structured::title_of(rest) }),
        citation_structured::line_definition(
            RefKind::Numeric,
            indent + ("["@ + label + "]:"@ + gap + url + rest),
        ) == Some(DefinitionView { label, url, title: citation_structured::title_of(rest) }),
{
    reveal_strlit("[");
    reveal_strlit("]");
    reveal_strlit("]:");
    assert(!label.contains(']')) by {
        if label.contains(']') {
            let k = choose|k: int| 0 <= k < label.len() && label[k] == ']';
            assert(text::is_digit(label[k]));
        }
    }
    lemma_definition_of(label, gap, url, rest);
    lemma_url_begins(url);
    let close = (1 + label.len()) as int;
    let t = "["@ + label + "]"@ + gap + url + rest;
    assert(t[0] == '[');
    lemma_trim_indent(indent, t);
    let tail = "]"@ + gap + url + rest;
    assert(t =~= "["@ + label + tail);
    assert(tail[0] == ']');
    lemma_label_closes("["@, label, tail);
    assert(t[close + 1] == tail[1]);
    if gap.len() > 0 {
        assert(tail[1] == gap[0]);
        assert(text::is_space(gap[0]));
    } else {
        assert(tail[1] == url[0]);
    }
    assert(t.subrange(1, close) =~= label);
    assert(t.subrange(close + 1, t.len() as int) =~= gap + (url + rest));
    let u = "["@ + label + "]:"@ + gap + url + rest;
    assert(u[0] == '[');
    lemma_trim_indent(indent, u);
    let tail2 = "]:"@ + gap + url + rest;
    assert(u =~= "["@ + label + tail2);
    assert(tail2[0] == ']');
    lemma_label_closes("["@, label, tail2);
    assert(u[close + 1] == tail2[1]);
    assert(u.subrange(1, close) =~= label);
    assert(u.subrange(close + 2, u.len() as int) =~= gap + (url + rest));
}

/// A source line is cited over its URL, with the text behind it as title, dashes
/// and white space around that aside, or with the URL itself when there is
/// none: behind a bullet or without one.
pub proof fn source_lines_are_cited(
    s: Seq<char>,
    a: int,
    indent: Seq<char>,
    bullet: Seq<char>,
    url: Seq<char>,
    rest: Seq<char>,
)
    requires
        0 <= a,
        a + indent.len() + bullet.len() + url.len() + rest.len() <= s.len(),
        s.subrange(a, a + indent.len() + bullet.len() + url.len() + rest.len()) == indent + (bullet
            + (url + rest)),
        bullet == Seq::<char>::empty() || bullet == "- "@ || bullet == "* "@,
        forall|k: int| 0 <= k < indent.len() ==> text::is_space(#[trigger] indent[k]),
        is_named_url(url, rest),
    ensures
        ({
            let at = a + indent.len() + bullet.len();
            let b = at + url.len() + rest.len();
            let title = citation_structured::without_dashes(text::trim(rest));
            citation_structured::bullet_citation(s, a, b) == Some(
                CitationView {
                    start: text::byte_offset(s, at),
                    end: text::byte_offset(s, at + url.len()),
                    url,
                    title: if title.len() == 0 {
                        url
                    } else {
                        title
                    },
                },
            )
        }),
{
    reveal_strlit("- ");
    reveal_strlit("* ");
    named_urls_are_read(url, rest);
    lemma_url_begins(url);
    let body = url + rest;
    assert(body[0] == 'h');
    let t = bullet + body;
    assert(t[0] == if bullet.len() == 0 {
        'h'
    } else {
        bullet[0]
    });
    lemma_trim_indent(indent, t);
    if bullet.len() == 0 {
        assert(t =~= body);
        assert(citation_structured::bullet_body(t) == body);
    } else {
        assert(t[1] == ' ');
        assert(t.subrange(2, t.len() as int) =~= body);
        assert(citation_structured::bullet_body(t) == body);
    }
}

/// What is left of a title has neither a dash nor white space at its ends, and
/// nothing else was taken away.
pub proof fn titles_lose_their_dashes(s: Seq<char>)
    ensures
        ({
            let t = citation_structured::without_dashes(s);
            &&& t.len() > 0 ==> t[0] != '-' && t.last() != '-' && !text::is_space(t[0])
                && !text::is_space(t.last())
            &&& s.len() > 0 && s[0] != '-' && s.last() != '-' && !text::is_space(s[0])
                && !text::is_space(s.last()) ==> t == s
        }),
    decreases s.len(),
{
    if s.len() > 0 && citation_structured::is_dash_or_space(s[0]) {
        titles_lose_their_dashes(s.subrange(1, s.len() as int));
    } else if s.len() > 0 && citation_structured::is_dash_or_space(s.last()) {
        titles_lose_their_dashes(s.drop_last());
    }
}

/// A citation is titled by its URL, unless it is the target of a markdown link.
pub open spec fn is_titled(s: Seq<char>, c: CitationView) -> bool {
    c.title == c.url || has_target(citation::masked(s), s, c)
}

proof fn lemma_bare_titles(
    m: Seq<char>,
    s: Seq<char>,
    links: Seq<CitationView>,
    i: int,
)
    requires
        0 <= i,
    ensures
        forall|k: int|
            0 <= k < citation::bare_from(m, s, links, i).len() ==> (#[trigger] citation::bare_from(
                m,
                s,
                links,
                i,
            )[k]).title == citation::bare_from(m, s, links, i)[k].url,
    decreases
            (if i < s.len() {
                s.len() - i
            } else {
                0
            }),
{
    let a = text::next_text(m, "http"@, i);
    let all = citation::bare_from(m, s, links, i);
    if m.len() == s.len() && a < m.len() && a >= i {
        if !citation::is_url_at(m, a) {
            lemma_bare_titles(m, s, links, a + 4);
            assert(all == citation::bare_from(m, s, links, a + 4));
        } else {
            let end = citation::bare_url_end(s, a);
            let next = if end > a {
                end
            } else {
                a + 1
            };
            lemma_bare_titles(m, s, links, next);
            let c = citation::bare_citation(s, links, a);
            let rest = citation::bare_from(m, s, links, next);
            assert(all == c + rest);
            assert forall|k: int| 0 <= k < all.len() implies (#[trigger] all[k]).title
                == all[k].url by {
                if k >= c.len() {
                    assert(all[k] == rest[k - c.len()]);
                }
            }
        }
    }
}

/// Every URL that is cited outside a markdown link has itself as title.
pub proof fn bare_urls_are_their_titles(s: Seq<char>)
    ensures
        forall|k: int|
            0 <= k < citation::url_citations(s).len() ==> is_titled(
                s,
                #[trigger] citation::url_citations(s)[k],
            ),
{
    let m = citation::masked(s);
    let links = citation::links_from(m, s, 0);
    let bare = citation::bare_from(m, s, links, 0);
    let found = links + bare;
    let cited = citation::url_citations(s);
    lemma_bare_titles(m, s, links, 0);
    lemma_links_have_targets(m, s, 0);
    citation::lemma_document_order_members(found);
    assert forall|k: int| 0 <= k < cited.len() implies is_titled(s, #[trigger] cited[k]) by {
        assert(cited.contains(cited[k]));
        assert(found.contains(cited[k]));
        let j = choose|j: int| 0 <= j < found.len() && found[j] == cited[k];
        if j < links.len() {
            assert(found[j] == links[j]);
        } else {
            assert(found[j] == bare[j - links.len()]);
        }
    }
}

} // verus!
