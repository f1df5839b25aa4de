//! Structured citation patterns: markdown footnotes, numeric bracket
//! references and `Sources:` sections. [`crate::citation::extract`] runs the
//! three.

use crate::citation;
use crate::citation::{Citation, CitationView};
use crate::text;
use crate::text::{
    byte_offsets, chars_of, find_char, find_text, is_white_space, line_ranges, longer_than,
    number_within, same_chars, slice_of, text_at, text_of, to_ascii_lower, trimmed, trimmed_start,
};
use vstd::prelude::*;

verus! {

// ── URLs in definitions ──

/// The URL of a definition ends before such a character.
pub open spec fn ends_url_token(c: char) -> bool {
    text::is_space(c) || c == ')' || c == ']' || c == '>' || c == '`'
}

/// First position at or after `i` that ends a URL token, or the length.
pub open spec fn url_token_end(s: Seq<char>, i: int) -> int
    decreases s.len() - i,
{
    if i < 0 || i >= s.len() {
        s.len() as int
    } else if ends_url_token(s[i]) {
        i
    } else {
        url_token_end(s, i + 1)
    }
}

/// Sentence punctuation that is no part of a URL in front of it.
pub open spec fn is_punctuation(c: char) -> bool {
    c == '.' || c == ',' || c == ';' || c == ':' || c == '!' || c == '?'
}

/// `s` without trailing sentence punctuation.
pub open spec fn without_punctuation(s: Seq<char>) -> Seq<char>
    decreases s.len(),
{
    if s.len() > 0 && is_punctuation(s.last()) {
        without_punctuation(s.drop_last())
    } else {
        s
    }
}

/// Splits `s` into the http or https URL that it begins with and the rest
/// behind the URL token; `None` when it begins with none.
pub open spec fn url_and_rest(s: Seq<char>) -> Option<(Seq<char>, Seq<char>)> {
    let end = url_token_end(s, 0);
    let url = without_punctuation(s.subrange(0, end));
    if citation::is_url_at(s, 0) && text::byte_len(url) > 8 {
        Some((url, s.subrange(end, s.len() as int)))
    } else {
        None
    }
}

proof fn lemma_url_token_end(s: Seq<char>, i: int)
    requires
        0 <= i <= s.len(),
    ensures
        i <= url_token_end(s, i) <= s.len(),
    decreases s.len() - i,
{
    if i < s.len() {
        lemma_url_token_end(s, i + 1);
    }
}

/// The URL that `s` begins with and the rest behind it.
fn split_url(s: &Vec<char>) -> (r: Option<(Vec<char>, Vec<char>)>)
    ensures
        match r {
            Some((url, rest)) => url_and_rest(s@) == Some((url@, rest@)) && url@.len()
                <= s@.len(),
            None => url_and_rest(s@) is None,
        },
{
    if !(text_at(s, "http://", 0) || text_at(s, "https://", 0)) {
        return None;
    }
    let mut end: usize = 0;
    while end < s.len()
        invariant_except_break
            end <= s@.len(),
            url_token_end(s@, 0) == url_token_end(s@, end as int),
        ensures
            end == url_token_end(s@, 0),
            end <= s@.len(),
        decreases s@.len() - end,
    {
        let c: char = s[end];
        if is_white_space(c) || c == ')' || c == ']' || c == '>' || c == '`' {
            break ;
        }
        end = end + 1;
    }
    let mut stop: usize = end;
    while stop > 0 && (s[stop - 1] == '.' || s[stop - 1] == ',' || s[stop - 1] == ';' || s[stop - 1]
        == ':' || s[stop - 1] == '!' || s[stop - 1] == '?')
        invariant
            stop <= end <= s@.len(),
            without_punctuation(s@.subrange(0, end as int)) == without_punctuation(
                s@.subrange(0, stop as int),
            ),
        decreases stop,
    {
        assert(s@.subrange(0, stop as int).drop_last() =~= s@.subrange(0, stop - 1));
        stop = stop - 1;
    }
    let url: Vec<char> = slice_of(s, 0, stop);
    if longer_than(&url, 8) {
        Some((url, slice_of(s, end, s.len())))
    } else {
        None
    }
}

// ── definitions ──

/// A definition of a reference label: its URL and title.
pub struct DefinitionView {
    pub label: Seq<char>,
    pub url: Seq<char>,
    pub title: Option<Seq<char>>,
}

struct Definition {
    label: Vec<char>,
    url: Vec<char>,
    title: Option<Vec<char>>,
}

impl View for Definition {
    type V = DefinitionView;

    closed spec fn view(&self) -> DefinitionView {
        DefinitionView {
            label: self.label@,
            url: self.url@,
            title: match self.title {
                Some(t) => Some(t@),
                None => None,
            },
        }
    }
}

/// The two kinds of bracket references.
#[derive(Clone, Copy, PartialEq, Eq, Structural)]
pub enum RefKind {
    /// `[^label]`
    Footnote,
    /// `[1]`
    Numeric,
}

/// The title in the text behind a definition's URL.
pub open spec fn title_of(rest: Seq<char>) -> Option<Seq<char>> {
    if text::trim(rest).len() == 0 {
        None
    } else {
        Some(text::trim(rest))
    }
}

/// What a definition says whose label is `label` and whose body is `body`.
pub open spec fn definition_of(label: Seq<char>, body: Seq<char>) -> Option<DefinitionView> {
    match url_and_rest(text::trim_start(body)) {
        Some((url, rest)) => Some(DefinitionView { label, url, title: title_of(rest) }),
        None => None,
    }
}

/// The definition that `line` holds: `[^label]: url title` for a footnote,
/// `[1] url title` or `[1]: url title` for a numeric reference.
pub open spec fn line_definition(kind: RefKind, line: Seq<char>) -> Option<DefinitionView> {
    let t = text::trim_start(line);
    match kind {
        RefKind::Footnote => {
            let close = text::next_char(t, ']', 2);
            if text::starts_with(t, "[^"@) && close + 1 < t.len() && t[close + 1] == ':' {
                definition_of(t.subrange(2, close), t.subrange(close + 2, t.len() as int))
            } else {
                None
            }
        },
        RefKind::Numeric => {
            let close = text::next_char(t, ']', 1);
            if t.len() > 0 && t[0] == '[' && close < t.len() && text::is_number(
                t.subrange(1, close),
            ) {
                let after = if close + 1 < t.len() && t[close + 1] == ':' {
                    close + 2
                } else {
                    close + 1
                };
                definition_of(t.subrange(1, close), t.subrange(after, t.len() as int))
            } else {
                None
            }
        },
    }
}

/// The definitions in the first `n` of `lines`, in order.
pub open spec fn definitions(
    kind: RefKind,
    s: Seq<char>,
    lines: Seq<(int, int)>,
) -> Seq<DefinitionView>
    decreases lines.len(),
{
    if lines.len() == 0 {
        Seq::empty()
    } else {
        let before = definitions(kind, s, lines.drop_last());
        match line_definition(kind, s.subrange(lines.last().0, lines.last().1)) {
            Some(d) => before.push(d),
            None => before,
        }
    }
}

/// The definitions of a text.
pub open spec fn definitions_in(kind: RefKind, s: Seq<char>) -> Seq<DefinitionView> {
    definitions(kind, s, text::lines_from(s, 0))
}

/// The last definition of `label`.
pub open spec fn lookup(defs: Seq<DefinitionView>, label: Seq<char>) -> Option<DefinitionView>
    decreases defs.len(),
{
    if defs.len() == 0 {
        None
    } else if defs.last().label == label {
        Some(defs.last())
    } else {
        lookup(defs.drop_last(), label)
    }
}

spec fn definition_views(defs: Seq<Definition>) -> Seq<DefinitionView> {
    defs.map_values(|d: Definition| d@)
}

fn define(label: Vec<char>, body: &Vec<char>) -> (r: Option<Definition>)
    ensures
        match r {
            Some(d) => definition_of(label@, body@) == Some(d@),
            None => definition_of(label@, body@) is None,
        },
{
    match split_url(&trimmed_start(body)) {
        Some((url, rest)) => {
            let t: Vec<char> = trimmed(&rest);
            let title: Option<Vec<char>> = if t.len() == 0 {
                None
            } else {
                Some(t)
            };
            Some(Definition { label, url, title })
        },
        None => None,
    }
}

fn footnote_definition(line: &Vec<char>) -> (r: Option<Definition>)
    ensures
        match r {
            Some(d) => line_definition(RefKind::Footnote, line@) == Some(d@),
            None => line_definition(RefKind::Footnote, line@) is None,
        },
{
    let t: Vec<char> = trimmed_start(line);
    if !text_at(&t, "[^", 0) {
        return None;
    }
    proof {
        reveal_strlit("[^");
    }
    let close: usize = find_char(&t, ']', 2);
    if close >= t.len() || close + 1 >= t.len() || t[close + 1] != ':' {
        return None;
    }
    define(slice_of(&t, 2, close), &slice_of(&t, close + 2, t.len()))
}

fn numeric_definition(line: &Vec<char>) -> (r: Option<Definition>)
    ensures
        match r {
            Some(d) => line_definition(RefKind::Numeric, line@) == Some(d@),
            None => line_definition(RefKind::Numeric, line@) is None,
        },
{
    let t: Vec<char> = trimmed_start(line);
    if t.len() == 0 || t[0] != '[' {
        return None;
    }
    let close: usize = find_char(&t, ']', 1);
    if close >= t.len() || !number_within(&t, 1, close) {
        return None;
    }
    let after: usize = if close + 1 < t.len() && t[close + 1] == ':' {
        close + 2
    } else {
        close + 1
    };
    define(slice_of(&t, 1, close), &slice_of(&t, after, t.len()))
}

/// The definitions of `s`, in order.
fn collect_definitions(kind: RefKind, s: &Vec<char>) -> (out: Vec<Definition>)
    ensures
        definition_views(out@) == definitions_in(kind, s@),
{
    let lines: Vec<(usize, usize)> = line_ranges(s, 0);
    let mut out: Vec<Definition> = Vec::new();
    let ghost all = text::int_ranges(lines@);
    let mut k: usize = 0;
    assert(all.take(0) =~= Seq::<(int, int)>::empty());
    assert(definition_views(out@) =~= Seq::<DefinitionView>::empty());
    while k < lines.len()
        invariant
            k <= lines@.len(),
            all == text::int_ranges(lines@),
            definition_views(out@) == definitions(kind, s@, all.take(k as int)),
            forall|j: int| 0 <= j < lines@.len() ==> (#[trigger] lines@[j]).0 <= lines@[j].1 <= s@.len(),
        decreases lines@.len() - k,
    {
        let (a, b) = lines[k];
        let line: Vec<char> = slice_of(s, a, b);
        assert(all.take(k + 1).drop_last() =~= all.take(k as int));
        assert(all.take(k + 1).last() == (a as int, b as int));
        let found: Option<Definition> = match kind {
            RefKind::Footnote => footnote_definition(&line),
            RefKind::Numeric => numeric_definition(&line),
        };
        let ghost before = out@;
        if let Some(d) = found {
            out.push(d);
            assert(definition_views(out@) =~= definition_views(before).push(d@));
        }
        k = k + 1;
    }
    assert(all.take(k as int) =~= all);
    out
}

/// Position of the last definition of `label`, or the number of definitions.
fn find_definition(defs: &Vec<Definition>, label: &Vec<char>) -> (r: Option<usize>)
    ensures
        match r {
            Some(k) => k < defs@.len() && lookup(definition_views(defs@), label@) == Some(
                defs@[k as int]@,
            ),
            None => lookup(definition_views(defs@), label@) is None,
        },
{
    let ghost all = definition_views(defs@);
    let mut k: usize = defs.len();
    assert(all.take(k as int) =~= all);
    while k > 0
        invariant
            k <= defs@.len(),
            all == definition_views(defs@),
            lookup(all, label@) == lookup(all.take(k as int), label@),
        decreases k,
    {
        assert(all.take(k as int).last() == defs@[k - 1]@);
        assert(all.take(k as int).drop_last() =~= all.take(k - 1));
        k = k - 1;
        if same_chars(&defs[k].label, label) {
            return Some(k);
        }
    }
    None
}

// ── references ──

/// The citation of a reference to `label` at `start..end`, when it is
/// defined.
pub open spec fn ref_citation(
    s: Seq<char>,
    defs: Seq<DefinitionView>,
    label: Seq<char>,
    start: int,
    end: int,
) -> Seq<CitationView> {
    match lookup(defs, label) {
        Some(d) => seq![
            CitationView {
                start: text::byte_offset(s, start),
                end: text::byte_offset(s, end),
                url: d.url,
                title: match d.title {
                    Some(t) => t,
                    None => label,
                },
            },
        ],
        None => Seq::empty(),
    }
}

/// Position `i` of `s` begins a line.
pub open spec fn at_line_start(s: Seq<char>, i: int) -> bool {
    i == 0 || (0 < i <= s.len() && s[i - 1] == '\n')
}

/// Position `i` of `s` begins a line, white space aside.
pub open spec fn begins_line(s: Seq<char>, i: int) -> bool
    decreases i,
{
    at_line_start(s, i) || (0 < i <= s.len() && text::is_space(s[i - 1]) && begins_line(s, i - 1))
}

/// `s` from `i` to the end of the line.
pub open spec fn rest_of_line(s: Seq<char>, i: int) -> Seq<char> {
    s.subrange(i, text::next_char(s, '\n', i))
}

/// The `[^label]` that ends with the bracket at `close` is a definition: it
/// begins its line and a colon follows it.
pub open spec fn is_footnote_site(s: Seq<char>, start: int, close: int) -> bool {
    begins_line(s, start) && close + 1 < s.len() && s[close + 1] == ':'
}

/// The `[1]` at `start` is a definition: it begins its line, and the line
/// defines it.
pub open spec fn is_numeric_site(s: Seq<char>, start: int) -> bool {
    begins_line(s, start) && line_definition(RefKind::Numeric, rest_of_line(s, start)) is Some
}

/// The footnote references of `s` from `i` on: every `[^label]` that is no
/// definition.
pub open spec fn footnotes_from(
    s: Seq<char>,
    defs: Seq<DefinitionView>,
    i: int,
) -> Seq<CitationView>
    decreases s.len() - i,
{
    let start = text::next_text(s, "[^"@, i);
    let close = text::next_char(s, ']', start);
    if i < 0 || start >= s.len() || close >= s.len() || !(i <= start <= close) {
        Seq::empty()
    } else if is_footnote_site(s, start, close) {
        footnotes_from(s, defs, close + 1)
    } else {
        ref_citation(s, defs, s.subrange(start + 2, close), start, close + 1) + footnotes_from(
            s,
            defs,
            close + 1,
        )
    }
}

/// The numeric references of `s` from `i` on: every `[1]` that is no definition.
pub open spec fn numeric_refs_from(
    s: Seq<char>,
    defs: Seq<DefinitionView>,
    i: int,
) -> Seq<CitationView>
    decreases s.len() - i,
{
    let start = text::next_char(s, '[', i);
    let close = text::next_char(s, ']', start + 1);
    if i < 0 || start >= s.len() || close >= s.len() || !(i <= start < close) {
        Seq::empty()
    } else {
        let label = s.subrange(start + 1, close);
        if text::is_number(label) {
            (if is_numeric_site(s, start) {
                Seq::empty()
            } else {
                ref_citation(s, defs, label, start, close + 1)
            }) + numeric_refs_from(s, defs, close + 1)
        } else {
            numeric_refs_from(s, defs, start + 1)
        }
    }
}

/// Whether position `i` of `s` begins a line, white space aside.
fn opens_line(s: &Vec<char>, i: usize) -> (r: bool)
    requires
        i <= s@.len(),
    ensures
        r == begins_line(s@, i as int),
{
    let mut k: usize = i;
    while k > 0 && s[k - 1] != '\n'
        invariant
            k <= i <= s@.len(),
            begins_line(s@, i as int) == begins_line(s@, k as int),
        decreases k,
    {
        if !is_white_space(s[k - 1]) {
            return false;
        }
        k = k - 1;
    }
    true
}

/// Whether the `[1]` at `start` is a definition.
fn defines_number(s: &Vec<char>, start: usize) -> (r: bool)
    requires
        start < s@.len(),
    ensures
        r == is_numeric_site(s@, start as int),
{
    if !opens_line(s, start) {
        return false;
    }
    let end: usize = find_char(s, '\n', start);
    let line: Vec<char> = slice_of(s, start, end);
    match numeric_definition(&line) {
        Some(_) => true,
        None => false,
    }
}

/// Appends the citation of a reference to `label` at `start..end`.
fn push_reference(
    out: &mut Vec<Citation>,
    s: &Vec<char>,
    offs: &Vec<usize>,
    defs: &Vec<Definition>,
    label: Vec<char>,
    start: usize,
    end: usize,
)
    requires
        citation::are_offsets(offs@, s@),
        start <= s@.len(),
        end <= s@.len(),
    ensures
        citation::citations(final(out)@) == citation::citations(old(out)@) + ref_citation(
            s@,
            definition_views(defs@),
            label@,
            start as int,
            end as int,
        ),
{
    let ghost before = out@;
    if let Some(k) = find_definition(defs, &label) {
        let title: String = match &defs[k].title {
            Some(t) => text_of(t),
            None => text_of(&label),
        };
        let c = Citation {
            start_index: offs[start],
            end_index: offs[end],
            url: text_of(&defs[k].url),
            title,
        };
        out.push(c);
        proof {
            citation::lemma_citations_push(before, c);
        }
    }
    assert(citation::citations(out@) =~= citation::citations(before) + ref_citation(
        s@,
        definition_views(defs@),
        label@,
        start as int,
        end as int,
    ));
}

/// Footnote references: every `[^label]` in the text paired with a definition
/// line `[^label]: url title`.
pub fn footnote_citations(content: &str) -> (out: Vec<Citation>)
    ensures
        citation::citations(out@) == footnotes_from(
            content@,
            definitions_in(RefKind::Footnote, content@),
            0,
        ),
{
    let s: Vec<char> = chars_of(content);
    let offs: Vec<usize> = byte_offsets(&s);
    let defs: Vec<Definition> = collect_definitions(RefKind::Footnote, &s);
    let ghost ds = definition_views(defs@);
    let mut out: Vec<Citation> = Vec::new();
    let mut i: usize = 0;
    assert(citation::citations(out@) + footnotes_from(s@, ds, 0) =~= footnotes_from(s@, ds, 0));
    while i < s.len()
        invariant
            i <= s@.len(),
            citation::are_offsets(offs@, s@),
            ds == definition_views(defs@),
            citation::citations(out@) + footnotes_from(s@, ds, i as int) == footnotes_from(
                s@,
                ds,
                0,
            ),
        decreases s@.len() - i,
    {
        let start: usize = find_text(&s, "[^", i);
        let close: usize = find_char(&s, ']', start);
        if close >= s.len() {
            assert(footnotes_from(s@, ds, i as int) =~= footnotes_from(s@, ds, s@.len() as int));
            i = s.len();
            continue ;
        }
        proof {
            reveal_strlit("[^");
            assert(s@.subrange(start as int, start + 2)[0] == s@[start as int]);
            assert(s@.subrange(start as int, start + 2)[1] == s@[start + 1]);
        }
        let is_definition: bool = close + 1 < s.len() && s[close + 1] == ':' && opens_line(
            &s,
            start,
        );
        if !is_definition {
            let ghost before = out@;
            let label: Vec<char> = slice_of(&s, start + 2, close);
            push_reference(&mut out, &s, &offs, &defs, label, start, close + 1);
            assert(citation::citations(out@) + footnotes_from(s@, ds, close + 1)
                =~= citation::citations(before) + footnotes_from(s@, ds, i as int));
        }
        i = close + 1;
    }
    assert(footnotes_from(s@, ds, i as int) =~= Seq::<CitationView>::empty());
    assert(citation::citations(out@) =~= footnotes_from(s@, ds, 0));
    out
}

/// Numeric references: every `[1]` in the text paired with a definition line
/// `[1] url`.
pub fn numeric_ref_citations(content: &str) -> (out: Vec<Citation>)
    ensures
        citation::citations(out@) == numeric_refs_from(
            content@,
            definitions_in(RefKind::Numeric, content@),
            0,
        ),
{
    let s: Vec<char> = chars_of(content);
    let offs: Vec<usize> = byte_offsets(&s);
    let defs: Vec<Definition> = collect_definitions(RefKind::Numeric, &s);
    let ghost ds = definition_views(defs@);
    let mut out: Vec<Citation> = Vec::new();
    let mut i: usize = 0;
    assert(citation::citations(out@) + numeric_refs_from(s@, ds, 0) =~= numeric_refs_from(
        s@,
        ds,
        0,
    ));
    while i < s.len()
        invariant
            i <= s@.len(),
            citation::are_offsets(offs@, s@),
            ds == definition_views(defs@),
            citation::citations(out@) + numeric_refs_from(s@, ds, i as int) == numeric_refs_from(
                s@,
                ds,
                0,
            ),
        decreases s@.len() - i,
    {
        let start: usize = find_char(&s, '[', i);
        if start >= s.len() {
            assert(numeric_refs_from(s@, ds, i as int) =~= numeric_refs_from(
                s@,
                ds,
                s@.len() as int,
            ));
            i = s.len();
            continue ;
        }
        let close: usize = find_char(&s, ']', start + 1);
        if close >= s.len() {
            assert(numeric_refs_from(s@, ds, i as int) =~= numeric_refs_from(
                s@,
                ds,
                s@.len() as int,
            ));
            i = s.len();
            continue ;
        }
        if !number_within(&s, start + 1, close) {
            i = start + 1;
            continue ;
        }
        let ghost before = out@;
        if !defines_number(&s, start) {
            let label: Vec<char> = slice_of(&s, start + 1, close);
            push_reference(&mut out, &s, &offs, &defs, label, start, close + 1);
        }
        assert(citation::citations(out@) + numeric_refs_from(s@, ds, close + 1)
            =~= citation::citations(before) + numeric_refs_from(s@, ds, i as int));
        i = close + 1;
    }
    assert(numeric_refs_from(s@, ds, i as int) =~= Seq::<CitationView>::empty());
    assert(citation::citations(out@) =~= numeric_refs_from(s@, ds, 0));
    out
}

// ── sources sections ──

/// `t` without a bullet in front: `- `, `* ` or a round bullet and a space.
pub open spec fn bullet_body(t: Seq<char>) -> Seq<char> {
    if t.len() >= 2 && (t[0] == '-' || t[0] == '*' || t[0] == '\u{2022}') && t[1] == ' ' {
        t.subrange(2, t.len() as int)
    } else {
        t
    }
}

/// A dash or white space.
pub open spec fn is_dash_or_space(c: char) -> bool {
    c == '-' || text::is_space(c)
}

/// `s` without dashes and white space at its ends.
pub open spec fn without_dashes(s: Seq<char>) -> Seq<char>
    decreases s.len(),
{
    if s.len() > 0 && is_dash_or_space(s[0]) {
        without_dashes(s.subrange(1, s.len() as int))
    } else if s.len() > 0 && is_dash_or_space(s.last()) {
        without_dashes(s.drop_last())
    } else {
        s
    }
}

/// The citation of the bullet line `a..b`: its URL, with the text behind it as
/// title. `None` when the line does not begin with a URL.
pub open spec fn bullet_citation(s: Seq<char>, a: int, b: int) -> Option<CitationView> {
    let body = bullet_body(text::trim_start(s.subrange(a, b)));
    match url_and_rest(body) {
        Some((url, rest)) => {
            let at = b - body.len();
            let title = without_dashes(text::trim(rest));
            Some(
                CitationView {
                    start: text::byte_offset(s, at),
                    end: text::byte_offset(s, at + url.len()),
                    url,
                    title: if title.len() == 0 {
                        url
                    } else {
                        title
                    },
                },
            )
        },
        None => None,
    }
}

/// The citations of a section whose lines are `lines`, from line `k` on. A
/// blank line behind the first bullet or a line without URL ends it.
pub open spec fn section_from(
    s: Seq<char>,
    lines: Seq<(int, int)>,
    k: int,
    seen: bool,
) -> Seq<CitationView>
    decreases lines.len() - k,
{
    if k < 0 || k >= lines.len() {
        Seq::empty()
    } else {
        let (a, b) = lines[k];
        if text::trim_start(s.subrange(a, b)).len() == 0 {
            if seen {
                Seq::empty()
            } else {
                section_from(s, lines, k + 1, false)
            }
        } else {
            match bullet_citation(s, a, b) {
                Some(c) => seq![c] + section_from(s, lines, k + 1, true),
                None => Seq::empty(),
            }
        }
    }
}

/// The citations of every section of `s` from `i` on that a line-leading
/// `marker` heads. `lower` is `s` in lower case.
pub open spec fn sections_from(
    s: Seq<char>,
    lower: Seq<char>,
    marker: Seq<char>,
    i: int,
) -> Seq<CitationView>
    decreases s.len() - i,
{
    let h = text::next_text(lower, marker, i);
    let after = h + marker.len();
    if i < 0 || h >= s.len() || !(i <= h && i < after <= s.len()) {
        Seq::empty()
    } else {
        (if at_line_start(s, h) {
            section_from(s, text::lines_from(s, after), 0, false)
        } else {
            Seq::empty()
        }) + sections_from(s, lower, marker, after)
    }
}

/// The citations of all sections headed `Sources:`, `References:` and
/// `Citations:`, in any letter case.
pub open spec fn source_sections(s: Seq<char>) -> Seq<CitationView> {
    let lower = text::ascii_lowercase(s);
    sections_from(s, lower, "sources:"@, 0) + sections_from(s, lower, "references:"@, 0)
        + sections_from(s, lower, "citations:"@, 0)
}

/// `s` without dashes and white space at its ends.
fn strip_dashes(s: &Vec<char>) -> (out: Vec<char>)
    ensures
        out@ == without_dashes(s@),
{
    let mut a: usize = 0;
    assert(s@.subrange(0, s@.len() as int) =~= s@);
    while a < s.len() && (s[a] == '-' || is_white_space(s[a]))
        invariant
            a <= s@.len(),
            without_dashes(s@) == without_dashes(s@.subrange(a as int, s@.len() as int)),
        decreases s@.len() - a,
    {
        assert(s@.subrange(a as int, s@.len() as int).subrange(1, s@.len() - a) =~= s@.subrange(
            a + 1,
            s@.len() as int,
        ));
        a = a + 1;
    }
    let mut b: usize = s.len();
    while b > a && (s[b - 1] == '-' || is_white_space(s[b - 1]))
        invariant
            a <= b <= s@.len(),
            a < s@.len() ==> !is_dash_or_space(s@[a as int]),
            without_dashes(s@) == without_dashes(s@.subrange(a as int, b as int)),
        decreases b - a,
    {
        assert(s@.subrange(a as int, b as int).drop_last() =~= s@.subrange(a as int, b - 1));
        b = b - 1;
    }
    slice_of(s, a, b)
}

/// The citation of the bullet line `a..b` of `s`.
fn cite_bullet(s: &Vec<char>, offs: &Vec<usize>, a: usize, b: usize, line: &Vec<char>) -> (r: Option<
    Citation,
>)
    requires
        a <= b <= s@.len(),
        citation::are_offsets(offs@, s@),
        line@ == text::trim_start(s@.subrange(a as int, b as int)),
        line@.len() <= b - a,
    ensures
        match r {
            Some(c) => bullet_citation(s@, a as int, b as int) == Some(c@),
            None => bullet_citation(s@, a as int, b as int) is None,
        },
{
    let skip: usize = if line.len() >= 2 && (line[0] == '-' || line[0] == '*' || line[0]
        == '\u{2022}') && line[1] == ' ' {
        2
    } else {
        0
    };
    let body: Vec<char> = slice_of(line, skip, line.len());
    assert(line@.subrange(0, line@.len() as int) =~= line@);
    assert(body@ == bullet_body(line@));
    match split_url(&body) {
        Some((url, rest)) => {
            let at: usize = b - body.len();
            let title: Vec<char> = strip_dashes(&trimmed(&rest));
            let title_text: String = if title.len() == 0 {
                text_of(&url)
            } else {
                text_of(&title)
            };
            Some(
                Citation {
                    start_index: offs[at],
                    end_index: offs[at + url.len()],
                    url: text_of(&url),
                    title: title_text,
                },
            )
        },
        None => None,
    }
}

/// Appends the citations of the section whose text begins at `after`.
fn push_section(out: &mut Vec<Citation>, s: &Vec<char>, offs: &Vec<usize>, after: usize)
    requires
        after <= s@.len(),
        citation::are_offsets(offs@, s@),
    ensures
        citation::citations(final(out)@) == citation::citations(old(out)@) + section_from(
            s@,
            text::lines_from(s@, after as int),
            0,
            false,
        ),
{
    let lines: Vec<(usize, usize)> = line_ranges(s, after);
    let ghost all = text::lines_from(s@, after as int);
    let ghost start = citation::citations(out@);
    let mut seen: bool = false;
    let mut k: usize = 0;
    assert(start + section_from(s@, all, 0, false) =~= citation::citations(out@) + section_from(
        s@,
        all,
        0,
        false,
    ));
    while k < lines.len()
        invariant
            k <= lines@.len(),
            citation::are_offsets(offs@, s@),
            all == text::int_ranges(lines@),
            all == text::lines_from(s@, after as int),
            start == citation::citations(old(out)@),
            forall|j: int| 0 <= j < lines@.len() ==> (#[trigger] lines@[j]).0 <= lines@[j].1 <= s@.len(),
            start + section_from(s@, all, 0, false) == citation::citations(out@) + section_from(
                s@,
                all,
                k as int,
                seen,
            ),
        decreases lines@.len() - k,
    {
        let (a, b) = lines[k];
        assert(all[k as int] == (a as int, b as int));
        let whole: Vec<char> = slice_of(s, a, b);
        let line: Vec<char> = trimmed_start(&whole);
        let ghost before = out@;
        if line.len() == 0 {
            if seen {
                assert(start + section_from(s@, all, 0, false) =~= citation::citations(out@));
                return ;
            }
        } else {
            match cite_bullet(s, offs, a, b, &line) {
                Some(c) => {
                    out.push(c);
                    proof {
                        citation::lemma_citations_push(before, c);
                        assert(citation::citations(out@) + section_from(s@, all, k + 1, true)
                            =~= citation::citations(before) + section_from(
                            s@,
                            all,
                            k as int,
                            seen,
                        ));
                    }
                    seen = true;
                },
                None => {
                    assert(start + section_from(s@, all, 0, false) =~= citation::citations(out@));
                    return ;
                },
            }
        }
        k = k + 1;
    }
    assert(section_from(s@, all, k as int, seen) =~= Seq::<CitationView>::empty());
    assert(start + section_from(s@, all, 0, false) =~= citation::citations(out@));
}

/// Appends the citations of every section that `marker` heads.
fn push_sections(
    out: &mut Vec<Citation>,
    s: &Vec<char>,
    lower: &Vec<char>,
    offs: &Vec<usize>,
    marker: &str,
)
    requires
        lower@.len() == s@.len(),
        citation::are_offsets(offs@, s@),
        marker@.len() > 0,
    ensures
        citation::citations(final(out)@) == citation::citations(old(out)@) + sections_from(
            s@,
            lower@,
            marker@,
            0,
        ),
{
    let n: usize = chars_of(marker).len();
    let ghost start = citation::citations(out@);
    let mut i: usize = 0;
    assert(start + sections_from(s@, lower@, marker@, 0) =~= citation::citations(out@)
        + sections_from(s@, lower@, marker@, 0));
    while i < s.len()
        invariant
            i <= s@.len(),
            n == marker@.len(),
            n > 0,
            lower@.len() == s@.len(),
            citation::are_offsets(offs@, s@),
            start + sections_from(s@, lower@, marker@, 0) == citation::citations(out@)
                + sections_from(s@, lower@, marker@, i as int),
        decreases s@.len() - i,
    {
        let h: usize = find_text(lower, marker, i);
        if h >= s.len() {
            assert(sections_from(s@, lower@, marker@, i as int) =~= sections_from(
                s@,
                lower@,
                marker@,
                s@.len() as int,
            ));
            i = s.len();
            continue ;
        }
        let after: usize = h + n;
        let ghost before = out@;
        if h == 0 || s[h - 1] == '\n' {
            push_section(out, s, offs, after);
        }
        assert(citation::citations(out@) + sections_from(s@, lower@, marker@, after as int)
            =~= citation::citations(before) + sections_from(s@, lower@, marker@, i as int));
        i = after;
    }
    assert(sections_from(s@, lower@, marker@, i as int) =~= Seq::<CitationView>::empty());
    assert(citation::citations(out@) =~= start + sections_from(s@, lower@, marker@, 0));
}

/// Finds `Sources:`, `References:` and `Citations:` headings and emits a
/// citation at the URL of each bullet line below, until a blank line or a line
/// without URL ends the section.
pub fn sources_block_citations(content: &str) -> (out: Vec<Citation>)
    ensures
        citation::citations(out@) == source_sections(content@),
{
    let s: Vec<char> = chars_of(content);
    let offs: Vec<usize> = byte_offsets(&s);
    let lower: Vec<char> = to_ascii_lower(&s);
    let mut out: Vec<Citation> = Vec::new();
    proof {
        reveal_strlit("sources:");
        reveal_strlit("references:");
        reveal_strlit("citations:");
    }
    push_sections(&mut out, &s, &lower, &offs, "sources:");
    push_sections(&mut out, &s, &lower, &offs, "references:");
    push_sections(&mut out, &s, &lower, &offs, "citations:");
    assert(citation::citations(out@) =~= source_sections(s@));
    out
}

// ── laws ──

proof fn lemma_url_and_rest_prefix(s: Seq<char>)
    ensures
        url_and_rest(s) matches Some((url, rest)) ==> url.is_prefix_of(s) && url.len() <= s.len(),
{
    lemma_url_token_end(s, 0);
    lemma_without_punctuation_prefix(s.subrange(0, url_token_end(s, 0)));
}

proof fn lemma_without_punctuation_prefix(s: Seq<char>)
    ensures
        without_punctuation(s).is_prefix_of(s),
    decreases s.len(),
{
    if s.len() > 0 && is_punctuation(s.last()) {
        lemma_without_punctuation_prefix(s.drop_last());
    }
}

/// The citation of a bullet line spans exactly its URL in the text.
pub proof fn bullet_citation_spans_its_url(s: Seq<char>, a: int, b: int)
    requires
        0 <= a <= b <= s.len(),
    ensures
        bullet_citation(s, a, b) matches Some(c) ==> exists|at: int|
            a <= at && at + c.url.len() <= b && #[trigger] s.subrange(at, at + c.url.len()) == c.url
                && c.start == text::byte_offset(s, at) && c.end == text::byte_offset(
                s,
                at + c.url.len(),
            ),
{
    let line = s.subrange(a, b);
    let t = text::trim_start(line);
    text::lemma_skip_space_within(line, 0, b - a, 0, b - a);
    assert(line.subrange(0, b - a) =~= line);
    let body = bullet_body(t);
    lemma_url_and_rest_prefix(body);
    if let Some(c) = bullet_citation(s, a, b) {
        let at = b - body.len();
        assert(body =~= s.subrange(at, b));
        assert(s.subrange(at, at + c.url.len()) =~= body.subrange(0, c.url.len() as int));
        assert(body.subrange(0, c.url.len() as int) =~= c.url);
    }
}

proof fn lemma_definitions_are_full(kind: RefKind, s: Seq<char>, lines: Seq<(int, int)>)
    ensures
        forall|k: int|
            0 <= k < definitions(kind, s, lines).len() ==> citation::is_full_url(
                (#[trigger] definitions(kind, s, lines)[k]).url,
            ),
    decreases lines.len(),
{
    if lines.len() > 0 {
        lemma_definitions_are_full(kind, s, lines.drop_last());
        let line = s.subrange(lines.last().0, lines.last().1);
        if let Some(d) = line_definition(kind, line) {
            assert(citation::is_full_url(d.url)) by {
                let t = text::trim_start(line);
                let close = match kind {
                    RefKind::Footnote => text::next_char(t, ']', 2),
                    RefKind::Numeric => text::next_char(t, ']', 1),
                };
                let after = match kind {
                    RefKind::Footnote => close + 2,
                    RefKind::Numeric => if close + 1 < t.len() && t[close + 1] == ':' {
                        close + 2
                    } else {
                        close + 1
                    },
                };
                lemma_url_is_full(text::trim_start(t.subrange(after, t.len() as int)));
            }
        }
    }
}

proof fn lemma_url_is_full(s: Seq<char>)
    ensures
        url_and_rest(s) matches Some((url, rest)) ==> citation::is_full_url(url),
{
    if let Some((url, rest)) = url_and_rest(s) {
        lemma_url_and_rest_prefix(s);
        citation::lemma_long_prefix_is_full_url(s, url);
    }
}

proof fn lemma_lookup_is_full(defs: Seq<DefinitionView>, label: Seq<char>)
    requires
        forall|k: int| 0 <= k < defs.len() ==> citation::is_full_url((#[trigger] defs[k]).url),
    ensures
        lookup(defs, label) matches Some(d) ==> citation::is_full_url(d.url),
    decreases defs.len(),
{
    if defs.len() > 0 {
        assert(citation::is_full_url(defs[defs.len() - 1].url));
        assert forall|k: int| 0 <= k < defs.drop_last().len() implies citation::is_full_url(
            (#[trigger] defs.drop_last()[k]).url,
        ) by {
            assert(defs.drop_last()[k] == defs[k]);
        }
        lemma_lookup_is_full(defs.drop_last(), label);
    }
}

proof fn lemma_footnotes_are_full(s: Seq<char>, defs: Seq<DefinitionView>, i: int)
    requires
        forall|k: int| 0 <= k < defs.len() ==> citation::is_full_url((#[trigger] defs[k]).url),
    ensures
        citation::all_full_urls(footnotes_from(s, defs, i)),
    decreases s.len() - i,
{
    let start = text::next_text(s, "[^"@, i);
    let close = text::next_char(s, ']', start);
    if !(i < 0 || start >= s.len() || close >= s.len() || !(i <= start <= close)) {
        lemma_footnotes_are_full(s, defs, close + 1);
        let label = s.subrange(start + 2, close);
        lemma_lookup_is_full(defs, label);
        citation::lemma_full_urls_add(
            ref_citation(s, defs, label, start, close + 1),
            footnotes_from(s, defs, close + 1),
        );
    }
}

proof fn lemma_numeric_refs_are_full(s: Seq<char>, defs: Seq<DefinitionView>, i: int)
    requires
        forall|k: int| 0 <= k < defs.len() ==> citation::is_full_url((#[trigger] defs[k]).url),
    ensures
        citation::all_full_urls(numeric_refs_from(s, defs, i)),
    decreases s.len() - i,
{
    let start = text::next_char(s, '[', i);
    let close = text::next_char(s, ']', start + 1);
    if !(i < 0 || start >= s.len() || close >= s.len() || !(i <= start < close)) {
        lemma_numeric_refs_are_full(s, defs, close + 1);
        lemma_numeric_refs_are_full(s, defs, start + 1);
        let label = s.subrange(start + 1, close);
        lemma_lookup_is_full(defs, label);
        let rest = numeric_refs_from(s, defs, close + 1);
        citation::lemma_full_urls_add(ref_citation(s, defs, label, start, close + 1), rest);
        citation::lemma_full_urls_add(Seq::<CitationView>::empty(), rest);
    }
}

proof fn lemma_section_is_full(s: Seq<char>, lines: Seq<(int, int)>, k: int, seen: bool)
    ensures
        citation::all_full_urls(section_from(s, lines, k, seen)),
    decreases lines.len() - k,
{
    if !(k < 0 || k >= lines.len()) {
        let (a, b) = lines[k];
        lemma_section_is_full(s, lines, k + 1, false);
        lemma_section_is_full(s, lines, k + 1, true);
        lemma_url_is_full(bullet_body(text::trim_start(s.subrange(a, b))));
        if let Some(c) = bullet_citation(s, a, b) {
            citation::lemma_full_urls_add(seq![c], section_from(s, lines, k + 1, true));
        }
    }
}

proof fn lemma_sections_are_full(s: Seq<char>, lower: Seq<char>, marker: Seq<char>, i: int)
    ensures
        citation::all_full_urls(sections_from(s, lower, marker, i)),
    decreases s.len() - i,
{
    let h = text::next_text(lower, marker, i);
    let after = h + marker.len();
    if !(i < 0 || h >= s.len() || !(i <= h && i < after <= s.len())) {
        lemma_sections_are_full(s, lower, marker, after);
        lemma_section_is_full(s, text::lines_from(s, after), 0, false);
        let rest = sections_from(s, lower, marker, after);
        citation::lemma_full_urls_add(
            section_from(s, text::lines_from(s, after), 0, false),
            rest,
        );
        citation::lemma_full_urls_add(Seq::<CitationView>::empty(), rest);
    }
}

/// A definition or bullet is only cited when it holds an http or https URL with
/// something behind the scheme.
pub proof fn structured_urls_are_full(s: Seq<char>)
    ensures
        citation::all_full_urls(footnotes_from(s, definitions_in(RefKind::Footnote, s), 0)),
        citation::all_full_urls(numeric_refs_from(s, definitions_in(RefKind::Numeric, s), 0)),
        citation::all_full_urls(source_sections(s)),
{
    lemma_definitions_are_full(RefKind::Footnote, s, text::lines_from(s, 0));
    lemma_definitions_are_full(RefKind::Numeric, s, text::lines_from(s, 0));
    lemma_footnotes_are_full(s, definitions_in(RefKind::Footnote, s), 0);
    lemma_numeric_refs_are_full(s, definitions_in(RefKind::Numeric, s), 0);
    let lower = text::ascii_lowercase(s);
    let sources = sections_from(s, lower, "sources:"@, 0);
    let references = sections_from(s, lower, "references:"@, 0);
    lemma_sections_are_full(s, lower, "sources:"@, 0);
    lemma_sections_are_full(s, lower, "references:"@, 0);
    lemma_sections_are_full(s, lower, "citations:"@, 0);
    citation::lemma_full_urls_add(sources, references);
    citation::lemma_full_urls_add(
        sources + references,
        sections_from(s, lower, "citations:"@, 0),
    );
}

/// `c` cites the reference `s[start..=close]` of this kind, which is no
/// definition.
pub open spec fn cites_site(
    kind: RefKind,
    s: Seq<char>,
    c: CitationView,
    start: int,
    close: int,
) -> bool {
    &&& 0 <= start < close < s.len()
    &&& s[start] == '['
    &&& s[close] == ']'
    &&& c.start == text::byte_offset(s, start)
    &&& c.end == text::byte_offset(s, close + 1)
    &&& match kind {
        RefKind::Footnote => text::matches_at(s, "[^"@, start) && !is_footnote_site(
            s,
            start,
            close,
        ),
        RefKind::Numeric => text::is_number(s.subrange(start + 1, close)) && !is_numeric_site(
            s,
            start,
        ),
    }
}

/// `c` cites a reference of this kind from `i` on.
pub open spec fn has_site(kind: RefKind, s: Seq<char>, c: CitationView, i: int) -> bool {
    exists|start: int, close: int| i <= start && #[trigger] cites_site(kind, s, c, start, close)
}

/// Each citation stands at a reference of this kind from `i` on, and behind
/// those before it.
pub open spec fn cite_sites(kind: RefKind, s: Seq<char>, cs: Seq<CitationView>, i: int) -> bool {
    &&& forall|k: int|
        0 <= k < cs.len() ==> has_site(kind, s, #[trigger] cs[k], i)
    &&& forall|j: int, k: int|
        0 <= j < k < cs.len() ==> (#[trigger] cs[j]).end <= (#[trigger] cs[k]).start
}

/// One more citation in front of those behind it.
proof fn lemma_sites_add(
    kind: RefKind,
    s: Seq<char>,
    first: Seq<CitationView>,
    rest: Seq<CitationView>,
    i: int,
    start: int,
    close: int,
)
    requires
        0 <= i <= start,
        first.len() <= 1,
        first.len() == 1 ==> cites_site(kind, s, first[0], start, close),
        start < close < s.len(),
        cite_sites(kind, s, rest, close + 1),
    ensures
        cite_sites(kind, s, first + rest, i),
{
    let all = first + rest;
    assert forall|k: int| 0 <= k < all.len() implies has_site(kind, s, #[trigger] all[k], i) by {
        if k < first.len() {
            assert(cites_site(kind, s, all[k], start, close));
        } else {
            assert(all[k] == rest[k - first.len()]);
            assert(has_site(kind, s, rest[k - first.len()], close + 1));
            let (a, b) = choose|a: int, b: int|
                close + 1 <= a && #[trigger] cites_site(kind, s, rest[k - first.len()], a, b);
            assert(cites_site(kind, s, all[k], a, b));
        }
    }
    assert forall|j: int, k: int| 0 <= j < k < all.len() implies (#[trigger] all[j]).end <= (
    #[trigger] all[k]).start by {
        assert(all[k] == rest[k - first.len()]);
        if j < first.len() {
            assert(has_site(kind, s, rest[k - first.len()], close + 1));
            let (a, b) = choose|a: int, b: int|
                close + 1 <= a && #[trigger] cites_site(kind, s, rest[k - first.len()], a, b);
            text::lemma_byte_offset_split(s, close + 1, a);
        } else {
            assert(all[j] == rest[j - first.len()]);
        }
    }
}

proof fn lemma_sites_from(
    kind: RefKind,
    s: Seq<char>,
    cs: Seq<CitationView>,
    from: int,
    i: int,
)
    requires
        i <= from,
        cite_sites(kind, s, cs, from),
    ensures
        cite_sites(kind, s, cs, i),
{
    assert forall|k: int| 0 <= k < cs.len() implies has_site(kind, s, #[trigger] cs[k], i) by {
        assert(has_site(kind, s, cs[k], from));
        let (a, b) = choose|a: int, b: int|
            from <= a && #[trigger] cites_site(kind, s, cs[k], a, b);
        assert(cites_site(kind, s, cs[k], a, b));
    }
}

proof fn lemma_footnote_sites(s: Seq<char>, defs: Seq<DefinitionView>, i: int)
    requires
        0 <= i,
    ensures
        cite_sites(RefKind::Footnote, s, footnotes_from(s, defs, i), i),
    decreases s.len() - i,
{
    let start = text::next_text(s, "[^"@, i);
    let close = text::next_char(s, ']', start);
    if !(start >= s.len() || close >= s.len() || !(i <= start <= close)) {
        lemma_footnote_sites(s, defs, close + 1);
        let rest = footnotes_from(s, defs, close + 1);
        text::lemma_next_text(s, "[^"@, i);
        text::lemma_next_char(s, ']', start);
        reveal_strlit("[^");
        assert(s.subrange(start, start + 2)[0] == s[start]);
        if is_footnote_site(s, start, close) {
            lemma_sites_from(RefKind::Footnote, s, rest, close + 1, i);
        } else {
            let first = ref_citation(s, defs, s.subrange(start + 2, close), start, close + 1);
            lemma_sites_add(RefKind::Footnote, s, first, rest, i, start, close);
        }
    }
}

proof fn lemma_numeric_sites(s: Seq<char>, defs: Seq<DefinitionView>, i: int)
    requires
        0 <= i,
    ensures
        cite_sites(RefKind::Numeric, s, numeric_refs_from(s, defs, i), i),
    decreases s.len() - i,
{
    let start = text::next_char(s, '[', i);
    let close = text::next_char(s, ']', start + 1);
    if !(start >= s.len() || close >= s.len() || !(i <= start < close)) {
        text::lemma_next_char(s, '[', i);
        text::lemma_next_char(s, ']', start + 1);
        let label = s.subrange(start + 1, close);
        if text::is_number(label) {
            lemma_numeric_sites(s, defs, close + 1);
            let rest = numeric_refs_from(s, defs, close + 1);
            let first = if is_numeric_site(s, start) {
                Seq::empty()
            } else {
                ref_citation(s, defs, label, start, close + 1)
            };
            lemma_sites_add(RefKind::Numeric, s, first, rest, i, start, close);
        } else {
            lemma_numeric_sites(s, defs, start + 1);
            lemma_sites_from(
                RefKind::Numeric,
                s,
                numeric_refs_from(s, defs, start + 1),
                start + 1,
                i,
            );
        }
    }
}

/// There is at most one citation per reference site, and none at the site of a
/// definition.
pub proof fn references_are_cited_once(s: Seq<char>)
    ensures
        cite_sites(
            RefKind::Footnote,
            s,
            footnotes_from(s, definitions_in(RefKind::Footnote, s), 0),
            0,
        ),
        cite_sites(
            RefKind::Numeric,
            s,
            numeric_refs_from(s, definitions_in(RefKind::Numeric, s), 0),
            0,
        ),
{
    lemma_footnote_sites(s, definitions_in(RefKind::Footnote, s), 0);
    lemma_numeric_sites(s, definitions_in(RefKind::Numeric, s), 0);
}

} // verus!
