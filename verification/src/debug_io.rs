//! Dumps of the two texts that bracket a generation: the prompt that the chat
//! template rendered, and the raw output of the model.
//!
//! Characters that look like ASCII and are not cannot be told apart in a
//! verbatim log. So each dump ends with a census that names every non-ASCII
//! character and where it first stands.

use crate::text;
use crate::text::{
    byte_offsets, chars_of, is_white_space, push_decimal, push_hex, push_padded, push_repeated,
    string_of,
};
use vstd::prelude::*;
use vstd::string::*;

verus! {

/// Characters of a text that a dump shows unless told otherwise.
pub const DEFAULT_MAX_CHARS: usize = 16384;

/// `c` is an ASCII character.
pub open spec fn is_ascii_char(c: char) -> bool {
    (c as u32) < 0x80
}

/// A non-ASCII character of a text: the character and the byte where it first
/// stands, and how often it stands.
pub struct Sighting {
    pub at: usize,
    pub first: usize,
    pub count: usize,
}

/// Position of the first sighting of `c` at or after `i`, or the length.
pub open spec fn sighting_at(s: Seq<char>, seen: Seq<Sighting>, c: char, i: int) -> int
    decreases seen.len() - i,
{
    if i < 0 || i >= seen.len() {
        seen.len() as int
    } else if s[seen[i].at as int] == c {
        i
    } else {
        sighting_at(s, seen, c, i + 1)
    }
}

/// The sightings among the first `n` characters of `s`, in order of first
/// appearance.
pub open spec fn sightings(s: Seq<char>, n: int) -> Seq<Sighting>
    decreases n,
{
    if n <= 0 {
        Seq::empty()
    } else {
        let before = sightings(s, n - 1);
        let c = s[n - 1];
        let i = sighting_at(s, before, c, 0);
        if is_ascii_char(c) {
            before
        } else if 0 <= i < before.len() {
            before.update(i, Sighting { count: (before[i].count + 1) as usize, ..before[i] })
        } else {
            before.push(
                Sighting {
                    at: (n - 1) as usize,
                    first: text::byte_offset(s, n - 1) as usize,
                    count: 1,
                },
            )
        }
    }
}

/// The name of a character: the look-alikes and invisibles have one of their
/// own, all others that of their kind.
pub open spec fn name_of(c: char) -> Seq<char> {
    if c == '\u{2010}' {
        "HYPHEN"@
    } else if c == '\u{2011}' {
        "NON-BREAKING HYPHEN"@
    } else if c == '\u{2012}' {
        "FIGURE DASH"@
    } else if c == '\u{2013}' {
        "EN DASH"@
    } else if c == '\u{2014}' {
        "EM DASH"@
    } else if c == '\u{2212}' {
        "MINUS SIGN"@
    } else if c == '\u{00AD}' {
        "SOFT HYPHEN (invisible)"@
    } else if c == '\u{2018}' {
        "LEFT SINGLE QUOTE"@
    } else if c == '\u{2019}' {
        "RIGHT SINGLE QUOTE"@
    } else if c == '\u{201C}' {
        "LEFT DOUBLE QUOTE"@
    } else if c == '\u{201D}' {
        "RIGHT DOUBLE QUOTE"@
    } else if c == '\u{00A0}' {
        "NO-BREAK SPACE"@
    } else if c == '\u{202F}' {
        "NARROW NO-BREAK SPACE"@
    } else if c == '\u{2009}' {
        "THIN SPACE"@
    } else if c == '\u{200B}' {
        "ZERO WIDTH SPACE (invisible)"@
    } else if c == '\u{200C}' {
        "ZERO WIDTH NON-JOINER (invisible)"@
    } else if c == '\u{200D}' {
        "ZERO WIDTH JOINER (invisible)"@
    } else if c == '\u{FEFF}' {
        "ZERO WIDTH NO-BREAK SPACE / BOM (invisible)"@
    } else if c == '\u{2026}' {
        "HORIZONTAL ELLIPSIS"@
    } else if text::is_space(c) {
        "<whitespace>"@
    } else if (c as u32) < 0x2000 {
        "<letter or symbol>"@
    } else {
        "<symbol>"@
    }
}

/// The name of a character.
pub fn char_name(c: char) -> (r: &'static str)
    ensures
        r@ == name_of(c),
{
    if c == '\u{2010}' {
        "HYPHEN"
    } else if c == '\u{2011}' {
        "NON-BREAKING HYPHEN"
    } else if c == '\u{2012}' {
        "FIGURE DASH"
    } else if c == '\u{2013}' {
        "EN DASH"
    } else if c == '\u{2014}' {
        "EM DASH"
    } else if c == '\u{2212}' {
        "MINUS SIGN"
    } else if c == '\u{00AD}' {
        "SOFT HYPHEN (invisible)"
    } else if c == '\u{2018}' {
        "LEFT SINGLE QUOTE"
    } else if c == '\u{2019}' {
        "RIGHT SINGLE QUOTE"
    } else if c == '\u{201C}' {
        "LEFT DOUBLE QUOTE"
    } else if c == '\u{201D}' {
        "RIGHT DOUBLE QUOTE"
    } else if c == '\u{00A0}' {
        "NO-BREAK SPACE"
    } else if c == '\u{202F}' {
        "NARROW NO-BREAK SPACE"
    } else if c == '\u{2009}' {
        "THIN SPACE"
    } else if c == '\u{200B}' {
        "ZERO WIDTH SPACE (invisible)"
    } else if c == '\u{200C}' {
        "ZERO WIDTH NON-JOINER (invisible)"
    } else if c == '\u{200D}' {
        "ZERO WIDTH JOINER (invisible)"
    } else if c == '\u{FEFF}' {
        "ZERO WIDTH NO-BREAK SPACE / BOM (invisible)"
    } else if c == '\u{2026}' {
        "HORIZONTAL ELLIPSIS"
    } else if is_white_space(c) {
        "<whitespace>"
    } else if (c as u32) < 0x2000 {
        "<letter or symbol>"
    } else {
        "<symbol>"
    }
}

/// A number in hexadecimal, with zeros in front up to four digits.
pub open spec fn code_point(n: nat) -> Seq<char> {
    let h = text::hexadecimal(n);
    text::repeated('0', 4 - h.len()) + h
}

/// The census line of a sighting.
pub open spec fn census_line(s: Seq<char>, x: Sighting) -> Seq<char> {
    let c = s[x.at as int];
    "  U+"@ + code_point(c as u32 as nat) + " "@ + text::padded(name_of(c), 34) + " x"@
        + text::padded(text::decimal(x.count as nat), 4) + " first@"@ + text::decimal(
        x.first as nat,
    )
}

/// The census lines of the first `n` sightings.
pub open spec fn census_lines(s: Seq<char>, seen: Seq<Sighting>, n: int) -> Seq<Seq<char>> {
    Seq::new(n as nat, |i: int| census_line(s, seen[i]))
}

/// The census of a text: a line per non-ASCII character.
pub open spec fn census(s: Seq<char>) -> Seq<char> {
    let seen = sightings(s, s.len() as int);
    if seen.len() == 0 {
        "  (pure ASCII)"@
    } else {
        text::joined(census_lines(s, seen, seen.len() as int), "\n"@)
    }
}

fn write_code_point(n: u32) -> (h: String)
    ensures
        h@ == code_point(n as nat),
{
    let mut h: String = String::new();
    push_hex(&mut h, n);
    let digits: usize = chars_of(h.as_str()).len();
    let mut out: String = String::new();
    if digits < 4 {
        push_repeated(&mut out, '0', 4 - digits);
    }
    out.append(h.as_str());
    assert(h@ =~= text::hexadecimal(n as nat));
    assert(out@ =~= code_point(n as nat));
    out
}

fn write_census_line(s: &Vec<char>, x: &Sighting) -> (line: String)
    requires
        x.at < s@.len(),
    ensures
        line@ == census_line(s@, *x),
{
    let c: char = s[x.at];
    let code: String = write_code_point(c as u32);
    let mut line: String = "  U+".to_owned();
    line.append(code.as_str());
    line.append(" ");
    push_padded(&mut line, char_name(c), 34);
    line.append(" x");
    let mut count: String = String::new();
    push_decimal(&mut count, x.count as u64);
    assert(count@ =~= text::decimal(x.count as nat));
    push_padded(&mut line, count.as_str(), 4);
    line.append(" first@");
    push_decimal(&mut line, x.first as u64);
    line
}

/// The sightings of a text.
fn collect_sightings(s: &Vec<char>) -> (seen: Vec<Sighting>)
    requires
        text::byte_len(s@) <= usize::MAX,
    ensures
        seen@ == sightings(s@, s@.len() as int),
        forall|k: int| 0 <= k < seen@.len() ==> (#[trigger] seen@[k]).at < s@.len(),
{
    let offs: Vec<usize> = byte_offsets(s);
    let mut seen: Vec<Sighting> = Vec::new();
    let mut i: usize = 0;
    while i < s.len()
        invariant
            i <= s@.len(),
            offs@.len() == s@.len() + 1,
            forall|k: int| 0 <= k <= s@.len() ==> #[trigger] offs@[k] == text::byte_offset(s@, k),
            seen@ == sightings(s@, i as int),
            forall|k: int|
                0 <= k < seen@.len() ==> (#[trigger] seen@[k]).count <= i && seen@[k].at < i,
        decreases s@.len() - i,
    {
        let c: char = s[i];
        if (c as u32) >= 0x80 {
            let mut k: usize = 0;
            while k < seen.len() && s[seen[k].at] != c
                invariant
                    i < s@.len(),
                    k <= seen@.len(),
                    forall|j: int| 0 <= j < seen@.len() ==> (#[trigger] seen@[j]).at < i,
                    sighting_at(s@, seen@, c, 0) == sighting_at(s@, seen@, c, k as int),
                decreases seen@.len() - k,
            {
                k = k + 1;
            }
            let ghost before = seen@;
            if k < seen.len() {
                let x = Sighting { at: seen[k].at, first: seen[k].first, count: seen[k].count + 1 };
                seen[k] = x;
                assert(seen@ =~= before.update(
                    k as int,
                    Sighting { count: (before[k as int].count + 1) as usize, ..before[k as int] },
                ));
            } else {
                seen.push(Sighting { at: i, first: offs[i], count: 1 });
            }
        }
        i = i + 1;
    }
    seen
}

/// Every non-ASCII character of a text with its code point, its name, how often
/// it stands and the byte where it first stands.
pub fn codepoint_census(s: &str) -> (out: String)
    ensures
        out@ == census(s@),
{
    let chars: Vec<char> = chars_of(s);
    let seen: Vec<Sighting> = collect_sightings(&chars);
    if seen.len() == 0 {
        return "  (pure ASCII)".to_owned();
    }
    let mut lines: Vec<String> = Vec::new();
    let mut i: usize = 0;
    assert(text::texts(lines@) =~= census_lines(chars@, seen@, 0));
    while i < seen.len()
        invariant
            i <= seen@.len(),
            forall|k: int| 0 <= k < seen@.len() ==> (#[trigger] seen@[k]).at < chars@.len(),
            text::texts(lines@) == census_lines(chars@, seen@, i as int),
        decreases seen@.len() - i,
    {
        let ghost before = lines@;
        let line: String = write_census_line(&chars, &seen[i]);
        lines.push(line);
        proof {
            assert(text::texts(lines@) =~= text::texts(before).push(line@));
            assert(census_lines(chars@, seen@, i + 1) =~= census_lines(chars@, seen@, i as int).push(line@));
        }
        i = i + 1;
    }
    text::join(&lines, "\n")
}

/// The part of a text that a dump shows.
pub open spec fn shown_part(s: Seq<char>, max_chars: usize) -> Seq<char> {
    if s.len() > max_chars {
        s.subrange(0, max_chars as int)
    } else {
        s
    }
}

/// The dump of a text.
pub open spec fn dump(
    kind: Seq<char>,
    what: Seq<char>,
    t: Seq<char>,
    max_chars: usize,
) -> Seq<char> {
    "=== "@ + kind + " ("@ + what + ") === "@ + text::decimal(t.len()) + " chars, "@
        + text::decimal(text::byte_len(t)) + " bytes"@ + (if t.len() > max_chars {
        " (TRUNCATED, raise ATLAS_DEBUG_IO_MAX)"@
    } else {
        Seq::empty()
    }) + "\n"@ + shown_part(t, max_chars) + "\n--- non-ASCII ---\n"@ + census(t)
}

/// The dump of a text, at most `max_chars` characters of it shown.
pub fn render_dump_capped(kind: &str, what: &str, t: &str, max_chars: usize) -> (out: String)
    ensures
        out@ == dump(kind@, what@, t@, max_chars),
{
    let chars: Vec<char> = chars_of(t);
    let bytes: usize = t.as_bytes().len();
    proof {
        text::lemma_byte_len_is_encoded_len(t@);
    }
    let mut out: String = "=== ".to_owned();
    out.append(kind);
    out.append(" (");
    out.append(what);
    out.append(") === ");
    push_decimal(&mut out, chars.len() as u64);
    out.append(" chars, ");
    push_decimal(&mut out, bytes as u64);
    out.append(" bytes");
    if chars.len() > max_chars {
        out.append(" (TRUNCATED, raise ATLAS_DEBUG_IO_MAX)");
        out.append("\n");
        let shown: String = string_of(&chars, 0, max_chars);
        out.append(shown.as_str());
    } else {
        assert(out@ =~= out@ + Seq::<char>::empty());
        out.append("\n");
        out.append(t);
    }
    out.append("\n--- non-ASCII ---\n");
    let c: String = codepoint_census(t);
    out.append(c.as_str());
    out
}

/// The dump of a text: what it is, its length in characters and bytes, the text
/// itself, and its census.
pub fn render_dump(kind: &str, what: &str, t: &str) -> (out: String)
    ensures
        out@ == dump(kind@, what@, t@, DEFAULT_MAX_CHARS),
{
    render_dump_capped(kind, what, t, DEFAULT_MAX_CHARS)
}

/// Token ids in decimal, separated by spaces.
pub open spec fn id_texts(ids: Seq<u32>, n: int) -> Seq<Seq<char>> {
    Seq::new(n as nat, |i: int| text::decimal(ids[i] as nat))
}

/// How many token ids a dump shows.
pub open spec fn shown_ids(ids: Seq<u32>, max_chars: usize) -> int {
    if ids.len() <= max_chars as int / 7 {
        ids.len() as int
    } else {
        max_chars as int / 7
    }
}

/// The dump of generated token ids.
pub open spec fn ids_dump(ids: Seq<u32>, max_chars: usize) -> Seq<char> {
    "=== MODEL OUTPUT (stream, token ids) === "@ + text::decimal(ids.len()) + " ids"@ + (
    if shown_ids(ids, max_chars) < ids.len() {
        " (TRUNCATED)"@
    } else {
        Seq::empty()
    }) + "\n"@ + text::joined(id_texts(ids, shown_ids(ids, max_chars)), " "@)
}

/// The dump of generated token ids; `None` when there are none.
pub fn render_token_ids(ids: &[u32], max_chars: usize) -> (r: Option<String>)
    ensures
        match r {
            Some(s) => ids@.len() > 0 && s@ == ids_dump(ids@, max_chars),
            None => ids@.len() == 0,
        },
{
    if ids.len() == 0 {
        return None;
    }
    let shown: usize = if ids.len() <= max_chars / 7 {
        ids.len()
    } else {
        max_chars / 7
    };
    let mut parts: Vec<String> = Vec::new();
    let mut i: usize = 0;
    assert(text::texts(parts@) =~= id_texts(ids@, 0));
    while i < shown
        invariant
            i <= shown <= ids@.len(),
            text::texts(parts@) == id_texts(ids@, i as int),
        decreases shown - i,
    {
        let ghost before = parts@;
        let mut d: String = String::new();
        push_decimal(&mut d, ids[i] as u64);
        assert(d@ =~= text::decimal(ids@[i as int] as nat));
        parts.push(d);
        proof {
            assert(text::texts(parts@) =~= text::texts(before).push(d@));
            assert(id_texts(ids@, i + 1) =~= id_texts(ids@, i as int).push(d@));
        }
        i = i + 1;
    }
    let list: String = text::join(&parts, " ");
    let mut out: String = "=== MODEL OUTPUT (stream, token ids) === ".to_owned();
    push_decimal(&mut out, ids.len() as u64);
    out.append(" ids");
    if shown < ids.len() {
        out.append(" (TRUNCATED)");
    } else {
        assert(out@ =~= out@ + Seq::<char>::empty());
    }
    out.append("\n");
    out.append(list.as_str());
    Some(out)
}

// ── laws ──

/// `x` tells the truth about the first `n` characters of `s`: a non-ASCII
/// character, where it first stands, and how often it stands.
pub open spec fn is_true_sighting(s: Seq<char>, n: int, x: Sighting) -> bool {
    &&& x.at < n
    &&& !is_ascii_char(s[x.at as int])
    &&& x.first == text::byte_offset(s, x.at as int)
    &&& x.count == text::count_char(s.take(n), s[x.at as int])
    &&& forall|k: int| 0 <= k < x.at ==> #[trigger] s[k] != s[x.at as int]
}

/// `c` is among the sightings.
pub open spec fn is_sighted(s: Seq<char>, seen: Seq<Sighting>, c: char) -> bool {
    exists|j: int| 0 <= j < seen.len() && s[(#[trigger] seen[j]).at as int] == c
}

proof fn lemma_sighting_at(s: Seq<char>, seen: Seq<Sighting>, c: char, i: int)
    requires
        0 <= i <= seen.len(),
    ensures
        i <= sighting_at(s, seen, c, i) <= seen.len(),
        sighting_at(s, seen, c, i) < seen.len() ==> s[seen[sighting_at(s, seen, c, i)].at as int]
            == c,
        forall|j: int|
            i <= j < sighting_at(s, seen, c, i) ==> s[(#[trigger] seen[j]).at as int] != c,
    decreases seen.len() - i,
{
    if i < seen.len() && s[seen[i].at as int] != c {
        lemma_sighting_at(s, seen, c, i + 1);
    }
}

proof fn lemma_count_absent(s: Seq<char>, n: int, c: char)
    requires
        0 <= n <= s.len(),
        forall|k: int| 0 <= k < n ==> #[trigger] s[k] != c,
    ensures
        text::count_char(s.take(n), c) == 0,
    decreases n,
{
    if n > 0 {
        lemma_count_absent(s, n - 1, c);
        assert(s.take(n).drop_last() =~= s.take(n - 1));
    }
}

proof fn lemma_count_bound(s: Seq<char>, c: char)
    ensures
        text::count_char(s, c) <= s.len(),
    decreases s.len(),
{
    if s.len() > 0 {
        lemma_count_bound(s.drop_last(), c);
    }
}

/// The census names every non-ASCII character of a text once, with the byte
/// where it first stands and the number of times it stands, and names nothing
/// else.
pub proof fn census_is_complete(s: Seq<char>, n: int)
    requires
        0 <= n <= s.len(),
        text::byte_len(s) <= usize::MAX,
    ensures
        forall|j: int|
            0 <= j < sightings(s, n).len() ==> is_true_sighting(
                s,
                n,
                #[trigger] sightings(s, n)[j],
            ),
        forall|k: int|
            0 <= k < n && !is_ascii_char(s[k]) ==> is_sighted(
                s,
                sightings(s, n),
                #[trigger] s[k],
            ),
        forall|i: int, j: int|
            0 <= i < j < sightings(s, n).len() ==> s[(#[trigger] sightings(s, n)[i]).at as int]
                != s[(#[trigger] sightings(s, n)[j]).at as int],
    decreases n,
{
    text::lemma_byte_len_at_least_len(s);
    if n > 0 {
        census_is_complete(s, n - 1);
        let before = sightings(s, n - 1);
        let after = sightings(s, n);
        let c = s[n - 1];
        let i = sighting_at(s, before, c, 0);
        lemma_sighting_at(s, before, c, 0);
        text::lemma_byte_offset_split(s, n - 1, n);
        lemma_count_bound(s.take(n), c);
        assert(s.take(n).drop_last() =~= s.take(n - 1));
        assert(s.take(n).last() == c);
        if !is_ascii_char(c) && i == before.len() {
            assert forall|k: int| 0 <= k < n - 1 implies #[trigger] s[k] != c by {
                if s[k] == c {
                    assert(is_sighted(s, before, s[k]));
                }
            }
            lemma_count_absent(s, n - 1, c);
        }
        assert forall|j: int| 0 <= j < after.len() implies is_true_sighting(
            s,
            n,
            #[trigger] after[j],
        ) by {
            if j < before.len() {
                assert(is_true_sighting(s, n - 1, before[j]));
                assert(after[j].at == before[j].at);
                if !is_ascii_char(c) && j != i {
                    if i < before.len() {
                        assert(s[before[i].at as int] == c);
                    }
                    assert(s[before[j].at as int] != c);
                }
            }
        }
        assert forall|k: int| 0 <= k < n && !is_ascii_char(s[k]) implies is_sighted(
            s,
            after,
            #[trigger] s[k],
        ) by {
            if k < n - 1 {
                assert(is_sighted(s, before, s[k]));
                let j = choose|j: int|
                    0 <= j < before.len() && s[(#[trigger] before[j]).at as int] == s[k];
                assert(after[j].at == before[j].at);
            } else if i < before.len() {
                assert(after[i].at == before[i].at);
            } else {
                assert(after[before.len() as int].at == n - 1);
            }
        }
        assert forall|a: int, b: int| 0 <= a < b < after.len() implies s[(
        #[trigger] after[a]).at as int] != s[(#[trigger] after[b]).at as int] by {
            assert(after[a].at == before[a].at);
            if b < before.len() {
                assert(after[b].at == before[b].at);
                assert(s[before[a].at as int] != s[before[b].at as int]);
            } else {
                assert(after[b].at == n - 1);
                assert(s[before[a].at as int] != c);
            }
        }
    }
}

/// A dump shows the text whole up to its limit, and its beginning up to the
/// limit beyond; a text without a non-ASCII character is called so, and only
/// such a text.
pub proof fn dumps_show_the_text(t: Seq<char>, max_chars: usize)
    requires
        text::byte_len(t) <= usize::MAX,
    ensures
        t.len() <= max_chars ==> shown_part(t, max_chars) == t,
        t.len() > max_chars ==> shown_part(t, max_chars).len() == max_chars && shown_part(
            t,
            max_chars,
        ).is_prefix_of(t),
        (forall|k: int| 0 <= k < t.len() ==> is_ascii_char(#[trigger] t[k])) ==> census(t)
            == "  (pure ASCII)"@,
        (exists|k: int| 0 <= k < t.len() && !is_ascii_char(#[trigger] t[k])) ==> sightings(
            t,
            t.len() as int,
        ).len() > 0,
{
    census_is_complete(t, t.len() as int);
    let seen = sightings(t, t.len() as int);
    if forall|k: int| 0 <= k < t.len() ==> is_ascii_char(#[trigger] t[k]) {
        if seen.len() > 0 {
            assert(is_true_sighting(t, t.len() as int, seen[0]));
            assert(is_ascii_char(t[seen[0].at as int]));
        }
    }
    if exists|k: int| 0 <= k < t.len() && !is_ascii_char(#[trigger] t[k]) {
        let k = choose|k: int| 0 <= k < t.len() && !is_ascii_char(#[trigger] t[k]);
        assert(is_sighted(t, seen, t[k]));
    }
}

/// The dump of token ids lists them in order and in decimal, all of them as long
/// as there is room at seven characters each, and else the first ones.
pub proof fn id_dumps_list_the_ids(ids: Seq<u32>, max_chars: usize, i: int)
    requires
        0 <= i < shown_ids(ids, max_chars),
    ensures
        id_texts(ids, shown_ids(ids, max_chars)).len() == shown_ids(ids, max_chars),
        id_texts(ids, shown_ids(ids, max_chars))[i] == text::decimal(ids[i] as nat),
        7 * ids.len() <= max_chars ==> shown_ids(ids, max_chars) == ids.len(),
        7 * shown_ids(ids, max_chars) <= max_chars,
        shown_ids(ids, max_chars) < ids.len() ==> 7 * (shown_ids(ids, max_chars) + 1) > max_chars,
{
}

} // verus!
