//! Text as a sequence of characters: searching, slicing, trimming, byte
//! offsets and number rendering.

use vstd::prelude::*;
use vstd::string::*;
use vstd::utf8::*;

verus! {

/// `String::push`: appends the character to the end of the text.
pub assume_specification[ String::push ](s: &mut String, c: char)
    ensures
        final(s)@ == old(s)@.push(c),
;

// ── bytes ──

/// Number of bytes of the UTF-8 encoding of `c`.
pub open spec fn utf8_width(c: char) -> nat {
    if c as u32 <= 0x7f {
        1
    } else if c as u32 <= 0x7ff {
        2
    } else if c as u32 <= 0xffff {
        3
    } else {
        4
    }
}

/// Number of bytes of the UTF-8 encoding of `s`.
pub open spec fn byte_len(s: Seq<char>) -> nat
    decreases s.len(),
{
    if s.len() == 0 {
        0
    } else {
        byte_len(s.drop_last()) + utf8_width(s.last())
    }
}

/// Byte offset of the character position `i` in `s`.
pub open spec fn byte_offset(s: Seq<char>, i: int) -> nat {
    byte_len(s.take(i))
}

/// Byte lengths add up under concatenation.
pub proof fn lemma_byte_len_add(a: Seq<char>, b: Seq<char>)
    ensures
        byte_len(a + b) == byte_len(a) + byte_len(b),
    decreases b.len(),
{
    if b.len() == 0 {
        assert(a + b =~= a);
    } else {
        assert((a + b).drop_last() =~= a + b.drop_last());
        lemma_byte_len_add(a, b.drop_last());
    }
}

/// `byte_len` is the length of the UTF-8 encoding.
pub proof fn lemma_byte_len_is_encoded_len(s: Seq<char>)
    ensures
        byte_len(s) == encode_utf8(s).len(),
    decreases s.len(),
{
    if s.len() > 0 {
        let head = seq![s[0]];
        let tail = s.drop_first();
        assert(s =~= head + tail);
        lemma_byte_len_add(head, tail);
        assert(head.drop_last() =~= Seq::<char>::empty());
        assert(byte_len(head) == utf8_width(s[0])) by {
            reveal_with_fuel(byte_len, 2);
        }
        char_is_scalar(s[0]);
        lemma_byte_len_is_encoded_len(tail);
    }
}

/// Byte offsets grow with the position by the bytes in between.
pub proof fn lemma_byte_offset_split(s: Seq<char>, i: int, j: int)
    requires
        0 <= i <= j <= s.len(),
    ensures
        byte_offset(s, j) == byte_offset(s, i) + byte_len(s.subrange(i, j)),
        byte_offset(s, j) <= byte_len(s),
{
    assert(s.take(j) =~= s.take(i) + s.subrange(i, j));
    lemma_byte_len_add(s.take(i), s.subrange(i, j));
    assert(s =~= s.take(j) + s.skip(j));
    lemma_byte_len_add(s.take(j), s.skip(j));
}

/// A text has at least as many bytes as characters.
pub proof fn lemma_byte_len_at_least_len(s: Seq<char>)
    ensures
        s.len() <= byte_len(s),
    decreases s.len(),
{
    if s.len() > 0 {
        lemma_byte_len_at_least_len(s.drop_last());
    }
}

/// Bytes that the UTF-8 encoding of `c` takes.
pub fn width_of(c: char) -> (n: usize)
    ensures
        n == utf8_width(c),
        1 <= n <= 4,
{
    let u: u32 = c as u32;
    if u <= 0x7f {
        1
    } else if u <= 0x7ff {
        2
    } else if u <= 0xffff {
        3
    } else {
        4
    }
}

// ── characters ──

/// The characters of `s` in order.
pub fn chars_of(s: &str) -> (out: Vec<char>)
    ensures
        out@ == s@,
        byte_len(out@) <= usize::MAX,
{
    let mut out: Vec<char> = Vec::new();
    for c in it: s.chars()
        invariant
            out@ == s@.take(it.index() as int),
            it.seq() == s@,
    {
        out.push(c);
    }
    proof {
        assert(s@.take(s@.len() as int) =~= s@);
        lemma_byte_len_is_encoded_len(s@);
    }
    let bytes = s.as_bytes();
    let n: usize = bytes.len();
    assert(byte_len(s@) == n);
    out
}

/// The text made of the characters `chars[from..to]`.
pub fn string_of(chars: &Vec<char>, from: usize, to: usize) -> (out: String)
    requires
        from <= to <= chars@.len(),
    ensures
        out@ == chars@.subrange(from as int, to as int),
{
    let mut out: String = String::new();
    let mut i: usize = from;
    while i < to
        invariant
            from <= i <= to <= chars@.len(),
            out@ == chars@.subrange(from as int, i as int),
        decreases to - i,
    {
        out.push(chars[i]);
        i = i + 1;
        assert(chars@.subrange(from as int, i as int) =~= chars@.subrange(
            from as int,
            i - 1,
        ).push(chars@[i - 1]));
    }
    out
}

/// Byte offset of every character position of `chars`, the end included.
pub fn byte_offsets(chars: &Vec<char>) -> (out: Vec<usize>)
    requires
        byte_len(chars@) <= usize::MAX,
    ensures
        out@.len() == chars@.len() + 1,
        forall|i: int| 0 <= i <= chars@.len() ==> #[trigger] out@[i] == byte_offset(chars@, i),
{
    let mut out: Vec<usize> = Vec::new();
    out.push(0);
    assert(chars@.take(0) =~= Seq::<char>::empty());
    let mut i: usize = 0;
    while i < chars.len()
        invariant
            i <= chars@.len(),
            byte_len(chars@) <= usize::MAX,
            out@.len() == i + 1,
            forall|k: int| 0 <= k <= i ==> #[trigger] out@[k] == byte_offset(chars@, k),
        decreases chars@.len() - i,
    {
        let w: usize = width_of(chars[i]);
        proof {
            assert(chars@.take(i + 1).drop_last() =~= chars@.take(i as int));
            lemma_byte_offset_split(chars@, i + 1, chars@.len() as int);
        }
        out.push(out[i] + w);
        i = i + 1;
    }
    out
}

/// Whether two texts hold the same characters.
pub fn same_text(a: &str, b: &str) -> (r: bool)
    ensures
        r == (a@ == b@),
{
    a.to_owned() == b.to_owned()
}

// ── searching ──

/// `pat` stands in `s` at position `i`.
pub open spec fn matches_at(s: Seq<char>, pat: Seq<char>, i: int) -> bool {
    0 <= i && i + pat.len() <= s.len() && s.subrange(i, i + pat.len()) == pat
}

/// `s` begins with `pat`.
pub open spec fn starts_with(s: Seq<char>, pat: Seq<char>) -> bool {
    matches_at(s, pat, 0)
}

/// First position of `c` in `s` at or after `i`; the length when there is
/// none.
pub open spec fn next_char(s: Seq<char>, c: char, i: int) -> int
    decreases s.len() - i,
{
    if i < 0 || i >= s.len() {
        s.len() as int
    } else if s[i] == c {
        i
    } else {
        next_char(s, c, i + 1)
    }
}

/// First position at or after `i` where `pat` stands in `s`; the length when
/// there is none.
pub open spec fn next_text(s: Seq<char>, pat: Seq<char>, i: int) -> int
    decreases s.len() - i,
{
    if i < 0 || i >= s.len() {
        s.len() as int
    } else if matches_at(s, pat, i) {
        i
    } else {
        next_text(s, pat, i + 1)
    }
}

pub proof fn lemma_next_char(s: Seq<char>, c: char, i: int)
    requires
        0 <= i,
    ensures
        i <= s.len() ==> i <= next_char(s, c, i) <= s.len(),
        next_char(s, c, i) < s.len() ==> s[next_char(s, c, i)] == c,
        forall|k: int| i <= k < next_char(s, c, i) && k < s.len() ==> s[k] != c,
    decreases s.len() - i,
{
    if i < s.len() && s[i] != c {
        lemma_next_char(s, c, i + 1);
    }
}

pub proof fn lemma_next_text(s: Seq<char>, pat: Seq<char>, i: int)
    requires
        0 <= i,
    ensures
        i <= s.len() ==> i <= next_text(s, pat, i) <= s.len(),
        next_text(s, pat, i) < s.len() ==> matches_at(s, pat, next_text(s, pat, i)),
        forall|k: int| i <= k < next_text(s, pat, i) ==> !matches_at(s, pat, k) || k >= s.len(),
    decreases s.len() - i,
{
    if i < s.len() && !matches_at(s, pat, i) {
        lemma_next_text(s, pat, i + 1);
    }
}

/// First position of `c` at or after `i`, or the length.
pub fn find_char(s: &Vec<char>, c: char, i: usize) -> (r: usize)
    requires
        i <= s@.len(),
    ensures
        r == next_char(s@, c, i as int),
        i <= r <= s@.len(),
        r < s@.len() ==> s@[r as int] == c,
{
    let mut k: usize = i;
    while k < s.len() && s[k] != c
        invariant
            i <= k <= s@.len(),
            next_char(s@, c, i as int) == next_char(s@, c, k as int),
        decreases s@.len() - k,
    {
        k = k + 1;
    }
    k
}

/// Whether `pat` stands in `s` at position `i`.
pub fn text_at(s: &Vec<char>, pat: &str, i: usize) -> (r: bool)
    requires
        i <= s@.len(),
    ensures
        r == matches_at(s@, pat@, i as int),
{
    let p: Vec<char> = chars_of(pat);
    if s.len() - i < p.len() {
        return false;
    }
    let mut k: usize = 0;
    while k < p.len()
        invariant
            i + p@.len() <= s.len(),
            k <= p@.len(),
            p@ == pat@,
            forall|j: int| 0 <= j < k ==> s@[i + j] == p@[j],
        decreases p@.len() - k,
    {
        if s[i + k] != p[k] {
            assert(s@.subrange(i as int, i + p@.len())[k as int] != p@[k as int]);
            return false;
        }
        k = k + 1;
    }
    assert(s@.subrange(i as int, i + p@.len()) =~= p@);
    true
}

/// First position at or after `i` where `pat` stands, or the length.
pub fn find_text(s: &Vec<char>, pat: &str, i: usize) -> (r: usize)
    requires
        i <= s@.len(),
    ensures
        r == next_text(s@, pat@, i as int),
        i <= r <= s@.len(),
        r < s@.len() ==> matches_at(s@, pat@, r as int),
{
    let mut k: usize = i;
    while k < s.len()
        invariant
            i <= k <= s@.len(),
            next_text(s@, pat@, i as int) == next_text(s@, pat@, k as int),
        decreases s@.len() - k,
    {
        if text_at(s, pat, k) {
            return k;
        }
        k = k + 1;
    }
    k
}

// ── white space ──

/// The Unicode property `White_Space`.
pub open spec fn is_space(c: char) -> bool {
    let u = c as u32;
    ||| 0x9 <= u <= 0xd
    ||| u == 0x20
    ||| u == 0x85
    ||| u == 0xa0
    ||| u == 0x1680
    ||| 0x2000 <= u <= 0x200a
    ||| u == 0x2028
    ||| u == 0x2029
    ||| u == 0x202f
    ||| u == 0x205f
    ||| u == 0x3000
}

/// Whether `c` has the Unicode property `White_Space`.
pub fn is_white_space(c: char) -> (r: bool)
    ensures
        r == is_space(c),
{
    let u: u32 = c as u32;
    (0x9 <= u && u <= 0xd) || u == 0x20 || u == 0x85 || u == 0xa0 || u == 0x1680 || (0x2000 <= u
        && u <= 0x200a) || u == 0x2028 || u == 0x2029 || u == 0x202f || u == 0x205f || u == 0x3000
}

/// First position in `from..to` that holds no white space; `to` when there
/// is none.
pub open spec fn skip_space(s: Seq<char>, from: int, to: int) -> int
    decreases to - from,
{
    if from >= to {
        to
    } else if is_space(s[from]) {
        skip_space(s, from + 1, to)
    } else {
        from
    }
}

/// The position after the last character of `from..to` that is no white
/// space; `from` when there is none.
pub open spec fn skip_space_back(s: Seq<char>, from: int, to: int) -> int
    decreases to - from,
{
    if from >= to {
        from
    } else if is_space(s[to - 1]) {
        skip_space_back(s, from, to - 1)
    } else {
        to
    }
}

/// `s` without leading white space.
pub open spec fn trim_start(s: Seq<char>) -> Seq<char> {
    s.subrange(skip_space(s, 0, s.len() as int), s.len() as int)
}

/// `s` without leading and trailing white space.
pub open spec fn trim(s: Seq<char>) -> Seq<char> {
    let a = skip_space(s, 0, s.len() as int);
    s.subrange(a, skip_space_back(s, a, s.len() as int))
}

/// First position in `from..to` that holds no white space, or `to`.
pub fn skip_spaces(s: &Vec<char>, from: usize, to: usize) -> (r: usize)
    requires
        from <= to <= s@.len(),
    ensures
        r == skip_space(s@, from as int, to as int),
        from <= r <= to,
        r < to ==> !is_space(s@[r as int]),
{
    let mut k: usize = from;
    while k < to && is_white_space(s[k])
        invariant
            from <= k <= to <= s@.len(),
            skip_space(s@, from as int, to as int) == skip_space(s@, k as int, to as int),
        decreases to - k,
    {
        k = k + 1;
    }
    k
}

/// Position after the last character of `from..to` that is no white space,
/// or `from`.
pub fn skip_spaces_back(s: &Vec<char>, from: usize, to: usize) -> (r: usize)
    requires
        from <= to <= s@.len(),
    ensures
        r == skip_space_back(s@, from as int, to as int),
        from <= r <= to,
{
    let mut k: usize = to;
    while k > from && is_white_space(s[k - 1])
        invariant
            from <= k <= to <= s@.len(),
            skip_space_back(s@, from as int, to as int) == skip_space_back(
                s@,
                from as int,
                k as int,
            ),
        decreases k - from,
    {
        k = k - 1;
    }
    k
}

/// Skipping white space in a part of a text is skipping it in the whole.
pub proof fn lemma_skip_space_within(s: Seq<char>, a: int, b: int, i: int, j: int)
    requires
        0 <= a <= b <= s.len(),
        0 <= i <= j <= b - a,
    ensures
        skip_space(s.subrange(a, b), i, j) + a == skip_space(s, a + i, a + j),
        skip_space_back(s.subrange(a, b), i, j) + a == skip_space_back(s, a + i, a + j),
        i <= skip_space(s.subrange(a, b), i, j) <= j,
        i <= skip_space_back(s.subrange(a, b), i, j) <= j,
    decreases j - i,
{
    if i < j {
        lemma_skip_space_within(s, a, b, i + 1, j);
        lemma_skip_space_within(s, a, b, i, j - 1);
    }
}

/// The part of `from..to` without leading and trailing white space.
pub fn trim_range(s: &Vec<char>, from: usize, to: usize) -> (r: (usize, usize))
    requires
        from <= to <= s@.len(),
    ensures
        from <= r.0 <= r.1 <= to,
        s@.subrange(r.0 as int, r.1 as int) == trim(s@.subrange(from as int, to as int)),
{
    let a: usize = skip_spaces(s, from, to);
    let b: usize = skip_spaces_back(s, a, to);
    proof {
        let sub = s@.subrange(from as int, to as int);
        lemma_skip_space_within(s@, from as int, to as int, 0, to - from);
        lemma_skip_space_within(s@, from as int, to as int, a - from, to - from);
        assert(s@.subrange(a as int, b as int) =~= trim(sub));
    }
    (a, b)
}

/// `pat` stands in a part of a text where it stands in the whole and ends
/// inside the part.
pub proof fn lemma_matches_within(s: Seq<char>, a: int, b: int, pat: Seq<char>, i: int)
    requires
        0 <= a <= b <= s.len(),
        0 <= i,
    ensures
        matches_at(s.subrange(a, b), pat, i) == (matches_at(s, pat, a + i) && a + i + pat.len()
            <= b),
{
    if a + i + pat.len() <= b {
        assert(s.subrange(a, b).subrange(i, i + pat.len()) =~= s.subrange(
            a + i,
            a + i + pat.len(),
        ));
    }
}

/// Whether `pat` stands at `i` and ends at or before `to`.
pub fn text_within(s: &Vec<char>, pat: &str, i: usize, to: usize) -> (r: bool)
    requires
        i <= to <= s@.len(),
    ensures
        r == starts_with(s@.subrange(i as int, to as int), pat@),
        r ==> matches_at(s@, pat@, i as int) && i + pat@.len() <= to,
{
    proof {
        lemma_matches_within(s@, i as int, to as int, pat@, 0);
    }
    let n: usize = chars_of(pat).len();
    to - i >= n && text_at(s, pat, i)
}

/// How often `c` stands in `s`.
pub open spec fn count_char(s: Seq<char>, c: char) -> nat
    decreases s.len(),
{
    if s.len() == 0 {
        0
    } else {
        count_char(s.drop_last(), c) + if s.last() == c {
            1nat
        } else {
            0nat
        }
    }
}

/// How often `c` stands in `s[from..to]`.
pub fn count_within(s: &Vec<char>, c: char, from: usize, to: usize) -> (n: usize)
    requires
        from <= to <= s@.len(),
    ensures
        n == count_char(s@.subrange(from as int, to as int), c),
        n <= to - from,
{
    let mut n: usize = 0;
    let mut k: usize = from;
    while k < to
        invariant
            from <= k <= to <= s@.len(),
            n == count_char(s@.subrange(from as int, k as int), c),
            n <= k - from,
        decreases to - k,
    {
        assert(s@.subrange(from as int, k + 1).drop_last() =~= s@.subrange(from as int, k as int));
        if s[k] == c {
            n = n + 1;
        }
        k = k + 1;
    }
    n
}

// ── joining ──

/// The texts of a list.
pub open spec fn texts(s: Seq<String>) -> Seq<Seq<char>> {
    s.map_values(|t: String| t@)
}

/// What an optional text says.
pub open spec fn opt_text(o: Option<String>) -> Option<Seq<char>> {
    match o {
        Some(s) => Some(s@),
        None => None,
    }
}

/// The text, or nothing.
pub open spec fn or_empty(o: Option<Seq<char>>) -> Seq<char> {
    match o {
        Some(s) => s,
        None => Seq::empty(),
    }
}

/// The parts one behind the other with `sep` in between.
pub open spec fn joined(parts: Seq<Seq<char>>, sep: Seq<char>) -> Seq<char>
    decreases parts.len(),
{
    if parts.len() == 0 {
        Seq::empty()
    } else if parts.len() == 1 {
        parts[0]
    } else {
        joined(parts.drop_last(), sep) + sep + parts.last()
    }
}

/// The parts one behind the other with `sep` in between.
pub fn join(parts: &Vec<String>, sep: &str) -> (out: String)
    ensures
        out@ == joined(texts(parts@), sep@),
{
    let mut out: String = String::new();
    let mut i: usize = 0;
    let ghost all = texts(parts@);
    assert(all.take(0) =~= Seq::<Seq<char>>::empty());
    while i < parts.len()
        invariant
            i <= parts@.len(),
            all == texts(parts@),
            out@ == joined(all.take(i as int), sep@),
        decreases parts@.len() - i,
    {
        assert(all.take(i + 1).drop_last() =~= all.take(i as int));
        assert(all.take(i + 1).last() == parts@[i as int]@);
        if i > 0 {
            out.append(sep);
        } else {
            assert(out@ + parts@[i as int]@ =~= parts@[i as int]@);
        }
        out.append(parts[i].as_str());
        i = i + 1;
    }
    assert(all.take(i as int) =~= all);
    out
}

/// A copy of an optional text.
pub fn copy_opt(o: &Option<String>) -> (r: Option<String>)
    ensures
        r == *o,
{
    match o {
        Some(s) => Some(s.clone()),
        None => None,
    }
}

// ── raw bytes ──

/// The text that `String::from_utf8_lossy` makes of bytes.
pub uninterp spec fn lossy_text(bytes: Seq<u8>) -> Seq<char>;

/// `String::from_utf8_lossy`: the text is a function of the bytes, and bytes
/// that are the UTF-8 encoding of a text give that text.
#[verifier::external_body]
pub(crate) fn from_utf8_lossy(bytes: &[u8]) -> (r: String)
    ensures
        r@ == lossy_text(bytes@),
        forall|t: Seq<char>| #[trigger] encode_utf8(t) == bytes@ ==> r@ == t,
{
    String::from_utf8_lossy(bytes).into_owned()
}

// ── letter case ──

/// The text that `str::to_lowercase` gives.
pub uninterp spec fn lowercase(s: Seq<char>) -> Seq<char>;

/// All characters of `s` are ASCII.
pub open spec fn is_ascii_text(s: Seq<char>) -> bool {
    forall|k: int| 0 <= k < s.len() ==> (#[trigger] s[k] as u32) < 0x80
}

/// `str::to_lowercase`: the lower case text is a function of the text. Of an
/// ASCII text the letters `A` to `Z` become `a` to `z`, and all else stays.
#[verifier::external_body]
pub(crate) fn to_lowercase(s: &str) -> (r: String)
    ensures
        r@ == lowercase(s@),
        is_ascii_text(s@) ==> r@ == ascii_lowercase(s@),
{
    s.to_lowercase()
}

/// `s` in lower case: letter by letter where it is ASCII, else what
/// `str::to_lowercase` makes of it.
pub open spec fn lower_case(s: Seq<char>) -> Seq<char> {
    if is_ascii_text(s) {
        ascii_lowercase(s)
    } else {
        lowercase(s)
    }
}

/// `pat` stands somewhere in `s`.
pub open spec fn contains_text(s: Seq<char>, pat: Seq<char>) -> bool {
    exists|i: int| #[trigger] matches_at(s, pat, i)
}

/// Whether `pat`, which is not empty, stands somewhere in `s`.
pub fn has_text(s: &Vec<char>, pat: &str) -> (r: bool)
    requires
        pat@.len() > 0,
    ensures
        r == contains_text(s@, pat@),
{
    let at: usize = find_text(s, pat, 0);
    proof {
        lemma_next_text(s@, pat@, 0);
    }
    at < s.len()
}

// ── parts ──

/// The characters `s[from..to]`.
pub fn slice_of(s: &Vec<char>, from: usize, to: usize) -> (out: Vec<char>)
    requires
        from <= to <= s@.len(),
    ensures
        out@ == s@.subrange(from as int, to as int),
{
    let mut out: Vec<char> = Vec::new();
    let mut k: usize = from;
    while k < to
        invariant
            from <= k <= to <= s@.len(),
            out@ == s@.subrange(from as int, k as int),
        decreases to - k,
    {
        out.push(s[k]);
        k = k + 1;
        assert(out@ =~= s@.subrange(from as int, k as int));
    }
    out
}

/// `s` without leading white space.
pub fn trimmed_start(s: &Vec<char>) -> (out: Vec<char>)
    ensures
        out@ == trim_start(s@),
        out@.len() <= s@.len(),
{
    let a: usize = skip_spaces(s, 0, s.len());
    slice_of(s, a, s.len())
}

/// `s` without leading and trailing white space.
pub fn trimmed(s: &Vec<char>) -> (out: Vec<char>)
    ensures
        out@ == trim(s@),
{
    let (a, b) = trim_range(s, 0, s.len());
    assert(s@.subrange(0, s@.len() as int) =~= s@);
    slice_of(s, a, b)
}

/// The text made of all characters of `s`.
pub fn text_of(s: &Vec<char>) -> (out: String)
    ensures
        out@ == s@,
{
    assert(s@.subrange(0, s@.len() as int) =~= s@);
    string_of(s, 0, s.len())
}

/// Whether two lists hold the same characters.
pub fn same_chars(a: &Vec<char>, b: &Vec<char>) -> (r: bool)
    ensures
        r == (a@ == b@),
{
    if a.len() != b.len() {
        return false;
    }
    let mut k: usize = 0;
    while k < a.len()
        invariant
            k <= a@.len(),
            a@.len() == b@.len(),
            forall|j: int| 0 <= j < k ==> a@[j] == b@[j],
        decreases a@.len() - k,
    {
        if a[k] != b[k] {
            return false;
        }
        k = k + 1;
    }
    assert(a@ =~= b@);
    true
}

/// Whether the UTF-8 encoding of `s` takes more than `n` bytes.
pub fn longer_than(s: &Vec<char>, n: usize) -> (r: bool)
    requires
        n <= 1000,
    ensures
        r == (byte_len(s@) > n),
{
    let mut sum: usize = 0;
    let mut k: usize = 0;
    assert(s@.take(0) =~= Seq::<char>::empty());
    while k < s.len()
        invariant
            k <= s@.len(),
            n <= 1000,
            sum == byte_offset(s@, k as int),
            sum <= n,
        decreases s@.len() - k,
    {
        assert(s@.take(k + 1).drop_last() =~= s@.take(k as int));
        sum = sum + width_of(s[k]);
        k = k + 1;
        if sum > n {
            proof {
                lemma_byte_offset_split(s@, k as int, s@.len() as int);
            }
            return true;
        }
    }
    assert(s@.take(k as int) =~= s@);
    false
}

// ── lines ──

/// The lines of `s` from position `i` on, as ranges without their line
/// ending: a newline, or a carriage return and a newline. An ending behind
/// the last line opens no further line.
pub open spec fn lines_from(s: Seq<char>, i: int) -> Seq<(int, int)>
    decreases s.len() - i,
{
    if i < 0 || i >= s.len() {
        Seq::empty()
    } else {
        let nl = next_char(s, '\n', i);
        if !(i <= nl <= s.len()) {
            Seq::empty()
        } else {
            seq![(i, line_end(s, i, nl))] + (if nl < s.len() {
                lines_from(s, nl + 1)
            } else {
                Seq::empty()
            })
        }
    }
}

/// End of the line `i..nl`, without the carriage return of its ending.
pub open spec fn line_end(s: Seq<char>, i: int, nl: int) -> int {
    if nl < s.len() && nl > i && s[nl - 1] == '\r' {
        nl - 1
    } else {
        nl
    }
}

/// A range of positions as integers.
pub open spec fn int_range(r: (usize, usize)) -> (int, int) {
    (r.0 as int, r.1 as int)
}

/// Ranges of positions as integers.
pub open spec fn int_ranges(rs: Seq<(usize, usize)>) -> Seq<(int, int)> {
    rs.map_values(|r: (usize, usize)| int_range(r))
}

/// The lines of `s` from position `i` on.
pub fn line_ranges(s: &Vec<char>, i: usize) -> (out: Vec<(usize, usize)>)
    requires
        i <= s@.len(),
    ensures
        int_ranges(out@) == lines_from(s@, i as int),
        forall|k: int|
            0 <= k < out@.len() ==> i <= (#[trigger] out@[k]).0 <= out@[k].1 <= s@.len(),
{
    let mut out: Vec<(usize, usize)> = Vec::new();
    let mut a: usize = i;
    assert(int_ranges(out@) + lines_from(s@, i as int) =~= lines_from(s@, i as int));
    while a < s.len()
        invariant
            i <= a <= s@.len(),
            int_ranges(out@) + lines_from(s@, a as int) == lines_from(s@, i as int),
            forall|k: int|
                0 <= k < out@.len() ==> i <= (#[trigger] out@[k]).0 <= out@[k].1 <= s@.len(),
        decreases s@.len() - a,
    {
        let nl: usize = find_char(s, '\n', a);
        let end: usize = if nl < s.len() && nl > a && s[nl - 1] == '\r' {
            nl - 1
        } else {
            nl
        };
        let ghost before = out@;
        out.push((a, end));
        let next: usize = if nl < s.len() {
            nl + 1
        } else {
            nl
        };
        assert(int_ranges(out@) =~= int_ranges(before).push((a as int, end as int)));
        assert(int_ranges(out@) + lines_from(s@, next as int) =~= int_ranges(before) + lines_from(
            s@,
            a as int,
        ));
        a = next;
    }
    assert(lines_from(s@, a as int) =~= Seq::<(int, int)>::empty());
    assert(int_ranges(out@) =~= lines_from(s@, i as int));
    out
}

/// `c` is a decimal ASCII digit.
pub open spec fn is_digit(c: char) -> bool {
    '0' <= c <= '9'
}

/// `s` is made of one or more decimal ASCII digits.
pub open spec fn is_number(s: Seq<char>) -> bool {
    s.len() > 0 && forall|k: int| 0 <= k < s.len() ==> is_digit(#[trigger] s[k])
}

/// Whether `s[from..to]` is made of one or more decimal digits.
pub fn number_within(s: &Vec<char>, from: usize, to: usize) -> (r: bool)
    requires
        from <= to <= s@.len(),
    ensures
        r == is_number(s@.subrange(from as int, to as int)),
{
    let ghost sub = s@.subrange(from as int, to as int);
    let mut k: usize = from;
    while k < to
        invariant
            from <= k <= to <= s@.len(),
            sub == s@.subrange(from as int, to as int),
            forall|j: int| 0 <= j < k - from ==> is_digit(#[trigger] sub[j]),
        decreases to - k,
    {
        assert(sub[k - from] == s@[k as int]);
        if !('0' <= s[k] && s[k] <= '9') {
            return false;
        }
        k = k + 1;
    }
    from < to
}

/// `c` with an ASCII upper case letter made lower case.
pub open spec fn ascii_lower(c: char) -> char {
    if 'A' <= c <= 'Z' {
        ((c as u32) + 32) as char
    } else {
        c
    }
}

/// `s` with its ASCII upper case letters made lower case.
pub open spec fn ascii_lowercase(s: Seq<char>) -> Seq<char> {
    s.map_values(|c: char| ascii_lower(c))
}

/// The characters of `s` with ASCII upper case letters made lower case.
pub fn to_ascii_lower(s: &Vec<char>) -> (out: Vec<char>)
    ensures
        out@ == ascii_lowercase(s@),
        out@.len() == s@.len(),
{
    let mut out: Vec<char> = Vec::new();
    let mut k: usize = 0;
    while k < s.len()
        invariant
            k <= s@.len(),
            out@ == ascii_lowercase(s@.take(k as int)),
        decreases s@.len() - k,
    {
        let c: char = s[k];
        if 'A' <= c && c <= 'Z' {
            out.push(((c as u8) + 32) as char);
        } else {
            out.push(c);
        }
        k = k + 1;
        assert(out@ =~= ascii_lowercase(s@.take(k as int)));
    }
    assert(s@.take(k as int) =~= s@);
    out
}

// ── numbers ──

/// The decimal digit `d`.
pub open spec fn digit_char(d: nat) -> char {
    (('0' as u32) + d) as char
}

/// `n` in decimal, without leading zeros.
pub open spec fn decimal(n: nat) -> Seq<char>
    decreases n,
{
    if n < 10 {
        seq![digit_char(n)]
    } else {
        decimal(n / 10).push(digit_char(n % 10))
    }
}

/// Appends `n` in decimal.
pub fn push_decimal(out: &mut String, n: u64)
    ensures
        final(out)@ == old(out)@ + decimal(n as nat),
    decreases n,
{
    if n >= 10 {
        push_decimal(out, n / 10);
    }
    let d: u8 = (n % 10) as u8;
    out.push((48u8 + d) as char);
    assert(out@ =~= old(out)@ + decimal(n as nat));
}

/// The number that a row of decimal digits stands for.
pub open spec fn number_value(s: Seq<char>) -> nat
    decreases s.len(),
{
    if s.len() == 0 {
        0
    } else {
        10 * number_value(s.drop_last()) + ((s.last() as u32) - ('0' as u32)) as nat
    }
}

/// The unsigned number up to `max` that a text spells: digits, a plus sign in
/// front allowed.
pub open spec fn spelled_number(s: Seq<char>, max: nat) -> Option<nat> {
    let digits = if s.len() > 0 && s[0] == '+' {
        s.subrange(1, s.len() as int)
    } else {
        s
    };
    if is_number(digits) && number_value(digits) <= max {
        Some(number_value(digits))
    } else {
        None
    }
}

proof fn lemma_number_grows(s: Seq<char>, i: int)
    requires
        0 <= i <= s.len(),
        is_number(s),
    ensures
        number_value(s.take(i)) <= number_value(s),
    decreases s.len() - i,
{
    if i < s.len() {
        assert(s.take(i + 1).drop_last() =~= s.take(i));
        lemma_number_grows(s, i + 1);
    } else {
        assert(s.take(i) =~= s);
    }
}

/// The unsigned number up to `max` that `s` spells.
pub fn parse_number(s: &Vec<char>, max: u64) -> (r: Option<u64>)
    ensures
        match r {
            Some(n) => spelled_number(s@, max as nat) == Some(n as nat) && n <= max,
            None => spelled_number(s@, max as nat) is None,
        },
{
    let from: usize = if s.len() > 0 && s[0] == '+' {
        1
    } else {
        0
    };
    let ghost digits = s@.subrange(from as int, s@.len() as int);
    assert(s@.subrange(0, s@.len() as int) =~= s@);
    if !number_within(s, from, s.len()) {
        return None;
    }
    let mut n: u128 = 0;
    let mut k: usize = from;
    assert(digits.take(0) =~= Seq::<char>::empty());
    while k < s.len()
        invariant
            from <= k <= s@.len(),
            digits == s@.subrange(from as int, s@.len() as int),
            is_number(digits),
            spelled_number(s@, max as nat) == (if number_value(digits) <= max {
                Some(number_value(digits))
            } else {
                None::<nat>
            }),
            n == number_value(digits.take(k - from)),
            n <= max,
        decreases s@.len() - k,
    {
        let c: char = s[k];
        proof {
            assert(digits[k - from] == c);
            assert(is_digit(digits[k - from]));
            assert(digits.take(k - from + 1).drop_last() =~= digits.take(k - from));
            assert(digits.take(k - from + 1).last() == c);
        }
        let d: u32 = (c as u32) - 48;
        n = 10 * n + d as u128;
        k = k + 1;
        if n > max as u128 {
            proof {
                lemma_number_grows(digits, k - from);
            }
            return None;
        }
    }
    assert(digits.take(k - from) =~= digits);
    Some(n as u64)
}

/// The hexadecimal digit `d` in upper case.
pub open spec fn hex_char(d: nat) -> char {
    if d < 10 {
        digit_char(d)
    } else {
        (('A' as u32) + d - 10) as char
    }
}

/// `n` in upper case hexadecimal, without leading zeros.
pub open spec fn hexadecimal(n: nat) -> Seq<char>
    decreases n,
{
    if n < 16 {
        seq![hex_char(n)]
    } else {
        hexadecimal(n / 16).push(hex_char(n % 16))
    }
}

/// Appends `n` in upper case hexadecimal.
pub fn push_hex(out: &mut String, n: u32)
    ensures
        final(out)@ == old(out)@ + hexadecimal(n as nat),
    decreases n,
{
    if n >= 16 {
        push_hex(out, n / 16);
    }
    let d: u8 = (n % 16) as u8;
    if d < 10 {
        out.push((48u8 + d) as char);
    } else {
        out.push((55u8 + d) as char);
    }
    assert(out@ =~= old(out)@ + hexadecimal(n as nat));
}

/// `n` times the character `c`.
pub open spec fn repeated(c: char, n: int) -> Seq<char> {
    Seq::new(
        if n > 0 {
            n as nat
        } else {
            0
        },
        |i: int| c,
    )
}

/// Appends the character `c` `n` times.
pub fn push_repeated(out: &mut String, c: char, n: usize)
    ensures
        final(out)@ == old(out)@ + repeated(c, n as int),
{
    let ghost start = out@;
    let mut i: usize = 0;
    assert(start + repeated(c, 0) =~= start);
    while i < n
        invariant
            i <= n,
            out@ == start + repeated(c, i as int),
        decreases n - i,
    {
        out.push(c);
        i = i + 1;
        assert(out@ =~= start + repeated(c, i as int));
    }
}

/// `s` with spaces behind it up to `width` characters.
pub open spec fn padded(s: Seq<char>, width: int) -> Seq<char> {
    s + repeated(' ', width - s.len())
}

/// Appends `s` with spaces behind it up to `width` characters.
pub fn push_padded(out: &mut String, s: &str, width: usize)
    ensures
        final(out)@ == old(out)@ + padded(s@, width as int),
{
    let n: usize = chars_of(s).len();
    let ghost start = out@;
    out.append(s);
    if n < width {
        push_repeated(out, ' ', width - n);
    } else {
        assert(repeated(' ', width - s@.len()) =~= Seq::<char>::empty());
    }
    assert(out@ =~= start + padded(s@, width as int));
}

// ── laws ──

/// A number in decimal reads back as itself, has digits only, and no zero in
/// front unless it is zero; so different numbers have different texts.
pub proof fn decimals_read_back(n: nat)
    ensures
        is_number(decimal(n)),
        number_value(decimal(n)) == n,
        n > 0 ==> decimal(n)[0] != '0',
    decreases n,
{
    if n < 10 {
        let s = seq![digit_char(n)];
        assert(decimal(n) == s);
        assert(s.drop_last() =~= Seq::<char>::empty());
        assert(number_value(s.drop_last()) == 0);
        assert(s.last() == digit_char(n));
    } else {
        decimals_read_back(n / 10);
        let before = decimal(n / 10);
        let s = decimal(n);
        assert(s == before.push(digit_char(n % 10)));
        assert(s.drop_last() =~= before);
        assert(s[0] == before[0]);
        assert forall|k: int| 0 <= k < s.len() implies is_digit(#[trigger] s[k]) by {
            if k < before.len() {
                assert(s[k] == before[k]);
            }
        }
    }
}

/// A number that is written in decimal is the number that its text spells, up
/// to the most that is allowed.
pub proof fn decimals_are_spelled(n: nat, max: nat)
    ensures
        n <= max ==> spelled_number(decimal(n), max) == Some(n),
        n > max ==> spelled_number(decimal(n), max) is None,
{
    decimals_read_back(n);
    assert(is_digit(decimal(n)[0]));
}

/// Parts are joined in order with the separator between each two: the first part
/// comes first, and the others follow joined in the same way.
pub proof fn joined_parts_follow_in_order(parts: Seq<Seq<char>>, sep: Seq<char>)
    ensures
        parts.len() == 0 ==> joined(parts, sep).len() == 0,
        parts.len() == 1 ==> joined(parts, sep) == parts[0],
        parts.len() > 1 ==> joined(parts, sep) == parts[0] + sep + joined(parts.skip(1), sep),
    decreases parts.len(),
{
    if parts.len() > 1 {
        let most = parts.drop_last();
        let rest = parts.skip(1);
        joined_parts_follow_in_order(most, sep);
        assert(rest.drop_last() =~= most.skip(1));
        assert(rest.last() == parts.last());
        if parts.len() == 2 {
            assert(joined(rest, sep) == rest[0]);
            assert(joined(parts, sep) =~= parts[0] + sep + joined(rest, sep));
        } else {
            assert(joined(parts, sep) =~= parts[0] + sep + joined(rest, sep));
        }
    }
}

/// Trimming takes white space from both ends and nothing else: what is left
/// begins and ends with another character, and all that is gone is white space.
pub proof fn trimming_takes_only_space(s: Seq<char>)
    ensures
        ({
            let a = skip_space(s, 0, s.len() as int);
            let b = skip_space_back(s, a, s.len() as int);
            &&& 0 <= a <= b <= s.len()
            &&& trim(s) == s.subrange(a, b)
            &&& forall|k: int| 0 <= k < a ==> is_space(#[trigger] s[k])
            &&& forall|k: int| b <= k < s.len() ==> is_space(#[trigger] s[k])
            &&& trim(s).len() > 0 ==> !is_space(trim(s)[0]) && !is_space(trim(s).last())
            &&& trim_start(s) == s.skip(a)
        }),
{
    let n = s.len() as int;
    lemma_skip_space(s, 0, n);
    let a = skip_space(s, 0, n);
    lemma_skip_space_back(s, a, n);
    assert(trim_start(s) =~= s.skip(a));
    let b = skip_space_back(s, a, n);
    if b > a {
        assert(trim(s)[0] == s[a]);
        assert(trim(s).last() == s[b - 1]);
    }
}

proof fn lemma_skip_space(s: Seq<char>, from: int, to: int)
    requires
        0 <= from <= to <= s.len(),
    ensures
        from <= skip_space(s, from, to) <= to,
        forall|k: int| from <= k < skip_space(s, from, to) ==> is_space(#[trigger] s[k]),
        skip_space(s, from, to) < to ==> !is_space(s[skip_space(s, from, to)]),
    decreases to - from,
{
    if from < to && is_space(s[from]) {
        lemma_skip_space(s, from + 1, to);
    }
}

proof fn lemma_skip_space_back(s: Seq<char>, from: int, to: int)
    requires
        0 <= from <= to <= s.len(),
    ensures
        from <= skip_space_back(s, from, to) <= to,
        forall|k: int| skip_space_back(s, from, to) <= k < to ==> is_space(#[trigger] s[k]),
        skip_space_back(s, from, to) > from ==> !is_space(s[skip_space_back(s, from, to) - 1]),
    decreases to - from,
{
    if from < to && is_space(s[to - 1]) {
        lemma_skip_space_back(s, from, to - 1);
    }
}

/// The lines of a text leave out nothing but line ends: the first begins at its
/// beginning, each other right behind the line end of the one before it, none
/// holds a newline, and behind the last there is none but its own.
pub proof fn lines_cover_the_text(s: Seq<char>, i: int)
    requires
        0 <= i < s.len(),
    ensures
        ({
            let lines = lines_from(s, i);
            &&& lines.len() > 0
            &&& lines[0].0 == i
            &&& forall|k: int| 0 <= k < lines.len() ==> is_line(s, #[trigger] lines[k])
            &&& forall|k: int|
                0 <= k < lines.len() - 1 ==> #[trigger] next_char(s, '\n', lines[k].0) + 1
                    == lines[k + 1].0
            &&& next_char(s, '\n', lines.last().0) + 1 >= s.len()
        }),
    decreases s.len() - i,
{
    let nl = next_char(s, '\n', i);
    lemma_next_char(s, '\n', i);
    let lines = lines_from(s, i);
    assert(is_line(s, (i, line_end(s, i, nl))));
    if nl + 1 < s.len() {
        lines_cover_the_text(s, nl + 1);
        let rest = lines_from(s, nl + 1);
        assert(lines == seq![(i, line_end(s, i, nl))] + rest);
        assert forall|k: int| 0 <= k < lines.len() implies is_line(s, #[trigger] lines[k]) by {
            if k > 0 {
                assert(lines[k] == rest[k - 1]);
            }
        }
        assert forall|k: int| 0 <= k < lines.len() - 1 implies #[trigger] next_char(
            s,
            '\n',
            lines[k].0,
        ) + 1 == lines[k + 1].0 by {
            assert(lines[k + 1] == rest[k]);
            if k > 0 {
                assert(lines[k] == rest[k - 1]);
            }
        }
        assert(lines.last() == rest.last());
    } else {
        assert(lines_from(s, nl + 1) =~= Seq::<(int, int)>::empty());
        assert(lines =~= seq![(i, line_end(s, i, nl))]);
    }
}

/// The range is a line: it runs to the next newline or to the end, without the
/// carriage return in front of that newline.
pub open spec fn is_line(s: Seq<char>, line: (int, int)) -> bool {
    let nl = next_char(s, '\n', line.0);
    &&& 0 <= line.0 <= line.1 <= s.len()
    &&& forall|k: int| line.0 <= k < line.1 ==> #[trigger] s[k] != '\n'
    &&& line.1 == nl || (line.1 == nl - 1 && nl < s.len() && s[nl - 1] == '\r')
    &&& line.1 == nl && nl < s.len() && nl > line.0 ==> s[nl - 1] != '\r'
}

/// Padding keeps the text and adds spaces behind it up to the width; a text that
/// is wider stays.
pub proof fn padding_keeps_the_text(s: Seq<char>, width: int)
    ensures
        padded(s, width).len() == if s.len() >= width {
            s.len() as int
        } else {
            width
        },
        s.is_prefix_of(padded(s, width)),
        forall|k: int| s.len() <= k < padded(s, width).len() ==> #[trigger] padded(s, width)[k] == ' ',
{
}

/// What a hexadecimal digit in upper case counts.
pub open spec fn hex_value(c: char) -> int {
    if '0' <= c <= '9' {
        c as int - '0' as int
    } else {
        c as int - 'A' as int + 10
    }
}

/// The number that a text of hexadecimal digits stands for.
pub open spec fn hex_number(s: Seq<char>) -> int
    decreases s.len(),
{
    if s.len() == 0 {
        0
    } else {
        16 * hex_number(s.drop_last()) + hex_value(s.last())
    }
}

/// A number in hexadecimal reads back as itself.
pub proof fn hexadecimals_read_back(n: nat)
    ensures
        hex_number(hexadecimal(n)) == n,
        hexadecimal(n).len() > 0,
    decreases n,
{
    let d = n % 16;
    let c = hex_char(d);
    assert(hex_value(c) == d);
    if n < 16 {
        let s = seq![c];
        assert(hexadecimal(n) == s);
        assert(s.drop_last() =~= Seq::<char>::empty());
        assert(hex_number(s.drop_last()) == 0);
        assert(s.last() == c);
    } else {
        hexadecimals_read_back(n / 16);
        assert(hexadecimal(n).drop_last() =~= hexadecimal(n / 16));
    }
}

} // verus!
