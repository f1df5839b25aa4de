//! Dumps of prompts and outputs.

use spark_server::debug_io::{
    char_name, codepoint_census, render_dump, render_dump_capped, render_token_ids,
};

#[test]
fn census_is_empty_for_ascii() {
    assert_eq!(codepoint_census("<!DOCTYPE html>"), "  (pure ASCII)");
}

/// The whole point: `utf-8` and `utf‑8` print the same and must not
/// report the same. U+2011 cannot be told by eye.
#[test]
fn census_names_the_lookalike_hyphen() {
    let ascii = codepoint_census("charset=\"utf-8\"");
    let sneaky = codepoint_census("charset=\"utf\u{2011}8\"");
    assert_eq!(ascii, "  (pure ASCII)");
    assert!(sneaky.contains("U+2011"), "{sneaky}");
    assert!(sneaky.contains("NON-BREAKING HYPHEN"), "{sneaky}");
    assert_ne!(ascii, sneaky);
}

/// Invisible characters are the ones a verbatim log cannot show.
#[test]
fn census_reports_invisibles_and_counts_repeats() {
    let c = codepoint_census("a\u{200B}b\u{00A0}c\u{00A0}d");
    assert!(c.contains("ZERO WIDTH SPACE"), "{c}");
    assert!(c.contains("NO-BREAK SPACE"), "{c}");
    assert!(c.contains("x2"), "repeat count missing: {c}");
}


/// The operator-facing block: header counts, the text itself, and the
/// census — in that order, so a journal grep for the marker lands on
/// everything needed to compare two runs.
#[test]
fn dump_block_carries_counts_text_and_census() {
    let d = render_dump("MODEL OUTPUT", "choice 0, content", "<function=x>caf\u{00E9}");
    assert!(d.starts_with("=== MODEL OUTPUT (choice 0, content) ==="), "{d}");
    assert!(d.contains("16 chars, 17 bytes"), "{d}");
    assert!(d.contains("<function=x>caf\u{00E9}"), "{d}");
    assert!(d.contains("U+00E9"), "{d}");
}

/// Byte count and char count must differ for non-ASCII — that gap is
/// often the first hint that something re-encoded the payload.
#[test]
fn dump_reports_chars_and_bytes_separately() {
    let d = render_dump("TEMPLATE OUTPUT", "prompt", "\u{1F44B}");
    assert!(d.contains("1 chars, 4 bytes"), "{d}");
}

/// The two hooks must be distinguishable in one journal: a request logs
/// the prompt and then the output, and an operator diffing them needs
/// the markers to differ.
#[test]
fn prompt_and_output_markers_are_distinct() {
    let p = render_dump("TEMPLATE OUTPUT", "prompt", "x");
    let o = render_dump("MODEL OUTPUT", "choice 0, content", "x");
    assert!(p.contains("TEMPLATE OUTPUT") && !p.contains("MODEL OUTPUT"));
    assert!(o.contains("MODEL OUTPUT") && !o.contains("TEMPLATE OUTPUT"));
}

/// A tool call whose close leaked is visible in the dump as raw text, which
/// parsed JSON could not show.
#[test]
fn dump_shows_a_named_close_verbatim() {
    let raw = "<function=edit_file>\n<parameter=content>hi</parameter=content>\n</function>";
    let d = render_dump("MODEL OUTPUT", "choice 0, content", raw);
    assert!(d.contains("</parameter=content>"), "{d}");
}

#[test]
fn census_records_first_offset_in_bytes() {
    // Byte offsets, not char indices: 'a'@0, 'é'@1 (2 bytes), 'b'@3,
    // '€'@4. Reporting char indices here would send a reader to the
    // wrong place in a hexdump, which is the only tool that settles
    // these arguments.
    let c = codepoint_census("a\u{00E9}b\u{20AC}");
    assert!(c.contains("first@1"), "{c}");
    assert!(c.contains("first@4"), "{c}");
}

#[test]
fn census_line_is_aligned() {
    assert_eq!(
        codepoint_census("\u{2014}x\u{2014}"),
        "  U+2014 EM DASH                            x2    first@0"
    );
    assert_eq!(
        codepoint_census("\u{FEFF}"),
        "  U+FEFF ZERO WIDTH NO-BREAK SPACE / BOM (invisible) x1    first@0"
    );
}

#[test]
fn census_lists_characters_in_order_of_appearance() {
    let c = codepoint_census("\u{1F44B}\u{00E9}");
    let lines: Vec<&str> = c.lines().collect();
    assert_eq!(lines.len(), 2);
    assert!(lines[0].starts_with("  U+1F44B <symbol>"), "{c}");
    assert!(lines[1].starts_with("  U+00E9 <letter or symbol>"), "{c}");
    assert!(lines[1].ends_with("first@4"), "{c}");
}

#[test]
fn names_of_character_kinds() {
    assert_eq!(char_name('\u{2028}'), "<whitespace>");
    assert_eq!(char_name('\u{0301}'), "<letter or symbol>");
    assert_eq!(char_name('\u{4E2D}'), "<symbol>");
    assert_eq!(char_name('\u{2212}'), "MINUS SIGN");
}

#[test]
fn dump_is_cut_on_characters() {
    assert_eq!(
        render_dump_capped("MODEL OUTPUT", "x", "a\u{00E9}b", 2),
        "=== MODEL OUTPUT (x) === 3 chars, 4 bytes (TRUNCATED, raise ATLAS_DEBUG_IO_MAX)\n\
         a\u{00E9}\n--- non-ASCII ---\n\
         \u{20} U+00E9 <letter or symbol>                 x1    first@1"
    );
    assert_eq!(
        render_dump_capped("K", "w", "ab", 2),
        "=== K (w) === 2 chars, 2 bytes\nab\n--- non-ASCII ---\n  (pure ASCII)"
    );
}

#[test]
fn token_ids_are_listed() {
    assert_eq!(render_token_ids(&[], 100), None);
    assert_eq!(
        render_token_ids(&[1, 22, 333], 100).unwrap(),
        "=== MODEL OUTPUT (stream, token ids) === 3 ids\n1 22 333"
    );
    assert_eq!(
        render_token_ids(&[1, 22, 333], 14).unwrap(),
        "=== MODEL OUTPUT (stream, token ids) === 3 ids (TRUNCATED)\n1 22"
    );
}
