//! Token classification masks.

use spark_server::scheduler::vocab_masks::VocabMasks;
use std::sync::Arc;

fn mask(bits: &[bool]) -> Option<Arc<Vec<bool>>> {
    Some(Arc::new(bits.to_vec()))
}

#[test]
fn an_absent_mask_classifies_nothing() {
    let m = VocabMasks::default();
    assert!(!m.is_numeric(0) && !m.is_boundary(7) && !m.is_mid_word(u32::MAX));
}

#[test]
fn an_id_past_the_end_is_unclassified_rather_than_a_panic() {
    // The failure mode this guards: a mask built for a SMALLER vocabulary.
    // Fail-open is the pre-existing contract — the guard goes inert, it
    // does not index out of bounds.
    let m = VocabMasks {
        numeric: mask(&[true, false]),
        ..Default::default()
    };
    assert!(m.is_numeric(0));
    assert!(!m.is_numeric(1));
    assert!(!m.is_numeric(2), "past the end of a 2-token vocabulary");
    assert!(!m.is_numeric(50_000));
}

#[test]
fn the_masks_are_independent() {
    let m = VocabMasks {
        numeric: mask(&[true, false]),
        boundary: mask(&[false, true]),
        mid_word: None,
        eq_prefix: mask(&[false, true]),
    };
    assert!(m.is_numeric(0) && !m.is_boundary(0) && !m.is_mid_word(0) && !m.is_eq_prefix(0));
    assert!(!m.is_numeric(1) && m.is_boundary(1) && !m.is_mid_word(1) && m.is_eq_prefix(1));
}

#[test]
fn debug_reports_populations_not_contents() {
    let m = VocabMasks {
        numeric: mask(&[true, false, true]),
        ..Default::default()
    };
    let s = m.debug_text();
    assert!(s.contains("2/3"), "{s}");
    assert!(s.contains("none"), "{s}");
    assert!(!s.contains("true"), "must not print the bools: {s}");
}

#[test]
fn debug_text_is_exact() {
    let m = VocabMasks {
        boundary: mask(&[true, true]),
        ..Default::default()
    };
    assert_eq!(
        m.debug_text(),
        "VocabMasks { numeric: \"none\", boundary: \"2/2\", mid_word: \"none\", eq_prefix: \"none\" }"
    );
}
