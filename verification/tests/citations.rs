//! Citations of an answer: bare and Markdown URLs, footnotes, numbered
//! references and lists of sources.

use spark_server::citation::{
    extract, extract_url_citations, mask_code_spans, merge_dedupe, merged_citations, Citation,
};

#[test]
fn no_citations_returns_empty() {
    let got = extract("plain text with no citations");
    assert!(got.is_empty());
}

#[test]
fn merge_dedupe_by_url() {
    let a = vec![Citation {
        start_index: 0,
        end_index: 20,
        url: "https://example.com".into(),
        title: "first".into(),
    }];
    let b = vec![Citation {
        start_index: 50,
        end_index: 70,
        url: "https://example.com".into(),
        title: "second".into(),
    }];
    let merged = merge_dedupe(a, b);
    assert_eq!(merged.len(), 1);
}


#[test]
fn citation_bare_url_extracted() {
    let got = extract_url_citations("see https://example.com/foo for more");
    assert_eq!(got.len(), 1);
    assert_eq!(got[0].url, "https://example.com/foo");
    assert_eq!(got[0].title, "https://example.com/foo");
}

#[test]
fn trailing_punctuation_stripped() {
    let got = extract_url_citations("go to https://example.com.");
    assert_eq!(got[0].url, "https://example.com");
}

#[test]
fn wikipedia_parens_survive() {
    let got = extract_url_citations("see https://en.wikipedia.org/wiki/Foo_(bar) now");
    assert_eq!(got[0].url, "https://en.wikipedia.org/wiki/Foo_(bar)");
}

#[test]
fn markdown_link_title_used() {
    let got = extract_url_citations("read [the docs](https://example.com/api) today");
    assert_eq!(got.len(), 1);
    assert_eq!(got[0].url, "https://example.com/api");
    assert_eq!(got[0].title, "the docs");
}

#[test]
fn markdown_link_with_parens_in_url() {
    let got =
        extract_url_citations("see [Foo (bar)](https://en.wikipedia.org/wiki/Foo_(bar)) here");
    assert_eq!(got.len(), 1);
    assert_eq!(got[0].url, "https://en.wikipedia.org/wiki/Foo_(bar)");
}

#[test]
fn code_spans_skipped() {
    assert!(extract_url_citations("run `curl https://example.com` locally").is_empty());
    assert!(extract_url_citations("```\ncurl https://example.com\n```\nno cite").is_empty());
}

#[test]
fn non_http_schemes_ignored() {
    assert!(extract_url_citations("ftp://example.com not a citation").is_empty());
}

#[test]
fn empty_and_plain_content() {
    assert!(extract_url_citations("").is_empty());
    assert!(extract_url_citations("no URLs here").is_empty());
}

#[test]
fn query_and_fragment_kept() {
    let got = extract_url_citations("see https://example.com/p?q=1&r=2#frag here");
    assert_eq!(got[0].url, "https://example.com/p?q=1&r=2#frag");
}

#[test]
fn merged_citations_combines_and_dedupes() {
    let input = "Intro https://a.example.com text.\n\nSources:\n- https://a.example.com\n- https://b.example.com\n";
    let got = merged_citations(input).unwrap();
    let mut u: Vec<&str> = got.iter().map(|c| c.url.as_str()).collect();
    u.dedup();
    assert_eq!(u.len(), 2);
}

fn urls(cits: &[Citation]) -> Vec<(&str, &str, usize, usize)> {
    cits.iter()
        .map(|c| (c.url.as_str(), c.title.as_str(), c.start_index, c.end_index))
        .collect()
}

#[test]
fn footnote_ref_resolved() {
    let input = "See the docs[^1] for more.\n\n[^1]: https://example.com/api The API reference";
    let got = extract(input);
    let u = urls(&got);
    assert_eq!(u.len(), 1);
    assert_eq!(u[0].0, "https://example.com/api");
    assert_eq!(u[0].1, "The API reference");
}

#[test]
fn footnote_without_title_falls_back_to_label() {
    let input = "Cite me[^src].\n[^src]: https://example.com";
    let got = extract(input);
    let u = urls(&got);
    assert_eq!(u.len(), 1);
    assert_eq!(u[0].0, "https://example.com");
    assert_eq!(u[0].1, "src");
}

#[test]
fn numeric_refs_resolved() {
    let input =
        "See [1] and [2].\n\n[1] https://a.example.com\n[2] https://b.example.com Example B";
    let got = extract(input);
    let u = urls(&got);
    assert_eq!(u.len(), 2);
    assert_eq!(u[0].0, "https://a.example.com");
    assert_eq!(u[1].0, "https://b.example.com");
    assert_eq!(u[1].1, "Example B");
}

#[test]
fn numeric_ref_ignores_non_refs() {
    let input = "array[0] is [abc].\nNo definitions here.";
    let got = extract(input);
    assert!(got.is_empty());
}

#[test]
fn sources_block_extracted() {
    let input = "Some answer.\n\nSources:\n- https://a.example.com\n- https://b.example.com short description\n\nOther text.";
    let got = extract(input);
    let u = urls(&got);
    assert_eq!(u.len(), 2);
    assert_eq!(u[0].0, "https://a.example.com");
    assert_eq!(u[1].0, "https://b.example.com");
    assert_eq!(u[1].1, "short description");
}

#[test]
fn references_heading_also_matches() {
    let input = "Stuff.\n\nReferences:\n- https://x.example.com\n";
    let got = extract(input);
    assert_eq!(got.len(), 1);
}

fn cite(start_index: usize, url: &str, title: &str) -> Citation {
    Citation {
        start_index,
        end_index: start_index + url.len(),
        url: url.into(),
        title: title.into(),
    }
}

#[test]
fn a_url_is_cited_once() {
    let got = merged_citations("https://a.example.com and https://a.example.com").unwrap();
    assert_eq!(got, vec![cite(0, "https://a.example.com", "https://a.example.com")]);
}

#[test]
fn the_first_hit_in_document_order_stays() {
    let a = "https://a.example.com";
    let b = "https://b.example.com";
    let twice = vec![cite(40, a, "late"), cite(10, a, "early")];
    let other = vec![cite(3, b, "b"), cite(5, a, "earliest")];
    assert_eq!(merge_dedupe(twice, other), vec![cite(3, b, "b"), cite(5, a, "earliest")]);
    let same = merge_dedupe(vec![cite(7, a, "first")], vec![cite(7, a, "second")]);
    assert_eq!(same, vec![cite(7, a, "first")]);
}

#[test]
fn a_reference_stands_where_its_url_comes_first() {
    let got = merged_citations("See it[^1].\n\n[^1]: https://a.example.com Title").unwrap();
    assert_eq!(got.len(), 1);
    assert_eq!((got[0].start_index, got[0].end_index), (6, 10));
    assert_eq!(got[0].title, "Title");
}

#[test]
fn a_bare_scheme_is_no_structured_citation() {
    assert!(extract("See[^1] and [2].\n[^1]: https://\n[2] ftp://a.example.com/x\n").is_empty());
    assert!(extract("Sources:\n- https://\n").is_empty());
}

#[test]
fn spans_do_not_overlap() {
    let got = extract_url_citations(
        "[a](https://a.example.com) https://b.example.com, `https://c.example.com` \
         [d]( https://d.example.com )",
    );
    assert_eq!(got.len(), 3);
    assert!(got.windows(2).all(|w| w[0].end_index <= w[1].start_index));
}

#[test]
fn definitions_are_no_references() {
    assert!(extract("[1]: https://a.example.com").is_empty());
    assert!(extract("  [1] https://a.example.com\n").is_empty());
    assert!(extract("[^n]: https://a.example.com").is_empty());
    assert!(extract("\t[^n]: https://a.example.com").is_empty());
    let got = extract("See [1].\n\n[1]: https://a.example.com A\n");
    assert_eq!(got.len(), 1);
    assert_eq!((got[0].start_index, got[0].end_index), (4, 7));
    assert_eq!(got[0].title, "A");
}

#[test]
fn a_reference_before_a_colon_is_one() {
    let got = extract("As shown in[^1]: it works.\n\n[^1]: https://a.example.com");
    assert_eq!(got.len(), 1);
    assert_eq!((got[0].start_index, got[0].end_index), (11, 15));
    let got = extract("[1]\nhttps://b.example.com\n[1] https://a.example.com");
    assert_eq!(got.len(), 1);
    assert_eq!((got[0].start_index, got[0].url.as_str()), (0, "https://a.example.com"));
}

#[test]
fn code_is_masked_byte_by_byte() {
    assert_eq!(mask_code_spans("a `b\nc` d"), "a   \n   d");
    assert_eq!(mask_code_spans("```\nx\n``` y"), "   \n \n    y");
    assert_eq!(mask_code_spans("no code"), "no code");
    assert_eq!(mask_code_spans("open `\u{e9}x"), "open     ");
    assert_eq!(mask_code_spans("\u{e9} `\u{20ac}`"), "\u{e9}      ");
    let once = mask_code_spans("a `b` c");
    assert_eq!(mask_code_spans(&once), once);
}
