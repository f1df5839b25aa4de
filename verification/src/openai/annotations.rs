//! URL citations in the OpenAI wire shape.

use crate::citation;
use crate::citation::{extract_url_citations, merged_citations, Citation, CitationView};
use crate::tool_parser::ToolCall;
use vstd::prelude::*;

verus! {

/// A chat message of a response.
#[derive(Debug, Clone)]
pub struct ChatMessage {
    pub role: String,
    /// Reasoning trace; the one reasoning field of the response wire.
    pub reasoning_content: Option<String>,
    pub content: Option<String>,
    pub tool_calls: Option<Vec<ToolCall>>,
    /// Citations found in `content`.
    pub annotations: Option<Vec<Annotation>>,
    pub refusal: Option<String>,
}

/// An entry of a message's annotations.
#[derive(Debug, PartialEq)]
pub enum Annotation {
    UrlCitation { url_citation: UrlCitation },
}

/// A cited URL with its byte range in the content.
#[derive(Debug, PartialEq)]
pub struct UrlCitation {
    pub start_index: usize,
    pub end_index: usize,
    pub url: String,
    pub title: String,
}

impl View for Annotation {
    type V = CitationView;

    open spec fn view(&self) -> CitationView {
        match self {
            Annotation::UrlCitation { url_citation: c } => CitationView {
                start: c.start_index as nat,
                end: c.end_index as nat,
                url: c.url@,
                title: c.title@,
            },
        }
    }
}

/// What each annotation of a list says.
pub open spec fn annotation_views(s: Seq<Annotation>) -> Seq<CitationView> {
    s.map_values(|a: Annotation| a@)
}

/// What an optional list of annotations says.
pub open spec fn opt_annotations(o: Option<Vec<Annotation>>) -> Option<Seq<CitationView>> {
    match o {
        Some(v) => Some(annotation_views(v@)),
        None => None,
    }
}

/// A list of citations, absent when it is empty.
pub open spec fn unless_empty(s: Seq<CitationView>) -> Option<Seq<CitationView>> {
    if s.len() == 0 {
        None
    } else {
        Some(s)
    }
}

impl From<Citation> for Annotation {
    fn from(c: Citation) -> (r: Self) {
        Annotation::UrlCitation {
            url_citation: UrlCitation {
                start_index: c.start_index,
                end_index: c.end_index,
                url: c.url,
                title: c.title,
            },
        }
    }
}

impl vstd::std_specs::convert::FromSpecImpl<Citation> for Annotation {
    open spec fn obeys_from_spec() -> bool {
        true
    }

    open spec fn from_spec(c: Citation) -> Self {
        Annotation::UrlCitation {
            url_citation: UrlCitation {
                start_index: c.start_index,
                end_index: c.end_index,
                url: c.url,
                title: c.title,
            },
        }
    }
}

impl Clone for Annotation {
    fn clone(&self) -> (r: Self)
        ensures
            r@ == self@,
    {
        match self {
            Annotation::UrlCitation { url_citation: c } => Annotation::UrlCitation {
                url_citation: UrlCitation {
                    start_index: c.start_index,
                    end_index: c.end_index,
                    url: c.url.clone(),
                    title: c.title.clone(),
                },
            },
        }
    }
}

/// A copy of a list of annotations.
pub fn copy_annotations(list: &Vec<Annotation>) -> (out: Vec<Annotation>)
    ensures
        annotation_views(out@) == annotation_views(list@),
{
    let mut out: Vec<Annotation> = Vec::new();
    let mut i: usize = 0;
    while i < list.len()
        invariant
            i <= list@.len(),
            annotation_views(out@) == annotation_views(list@.take(i as int)),
        decreases list@.len() - i,
    {
        let ghost before = out@;
        let a = list[i].clone();
        out.push(a);
        proof {
            assert(annotation_views(out@) =~= annotation_views(before).push(a@));
            assert(annotation_views(list@.take(i + 1)) =~= annotation_views(
                list@.take(i as int),
            ).push(list@[i as int]@));
        }
        i = i + 1;
    }
    assert(list@.take(i as int) =~= list@);
    out
}

/// The annotations of a list of citations, in order.
fn annotate(list: Vec<Citation>) -> (out: Vec<Annotation>)
    ensures
        annotation_views(out@) == citation::citations(list@),
{
    let mut out: Vec<Annotation> = Vec::new();
    for c in it: list
        invariant
            it.seq() == list@,
            annotation_views(out@) == citation::citations(list@.take(it.index() as int)),
    {
        let ghost k = it.index() as int;
        let ghost before = out@;
        let a = Annotation::from(c);
        out.push(a);
        proof {
            assert(annotation_views(out@) =~= annotation_views(before).push(a@));
            assert(citation::citations(list@.take(k + 1)) =~= citation::citations(
                list@.take(k),
            ).push(c@));
        }
    }
    assert(list@.take(list@.len() as int) =~= list@);
    out
}

/// The bare and markdown URLs of `content`; `None` when there are none.
pub fn extract_url_annotations(content: &str) -> (r: Option<Vec<Annotation>>)
    ensures
        opt_annotations(r) == unless_empty(citation::url_citations(content@)),
{
    let found: Vec<Citation> = extract_url_citations(content);
    assert(citation::citations(found@).len() == found@.len());
    if found.len() == 0 {
        None
    } else {
        Some(annotate(found))
    }
}

/// The URLs and structured citations of `content`; `None` when there are none.
pub fn merged_annotations(content: &str) -> (r: Option<Vec<Annotation>>)
    ensures
        opt_annotations(r) == unless_empty(citation::all_citations(content@)),
{
    match merged_citations(content) {
        Some(found) => {
            assert(citation::citations(found@).len() == found@.len());
            Some(annotate(found))
        },
        None => None,
    }
}

/// Citations are attached when there are any, all of them, and left out only
/// when there are none.
pub proof fn found_citations_are_attached(s: Seq<CitationView>)
    ensures
        s.len() > 0 ==> unless_empty(s) == Some(s),
        s.len() == 0 ==> unless_empty(s) is None,
{
}

} // verus!
