//! Request fields that are only read back in the response.

use crate::openai::chat_request::ChatCompletionRequest;
use crate::text::copy_opt;
use vstd::prelude::*;

verus! {

/// What the response of a request repeats.
#[derive(Debug)]
pub struct ResponseEcho {
    pub service_tier: Option<String>,
    pub metadata: Option<Vec<(String, String)>>,
    /// Keep the completion for later retrieval.
    pub store: bool,
    /// Send a last chunk with the usage.
    pub include_usage: bool,
}

/// What each pair of a list says.
pub open spec fn pair_views(s: Seq<(String, String)>) -> Seq<(Seq<char>, Seq<char>)> {
    s.map_values(|p: (String, String)| (p.0@, p.1@))
}

/// What optional metadata say.
pub open spec fn metadata_view(m: Option<Vec<(String, String)>>) -> Option<
    Seq<(Seq<char>, Seq<char>)>,
> {
    match m {
        Some(v) => Some(pair_views(v@)),
        None => None,
    }
}

fn copy_metadata(m: &Option<Vec<(String, String)>>) -> (r: Option<Vec<(String, String)>>)
    ensures
        metadata_view(r) == metadata_view(*m),
{
    match m {
        None => None,
        Some(v) => {
            let mut out: Vec<(String, String)> = Vec::new();
            let mut i: usize = 0;
            assert(pair_views(out@) =~= pair_views(v@.take(0)));
            while i < v.len()
                invariant
                    i <= v@.len(),
                    pair_views(out@) == pair_views(v@.take(i as int)),
                decreases v@.len() - i,
            {
                let ghost before = out@;
                out.push((v[i].0.clone(), v[i].1.clone()));
                proof {
                    assert(pair_views(out@) =~= pair_views(before).push(
                        (v@[i as int].0@, v@[i as int].1@),
                    ));
                    assert(pair_views(v@.take(i + 1)) =~= pair_views(v@.take(i as int)).push(
                        (v@[i as int].0@, v@[i as int].1@),
                    ));
                }
                i = i + 1;
            }
            assert(v@.take(i as int) =~= v@);
            Some(out)
        },
    }
}

impl ResponseEcho {
    /// The echo of a request.
    pub fn from_wire(req: &ChatCompletionRequest) -> (r: Self)
        ensures
            r.service_tier == req.service_tier,
            metadata_view(r.metadata) == metadata_view(req.metadata),
            r.store == (req.store == Some(true)),
            r.include_usage == (req.stream_options matches Some(o) && o.include_usage),
    {
        ResponseEcho {
            service_tier: copy_opt(&req.service_tier),
            metadata: copy_metadata(&req.metadata),
            store: match req.store {
                Some(b) => b,
                None => false,
            },
            include_usage: match req.stream_options {
                Some(o) => o.include_usage,
                None => false,
            },
        }
    }
}

} // verus!
