//! A stream that fails.

use crate::ir::stream::StreamDelta;
use crate::json;
use crate::json::{entry, object, string, to_json_text, Json, JsonView};
use vstd::prelude::*;
use vstd::string::*;

verus! {

/// The error envelope that a failed stream sends.
pub open spec fn error_envelope(message: Seq<char>) -> JsonView {
    JsonView::Object(
        seq![
            (
                "error"@,
                JsonView::Object(
                    seq![
                        ("message"@, JsonView::Str(message)),
                        ("type"@, JsonView::Str("server_error"@)),
                        ("code"@, JsonView::UInt(500)),
                    ],
                ),
            ),
        ],
    )
}

/// The deltas that end a failed stream: one error with the envelope as text.
pub fn handle_error(msg: &str) -> (out: Vec<StreamDelta>)
    ensures
        out@.len() == 1,
        out@[0] matches StreamDelta::Error { message } && message@ == json::json_text(
            error_envelope(msg@),
        ),
{
    let inner: Vec<(String, Json)> = vec![
        entry("message", string(msg)),
        entry("type", string("server_error")),
        entry("code", Json::UInt(500)),
    ];
    let all: Vec<(String, Json)> = vec![entry("error", object(inner))];
    proof {
        let want = error_envelope(msg@)->Object_0;
        assert(json::entry_views(inner@) =~= want[0].1->Object_0);
        assert(json::entry_views(all@) =~= want);
    }
    vec![StreamDelta::Error { message: to_json_text(&object(all)) }]
}

/// The envelope of a failed stream carries the message, as an error of the
/// server.
pub proof fn envelopes_carry_the_message(message: Seq<char>)
    ensures
        error_envelope(message).field("error"@) matches Some(e) && e.text_field("message"@) == Some(
            message,
        ) && e.text_field("type"@) == Some("server_error"@) && e.uint_field("code"@) == Some(500u64),
{
    reveal_strlit("message");
    reveal_strlit("type");
    reveal_strlit("code");
    assert("message"@.len() == 7 && "type"@.len() == 4 && "code"@.len() == 4);
    assert("type"@[0] != "code"@[0]);
    reveal_with_fuel(json::entry_at, 4);
    let o = error_envelope(message)->Object_0;
    assert(json::entry_at(o, "error"@, 0) == 0);
    let e = o[0].1->Object_0;
    assert(e[0].0 == "message"@ && e[1].0 == "type"@ && e[2].0 == "code"@);
    assert(json::entry_at(e, "message"@, 0) == 0);
    assert(json::entry_at(e, "type"@, 0) == 1);
    assert(json::entry_at(e, "code"@, 0) == 2);
}

} // verus!
