//! What the Messages endpoints answer.

use crate::anthropic::helpers;
use crate::anthropic::helpers::anthropic_error;
use crate::ir::message;
use crate::ir::message::{ContentPart, Message};
use crate::json;
use crate::json::{entry, object, parse_json_bytes, Json, JsonView};
use crate::text;
use crate::text::from_utf8_lossy;
use vstd::prelude::*;
use vstd::string::*;

verus! {

/// The message of an OpenAI error envelope.
pub open spec fn envelope_message(j: JsonView) -> Option<Seq<char>> {
    match j.field("error"@) {
        Some(e) => e.text_field("message"@),
        None => None,
    }
}

/// The message of an error body, given what it parses to and its text: that of
/// its OpenAI envelope, else the whole text.
pub open spec fn message_or_text(parsed: Option<JsonView>, whole: Seq<char>) -> Seq<char> {
    match parsed {
        Some(j) => match envelope_message(j) {
            Some(m) => m,
            None => whole,
        },
        None => whole,
    }
}

/// The message that an error body carries.
pub open spec fn error_message(body: Seq<u8>) -> Seq<char> {
    message_or_text(json::parsed_json_bytes(body), text::lossy_text(body))
}

/// The message of a parsed error envelope.
pub fn read_envelope_message(j: &Json) -> (r: Option<String>)
    ensures
        text::opt_text(r) == envelope_message(j@),
{
    match j.get("error") {
        Some(e) => match e.get_str("message") {
            Some(m) => Some(m.to_owned()),
            None => None,
        },
        None => None,
    }
}

/// The message of an error body, given what it parses to and its text.
pub fn choose_error_message(parsed: Option<Json>, whole: String) -> (r: String)
    ensures
        r@ == message_or_text(json::opt_view(parsed), whole@),
{
    match parsed {
        Some(j) => match read_envelope_message(&j) {
            Some(m) => m,
            None => whole,
        },
        None => whole,
    }
}

/// The message that an error body carries.
pub fn read_error_message(body: &[u8]) -> (r: String)
    ensures
        r@ == error_message(body@),
{
    choose_error_message(parse_json_bytes(body), from_utf8_lossy(body))
}

/// The type of an error with HTTP status `status`: the client's fault or not.
pub open spec fn error_kind(status: u16) -> Seq<char> {
    if 400 <= status < 500 {
        "invalid_request_error"@
    } else {
        "api_error"@
    }
}

/// An OpenAI error answer in the Anthropic shape. `body` is `Err` with the cause
/// when it could not be read.
pub fn openai_error_to_anthropic(status: u16, body: Result<&[u8], String>) -> (j: Json)
    ensures
        j@ == helpers::error_body(
            error_kind(status),
            match body {
                Ok(bytes) => error_message(bytes@),
                Err(cause) => "Error body collect: "@ + cause@,
            },
        ),
{
    let message: String = match body {
        Ok(bytes) => read_error_message(bytes),
        Err(cause) => {
            let mut m: String = "Error body collect: ".to_owned();
            m.append(cause.as_str());
            m
        },
    };
    let kind: &str = if 400 <= status && status < 500 {
        "invalid_request_error"
    } else {
        "api_error"
    };
    anthropic_error(kind, message.as_str())
}

/// The answer to a failed chat request: the status that it has, and the body in
/// the Anthropic shape. A body that could not be read is an internal error.
pub fn forward_error(status: u16, body: Result<&[u8], String>) -> (r: (u16, Json))
    ensures
        match body {
            Ok(bytes) => r.0 == status && r.1@ == helpers::error_body(
                "api_error"@,
                error_message(bytes@),
            ),
            Err(cause) => r.0 == 500 && r.1@ == helpers::error_body(
                "api_error"@,
                "Error body collect: "@ + cause@,
            ),
        },
{
    match body {
        Ok(bytes) => {
            let m: String = read_error_message(bytes);
            (status, anthropic_error("api_error", m.as_str()))
        },
        Err(cause) => {
            let mut m: String = "Error body collect: ".to_owned();
            m.append(cause.as_str());
            (500, anthropic_error("api_error", m.as_str()))
        },
    }
}

/// The answer to a request that is no valid JSON.
pub fn invalid_request(cause: &str) -> (r: (u16, Json))
    ensures
        r.0 == 400,
        r.1@ == helpers::error_body("invalid_request_error"@, "Invalid request JSON: "@ + cause@),
{
    let mut m: String = "Invalid request JSON: ".to_owned();
    m.append(cause);
    (400, anthropic_error("invalid_request_error", m.as_str()))
}

// ── counting tokens ──

/// The parts without images, in order.
pub open spec fn text_parts(parts: Seq<ContentPart>) -> Seq<ContentPart>
    decreases parts.len(),
{
    if parts.len() == 0 {
        Seq::empty()
    } else {
        match parts.last() {
            ContentPart::Text(_) => text_parts(parts.drop_last()).push(parts.last()),
            ContentPart::Image(_) => text_parts(parts.drop_last()),
        }
    }
}

fn keep_text_parts(parts: Vec<ContentPart>) -> (out: Vec<ContentPart>)
    ensures
        out@ == text_parts(parts@),
{
    let mut out: Vec<ContentPart> = Vec::new();
    for part in it: parts
        invariant
            it.seq() == parts@,
            out@ == text_parts(parts@.take(it.index() as int)),
    {
        let ghost k = it.index() as int;
        assert(part == parts@[k]);
        assert(parts@.take(k + 1).drop_last() =~= parts@.take(k));
        match part {
            ContentPart::Text(t) => {
                out.push(ContentPart::Text(t));
            },
            ContentPart::Image(_) => {},
        }
    }
    assert(parts@.take(parts@.len() as int) =~= parts@);
    out
}

/// The messages of a request without their images, which a token count leaves
/// out.
pub fn without_images(messages: Vec<Message>) -> (out: Vec<Message>)
    ensures
        out@.len() == messages@.len(),
        forall|i: int|
            0 <= i < out@.len() ==> (#[trigger] out@[i]).content@ == text_parts(
                messages@[i].content@,
            ) && out@[i].role == messages@[i].role && out@[i].tool_calls == messages@[i].tool_calls
                && out@[i].tool_call_id == messages@[i].tool_call_id && out@[i].name
                == messages@[i].name && out@[i].reasoning == messages@[i].reasoning
                && out@[i].tool_error == messages@[i].tool_error,
{
    let mut out: Vec<Message> = Vec::new();
    for m in it: messages
        invariant
            it.seq() == messages@,
            out@.len() == it.index(),
            forall|i: int|
                0 <= i < out@.len() ==> (#[trigger] out@[i]).content@ == text_parts(
                    messages@[i].content@,
                ) && out@[i].role == messages@[i].role && out@[i].tool_calls
                    == messages@[i].tool_calls && out@[i].tool_call_id == messages@[i].tool_call_id
                    && out@[i].name == messages@[i].name && out@[i].reasoning
                    == messages@[i].reasoning && out@[i].tool_error == messages@[i].tool_error,
    {
        let ghost k = it.index() as int;
        assert(m == messages@[k]);
        let Message { role, content, tool_calls, tool_call_id, name, reasoning, tool_error } = m;
        out.push(
            Message {
                role,
                content: keep_text_parts(content),
                tool_calls,
                tool_call_id,
                name,
                reasoning,
                tool_error,
            },
        );
    }
    out
}

/// The answer of the token count.
pub fn count_answer(input_tokens: usize) -> (j: Json)
    ensures
        j@ == JsonView::Object(seq![("input_tokens"@, JsonView::UInt(input_tokens as u64))]),
{
    let all: Vec<(String, Json)> = vec![entry("input_tokens", Json::UInt(input_tokens as u64))];
    assert(json::entry_views(all@) =~= seq![
        ("input_tokens"@, JsonView::UInt(input_tokens as u64)),
    ]);
    object(all)
}

// ── laws ──

/// An error answer says that it is one, of which type and why.
pub open spec fn says_error(j: JsonView, kind: Seq<char>, message: Seq<char>) -> bool {
    &&& j.text_field("type"@) == Some("error"@)
    &&& j.field("error"@) matches Some(e) && e.text_field("type"@) == Some(kind) && e.text_field(
        "message"@,
    ) == Some(message)
}

/// Every error answer carries its type and its message.
pub proof fn errors_carry_their_message(kind: Seq<char>, message: Seq<char>)
    ensures
        says_error(helpers::error_body(kind, message), kind, message),
{
    reveal_strlit("type");
    reveal_strlit("error");
    reveal_strlit("message");
    assert("type"@.len() == 4 && "error"@.len() == 5 && "message"@.len() == 7);
    reveal_with_fuel(json::entry_at, 3);
    let o = helpers::error_body(kind, message)->Object_0;
    assert(o[0].0 == "type"@ && o[1].0 == "error"@);
    assert(json::entry_at(o, "type"@, 0) == 0);
    assert(json::entry_at(o, "error"@, 0) == 1);
    let e = o[1].1->Object_0;
    assert(e[0].0 == "type"@ && e[1].0 == "message"@);
    assert(json::entry_at(e, "type"@, 0) == 0);
    assert(json::entry_at(e, "message"@, 0) == 1);
}

/// The message of an error answer is read back out of it: the message that an
/// answer was written with is the one that its envelope has.
pub proof fn written_errors_are_read_back(kind: Seq<char>, message: Seq<char>, whole: Seq<char>)
    ensures
        message_or_text(Some(helpers::error_body(kind, message)), whole) == message,
        message_or_text(None, whole) == whole,
        message_or_text(Some(JsonView::Null), whole) == whole,
{
    errors_carry_their_message(kind, message);
}

/// An error with a client status is the request's fault, any other the server's.
pub proof fn error_kinds_follow_the_status(status: u16)
    ensures
        status < 400 ==> error_kind(status) == "api_error"@,
        400 <= status <= 499 ==> error_kind(status) == "invalid_request_error"@,
        status >= 500 ==> error_kind(status) == "api_error"@,
{
}

/// A token count sees all text of a message and none of its images.
pub proof fn counts_see_all_text(parts: Seq<ContentPart>)
    ensures
        message::joined_text(text_parts(parts)) == message::joined_text(parts),
        message::images_in(text_parts(parts)) == 0,
    decreases parts.len(),
{
    if parts.len() > 0 {
        let most = parts.drop_last();
        counts_see_all_text(most);
        if parts.last() is Text {
            assert(text_parts(most).push(parts.last()).drop_last() =~= text_parts(most));
        } else {
            let t = message::joined_text(most);
            assert(t + Seq::<char>::empty() =~= t);
        }
    }
}

} // verus!
