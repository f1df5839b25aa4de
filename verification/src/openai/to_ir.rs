//! Chat completion requests as provider-neutral requests. Knobs that only the
//! wire has are resolved here.

use crate::float::Float32;
use crate::ir;
use crate::ir::from_openai_response;
use crate::ir::from_openai_response::parse_arguments;
use crate::ir::message;
use crate::ir::message::{
    ContentPart, ImageData, ImageSource, Message, PartView, Reasoning, Role, ToolCall,
    ToolCallModel,
};
use crate::ir::request::{ChatRequest, SamplingParams};
use crate::openai::chat_message::IncomingMessage;
use crate::openai::chat_request;
use crate::openai::chat_request::{ChatCompletionRequest, ResponseFormat};
use crate::text;
use crate::text::{chars_of, copy_opt, parse_number};
use crate::tool_parser::IncomingToolCall;
use vstd::prelude::*;

verus! {

/// What each content part of a list says.
pub open spec fn part_views(s: Seq<ContentPart>) -> Seq<PartView> {
    s.map_values(|p: ContentPart| p@)
}

/// The first `n` images of a message.
pub open spec fn image_parts(images: Seq<String>, n: int) -> Seq<PartView> {
    Seq::new(n as nat, |i: int| message::image_of_uri(images[i]@))
}

/// The content of a message: its images, then its text unless empty.
pub open spec fn message_parts(m: IncomingMessage) -> Seq<PartView> {
    let images = image_parts(m.content.images@, m.content.images@.len() as int);
    if m.content.text@.len() > 0 {
        images.push(PartView::Text(m.content.text@))
    } else {
        images
    }
}

/// The first `n` tool calls of a message: a missing id is empty, arguments that
/// are no JSON are an empty object.
pub open spec fn message_calls(calls: Seq<IncomingToolCall>, n: int) -> Seq<ToolCallModel> {
    Seq::new(
        n as nat,
        |i: int|
            ToolCallModel {
                id: text::or_empty(text::opt_text(calls[i].id)),
                name: calls[i].function.name@,
                arguments: from_openai_response::arguments_of(calls[i].function.arguments@),
            },
    )
}

/// `r` is the neutral form of the message `m`.
pub open spec fn is_message(r: Message, m: IncomingMessage) -> bool {
    &&& r.role@ == message::any_role(m.role@)
    &&& part_views(r.content@) == message_parts(m)
    &&& from_openai_response::call_models(r.tool_calls@) == (match m.tool_calls {
        Some(calls) => message_calls(calls@, calls@.len() as int),
        None => Seq::<ToolCallModel>::empty(),
    })
    &&& r.tool_call_id == m.tool_call_id
    &&& r.name == m.name
    &&& match r.reasoning {
        Some(t) => text::opt_text(m.reasoning_content) == Some(t.text@),
        None => m.reasoning_content is None,
    }
    &&& !r.tool_error
}

fn lower_calls(calls: &Vec<IncomingToolCall>) -> (out: Vec<ToolCall>)
    ensures
        from_openai_response::call_models(out@) == message_calls(calls@, calls@.len() as int),
{
    let mut out: Vec<ToolCall> = Vec::new();
    let mut i: usize = 0;
    assert(from_openai_response::call_models(out@) =~= message_calls(calls@, 0));
    while i < calls.len()
        invariant
            i <= calls@.len(),
            from_openai_response::call_models(out@) == message_calls(calls@, i as int),
        decreases calls@.len() - i,
    {
        let ghost before = out@;
        let id: String = match &calls[i].id {
            Some(s) => s.clone(),
            None => String::new(),
        };
        let tc = ToolCall {
            id,
            name: calls[i].function.name.clone(),
            arguments: parse_arguments(calls[i].function.arguments.as_str()),
        };
        out.push(tc);
        proof {
            assert(from_openai_response::call_models(out@) =~= from_openai_response::call_models(
                before,
            ).push(tc@));
            assert(message_calls(calls@, i + 1) =~= message_calls(calls@, i as int).push(tc@));
        }
        i = i + 1;
    }
    out
}

fn lower_content(m: &IncomingMessage) -> (out: Vec<ContentPart>)
    ensures
        part_views(out@) == message_parts(*m),
{
    let mut out: Vec<ContentPart> = Vec::new();
    let mut i: usize = 0;
    assert(part_views(out@) =~= image_parts(m.content.images@, 0));
    while i < m.content.images.len()
        invariant
            i <= m.content.images@.len(),
            part_views(out@) == image_parts(m.content.images@, i as int),
        decreases m.content.images@.len() - i,
    {
        let ghost before = out@;
        let p = ContentPart::Image(
            ImageSource { data: ImageData::from_uri(m.content.images[i].clone()) },
        );
        out.push(p);
        proof {
            assert(part_views(out@) =~= part_views(before).push(p@));
            assert(image_parts(m.content.images@, i + 1) =~= image_parts(
                m.content.images@,
                i as int,
            ).push(p@));
        }
        i = i + 1;
    }
    if !m.content.text.as_str().is_empty() {
        let ghost before = out@;
        let p = ContentPart::Text(m.content.text.clone());
        out.push(p);
        assert(part_views(out@) =~= part_views(before).push(p@));
    }
    out
}

impl From<&IncomingMessage> for Message {
    fn from(m: &IncomingMessage) -> (r: Self)
        ensures
            is_message(r, *m),
    {
        let tool_calls: Vec<ToolCall> = match &m.tool_calls {
            Some(calls) => lower_calls(calls),
            None => Vec::new(),
        };
        assert(m.tool_calls is None ==> from_openai_response::call_models(tool_calls@) =~= Seq::<
            ToolCallModel,
        >::empty());
        let reasoning: Option<Reasoning> = match &m.reasoning_content {
            Some(t) => Some(Reasoning { text: t.clone() }),
            None => None,
        };
        Message {
            role: Role::from_wire_lossless(m.role.as_str()),
            content: lower_content(m),
            tool_calls,
            tool_call_id: copy_opt(&m.tool_call_id),
            name: copy_opt(&m.name),
            reasoning,
            tool_error: false,
        }
    }
}

impl vstd::std_specs::convert::FromSpecImpl<&IncomingMessage> for Message {
    open spec fn obeys_from_spec() -> bool {
        false
    }

    open spec fn from_spec(m: &IncomingMessage) -> Self {
        arbitrary()
    }
}

/// The number of alternatives per token: an explicit count up to 20, none for a
/// bare request for log-probabilities.
pub open spec fn alternatives(logprobs: Option<bool>, top: Option<u8>) -> Option<u8> {
    match (logprobs, top) {
        (_, Some(n)) => Some(
            if n <= 20 {
                n
            } else {
                20
            },
        ),
        (Some(true), None) => Some(0),
        _ => None,
    }
}

/// The number of alternatives per token that a request asks for.
pub fn resolve_top_logprobs(logprobs: Option<bool>, top_logprobs: Option<u8>) -> (r: Option<u8>)
    ensures
        r == alternatives(logprobs, top_logprobs),
{
    match (logprobs, top_logprobs) {
        (_, Some(n)) => Some(
            if n <= 20 {
                n
            } else {
                20
            },
        ),
        (Some(true), None) => Some(0),
        _ => None,
    }
}

/// The first `n` biases whose key spells a token id, in order.
pub open spec fn biases(map: Seq<(String, Float32)>, n: int) -> Seq<(u32, Float32)>
    decreases n,
{
    if n <= 0 {
        Seq::empty()
    } else {
        match text::spelled_number(map[n - 1].0@, u32::MAX as nat) {
            Some(id) => biases(map, n - 1).push((id as u32, map[n - 1].1)),
            None => biases(map, n - 1),
        }
    }
}

fn lower_biases(map: &Vec<(String, Float32)>) -> (out: Vec<(u32, Float32)>)
    ensures
        out@ == biases(map@, map@.len() as int),
{
    let mut out: Vec<(u32, Float32)> = Vec::new();
    let mut i: usize = 0;
    while i < map.len()
        invariant
            i <= map@.len(),
            out@ == biases(map@, i as int),
        decreases map@.len() - i,
    {
        let max: u64 = 0xffff_ffff;
        assert(max as nat == u32::MAX as nat);
        if let Some(id) = parse_number(&chars_of(map[i].0.as_str()), max) {
            out.push((id as u32, map[i].1));
        }
        i = i + 1;
    }
    out
}

/// The output shape of a request: text is no constraint.
pub open spec fn is_format(
    r: Option<ir::request::ResponseFormat>,
    wire: Option<ResponseFormat>,
) -> bool {
    match wire {
        None => r is None,
        Some(ResponseFormat::Text) => r is None,
        Some(ResponseFormat::JsonObject) => r matches Some(
            ir::request::ResponseFormat::JsonObject,
        ),
        Some(ResponseFormat::JsonSchema { json_schema }) => r matches Some(
            ir::request::ResponseFormat::JsonSchema { name, schema, strict },
        ) && name == json_schema.name && schema == json_schema.schema && strict
            == json_schema.strict,
    }
}

impl ChatCompletionRequest {
    /// The provider-neutral request.
    pub fn into_ir(self) -> (r: ChatRequest)
        ensures
            r.model == self.model,
            r.messages@.len() == self.messages@.len(),
            forall|i: int|
                0 <= i < r.messages@.len() ==> is_message(
                    #[trigger] r.messages@[i],
                    self.messages@[i],
                ),
            match self.tools {
                Some(tools) => r.tools == tools,
                None => r.tools@.len() == 0,
            },
            r.tool_choice == self.tool_choice,
            r.sampling == (SamplingParams {
                temperature: self.temperature,
                top_k: self.top_k,
                top_p: self.top_p,
                top_n_sigma: self.top_n_sigma,
                min_p: self.min_p,
                repetition_penalty: self.repetition_penalty,
                presence_penalty: self.presence_penalty,
                frequency_penalty: self.frequency_penalty,
            }),
            r.max_tokens == self.max_tokens,
            r.min_tokens == self.min_tokens,
            r.stop == self.stop,
            r.stream == self.stream,
            r.n == self.n,
            is_format(r.response_format, self.response_format),
            r.thinking == chat_request::directive_of(self),
            r.repetition_detection == self.repetition_detection,
            r.adapter == self.adapter,
            r.src_lang == self.src_lang,
            r.tgt_lang == self.tgt_lang,
            r.num_beams == self.num_beams,
            r.length_penalty == self.length_penalty,
            r.early_stopping == self.early_stopping,
            r.logit_bias@ == (match self.logit_bias {
                Some(map) => biases(map@, map@.len() as int),
                None => Seq::<(u32, Float32)>::empty(),
            }),
            r.top_logprobs == alternatives(self.logprobs, self.top_logprobs),
            r.seed == self.seed,
            r.timeout_secs == self.timeout,
            r.return_token_ids == self.return_token_ids,
    {
        let thinking = self.client_thinking_directive();
        let top_logprobs: Option<u8> = resolve_top_logprobs(self.logprobs, self.top_logprobs);
        let logit_bias: Vec<(u32, Float32)> = match &self.logit_bias {
            Some(map) => lower_biases(map),
            None => Vec::new(),
        };
        let response_format = match self.response_format {
            None => None,
            Some(ResponseFormat::Text) => None,
            Some(ResponseFormat::JsonObject) => Some(ir::request::ResponseFormat::JsonObject),
            Some(ResponseFormat::JsonSchema { json_schema }) => Some(
                ir::request::ResponseFormat::JsonSchema {
                    name: json_schema.name,
                    schema: json_schema.schema,
                    strict: json_schema.strict,
                },
            ),
        };
        let mut messages: Vec<Message> = Vec::new();
        let mut i: usize = 0;
        while i < self.messages.len()
            invariant
                i <= self.messages@.len(),
                messages@.len() == i,
                forall|k: int|
                    0 <= k < i ==> is_message(#[trigger] messages@[k], self.messages@[k]),
            decreases self.messages@.len() - i,
        {
            messages.push(Message::from(&self.messages[i]));
            i = i + 1;
        }
        let tools = match self.tools {
            Some(t) => t,
            None => Vec::new(),
        };
        ChatRequest {
            model: self.model,
            messages,
            tools,
            tool_choice: self.tool_choice,
            sampling: SamplingParams {
                temperature: self.temperature,
                top_k: self.top_k,
                top_p: self.top_p,
                top_n_sigma: self.top_n_sigma,
                min_p: self.min_p,
                repetition_penalty: self.repetition_penalty,
                presence_penalty: self.presence_penalty,
                frequency_penalty: self.frequency_penalty,
            },
            max_tokens: self.max_tokens,
            min_tokens: self.min_tokens,
            stop: self.stop,
            stream: self.stream,
            n: self.n,
            response_format,
            thinking,
            repetition_detection: self.repetition_detection,
            adapter: self.adapter,
            src_lang: self.src_lang,
            tgt_lang: self.tgt_lang,
            num_beams: self.num_beams,
            length_penalty: self.length_penalty,
            early_stopping: self.early_stopping,
            logit_bias,
            top_logprobs,
            seed: self.seed,
            timeout_secs: self.timeout,
            return_token_ids: self.return_token_ids,
        }
    }
}

// ── laws ──

proof fn lemma_only_images(parts: Seq<ContentPart>)
    requires
        forall|k: int| 0 <= k < parts.len() ==> (#[trigger] parts[k]) is Image,
    ensures
        message::joined_text(parts) == Seq::<char>::empty(),
        message::images_in(parts) == parts.len(),
    decreases parts.len(),
{
    if parts.len() > 0 {
        lemma_only_images(parts.drop_last());
        assert(parts.last() is Image);
        assert(message::joined_text(parts) =~= Seq::<char>::empty());
    }
}

/// Nothing of a message is lost on the way in: the neutral message has its text,
/// as many images, and a role that goes back on the wire as it came.
pub proof fn lowering_keeps_text_and_images(r: Message, m: IncomingMessage)
    requires
        is_message(r, m),
    ensures
        message::joined_text(r.content@) == m.content.text@,
        message::images_in(r.content@) == m.content.images@.len(),
        message::role_wire(r.role@) == m.role@,
{
    let parts = r.content@;
    let n = m.content.images@.len();
    message::role_survives_the_wire(r.role@, m.role@);
    assert(part_views(parts).len() == parts.len());
    assert forall|k: int| 0 <= k < n implies (#[trigger] parts[k]) is Image by {
        assert(part_views(parts)[k] == parts[k]@);
        assert(message_parts(m)[k] == message::image_of_uri(m.content.images@[k]@));
    }
    if m.content.text@.len() > 0 {
        lemma_only_images(parts.drop_last());
        assert(part_views(parts)[n as int] == parts[n as int]@);
        assert(parts.last()@ == PartView::Text(m.content.text@));
        assert(message::joined_text(parts) =~= m.content.text@);
    } else {
        lemma_only_images(parts);
        assert(m.content.text@ =~= Seq::<char>::empty());
    }
}

/// Every tool call of a message is kept, in order, under its id and name and
/// with its arguments as JSON; so are its images in order, the call that it
/// answers, its name and its reasoning.
pub proof fn lowering_keeps_calls_and_images(r: Message, m: IncomingMessage)
    requires
        is_message(r, m),
    ensures
        r.tool_calls@.len() == (match m.tool_calls {
            Some(calls) => calls@.len(),
            None => 0,
        }),
        m.tool_calls matches Some(calls) ==> forall|i: int|
            0 <= i < calls@.len() ==> {
                &&& (#[trigger] r.tool_calls@[i]).id@ == (match calls@[i].id {
                    Some(id) => id@,
                    None => Seq::empty(),
                })
                &&& r.tool_calls@[i].name@ == calls@[i].function.name@
                &&& r.tool_calls@[i].arguments@ == from_openai_response::arguments_of(
                    calls@[i].function.arguments@,
                )
            },
        forall|i: int|
            0 <= i < m.content.images@.len() ==> (#[trigger] r.content@[i])@
                == message::image_of_uri(m.content.images@[i]@),
        r.content@.len() == m.content.images@.len() + if m.content.text@.len() > 0 {
            1int
        } else {
            0int
        },
        r.tool_call_id == m.tool_call_id,
        r.name == m.name,
        r.reasoning is Some <==> m.reasoning_content is Some,
        r.reasoning matches Some(t) ==> t.text@ == m.reasoning_content->0@,
        !r.tool_error,
{
    assert(from_openai_response::call_models(r.tool_calls@).len() == r.tool_calls@.len());
    assert(part_views(r.content@).len() == r.content@.len());
    if let Some(calls) = m.tool_calls {
        assert forall|i: int| 0 <= i < calls@.len() implies {
            &&& (#[trigger] r.tool_calls@[i]).id@ == (match calls@[i].id {
                Some(id) => id@,
                None => Seq::empty(),
            })
            &&& r.tool_calls@[i].name@ == calls@[i].function.name@
            &&& r.tool_calls@[i].arguments@ == from_openai_response::arguments_of(
                calls@[i].function.arguments@,
            )
        } by {
            assert(from_openai_response::call_models(r.tool_calls@)[i] == r.tool_calls@[i]@);
        }
    }
    assert forall|i: int| 0 <= i < m.content.images@.len() implies (#[trigger] r.content@[i])@
        == message::image_of_uri(m.content.images@[i]@) by {
        assert(part_views(r.content@)[i] == r.content@[i]@);
    }
}

/// Every bias whose key spells a token id is kept, the others are left out:
/// with one more entry, one more bias or none.
pub proof fn biases_are_all_kept(map: Seq<(String, Float32)>, i: int)
    requires
        0 <= i < map.len(),
    ensures
        text::spelled_number(map[i].0@, u32::MAX as nat) matches Some(id) ==> biases(
            map,
            map.len() as int,
        ).contains((id as u32, map[i].1)),
        biases(map, map.len() as int).len() <= map.len(),
        (forall|k: int|
            0 <= k < map.len() ==> text::spelled_number(
                (#[trigger] map[k]).0@,
                u32::MAX as nat,
            ) is Some) ==> biases(map, map.len() as int).len() == map.len(),
{
    lemma_biases(map, i, map.len() as int);
}

proof fn lemma_biases(map: Seq<(String, Float32)>, i: int, n: int)
    requires
        0 <= n <= map.len(),
        0 <= i,
    ensures
        i < n ==> (text::spelled_number(map[i].0@, u32::MAX as nat) matches Some(id) ==> biases(
            map,
            n,
        ).contains((id as u32, map[i].1))),
        biases(map, n).len() <= n,
        (forall|k: int|
            0 <= k < n ==> text::spelled_number(
                (#[trigger] map[k]).0@,
                u32::MAX as nat,
            ) is Some) ==> biases(map, n).len() == n,
    decreases n,
{
    if n > 0 {
        lemma_biases(map, i, n - 1);
        let before = biases(map, n - 1);
        let after = biases(map, n);
        if let Some(id) = text::spelled_number(map[i].0@, u32::MAX as nat) {
            let want = (id as u32, map[i].1);
            if i == n - 1 {
                assert(after[before.len() as int] == want);
            } else if i < n - 1 {
                let k = choose|k: int| 0 <= k < before.len() && before[k] == want;
                assert(after[k] == want);
            }
        }
    }
}

/// An explicit number of alternatives is kept up to 20 and cut to 20 above, with
/// or without the flag; the flag alone asks for none, and without either
/// there are no log-probabilities.
pub proof fn alternatives_are_capped(logprobs: Option<bool>, n: u8)
    ensures
        n <= 20 ==> alternatives(logprobs, Some(n)) == Some(n),
        n > 20 ==> alternatives(logprobs, Some(n)) == Some(20u8),
        alternatives(Some(true), None) == Some(0u8),
        alternatives(Some(false), None) is None,
        alternatives(None, None) is None,
{
}

} // verus!
