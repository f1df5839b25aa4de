//! Chat messages, request direction.

use crate::json::{Json, JsonView};
use crate::text;
use crate::text::{chars_of, same_text, text_at};
use vstd::prelude::*;
use vstd::string::*;

verus! {

/// Message author role.
#[derive(Debug, Clone, PartialEq, Eq)]
pub enum Role {
    System,
    User,
    Assistant,
    Tool,
    /// Any other wire role, kept verbatim.
    Other(String),
}

/// What a [`Role`] says.
pub enum RoleView {
    System,
    User,
    Assistant,
    Tool,
    Other(Seq<char>),
}

impl View for Role {
    type V = RoleView;

    open spec fn view(&self) -> RoleView {
        match self {
            Role::System => RoleView::System,
            Role::User => RoleView::User,
            Role::Assistant => RoleView::Assistant,
            Role::Tool => RoleView::Tool,
            Role::Other(s) => RoleView::Other(s@),
        }
    }
}

/// The wire text of a role.
pub open spec fn role_wire(r: RoleView) -> Seq<char> {
    match r {
        RoleView::System => "system"@,
        RoleView::User => "user"@,
        RoleView::Assistant => "assistant"@,
        RoleView::Tool => "tool"@,
        RoleView::Other(s) => s,
    }
}

/// The known role with wire text `s`.
pub open spec fn known_role(s: Seq<char>) -> Option<RoleView> {
    if s == "system"@ {
        Some(RoleView::System)
    } else if s == "user"@ {
        Some(RoleView::User)
    } else if s == "assistant"@ {
        Some(RoleView::Assistant)
    } else if s == "tool"@ {
        Some(RoleView::Tool)
    } else {
        None
    }
}

/// The role with wire text `s`, an unknown one kept as it is.
pub open spec fn any_role(s: Seq<char>) -> RoleView {
    match known_role(s) {
        Some(r) => r,
        None => RoleView::Other(s),
    }
}

impl Role {
    /// Wire text of the API envelopes and the chat templates.
    pub fn as_wire(&self) -> (r: &str)
        ensures
            r@ == role_wire(self@),
    {
        match self {
            Role::System => "system",
            Role::User => "user",
            Role::Assistant => "assistant",
            Role::Tool => "tool",
            Role::Other(s) => s.as_str(),
        }
    }

    /// A known wire role; `None` for anything else.
    pub fn from_wire(s: &str) -> (r: Option<Self>)
        ensures
            match r {
                Some(role) => known_role(s@) == Some(role@),
                None => known_role(s@) is None,
            },
    {
        if same_text(s, "system") {
            Some(Role::System)
        } else if same_text(s, "user") {
            Some(Role::User)
        } else if same_text(s, "assistant") {
            Some(Role::Assistant)
        } else if same_text(s, "tool") {
            Some(Role::Tool)
        } else {
            None
        }
    }

    /// Any wire role; an unknown one is kept as [`Role::Other`].
    pub fn from_wire_lossless(s: &str) -> (r: Self)
        ensures
            r@ == any_role(s@),
    {
        match Self::from_wire(s) {
            Some(role) => role,
            None => Role::Other(s.to_owned()),
        }
    }
}

/// A role survives the trip over the wire: reading back what was written gives
/// the role again, and an unknown wire text is written back unchanged.
pub proof fn role_survives_the_wire(r: RoleView, s: Seq<char>)
    ensures
        role_wire(any_role(s)) == s,
        !(r is Other) ==> known_role(role_wire(r)) == Some(r),
{
    reveal_strlit("system");
    reveal_strlit("user");
    reveal_strlit("assistant");
    reveal_strlit("tool");
    assert("system"@.len() == 6 && "user"@.len() == 4 && "assistant"@.len() == 9 && "tool"@.len()
        == 4);
    assert("user"@[0] != "tool"@[0]);
}

/// Where an image comes from.
#[derive(Debug, Clone, PartialEq, Eq)]
pub enum ImageData {
    /// A `data:image/...;base64,...` URI or raw base64.
    Base64(String),
    /// Remote URL.
    Url(String),
}

/// An image of a message.
#[derive(Debug, Clone, PartialEq, Eq)]
pub struct ImageSource {
    pub data: ImageData,
}

/// A piece of message content.
#[derive(Debug, Clone, PartialEq)]
pub enum ContentPart {
    Text(String),
    Image(ImageSource),
}

/// What a [`ContentPart`] says.
pub enum PartView {
    Text(Seq<char>),
    Base64(Seq<char>),
    Url(Seq<char>),
}

impl View for ContentPart {
    type V = PartView;

    open spec fn view(&self) -> PartView {
        match self {
            ContentPart::Text(t) => PartView::Text(t@),
            ContentPart::Image(i) => i.data@,
        }
    }
}

impl View for ImageData {
    type V = PartView;

    open spec fn view(&self) -> PartView {
        match self {
            ImageData::Base64(t) => PartView::Base64(t@),
            ImageData::Url(t) => PartView::Url(t@),
        }
    }
}

/// The image that a URI names: a remote URL for http and https, else inline
/// data.
pub open spec fn image_of_uri(uri: Seq<char>) -> PartView {
    if text::starts_with(uri, "http://"@) || text::starts_with(uri, "https://"@) {
        PartView::Url(uri)
    } else {
        PartView::Base64(uri)
    }
}

impl ImageData {
    /// Remote URLs are told apart from inline data.
    pub fn from_uri(uri: String) -> (r: Self)
        ensures
            r@ == image_of_uri(uri@),
    {
        let s: Vec<char> = chars_of(uri.as_str());
        if text_at(&s, "http://", 0) || text_at(&s, "https://", 0) {
            ImageData::Url(uri)
        } else {
            ImageData::Base64(uri)
        }
    }
}

/// Assistant-emitted tool call with structured arguments.
#[derive(Debug, Clone, PartialEq)]
pub struct ToolCall {
    pub id: String,
    pub name: String,
    pub arguments: Json,
}

/// What a [`ToolCall`] says.
pub struct ToolCallModel {
    pub id: Seq<char>,
    pub name: Seq<char>,
    pub arguments: JsonView,
}

impl View for ToolCall {
    type V = ToolCallModel;

    open spec fn view(&self) -> ToolCallModel {
        ToolCallModel { id: self.id@, name: self.name@, arguments: self.arguments@ }
    }
}

/// Reasoning trace of an earlier assistant turn.
#[derive(Debug, Clone, PartialEq)]
pub struct Reasoning {
    pub text: String,
}

/// One chat message. Content is a list of parts for every role.
#[derive(Debug, Clone, PartialEq)]
pub struct Message {
    pub role: Role,
    /// Text and images in order.
    pub content: Vec<ContentPart>,
    /// Assistant-emitted tool calls.
    pub tool_calls: Vec<ToolCall>,
    /// The tool call that a tool message answers.
    pub tool_call_id: Option<String>,
    pub name: Option<String>,
    pub reasoning: Option<Reasoning>,
    /// The tool result reported an error.
    pub tool_error: bool,
}

/// The text parts of `parts` in order, images skipped.
pub open spec fn joined_text(parts: Seq<ContentPart>) -> Seq<char>
    decreases parts.len(),
{
    if parts.len() == 0 {
        Seq::empty()
    } else {
        joined_text(parts.drop_last()) + match parts.last() {
            ContentPart::Text(t) => t@,
            ContentPart::Image(_) => Seq::empty(),
        }
    }
}

/// Number of image parts.
pub open spec fn images_in(parts: Seq<ContentPart>) -> nat
    decreases parts.len(),
{
    if parts.len() == 0 {
        0
    } else {
        images_in(parts.drop_last()) + match parts.last() {
            ContentPart::Text(_) => 0nat,
            ContentPart::Image(_) => 1nat,
        }
    }
}

impl Message {
    /// The text parts in order, images skipped.
    pub fn text(&self) -> (out: String)
        ensures
            out@ == joined_text(self.content@),
    {
        let mut out: String = String::new();
        let mut i: usize = 0;
        while i < self.content.len()
            invariant
                i <= self.content@.len(),
                out@ == joined_text(self.content@.take(i as int)),
            decreases self.content@.len() - i,
        {
            assert(self.content@.take(i + 1).drop_last() =~= self.content@.take(i as int));
            match &self.content[i] {
                ContentPart::Text(t) => {
                    out.append(t.as_str());
                },
                ContentPart::Image(_) => {
                    assert(out@ + Seq::<char>::empty() =~= out@);
                },
            }
            i = i + 1;
        }
        assert(self.content@.take(i as int) =~= self.content@);
        out
    }

    /// Number of image parts.
    pub fn image_count(&self) -> (n: usize)
        ensures
            n == images_in(self.content@),
    {
        let mut n: usize = 0;
        let mut i: usize = 0;
        while i < self.content.len()
            invariant
                i <= self.content@.len(),
                n <= i,
                n == images_in(self.content@.take(i as int)),
            decreases self.content@.len() - i,
        {
            assert(self.content@.take(i + 1).drop_last() =~= self.content@.take(i as int));
            if let ContentPart::Image(_) = &self.content[i] {
                n = n + 1;
            }
            i = i + 1;
        }
        assert(self.content@.take(i as int) =~= self.content@);
        n
    }
}

// ── laws ──

/// An image keeps its URI: a remote one for the two web schemes, inline data for
/// anything else.
pub proof fn images_keep_their_uri(rest: Seq<char>, other: Seq<char>)
    ensures
        image_of_uri("http://"@ + rest) == PartView::Url("http://"@ + rest),
        image_of_uri("https://"@ + rest) == PartView::Url("https://"@ + rest),
        other.len() == 0 || other[0] != 'h' ==> image_of_uri(other) == PartView::Base64(other),
{
    reveal_strlit("http://");
    reveal_strlit("https://");
    let a = "http://"@ + rest;
    let b = "https://"@ + rest;
    assert(a.subrange(0, 7) =~= "http://"@);
    assert(b.subrange(0, 8) =~= "https://"@);
    if text::starts_with(other, "http://"@) {
        assert(other.subrange(0, 7)[0] == other[0]);
    }
    if text::starts_with(other, "https://"@) {
        assert(other.subrange(0, 8)[0] == other[0]);
    }
}

/// The texts and images of a message are those of its parts: with one more part
/// its text is longer by that part's, or it has one more image.
pub proof fn parts_add_up(a: Seq<ContentPart>, b: Seq<ContentPart>)
    ensures
        joined_text(a + b) == joined_text(a) + joined_text(b),
        images_in(a + b) == images_in(a) + images_in(b),
    decreases b.len(),
{
    if b.len() == 0 {
        assert(a + b =~= a);
        assert(joined_text(a) + joined_text(b) =~= joined_text(a));
    } else {
        assert((a + b).drop_last() =~= a + b.drop_last());
        assert((a + b).last() == b.last());
        parts_add_up(a, b.drop_last());
        assert(joined_text(a + b) =~= joined_text(a) + joined_text(b));
    }
}

} // verus!
