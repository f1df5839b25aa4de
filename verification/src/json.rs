//! JSON values.

use crate::text;
use crate::text::same_text;
use vstd::prelude::*;

verus! {

/// A JSON value. Objects keep their entries in order; a number is an unsigned
/// integer, a negative integer, or any other number in its JSON text.
#[derive(Debug, PartialEq)]
pub enum Json {
    Null,
    Bool(bool),
    UInt(u64),
    NegInt(i64),
    Real(String),
    Str(String),
    Array(Vec<Json>),
    Object(Vec<(String, Json)>),
}

/// What a [`Json`] value says.
pub enum JsonView {
    Null,
    Bool(bool),
    UInt(u64),
    NegInt(i64),
    Real(Seq<char>),
    Str(Seq<char>),
    Array(Seq<JsonView>),
    Object(Seq<(Seq<char>, JsonView)>),
}

impl Json {
    /// What the value says.
    pub open spec fn view(&self) -> JsonView
        decreases self,
    {
        match *self {
            Json::Null => JsonView::Null,
            Json::Bool(b) => JsonView::Bool(b),
            Json::UInt(n) => JsonView::UInt(n),
            Json::NegInt(n) => JsonView::NegInt(n),
            Json::Real(t) => JsonView::Real(t@),
            Json::Str(t) => JsonView::Str(t@),
            Json::Array(items) => JsonView::Array(
                Seq::new(
                    items@.len(),
                    |i: int|
                        if 0 <= i < items@.len() {
                            items@[i].view()
                        } else {
                            JsonView::Null
                        },
                ),
            ),
            Json::Object(entries) => JsonView::Object(
                Seq::new(
                    entries@.len(),
                    |i: int|
                        if 0 <= i < entries@.len() {
                            (entries@[i].0@, entries@[i].1.view())
                        } else {
                            (Seq::empty(), JsonView::Null)
                        },
                ),
            ),
        }
    }
}

// ── reading ──

/// Position of the first entry with key `key` at or after `i`; the length
/// when there is none.
pub open spec fn entry_at(entries: Seq<(Seq<char>, JsonView)>, key: Seq<char>, i: int) -> int
    decreases entries.len() - i,
{
    if i < 0 || i >= entries.len() {
        entries.len() as int
    } else if entries[i].0 == key {
        i
    } else {
        entry_at(entries, key, i + 1)
    }
}

impl JsonView {
    /// The value under `key` in an object.
    pub open spec fn field(self, key: Seq<char>) -> Option<JsonView> {
        match self {
            JsonView::Object(entries) => {
                let i = entry_at(entries, key, 0);
                if 0 <= i < entries.len() {
                    Some(entries[i].1)
                } else {
                    None
                }
            },
            _ => None,
        }
    }

    /// The text of a string.
    pub open spec fn text(self) -> Option<Seq<char>> {
        match self {
            JsonView::Str(t) => Some(t),
            _ => None,
        }
    }

    /// The value of an unsigned integer.
    pub open spec fn uint(self) -> Option<u64> {
        match self {
            JsonView::UInt(n) => Some(n),
            _ => None,
        }
    }

    /// The items of an array.
    pub open spec fn items(self) -> Option<Seq<JsonView>> {
        match self {
            JsonView::Array(items) => Some(items),
            _ => None,
        }
    }

    /// The text under `key`.
    pub open spec fn text_field(self, key: Seq<char>) -> Option<Seq<char>> {
        match self.field(key) {
            Some(v) => v.text(),
            None => None,
        }
    }

    /// The unsigned integer under `key`.
    pub open spec fn uint_field(self, key: Seq<char>) -> Option<u64> {
        match self.field(key) {
            Some(v) => v.uint(),
            None => None,
        }
    }
}

/// What an optional value says.
pub open spec fn opt_view(v: Option<Json>) -> Option<JsonView> {
    match v {
        Some(j) => Some(j.view()),
        None => None,
    }
}

/// What each value of a list says.
pub open spec fn views(items: Seq<Json>) -> Seq<JsonView> {
    items.map_values(|j: Json| j.view())
}

/// What each entry of a list says.
pub open spec fn entry_views(entries: Seq<(String, Json)>) -> Seq<(Seq<char>, JsonView)> {
    entries.map_values(|e: (String, Json)| (e.0@, e.1.view()))
}

impl Json {
    /// An array says what its items say, an object what its entries say.
    pub proof fn lemma_view(&self)
        ensures
            self matches Json::Array(items) ==> self.view() == JsonView::Array(views(items@)),
            self matches Json::Object(entries) ==> self.view() == JsonView::Object(
                entry_views(entries@),
            ),
    {
        match *self {
            Json::Array(items) => {
                assert(self.view()->Array_0 =~= views(items@));
            },
            Json::Object(entries) => {
                assert(self.view()->Object_0 =~= entry_views(entries@));
            },
            _ => {},
        }
    }

    /// The value under `key` in an object; `None` for anything else.
    pub fn get(&self, key: &str) -> (r: Option<&Json>)
        ensures
            match r {
                Some(v) => self@.field(key@) == Some(v@),
                None => self@.field(key@) is None,
            },
    {
        match self {
            Json::Object(entries) => {
                let mut i: usize = 0;
                while i < entries.len()
                    invariant
                        i <= entries@.len(),
                        self@ matches JsonView::Object(es) && es.len() == entries@.len() && (forall|
                            k: int,
                        |
                            0 <= k < es.len() ==> #[trigger] es[k] == (
                                entries@[k].0@,
                                entries@[k].1@,
                            )) && entry_at(es, key@, 0) == entry_at(es, key@, i as int),
                    decreases entries@.len() - i,
                {
                    if same_text(entries[i].0.as_str(), key) {
                        return Some(&entries[i].1);
                    }
                    i = i + 1;
                }
                None
            },
            _ => None,
        }
    }

    /// The text of a string; `None` for anything else.
    pub fn as_str(&self) -> (r: Option<&str>)
        ensures
            match r {
                Some(t) => self@.text() == Some(t@),
                None => self@.text() is None,
            },
    {
        match self {
            Json::Str(t) => Some(t.as_str()),
            _ => None,
        }
    }

    /// The value of an unsigned integer; `None` for anything else.
    pub fn as_u64(&self) -> (r: Option<u64>)
        ensures
            r == self@.uint(),
    {
        match self {
            Json::UInt(n) => Some(*n),
            _ => None,
        }
    }

    /// The text under `key`.
    pub fn get_str(&self, key: &str) -> (r: Option<&str>)
        ensures
            match r {
                Some(t) => self@.text_field(key@) == Some(t@),
                None => self@.text_field(key@) is None,
            },
    {
        match self.get(key) {
            Some(v) => v.as_str(),
            None => None,
        }
    }

    /// The unsigned integer under `key`.
    pub fn get_u64(&self, key: &str) -> (r: Option<u64>)
        ensures
            r == self@.uint_field(key@),
    {
        match self.get(key) {
            Some(v) => v.as_u64(),
            None => None,
        }
    }
}

/// A JSON string.
pub fn string(t: &str) -> (j: Json)
    ensures
        j@ == JsonView::Str(t@),
{
    Json::Str(t.to_owned())
}

/// An entry of an object.
pub fn entry(key: &str, v: Json) -> (e: (String, Json))
    ensures
        e.0@ == key@,
        e.1 == v,
{
    (key.to_owned(), v)
}

/// An object with these entries.
pub fn object(entries: Vec<(String, Json)>) -> (j: Json)
    ensures
        j@ == JsonView::Object(entry_views(entries@)),
        j == Json::Object(entries),
{
    let j = Json::Object(entries);
    proof {
        j.lemma_view();
    }
    j
}

/// An array with these items.
pub fn array(items: Vec<Json>) -> (j: Json)
    ensures
        j@ == JsonView::Array(views(items@)),
        j == Json::Array(items),
{
    let j = Json::Array(items);
    proof {
        j.lemma_view();
    }
    j
}

impl Clone for Json {
    fn clone(&self) -> (r: Self)
        ensures
            r@ == self@,
        decreases self,
    {
        match self {
            Json::Null => Json::Null,
            Json::Bool(b) => Json::Bool(*b),
            Json::UInt(n) => Json::UInt(*n),
            Json::NegInt(n) => Json::NegInt(*n),
            Json::Real(t) => Json::Real(t.clone()),
            Json::Str(t) => Json::Str(t.clone()),
            Json::Array(items) => {
                let mut out: Vec<Json> = Vec::new();
                let mut i: usize = 0;
                while i < items.len()
                    invariant
                        i <= items@.len(),
                        out@.len() == i,
                        forall|k: int| 0 <= k < i ==> (#[trigger] out@[k])@ == items@[k]@,
                        self matches Json::Array(a) && a == *items,
                    decreases items@.len() - i,
                {
                    let item = &items[i];
                    assert(decreases_to!(self => items@[i as int]));
                    out.push(item.clone());
                    i = i + 1;
                }
                let r = Json::Array(out);
                proof {
                    assert(r@->Array_0 =~= self@->Array_0);
                }
                r
            },
            Json::Object(entries) => {
                let mut out: Vec<(String, Json)> = Vec::new();
                let mut i: usize = 0;
                while i < entries.len()
                    invariant
                        i <= entries@.len(),
                        out@.len() == i,
                        forall|k: int|
                            0 <= k < i ==> (#[trigger] out@[k]).0@ == entries@[k].0@ && out@[k].1@
                                == entries@[k].1@,
                        self matches Json::Object(a) && a == *entries,
                    decreases entries@.len() - i,
                {
                    let e = &entries[i];
                    assert(decreases_to!(self => entries@[i as int].1));
                    out.push((e.0.clone(), e.1.clone()));
                    i = i + 1;
                }
                let r = Json::Object(out);
                proof {
                    assert(r@->Object_0 =~= self@->Object_0);
                }
                r
            },
        }
    }
}

// ── JSON text ──

/// A JSON value of `serde_json`.
#[verifier::external_type_specification]
#[verifier::external_body]
pub struct ExValue(serde_json::Value);

/// What a `serde_json::Value` holds, the entries of an object in the order in
/// which the value keeps them.
pub uninterp spec fn held_json(v: serde_json::Value) -> JsonView;

/// The JSON text of a `serde_json::Value`.
pub uninterp spec fn held_text(v: serde_json::Value) -> Seq<char>;

/// The value that `serde_json` reads from a text; `None` when the text is no
/// JSON.
pub uninterp spec fn parsed_json(text: Seq<char>) -> Option<JsonView>;

/// The compact text that `serde_json` writes for a value.
pub uninterp spec fn json_text(v: JsonView) -> Seq<char>;

/// `serde_json::from_str`: what it reads is a function of the text.
#[verifier::external_body]
fn parse_value(text: &str) -> (r: Option<serde_json::Value>)
    ensures
        match r {
            Some(v) => parsed_json(text@) == Some(held_json(v)),
            None => parsed_json(text@) is None,
        },
{
    serde_json::from_str(text).ok()
}

/// Moves the contents of a `serde_json::Value` into a [`Json`], variant by
/// variant. A number that is no integer is kept as the text that
/// `serde_json::Number` prints.
#[verifier::external_body]
fn read_value(v: serde_json::Value) -> (r: Json)
    ensures
        r@ == held_json(v),
{
    match v {
        serde_json::Value::Null => Json::Null,
        serde_json::Value::Bool(b) => Json::Bool(b),
        serde_json::Value::Number(n) => match (n.as_u64(), n.as_i64()) {
            (Some(u), _) => Json::UInt(u),
            (None, Some(i)) => Json::NegInt(i),
            (None, None) => Json::Real(n.to_string()),
        },
        serde_json::Value::String(s) => Json::Str(s),
        serde_json::Value::Array(a) => Json::Array(a.into_iter().map(read_value).collect()),
        serde_json::Value::Object(o) => {
            Json::Object(o.into_iter().map(|(k, x)| (k, read_value(x))).collect())
        }
    }
}

/// Builds the `serde_json::Value` of a [`Json`], variant by variant; its text
/// is a function of what the value says.
#[verifier::external_body]
pub(crate) fn write_value(v: &Json) -> (r: serde_json::Value)
    ensures
        held_text(r) == json_text(v@),
{
    match v {
        Json::Null => serde_json::Value::Null,
        Json::Bool(b) => serde_json::Value::from(*b),
        Json::UInt(n) => serde_json::Value::from(*n),
        Json::NegInt(n) => serde_json::Value::from(*n),
        Json::Real(t) => serde_json::from_str(t).unwrap_or_default(),
        Json::Str(t) => serde_json::Value::from(t.as_str()),
        Json::Array(a) => serde_json::Value::Array(a.iter().map(write_value).collect()),
        Json::Object(o) => {
            serde_json::Value::Object(o.iter().map(|(k, x)| (k.clone(), write_value(x))).collect())
        }
    }
}

/// `serde_json::Value::to_string`: the compact JSON text of the value.
#[verifier::external_body]
fn value_text(v: &serde_json::Value) -> (r: String)
    ensures
        r@ == held_text(*v),
{
    v.to_string()
}

/// The value that `serde_json` reads from bytes; `None` when they are no JSON.
pub uninterp spec fn parsed_json_bytes(bytes: Seq<u8>) -> Option<JsonView>;

/// `serde_json::from_slice`: what it reads is a function of the bytes.
#[verifier::external_body]
fn parse_value_bytes(bytes: &[u8]) -> (r: Option<serde_json::Value>)
    ensures
        match r {
            Some(v) => parsed_json_bytes(bytes@) == Some(held_json(v)),
            None => parsed_json_bytes(bytes@) is None,
        },
{
    serde_json::from_slice(bytes).ok()
}

/// Reads JSON bytes; `None` when they are no JSON.
pub fn parse_json_bytes(bytes: &[u8]) -> (r: Option<Json>)
    ensures
        opt_view(r) == parsed_json_bytes(bytes@),
{
    match parse_value_bytes(bytes) {
        Some(v) => Some(read_value(v)),
        None => None,
    }
}

/// Reads a JSON text; `None` when it is no JSON.
pub fn parse_json(text: &str) -> (r: Option<Json>)
    ensures
        opt_view(r) == parsed_json(text@),
{
    match parse_value(text) {
        Some(v) => Some(read_value(v)),
        None => None,
    }
}

/// The compact JSON text of a value.
pub fn to_json_text(v: &Json) -> (r: String)
    ensures
        r@ == json_text(v@),
{
    value_text(&write_value(v))
}

// ── laws ──

/// A field of an object is the value of its first entry with that key, and there
/// is none when no entry has it or the value is no object.
pub proof fn fields_are_first_entries(
    entries: Seq<(Seq<char>, JsonView)>,
    key: Seq<char>,
    i: int,
)
    ensures
        0 <= i < entries.len() && entries[i].0 == key && (forall|k: int|
            0 <= k < i ==> (#[trigger] entries[k]).0 != key) ==> JsonView::Object(entries).field(key)
            == Some(entries[i].1),
        (forall|k: int| 0 <= k < entries.len() ==> (#[trigger] entries[k]).0 != key)
            ==> JsonView::Object(entries).field(key) is None,
        JsonView::Null.field(key) is None,
        JsonView::Array(Seq::empty()).field(key) is None,
{
    lemma_entry_at(entries, key, 0);
    let at = entry_at(entries, key, 0);
    if 0 <= i < entries.len() && entries[i].0 == key && (forall|k: int|
        0 <= k < i ==> (#[trigger] entries[k]).0 != key) {
        if at < i {
            assert(entries[at].0 != key);
        }
    }
}

proof fn lemma_entry_at(entries: Seq<(Seq<char>, JsonView)>, key: Seq<char>, i: int)
    requires
        0 <= i <= entries.len(),
    ensures
        i <= entry_at(entries, key, i) <= entries.len(),
        entry_at(entries, key, i) < entries.len() ==> entries[entry_at(entries, key, i)].0 == key,
        forall|k: int| i <= k < entry_at(entries, key, i) ==> (#[trigger] entries[k]).0 != key,
    decreases entries.len() - i,
{
    if i < entries.len() && entries[i].0 != key {
        lemma_entry_at(entries, key, i + 1);
    }
}

/// Texts and counts are read only from values of their kind.
pub proof fn values_are_read_by_kind(t: Seq<char>, n: u64)
    ensures
        JsonView::Str(t).text() == Some(t),
        JsonView::UInt(n).uint() == Some(n),
        JsonView::UInt(n).text() is None,
        JsonView::Str(t).uint() is None,
        JsonView::Null.text() is None,
        JsonView::Null.uint() is None,
{
}

} // verus!
