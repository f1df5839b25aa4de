//! From chat messages to the entries that the prompt template renders.
//!
//! What the error and hint heuristics say about each message comes in as data
//! ([`Observations`]); the rules that use it are here.

use crate::ir::message;
use crate::ir::message::{ContentPart, ImageData, Message, Role, RoleView, ToolCall, ToolCallModel};
use crate::json;
use crate::json::{entry, object, string, Json, JsonView};
use crate::text;
use crate::text::{
    chars_of, find_char, has_text, line_ranges, push_decimal, same_text, slice_of, string_of,
    text_of, to_lowercase, trimmed,
};
use vstd::prelude::*;
use vstd::string::*;

verus! {

// ── vacuous system messages ──

/// A letter, space, underscore or dash.
pub open spec fn is_label_char(c: char) -> bool {
    ('a' <= c <= 'z') || ('A' <= c <= 'Z') || c == ' ' || c == '_' || c == '-'
}

/// `t` is a bare label: one short line of letters that ends in a colon.
pub open spec fn is_bare_label(t: Seq<char>) -> bool {
    &&& text::byte_len(t) <= 32
    &&& t.len() > 1
    &&& t.last() == ':'
    &&& forall|k: int| 0 <= k < t.len() - 1 ==> is_label_char(#[trigger] t[k])
}

/// A system message without any instruction: blank, or only a bare label.
pub open spec fn is_vacuous(content: Seq<char>) -> bool {
    text::trim(content).len() == 0 || is_bare_label(text::trim(content))
}

/// Whether a system message carries no instruction and counts as absent. Only
/// a blank body or a single short `Label:` line does.
pub fn is_vacuous_system_content(content: &str) -> (r: bool)
    ensures
        r == is_vacuous(content@),
{
    let t: Vec<char> = trimmed(&chars_of(content));
    if t.len() == 0 {
        return true;
    }
    if text::longer_than(&t, 32) || t.len() < 2 || t[t.len() - 1] != ':' {
        return false;
    }
    let mut k: usize = 0;
    while k < t.len() - 1
        invariant
            t@ == text::trim(content@),
            t@.len() >= 2,
            k <= t@.len() - 1,
            forall|j: int| 0 <= j < k ==> is_label_char(#[trigger] t@[j]),
        decreases t@.len() - k,
    {
        let c: char = t[k];
        if !(('a' <= c && c <= 'z') || ('A' <= c && c <= 'Z') || c == ' ' || c == '_' || c == '-') {
            return false;
        }
        k = k + 1;
    }
    true
}

// ── repeated errors ──

/// The number of elements that two lists of distinct shingles share.
pub open spec fn shared(a: Seq<u64>, b: Seq<u64>) -> nat
    decreases a.len(),
{
    if a.len() == 0 {
        0
    } else {
        shared(a.drop_last(), b) + if b.contains(a.last()) {
            1nat
        } else {
            0nat
        }
    }
}

/// The shingle sets have a Jaccard similarity of at least nine tenths. Empty
/// sets are not similar to anything.
pub open spec fn nearly_same(a: Seq<u64>, b: Seq<u64>) -> bool {
    let common = shared(a, b) as int;
    let all = a.len() + b.len() - common;
    all > 0 && 10 * common >= 9 * all
}

/// The result of a tool.
pub struct ToolResult {
    /// Position of its message.
    pub index: usize,
    pub text: Vec<char>,
    /// The distinct shingles of the text without surrounding white space.
    pub shingles: Vec<u64>,
    /// The text looks like an error.
    pub is_error: bool,
}

/// What a [`ToolResult`] says.
pub struct ResultView {
    pub index: usize,
    pub text: Seq<char>,
    pub shingles: Seq<u64>,
    pub is_error: bool,
}

impl View for ToolResult {
    type V = ResultView;

    open spec fn view(&self) -> ResultView {
        ResultView {
            index: self.index,
            text: self.text@,
            shingles: self.shingles@,
            is_error: self.is_error,
        }
    }
}

/// What each tool result of a list says.
pub open spec fn result_views(s: Seq<ToolResult>) -> Seq<ResultView> {
    s.map_values(|r: ToolResult| r@)
}

/// The results that are errors, their texts without surrounding white space.
pub open spec fn errors_among(results: Seq<ResultView>) -> Seq<ErrorView>
    decreases results.len(),
{
    if results.len() == 0 {
        Seq::empty()
    } else {
        let before = errors_among(results.drop_last());
        let last = results.last();
        if last.is_error {
            before.push(
                ErrorView {
                    index: last.index,
                    text: text::trim(last.text),
                    shingles: last.shingles,
                },
            )
        } else {
            before
        }
    }
}

/// A tool result with error-shaped text, without surrounding white space.
struct ErrorResult {
    index: usize,
    text: Vec<char>,
    shingles: Vec<u64>,
}

/// What an [`ErrorResult`] says.
pub struct ErrorView {
    pub index: usize,
    pub text: Seq<char>,
    pub shingles: Seq<u64>,
}

impl View for ErrorResult {
    type V = ErrorView;

    closed spec fn view(&self) -> ErrorView {
        ErrorView { index: self.index, text: self.text@, shingles: self.shingles@ }
    }
}

/// What each error result of a list says.
spec fn error_views(s: Seq<ErrorResult>) -> Seq<ErrorView> {
    s.map_values(|e: ErrorResult| e@)
}

/// Two error results repeat each other: the same text, or nearly the same
/// shingles.
pub open spec fn repeats(a: ErrorView, b: ErrorView) -> bool {
    a.text == b.text || nearly_same(a.shingles, b.shingles)
}

/// First group at or after `j` whose first member `i` repeats; the number of
/// groups when there is none.
pub open spec fn group_of(errors: Seq<ErrorView>, groups: Seq<Seq<int>>, i: int, j: int) -> int
    decreases groups.len() - j,
{
    if j < 0 || j >= groups.len() {
        groups.len() as int
    } else if repeats(errors[groups[j][0]], errors[i]) {
        j
    } else {
        group_of(errors, groups, i, j + 1)
    }
}

/// The first `n` errors in groups of repeats, each compared with the first
/// member of a group.
pub open spec fn grouped(errors: Seq<ErrorView>, n: int) -> Seq<Seq<int>>
    decreases n,
{
    if n <= 0 {
        Seq::empty()
    } else {
        let before = grouped(errors, n - 1);
        let j = group_of(errors, before, n - 1, 0);
        if 0 <= j < before.len() {
            before.update(j, before[j].push(n - 1))
        } else {
            before.push(seq![n - 1])
        }
    }
}

/// The text that stands in for the older repeat `k` of `n`.
pub open spec fn repeat_note(k: nat, n: nat) -> Seq<char> {
    "[same error as below, attempt "@ + text::decimal(k) + " of "@ + text::decimal(n) + "]"@
}

/// The masks of the first `k` members of a group: every member but the newest
/// may be masked.
pub open spec fn group_masks(errors: Seq<ErrorView>, group: Seq<int>, k: int) -> Seq<
    (usize, Seq<char>),
> {
    Seq::new(
        k as nat,
        |j: int| (errors[group[j]].index, repeat_note((j + 1) as nat, group.len())),
    )
}

/// The masks of the first `n` groups, older members only.
pub open spec fn masks_of(errors: Seq<ErrorView>, groups: Seq<Seq<int>>, n: int) -> Seq<
    (usize, Seq<char>),
>
    decreases n,
{
    if n <= 0 {
        Seq::empty()
    } else {
        masks_of(errors, groups, n - 1) + group_masks(
            errors,
            groups[n - 1],
            groups[n - 1].len() - 1,
        )
    }
}

/// The masks for a list of error results.
pub open spec fn repeat_masks(errors: Seq<ErrorView>) -> Seq<(usize, Seq<char>)> {
    let groups = grouped(errors, errors.len() as int);
    masks_of(errors, groups, groups.len() as int)
}

/// What each mask of a list says.
pub open spec fn mask_views(masks: Seq<(usize, String)>) -> Seq<(usize, Seq<char>)> {
    masks.map_values(|m: (usize, String)| (m.0, m.1@))
}

/// Groups as lists of integers.
pub open spec fn group_views(groups: Seq<Vec<usize>>) -> Seq<Seq<int>> {
    groups.map_values(|g: Vec<usize>| g@.map_values(|i: usize| i as int))
}

fn count_shared(a: &Vec<u64>, b: &Vec<u64>) -> (n: usize)
    ensures
        n == shared(a@, b@),
        n <= a@.len(),
{
    let mut n: usize = 0;
    let mut i: usize = 0;
    while i < a.len()
        invariant
            i <= a@.len(),
            n <= i,
            n == shared(a@.take(i as int), b@),
        decreases a@.len() - i,
    {
        assert(a@.take(i + 1).drop_last() =~= a@.take(i as int));
        let mut found: bool = false;
        let mut j: usize = 0;
        while j < b.len() && !found
            invariant
                i < a@.len(),
                j <= b@.len(),
                found ==> b@.contains(a@[i as int]),
                !found ==> forall|k: int| 0 <= k < j ==> b@[k] != a@[i as int],
            decreases b@.len() - j,
        {
            if b[j] == a[i] {
                found = true;
            }
            j = j + 1;
        }
        if found {
            n = n + 1;
        }
        i = i + 1;
    }
    assert(a@.take(i as int) =~= a@);
    n
}

fn is_repeat(a: &ErrorResult, b: &ErrorResult) -> (r: bool)
    ensures
        r == repeats(a@, b@),
{
    if text::same_chars(&a.text, &b.text) {
        return true;
    }
    let common: u128 = count_shared(&a.shingles, &b.shingles) as u128;
    let all: u128 = a.shingles.len() as u128 + b.shingles.len() as u128 - common;
    all > 0 && 10 * common >= 9 * all
}

/// Groups the errors by repetition.
fn group_errors(errors: &Vec<ErrorResult>) -> (groups: Vec<Vec<usize>>)
    ensures
        group_views(groups@) == grouped(error_views(errors@), errors@.len() as int),
        forall|g: int, k: int|
            0 <= g < groups@.len() && 0 <= k < groups@[g]@.len() ==> groups@[g]@[k] < errors@.len(),
        forall|g: int| 0 <= g < groups@.len() ==> (#[trigger] groups@[g])@.len() > 0,
{
    let ghost all = error_views(errors@);
    let mut groups: Vec<Vec<usize>> = Vec::new();
    let mut i: usize = 0;
    assert(group_views(groups@) =~= Seq::<Seq<int>>::empty());
    while i < errors.len()
        invariant
            i <= errors@.len(),
            all == error_views(errors@),
            group_views(groups@) == grouped(all, i as int),
            forall|g: int, k: int|
                0 <= g < groups@.len() && 0 <= k < groups@[g]@.len() ==> groups@[g]@[k] < i,
            forall|g: int| 0 <= g < groups@.len() ==> (#[trigger] groups@[g])@.len() > 0,
        decreases errors@.len() - i,
    {
        let ghost before = groups@;
        let ghost views = group_views(before);
        let mut j: usize = 0;
        while j < groups.len() && !is_repeat(&errors[groups[j][0]], &errors[i])
            invariant
                i < errors@.len(),
                j <= groups@.len(),
                groups@ == before,
                views == group_views(before),
                forall|g: int, k: int|
                    0 <= g < groups@.len() && 0 <= k < groups@[g]@.len() ==> groups@[g]@[k] < i,
                forall|g: int| 0 <= g < groups@.len() ==> (#[trigger] groups@[g])@.len() > 0,
                all == error_views(errors@),
                group_of(all, views, i as int, 0) == group_of(all, views, i as int, j as int),
            decreases groups@.len() - j,
        {
            assert(views[j as int][0] == groups@[j as int]@[0] as int);
            j = j + 1;
        }
        if j < groups.len() {
            assert(views[j as int][0] == groups@[j as int]@[0] as int);
            groups[j].push(i);
            proof {
                assert(groups@ =~= before.update(j as int, groups@[j as int]));
                assert(group_views(groups@)[j as int] =~= views[j as int].push(i as int));
                assert(group_views(groups@) =~= views.update(
                    j as int,
                    views[j as int].push(i as int),
                ));
            }
        } else {
            let g: Vec<usize> = vec![i];
            groups.push(g);
            proof {
                assert(group_views(groups@)[j as int] =~= seq![i as int]);
                assert(group_views(groups@) =~= views.push(seq![i as int]));
            }
        }
        i = i + 1;
    }
    groups
}

/// The text that stands in for repeat `k` of `n`.
fn write_repeat_note(k: usize, n: usize) -> (s: String)
    ensures
        s@ == repeat_note(k as nat, n as nat),
{
    let mut s: String = "[same error as below, attempt ".to_owned();
    push_decimal(&mut s, k as u64);
    s.append(" of ");
    push_decimal(&mut s, n as u64);
    s.append("]");
    s
}

/// The masks for a list of error results.
fn mask_errors(errors: &Vec<ErrorResult>) -> (masks: Vec<(usize, String)>)
    ensures
        mask_views(masks@) == repeat_masks(error_views(errors@)),
{
    let groups: Vec<Vec<usize>> = group_errors(errors);
    let ghost views = group_views(groups@);
    let ghost all = error_views(errors@);
    let mut masks: Vec<(usize, String)> = Vec::new();
    let mut g: usize = 0;
    assert(mask_views(masks@) =~= Seq::<(usize, Seq<char>)>::empty());
    while g < groups.len()
        invariant
            g <= groups@.len(),
            all == error_views(errors@),
            views == group_views(groups@),
            forall|a: int, k: int|
                0 <= a < groups@.len() && 0 <= k < groups@[a]@.len() ==> groups@[a]@[k]
                    < errors@.len(),
            forall|a: int| 0 <= a < groups@.len() ==> (#[trigger] groups@[a])@.len() > 0,
            mask_views(masks@) == masks_of(all, views, g as int),
        decreases groups@.len() - g,
    {
        let n: usize = groups[g].len();
        let ghost start = mask_views(masks@);
        let ghost group = views[g as int];
        let mut k: usize = 0;
        assert(start + group_masks(all, group, 0) =~= start);
        while k < n - 1
            invariant
                g < groups@.len(),
                all == error_views(errors@),
                views == group_views(groups@),
                group == views[g as int],
                n == groups@[g as int]@.len(),
                n >= 1,
                k <= n - 1,
                forall|a: int, b: int|
                    0 <= a < groups@.len() && 0 <= b < groups@[a]@.len() ==> groups@[a]@[b]
                        < errors@.len(),
                mask_views(masks@) == start + group_masks(all, group, k as int),
            decreases n - k,
        {
            let ei: usize = groups[g][k];
            let ghost before = masks@;
            let note: String = write_repeat_note(k + 1, n);
            masks.push((errors[ei].index, note));
            proof {
                assert(group[k as int] == ei as int);
                assert(group.len() == n);
                assert(mask_views(masks@) =~= mask_views(before).push(
                    (errors@[ei as int].index, note@),
                ));
                assert(all[ei as int].index == errors@[ei as int].index);
                assert(group_masks(all, group, k + 1) =~= group_masks(all, group, k as int).push(
                    (errors@[ei as int].index, note@),
                ));
                assert(mask_views(masks@) =~= start + group_masks(all, group, k + 1));
            }
            k = k + 1;
        }
        g = g + 1;
    }
    masks
}

/// The masks for repeated errors among the results of tools: every older member
/// of a group of repeats gets a note in place of its text, the newest stays as it
/// is. Results that are no errors never take part.
pub fn duplicate_error_masks(results: &Vec<ToolResult>) -> (masks: Vec<(usize, String)>)
    ensures
        mask_views(masks@) == repeat_masks(errors_among(result_views(results@))),
{
    let ghost all = result_views(results@);
    let mut errors: Vec<ErrorResult> = Vec::new();
    let mut i: usize = 0;
    assert(error_views(errors@) =~= Seq::<ErrorView>::empty());
    assert(all.take(0) =~= Seq::<ResultView>::empty());
    while i < results.len()
        invariant
            i <= results@.len(),
            all == result_views(results@),
            error_views(errors@) == errors_among(all.take(i as int)),
        decreases results@.len() - i,
    {
        proof {
            assert(all.take(i + 1).drop_last() =~= all.take(i as int));
            assert(all.take(i + 1).last() == results@[i as int]@);
        }
        if results[i].is_error {
            let ghost before = errors@;
            let e = ErrorResult {
                index: results[i].index,
                text: trimmed(&results[i].text),
                shingles: results[i].shingles.clone(),
            };
            errors.push(e);
            assert(error_views(errors@) =~= error_views(before).push(e@));
        }
        i = i + 1;
    }
    assert(all.take(i as int) =~= all);
    mask_errors(&errors)
}

// ── entries ──

/// A message as the prompt template renders it.
#[derive(Debug)]
pub struct MsgEntry {
    pub role: String,
    pub content: String,
    /// Tool calls of an assistant message, arguments structured.
    pub tool_calls: Option<Vec<Json>>,
    /// Number of images on this message.
    pub image_count: usize,
    /// Reasoning trace of an earlier assistant turn.
    pub reasoning_content: Option<String>,
}

/// What a [`MsgEntry`] says.
pub struct EntryView {
    pub role: Seq<char>,
    pub content: Seq<char>,
    pub tool_calls: Option<Seq<JsonView>>,
    pub image_count: nat,
    pub reasoning: Option<Seq<char>>,
}

impl View for MsgEntry {
    type V = EntryView;

    open spec fn view(&self) -> EntryView {
        EntryView {
            role: self.role@,
            content: self.content@,
            tool_calls: match self.tool_calls {
                Some(v) => Some(json::views(v@)),
                None => None,
            },
            image_count: self.image_count as nat,
            reasoning: match self.reasoning_content {
                Some(s) => Some(s@),
                None => None,
            },
        }
    }
}

/// What each entry of a list says.
pub open spec fn entries_view(s: Seq<MsgEntry>) -> Seq<EntryView> {
    s.map_values(|e: MsgEntry| e@)
}

/// The text of a message, with a marker in front when its tool reported an
/// error.
pub open spec fn message_text(m: Message) -> Seq<char> {
    if m.tool_error {
        "[tool error]\n"@ + message::joined_text(m.content@)
    } else {
        message::joined_text(m.content@)
    }
}

/// The text of a message as the heuristics see it.
pub fn entry_text(m: &Message) -> (t: String)
    ensures
        t@ == message_text(*m),
{
    let t: String = m.text();
    if m.tool_error {
        let mut marked: String = "[tool error]\n".to_owned();
        marked.append(t.as_str());
        marked
    } else {
        t
    }
}

/// The JSON of a tool call for the template.
pub open spec fn tool_call_json(tc: ToolCallModel) -> JsonView {
    JsonView::Object(
        seq![
            ("id"@, JsonView::Str(tc.id)),
            ("type"@, JsonView::Str("function"@)),
            (
                "function"@,
                JsonView::Object(
                    seq![("name"@, JsonView::Str(tc.name)), ("arguments"@, tc.arguments)],
                ),
            ),
        ],
    )
}

/// The JSON of the first `n` tool calls of a list.
pub open spec fn tool_calls_json(calls: Seq<ToolCall>, n: int) -> Seq<JsonView> {
    Seq::new(n as nat, |i: int| tool_call_json(calls[i]@))
}

fn make_tool_call_json(tc: &ToolCall) -> (j: Json)
    ensures
        j@ == tool_call_json(tc@),
{
    let function: Vec<(String, Json)> = vec![
        entry("name", string(tc.name.as_str())),
        entry("arguments", tc.arguments.clone()),
    ];
    let all: Vec<(String, Json)> = vec![
        entry("id", string(tc.id.as_str())),
        entry("type", string("function")),
        entry("function", object(function)),
    ];
    proof {
        let want = tool_call_json(tc@)->Object_0;
        assert(json::entry_views(function@) =~= want[2].1->Object_0);
        assert(json::entry_views(all@) =~= want);
    }
    object(all)
}

fn make_tool_calls_json(calls: &Vec<ToolCall>) -> (out: Vec<Json>)
    ensures
        json::views(out@) == tool_calls_json(calls@, calls@.len() as int),
{
    let mut out: Vec<Json> = Vec::new();
    let mut i: usize = 0;
    assert(json::views(out@) =~= tool_calls_json(calls@, 0));
    while i < calls.len()
        invariant
            i <= calls@.len(),
            json::views(out@) == tool_calls_json(calls@, i as int),
        decreases calls@.len() - i,
    {
        let ghost before = out@;
        let j = make_tool_call_json(&calls[i]);
        out.push(j);
        proof {
            assert(json::views(out@) =~= json::views(before).push(j@));
            assert(tool_calls_json(calls@, i + 1) =~= tool_calls_json(calls@, i as int).push(j@));
        }
        i = i + 1;
    }
    out
}

/// The role of an entry: the wire role, `developer` being `system`.
pub open spec fn entry_role(r: RoleView) -> Seq<char> {
    match r {
        RoleView::Other(s) => if s == "developer"@ {
            "system"@
        } else {
            s
        },
        _ => message::role_wire(r),
    }
}

/// The reasoning trace of a message that the template gets: trimmed, of
/// assistant messages only, and absent when blank.
pub open spec fn entry_reasoning(m: Message, strip: bool) -> Option<Seq<char>> {
    if m.role is Assistant && !strip {
        match m.reasoning {
            Some(r) => if text::trim(r.text@).len() > 0 {
                Some(text::trim(r.text@))
            } else {
                None
            },
            None => None,
        }
    } else {
        None
    }
}

/// The entry of a message whose text, hints included, is `content`. The
/// answers of tools lose everything but text and images.
pub open spec fn entry_of(m: Message, content: Seq<char>, tools_active: bool, strip: bool) -> EntryView {
    if tools_active && m.role is Tool {
        EntryView {
            role: "tool"@,
            content,
            tool_calls: None,
            image_count: message::images_in(m.content@),
            reasoning: None,
        }
    } else {
        EntryView {
            role: entry_role(m.role@),
            content,
            tool_calls: if m.role is Assistant && m.tool_calls@.len() > 0 {
                Some(tool_calls_json(m.tool_calls@, m.tool_calls@.len() as int))
            } else {
                None
            },
            image_count: message::images_in(m.content@),
            reasoning: entry_reasoning(m, strip),
        }
    }
}

/// The entry of a message with text `content`.
fn make_entry(m: &Message, content: String, tools_active: bool, strip: bool) -> (e: MsgEntry)
    ensures
        e@ == entry_of(*m, content@, tools_active, strip),
{
    let image_count: usize = m.image_count();
    let is_tool: bool = match m.role {
        Role::Tool => true,
        _ => false,
    };
    let is_assistant: bool = match m.role {
        Role::Assistant => true,
        _ => false,
    };
    if tools_active && is_tool {
        return MsgEntry {
            role: "tool".to_owned(),
            content,
            tool_calls: None,
            image_count,
            reasoning_content: None,
        };
    }
    let role: String = match &m.role {
        Role::Other(r) => if same_text(r.as_str(), "developer") {
            "system".to_owned()
        } else {
            r.clone()
        },
        r => r.as_wire().to_owned(),
    };
    let tool_calls: Option<Vec<Json>> = if is_assistant && m.tool_calls.len() > 0 {
        Some(make_tool_calls_json(&m.tool_calls))
    } else {
        None
    };
    let reasoning_content: Option<String> = if is_assistant && !strip {
        match &m.reasoning {
            Some(r) => {
                let t: Vec<char> = trimmed(&chars_of(r.text.as_str()));
                if t.len() > 0 {
                    Some(text_of(&t))
                } else {
                    None
                }
            },
            None => None,
        }
    } else {
        None
    };
    MsgEntry { role, content, tool_calls, image_count, reasoning_content }
}

// ── images ──

/// The first remote URL among the parts.
pub open spec fn first_url(parts: Seq<ContentPart>) -> Option<Seq<char>>
    decreases parts.len(),
{
    if parts.len() == 0 {
        None
    } else {
        match first_url(parts.drop_last()) {
            Some(u) => Some(u),
            None => match parts.last()@ {
                message::PartView::Url(u) => Some(u),
                _ => None,
            },
        }
    }
}

/// The inline images among the parts, in order.
pub open spec fn inline_images(parts: Seq<ContentPart>) -> Seq<Seq<char>>
    decreases parts.len(),
{
    if parts.len() == 0 {
        Seq::empty()
    } else {
        match parts.last()@ {
            message::PartView::Base64(d) => inline_images(parts.drop_last()).push(d),
            _ => inline_images(parts.drop_last()),
        }
    }
}

/// The content parts of all messages, in order.
pub open spec fn all_parts(input: Seq<Message>) -> Seq<ContentPart>
    decreases input.len(),
{
    if input.len() == 0 {
        Seq::empty()
    } else {
        all_parts(input.drop_last()) + input.last().content@
    }
}

/// Why a remote image is refused; the URL is shown up to 120 characters.
pub open spec fn url_refusal(url: Seq<char>) -> Seq<char> {
    "image URLs are not fetched by this server (got '"@ + url.take(
        if url.len() <= 120 {
            url.len() as int
        } else {
            120
        },
    ) + "'); send the image as a base64 data: URI"@
}

fn write_url_refusal(url: &String) -> (s: String)
    ensures
        s@ == url_refusal(url@),
{
    let u: Vec<char> = chars_of(url.as_str());
    let n: usize = if u.len() <= 120 {
        u.len()
    } else {
        120
    };
    let shown: String = string_of(&u, 0, n);
    let mut s: String = "image URLs are not fetched by this server (got '".to_owned();
    s.append(shown.as_str());
    s.append("'); send the image as a base64 data: URI");
    assert(u@.subrange(0, n as int) =~= u@.take(n as int));
    s
}

/// Appends the inline images of a message; a remote one is refused.
fn collect_message_images(m: &Message, all_images: &mut Vec<String>) -> (r: Result<(), String>)
    ensures
        match r {
            Ok(_) => first_url(m.content@) is None && text::texts(final(all_images)@) == text::texts(
                old(all_images)@,
            ) + inline_images(m.content@),
            Err(e) => first_url(m.content@) matches Some(u) && e@ == url_refusal(u),
        },
{
    let ghost start = text::texts(all_images@);
    let ghost parts = m.content@;
    let mut i: usize = 0;
    assert(start + inline_images(parts.take(0)) =~= start);
    while i < m.content.len()
        invariant
            i <= m.content@.len(),
            parts == m.content@,
            first_url(parts.take(i as int)) is None,
            text::texts(all_images@) == start + inline_images(parts.take(i as int)),
        decreases m.content@.len() - i,
    {
        let ghost before = all_images@;
        assert(parts.take(i + 1).drop_last() =~= parts.take(i as int));
        assert(parts.take(i + 1).last() == parts[i as int]);
        match &m.content[i] {
            ContentPart::Image(src) => match &src.data {
                ImageData::Base64(d) => {
                    all_images.push(d.clone());
                    proof {
                        assert(text::texts(all_images@) =~= text::texts(before).push(d@));
                        assert(text::texts(all_images@) =~= start + inline_images(parts.take(i + 1)));
                    }
                },
                ImageData::Url(u) => {
                    proof {
                        lemma_first_url_prefix(parts, i + 1);
                    }
                    return Err(write_url_refusal(u));
                },
            },
            ContentPart::Text(_) => {},
        }
        i = i + 1;
    }
    assert(parts.take(i as int) =~= parts);
    Ok(())
}

/// A remote URL found early is the first of all.
proof fn lemma_first_url_prefix(parts: Seq<ContentPart>, n: int)
    requires
        0 <= n <= parts.len(),
        first_url(parts.take(n)) is Some,
    ensures
        first_url(parts) == first_url(parts.take(n)),
    decreases parts.len() - n,
{
    if n < parts.len() {
        assert(parts.take(n + 1).drop_last() =~= parts.take(n));
        lemma_first_url_prefix(parts, n + 1);
    } else {
        assert(parts.take(n) =~= parts);
    }
}

pub(crate) proof fn lemma_parts_add(a: Seq<ContentPart>, b: Seq<ContentPart>)
    ensures
        inline_images(a + b) == inline_images(a) + inline_images(b),
        first_url(a + b) == (match first_url(a) {
            Some(u) => Some(u),
            None => first_url(b),
        }),
    decreases b.len(),
{
    if b.len() == 0 {
        assert(a + b =~= a);
        assert(inline_images(a) + inline_images(b) =~= inline_images(a));
    } else {
        assert((a + b).drop_last() =~= a + b.drop_last());
        lemma_parts_add(a, b.drop_last());
        assert(inline_images(a + b) =~= inline_images(a) + inline_images(b));
    }
}

// ── heuristics, as data ──

/// What the heuristics say about the messages of a request, one item per
/// message.
pub struct Observations {
    /// The text of the message looks like an error.
    pub errors: Vec<bool>,
    /// The text with recovery hints for its streak of errors.
    pub hinted: Vec<String>,
    /// The distinct shingles of the trimmed text.
    pub shingles: Vec<Vec<u64>>,
    /// Nudge for an agent that runs many commands and writes nothing.
    pub wander_hint: Option<String>,
}

impl Observations {
    /// There is an item for each of `n` messages.
    pub open spec fn covers(self, n: nat) -> bool {
        self.errors@.len() == n && self.hinted@.len() == n && self.shingles@.len() == n
    }
}

/// The message is the answer of a tool, and tools are in use.
pub open spec fn is_tool_answer(m: Message, tools_active: bool) -> bool {
    tools_active && m.role is Tool
}

/// Tool errors in a row up to and with the first `n` messages. Messages that
/// are no tool answers do not break a streak.
pub open spec fn error_streak(
    input: Seq<Message>,
    tools_active: bool,
    errors: Seq<bool>,
    n: int,
) -> nat
    decreases n,
{
    if n <= 0 {
        0
    } else {
        let before = error_streak(input, tools_active, errors, n - 1);
        if is_tool_answer(input[n - 1], tools_active) {
            if errors[n - 1] {
                before + 1
            } else {
                0
            }
        } else {
            before
        }
    }
}

fn is_answer(m: &Message, tools_active: bool) -> (r: bool)
    ensures
        r == is_tool_answer(*m, tools_active),
{
    match m.role {
        Role::Tool => tools_active,
        _ => false,
    }
}

/// The streak of tool errors at each message, which decides how urgent its
/// hints are.
pub fn error_streaks(input: &Vec<Message>, tools_active: bool, errors: &Vec<bool>) -> (out: Vec<u32>)
    requires
        errors@.len() == input@.len(),
        input@.len() <= u32::MAX,
    ensures
        out@.len() == input@.len(),
        forall|i: int|
            0 <= i < out@.len() ==> #[trigger] out@[i] == error_streak(
                input@,
                tools_active,
                errors@,
                i + 1,
            ),
{
    let mut out: Vec<u32> = Vec::new();
    let mut streak: u32 = 0;
    let mut i: usize = 0;
    while i < input.len()
        invariant
            i <= input@.len(),
            errors@.len() == input@.len(),
            input@.len() <= u32::MAX,
            out@.len() == i,
            streak <= i,
            streak == error_streak(input@, tools_active, errors@, i as int),
            forall|k: int|
                0 <= k < i ==> #[trigger] out@[k] == error_streak(
                    input@,
                    tools_active,
                    errors@,
                    k + 1,
                ),
        decreases input@.len() - i,
    {
        if is_answer(&input[i], tools_active) {
            if errors[i] {
                streak = streak + 1;
            } else {
                streak = 0;
            }
        }
        out.push(streak);
        i = i + 1;
    }
    out
}

/// The tool calls of the first `n` messages that are made by the assistant.
pub open spec fn calls_made(input: Seq<Message>, n: int) -> nat
    decreases n,
{
    if n <= 0 {
        0
    } else {
        calls_made(input, n - 1) + if input[n - 1].role is Assistant {
            input[n - 1].tool_calls@.len()
        } else {
            0
        }
    }
}

/// How many of the first `n` flags are set.
pub open spec fn flags_set(flags: Seq<bool>, n: int) -> nat
    decreases n,
{
    if n <= 0 {
        0
    } else {
        flags_set(flags, n - 1) + if flags[n - 1] {
            1nat
        } else {
            0nat
        }
    }
}

/// How many of those tool calls are productive.
pub open spec fn productive_calls(
    input: Seq<Message>,
    productive: Seq<Vec<bool>>,
    n: int,
) -> nat
    decreases n,
{
    if n <= 0 {
        0
    } else {
        productive_calls(input, productive, n - 1) + if input[n - 1].role is Assistant {
            flags_set(productive[n - 1]@, input[n - 1].tool_calls@.len() as int)
        } else {
            0
        }
    }
}

/// Tallies the assistant's tool calls: all of them, and the productive ones.
/// `productive` has a flag for each tool call of each message. `None` when the
/// tally does not fit.
pub fn tally_tool_calls(input: &Vec<Message>, productive: &Vec<Vec<bool>>) -> (r: Option<
    (usize, usize),
>)
    requires
        productive@.len() == input@.len(),
        forall|i: int|
            0 <= i < input@.len() ==> (#[trigger] productive@[i])@.len()
                == input@[i].tool_calls@.len(),
    ensures
        match r {
            Some((total, good)) => total == calls_made(input@, input@.len() as int) && good
                == productive_calls(input@, productive@, input@.len() as int) && good <= total,
            None => calls_made(input@, input@.len() as int) > usize::MAX,
        },
{
    let mut total: usize = 0;
    let mut good: usize = 0;
    let mut i: usize = 0;
    while i < input.len()
        invariant
            i <= input@.len(),
            productive@.len() == input@.len(),
            forall|k: int|
                0 <= k < input@.len() ==> (#[trigger] productive@[k])@.len()
                    == input@[k].tool_calls@.len(),
            good <= total,
            total == calls_made(input@, i as int),
            good == productive_calls(input@, productive@, i as int),
        decreases input@.len() - i,
    {
        let is_assistant: bool = match input[i].role {
            Role::Assistant => true,
            _ => false,
        };
        if is_assistant {
            let flags: &Vec<bool> = &productive[i];
            let n: usize = flags.len();
            if n > usize::MAX - total {
                proof {
                    lemma_calls_grow(input@, i + 1, input@.len() as int);
                }
                return None;
            }
            let mut k: usize = 0;
            let ghost start = good;
            while k < n
                invariant
                    k <= n,
                    n == flags@.len(),
                    start <= total,
                    total + n <= usize::MAX,
                    good == start + flags_set(flags@, k as int),
                    good <= start + k,
                decreases n - k,
            {
                if flags[k] {
                    good = good + 1;
                }
                k = k + 1;
            }
            total = total + n;
        }
        i = i + 1;
    }
    Some((total, good))
}

proof fn lemma_calls_grow(input: Seq<Message>, a: int, b: int)
    requires
        0 <= a <= b,
    ensures
        calls_made(input, a) <= calls_made(input, b),
    decreases b - a,
{
    if a < b {
        lemma_calls_grow(input, a, b - 1);
    }
}

// ── working directory ──

/// A quote or backtick.
pub open spec fn is_quote(c: char) -> bool {
    c == '`' || c == '"' || c == '\''
}

/// `s` without quotes and backticks at its ends.
pub open spec fn without_quotes(s: Seq<char>) -> Seq<char>
    decreases s.len(),
{
    if s.len() > 0 && is_quote(s[0]) {
        without_quotes(s.subrange(1, s.len() as int))
    } else if s.len() > 0 && is_quote(s.last()) {
        without_quotes(s.drop_last())
    } else {
        s
    }
}

/// A line in lower case names the working directory.
pub open spec fn names_directory(lower: Seq<char>) -> bool {
    text::contains_text(lower, "working directory"@) || text::contains_text(
        lower,
        "working_directory"@,
    ) || text::contains_text(lower, "cwd:"@)
}

/// The path behind the first colon of a line that names the working directory;
/// `lower` is the line in lower case.
pub open spec fn directory_behind(line: Seq<char>, lower: Seq<char>) -> Option<Seq<char>> {
    let colon = text::next_char(line, ':', 0);
    let path = without_quotes(text::trim(line.subrange(colon + 1, line.len() as int)));
    if names_directory(lower) && colon < line.len() && path.len() > 0 {
        Some(path)
    } else {
        None
    }
}

/// The path that a line names.
pub open spec fn line_directory(line: Seq<char>) -> Option<Seq<char>> {
    directory_behind(line, text::lower_case(line))
}

/// The first path that a line at or after `k` names.
pub open spec fn first_directory(s: Seq<char>, lines: Seq<(int, int)>, k: int) -> Option<Seq<char>>
    decreases lines.len() - k,
{
    if k < 0 || k >= lines.len() {
        None
    } else {
        match line_directory(s.subrange(lines[k].0, lines[k].1)) {
            Some(p) => Some(p),
            None => first_directory(s, lines, k + 1),
        }
    }
}

/// Position of the first system entry at or after `i`, or the length.
pub open spec fn first_system(entries: Seq<EntryView>, i: int) -> int
    decreases entries.len() - i,
{
    if i < 0 || i >= entries.len() {
        entries.len() as int
    } else if entries[i].role == "system"@ {
        i
    } else {
        first_system(entries, i + 1)
    }
}

/// The working directory that the first system entry names.
pub open spec fn directory_hint(entries: Seq<EntryView>) -> Option<Seq<char>> {
    let i = first_system(entries, 0);
    if 0 <= i < entries.len() {
        let s = entries[i].content;
        first_directory(s, text::lines_from(s, 0), 0)
    } else {
        None
    }
}

fn strip_quotes(s: &Vec<char>) -> (out: Vec<char>)
    ensures
        out@ == without_quotes(s@),
{
    let mut a: usize = 0;
    assert(s@.subrange(0, s@.len() as int) =~= s@);
    while a < s.len() && (s[a] == '`' || s[a] == '"' || s[a] == '\'')
        invariant
            a <= s@.len(),
            without_quotes(s@) == without_quotes(s@.subrange(a as int, s@.len() as int)),
        decreases s@.len() - a,
    {
        assert(s@.subrange(a as int, s@.len() as int).subrange(1, s@.len() - a) =~= s@.subrange(
            a + 1,
            s@.len() as int,
        ));
        a = a + 1;
    }
    let mut b: usize = s.len();
    while b > a && (s[b - 1] == '`' || s[b - 1] == '"' || s[b - 1] == '\'')
        invariant
            a <= b <= s@.len(),
            a < s@.len() ==> !is_quote(s@[a as int]),
            without_quotes(s@) == without_quotes(s@.subrange(a as int, b as int)),
        decreases b - a,
    {
        assert(s@.subrange(a as int, b as int).drop_last() =~= s@.subrange(a as int, b - 1));
        b = b - 1;
    }
    slice_of(s, a, b)
}

/// The path that a line names, given the line in lower case too.
pub fn read_directory(line: &Vec<char>, lower: &Vec<char>) -> (r: Option<String>)
    ensures
        text::opt_text(r) == directory_behind(line@, lower@),
{
    proof {
        reveal_strlit("working directory");
        reveal_strlit("working_directory");
        reveal_strlit("cwd:");
    }
    if !(has_text(lower, "working directory") || has_text(lower, "working_directory") || has_text(
        lower,
        "cwd:",
    )) {
        return None;
    }
    let colon: usize = find_char(line, ':', 0);
    if colon >= line.len() {
        return None;
    }
    let path: Vec<char> = strip_quotes(&trimmed(&slice_of(line, colon + 1, line.len())));
    if path.len() > 0 {
        Some(text_of(&path))
    } else {
        None
    }
}

fn read_line_directory(line: &Vec<char>) -> (r: Option<String>)
    ensures
        match r {
            Some(p) => line_directory(line@) == Some(p@),
            None => line_directory(line@) is None,
        },
{
    let lower: Vec<char> = chars_of(to_lowercase(text_of(line).as_str()).as_str());
    read_directory(line, &lower)
}

fn find_directory(entries: &Vec<MsgEntry>) -> (r: Option<String>)
    ensures
        match r {
            Some(p) => directory_hint(entries_view(entries@)) == Some(p@),
            None => directory_hint(entries_view(entries@)) is None,
        },
{
    let ghost all = entries_view(entries@);
    let mut i: usize = 0;
    while i < entries.len()
        invariant
            i <= entries@.len(),
            all == entries_view(entries@),
            first_system(all, 0) == first_system(all, i as int),
        decreases entries@.len() - i,
    {
        assert(all[i as int] == entries@[i as int]@);
        if same_text(entries[i].role.as_str(), "system") {
            let s: Vec<char> = chars_of(entries[i].content.as_str());
            let lines: Vec<(usize, usize)> = line_ranges(&s, 0);
            let ghost ranges = text::int_ranges(lines@);
            let mut k: usize = 0;
            while k < lines.len()
                invariant
                    k <= lines@.len(),
                    all == entries_view(entries@),
                    ranges == text::int_ranges(lines@),
                    ranges == text::lines_from(s@, 0),
                    forall|j: int|
                        0 <= j < lines@.len() ==> (#[trigger] lines@[j]).0 <= lines@[j].1 <= s@.len(),
                    directory_hint(all) == first_directory(s@, ranges, k as int),
                decreases lines@.len() - k,
            {
                let (a, b) = lines[k];
                assert(ranges[k as int] == (a as int, b as int));
                let line: Vec<char> = slice_of(&s, a, b);
                if let Some(p) = read_line_directory(&line) {
                    return Some(p);
                }
                k = k + 1;
            }
            return None;
        }
        i = i + 1;
    }
    None
}

// ── assembly ──

/// The content of the entry of message `i`: the hinted text for an erroneous
/// tool answer, else the text of the message.
pub open spec fn content_at(
    input: Seq<Message>,
    tools_active: bool,
    o: Observations,
    i: int,
) -> Seq<char> {
    if is_tool_answer(input[i], tools_active) && o.errors@[i] {
        o.hinted@[i]@
    } else {
        message_text(input[i])
    }
}

/// The entries of the first `n` messages before any rule about the whole
/// conversation.
pub open spec fn plain_entries(
    input: Seq<Message>,
    tools_active: bool,
    strip: bool,
    o: Observations,
    n: int,
) -> Seq<EntryView> {
    Seq::new(
        n as nat,
        |i: int| entry_of(input[i], content_at(input, tools_active, o, i), tools_active, strip),
    )
}

/// The tool answers among the first `n` messages.
pub open spec fn tool_results(
    input: Seq<Message>,
    tools_active: bool,
    o: Observations,
    n: int,
) -> Seq<ResultView>
    decreases n,
{
    if n <= 0 {
        Seq::empty()
    } else {
        let before = tool_results(input, tools_active, o, n - 1);
        if is_tool_answer(input[n - 1], tools_active) {
            before.push(
                ResultView {
                    index: (n - 1) as usize,
                    text: message_text(input[n - 1]),
                    shingles: o.shingles@[n - 1]@,
                    is_error: o.errors@[n - 1],
                },
            )
        } else {
            before
        }
    }
}

/// The entries with the content of every masked one replaced.
pub open spec fn with_masks(entries: Seq<EntryView>, masks: Seq<(usize, Seq<char>)>) -> Seq<EntryView>
    decreases masks.len(),
{
    if masks.len() == 0 {
        entries
    } else {
        let before = with_masks(entries, masks.drop_last());
        let (i, note) = masks.last();
        if i < before.len() {
            before.update(i as int, EntryView { content: note, ..before[i as int] })
        } else {
            before
        }
    }
}

/// The block that tells the model its working directory.
pub open spec fn environment_block(cwd: Seq<char>) -> Seq<char> {
    "\n<environment>\nworking_directory: "@ + cwd + "\n</environment>"@
}

/// The entries with text added to the content of entry `i`.
pub open spec fn with_addition(entries: Seq<EntryView>, i: int, t: Seq<char>) -> Seq<EntryView> {
    if 0 <= i < entries.len() {
        entries.update(i, EntryView { content: entries[i].content + t, ..entries[i] })
    } else {
        entries
    }
}

/// The entries with the working directory in a leading system entry.
pub open spec fn with_directory(
    entries: Seq<EntryView>,
    tools_active: bool,
    cwd: Option<Seq<char>>,
) -> Seq<EntryView> {
    match cwd {
        Some(p) => if tools_active && entries.len() > 0 && entries[0].role == "system"@ {
            with_addition(entries, 0, environment_block(p))
        } else {
            entries
        },
        None => entries,
    }
}

/// The entries without a leading system entry that says nothing.
pub open spec fn without_vacuous(entries: Seq<EntryView>) -> Seq<EntryView> {
    if entries.len() > 0 && entries[0].role == "system"@ && is_vacuous(entries[0].content) {
        entries.subrange(1, entries.len() as int)
    } else {
        entries
    }
}

/// Position of the last tool entry before `i`; -1 when there is none.
pub open spec fn last_tool(entries: Seq<EntryView>, i: int) -> int
    decreases i,
{
    if i <= 0 {
        -1
    } else if entries[i - 1].role == "tool"@ {
        i - 1
    } else {
        last_tool(entries, i - 1)
    }
}

/// The entries with a nudge on the last tool answer.
pub open spec fn with_nudge(
    entries: Seq<EntryView>,
    tools_active: bool,
    hint: Option<String>,
) -> Seq<EntryView> {
    match hint {
        Some(h) => if tools_active {
            with_addition(entries, last_tool(entries, entries.len() as int), h@)
        } else {
            entries
        },
        None => entries,
    }
}

/// The entries after masking repeated errors.
pub open spec fn masked_entries(
    input: Seq<Message>,
    tools_active: bool,
    strip: bool,
    dedup: bool,
    o: Observations,
) -> Seq<EntryView> {
    let n = input.len() as int;
    let plain = plain_entries(input, tools_active, strip, o, n);
    if tools_active && dedup {
        with_masks(plain, repeat_masks(errors_among(tool_results(input, tools_active, o, n))))
    } else {
        plain
    }
}

/// The entries that the template gets.
pub open spec fn final_entries(
    input: Seq<Message>,
    tools_active: bool,
    strip: bool,
    dedup: bool,
    o: Observations,
) -> Seq<EntryView> {
    let masked = masked_entries(input, tools_active, strip, dedup, o);
    let placed = with_directory(masked, tools_active, directory_hint(masked));
    with_nudge(without_vacuous(placed), tools_active, o.wander_hint)
}

/// Entries for the template, the working directory, and the images to decode.
#[derive(Debug)]
pub struct BuildOut {
    pub messages: Vec<MsgEntry>,
    pub cwd_hint: Option<String>,
    pub images: Vec<String>,
}

/// Adds `t` to the content of entry `i`.
fn add_to_entry(entries: &mut Vec<MsgEntry>, i: usize, t: &str)
    requires
        i < old(entries)@.len(),
    ensures
        entries_view(final(entries)@) == with_addition(entries_view(old(entries)@), i as int, t@),
{
    let ghost before = entries@;
    let mut content: String = entries[i].content.clone();
    content.append(t);
    set_content(entries, i, content);
    assert(entries_view(entries@) =~= with_addition(entries_view(before), i as int, t@));
}

/// Replaces the content of entry `i`.
fn set_content(entries: &mut Vec<MsgEntry>, i: usize, content: String)
    requires
        i < old(entries)@.len(),
    ensures
        entries_view(final(entries)@) == entries_view(old(entries)@).update(
            i as int,
            EntryView { content: content@, ..entries_view(old(entries)@)[i as int] },
        ),
{
    let ghost before = entries@;
    entries[i].content = content;
    assert(entries_view(entries@) =~= entries_view(before).update(
        i as int,
        EntryView { content: content@, ..entries_view(before)[i as int] },
    ));
}

/// The entries of all messages before any rule about the whole conversation,
/// and the images on them.
fn build_plain(
    input: &Vec<Message>,
    tools_active: bool,
    strip_reasoning: bool,
    o: &Observations,
) -> (r: Result<(Vec<MsgEntry>, Vec<String>), String>)
    requires
        o.covers(input@.len()),
    ensures
        match r {
            Ok((entries, images)) => first_url(all_parts(input@)) is None && entries_view(entries@)
                == plain_entries(input@, tools_active, strip_reasoning, *o, input@.len() as int)
                && text::texts(images@) == inline_images(all_parts(input@)),
            Err(e) => first_url(all_parts(input@)) matches Some(u) && e@ == url_refusal(u),
        },
{
    let mut entries: Vec<MsgEntry> = Vec::new();
    let mut images: Vec<String> = Vec::new();
    let mut i: usize = 0;
    assert(entries_view(entries@) =~= plain_entries(input@, tools_active, strip_reasoning, *o, 0));
    assert(text::texts(images@) =~= Seq::<Seq<char>>::empty());
    assert(input@.take(0) =~= Seq::<Message>::empty());
    while i < input.len()
        invariant
            i <= input@.len(),
            o.covers(input@.len()),
            first_url(all_parts(input@.take(i as int))) is None,
            entries_view(entries@) == plain_entries(
                input@,
                tools_active,
                strip_reasoning,
                *o,
                i as int,
            ),
            text::texts(images@) == inline_images(all_parts(input@.take(i as int))),
        decreases input@.len() - i,
    {
        let ghost before = entries@;
        let m = &input[i];
        proof {
            assert(input@.take(i + 1).drop_last() =~= input@.take(i as int));
            assert(input@.take(i + 1).last() == input@[i as int]);
            lemma_parts_add(all_parts(input@.take(i as int)), m.content@);
        }
        let content: String = if is_answer(m, tools_active) && o.errors[i] {
            o.hinted[i].clone()
        } else {
            entry_text(m)
        };
        let e = make_entry(m, content, tools_active, strip_reasoning);
        entries.push(e);
        proof {
            assert(entries_view(entries@) =~= entries_view(before).push(e@));
            assert(plain_entries(input@, tools_active, strip_reasoning, *o, i + 1)
                =~= plain_entries(input@, tools_active, strip_reasoning, *o, i as int).push(e@));
        }
        match collect_message_images(m, &mut images) {
            Ok(_) => {},
            Err(e) => {
                proof {
                    lemma_first_url_of_all(input@, i + 1);
                }
                return Err(e);
            },
        }
        i = i + 1;
    }
    assert(input@.take(i as int) =~= input@);
    Ok((entries, images))
}

proof fn lemma_first_url_of_all(input: Seq<Message>, n: int)
    requires
        0 <= n <= input.len(),
        first_url(all_parts(input.take(n))) is Some,
    ensures
        first_url(all_parts(input)) == first_url(all_parts(input.take(n))),
    decreases input.len() - n,
{
    if n < input.len() {
        assert(input.take(n + 1).drop_last() =~= input.take(n));
        lemma_parts_add(all_parts(input.take(n)), input[n].content@);
        lemma_first_url_of_all(input, n + 1);
    } else {
        assert(input.take(n) =~= input);
    }
}

/// The tool answers of a conversation.
fn collect_tool_results(input: &Vec<Message>, tools_active: bool, o: &Observations) -> (out: Vec<
    ToolResult,
>)
    requires
        o.covers(input@.len()),
    ensures
        result_views(out@) == tool_results(input@, tools_active, *o, input@.len() as int),
{
    let mut out: Vec<ToolResult> = Vec::new();
    let mut i: usize = 0;
    assert(result_views(out@) =~= Seq::<ResultView>::empty());
    while i < input.len()
        invariant
            i <= input@.len(),
            o.covers(input@.len()),
            result_views(out@) == tool_results(input@, tools_active, *o, i as int),
        decreases input@.len() - i,
    {
        if is_answer(&input[i], tools_active) {
            let ghost before = out@;
            let t: String = entry_text(&input[i]);
            let r = ToolResult {
                index: i,
                text: chars_of(t.as_str()),
                shingles: o.shingles[i].clone(),
                is_error: o.errors[i],
            };
            out.push(r);
            assert(result_views(out@) =~= result_views(before).push(r@));
        }
        i = i + 1;
    }
    out
}

/// Turns the messages of a request into the entries that the template renders.
/// `has_vision` says whether the model takes images; `strip_reasoning` drops
/// earlier reasoning; `dedup` masks repeated errors.
pub fn build_msg_entries(
    has_vision: bool,
    input: &Vec<Message>,
    tools_active: bool,
    strip_reasoning: bool,
    dedup: bool,
    o: &Observations,
) -> (r: Result<BuildOut, String>)
    requires
        o.covers(input@.len()),
    ensures
        match first_url(all_parts(input@)) {
            Some(u) => r matches Err(e) && e@ == url_refusal(u),
            None => if inline_images(all_parts(input@)).len() > 0 && !has_vision {
                r matches Err(e) && e@
                    == "this model does not accept image input (no vision config)"@
            } else {
                &&& r matches Ok(out)
                &&& entries_view(out.messages@) == final_entries(
                    input@,
                    tools_active,
                    strip_reasoning,
                    dedup,
                    *o,
                )
                &&& (match out.cwd_hint {
                    Some(p) => Some(p@),
                    None => None,
                }) == directory_hint(
                    masked_entries(input@, tools_active, strip_reasoning, dedup, *o),
                )
                &&& text::texts(out.images@) == inline_images(all_parts(input@))
            },
        },
{
    let (mut messages, images) = match build_plain(input, tools_active, strip_reasoning, o) {
        Ok(built) => built,
        Err(e) => {
            return Err(e);
        },
    };
    assert(text::texts(images@).len() == images@.len());
    if images.len() > 0 && !has_vision {
        return Err("this model does not accept image input (no vision config)".to_owned());
    }
    if tools_active && dedup {
        let results: Vec<ToolResult> = collect_tool_results(input, tools_active, o);
        let masks: Vec<(usize, String)> = duplicate_error_masks(&results);
        let ghost plain = entries_view(messages@);
        let ghost all = mask_views(masks@);
        let mut k: usize = 0;
        assert(all.take(0) =~= Seq::<(usize, Seq<char>)>::empty());
        while k < masks.len()
            invariant
                k <= masks@.len(),
                all == mask_views(masks@),
                entries_view(messages@) == with_masks(plain, all.take(k as int)),
            decreases masks@.len() - k,
        {
            assert(all.take(k + 1).drop_last() =~= all.take(k as int));
            assert(all.take(k + 1).last() == (masks@[k as int].0, masks@[k as int].1@));
            assert(entries_view(messages@).len() == messages@.len());
            let at: usize = masks[k].0;
            if at < messages.len() {
                set_content(&mut messages, at, masks[k].1.clone());
            }
            k = k + 1;
        }
        assert(all.take(k as int) =~= all);
    }
    let ghost masked = entries_view(messages@);
    let cwd_hint: Option<String> = find_directory(&messages);
    if let Some(cwd) = &cwd_hint {
        if tools_active && messages.len() > 0 && same_text(messages[0].role.as_str(), "system") {
            let mut block: String = "\n<environment>\nworking_directory: ".to_owned();
            block.append(cwd.as_str());
            block.append("\n</environment>");
            add_to_entry(&mut messages, 0, block.as_str());
        }
    }
    let ghost placed = entries_view(messages@);
    assert(placed == with_directory(masked, tools_active, directory_hint(masked)));
    if messages.len() > 0 && same_text(messages[0].role.as_str(), "system")
        && is_vacuous_system_content(messages[0].content.as_str()) {
        let ghost before = messages@;
        let _removed = messages.remove(0);
        assert(entries_view(messages@) =~= placed.subrange(1, placed.len() as int));
    }
    let ghost kept = entries_view(messages@);
    assert(kept == without_vacuous(placed));
    if tools_active {
        if let Some(hint) = &o.wander_hint {
            let mut i: usize = messages.len();
            while i > 0 && !same_text(messages[i - 1].role.as_str(), "tool")
                invariant
                    i <= messages@.len(),
                    kept == entries_view(messages@),
                    last_tool(kept, kept.len() as int) == last_tool(kept, i as int),
                decreases i,
            {
                assert(kept[i - 1] == messages@[i - 1]@);
                i = i - 1;
            }
            if i > 0 {
                assert(kept[i - 1] == messages@[i - 1]@);
                add_to_entry(&mut messages, i - 1, hint.as_str());
            }
        }
    }
    Ok(BuildOut { messages, cwd_hint, images })
}

/// A decoded image and the number of placeholder tokens it takes.
pub struct DecodedImage<T> {
    pub pixels: T,
    pub grid_h: usize,
    pub grid_w: usize,
    pub pad_count: usize,
}

/// Position of the first image at or after `i` that could not be decoded, or
/// the number of images.
pub open spec fn first_failure<T>(results: Seq<Result<DecodedImage<T>, String>>, i: int) -> int
    decreases results.len() - i,
{
    if i < 0 || i >= results.len() {
        results.len() as int
    } else if results[i] is Err {
        i
    } else {
        first_failure(results, i + 1)
    }
}

/// Collects the decoded images of a request; the first failure refuses it.
pub fn accept_images<T>(results: Vec<Result<DecodedImage<T>, String>>) -> (r: Result<
    Vec<DecodedImage<T>>,
    String,
>)
    ensures
        match r {
            Ok(images) => images@.len() == results@.len() && (forall|i: int|
                0 <= i < results@.len() ==> (#[trigger] results@[i]) == Ok::<
                    DecodedImage<T>,
                    String,
                >(images@[i])),
            Err(e) => first_failure(results@, 0) < results@.len() && e@
                == "Image decode error: "@ + results@[first_failure(results@, 0)]->Err_0@,
        },
{
    let mut images: Vec<DecodedImage<T>> = Vec::new();
    let mut failure: Option<String> = None;
    for res in it: results
        invariant
            it.seq() == results@,
            match failure {
                Some(e) => first_failure(results@, 0) < results@.len() && e@
                    == "Image decode error: "@ + results@[first_failure(results@, 0)]->Err_0@,
                None => images@.len() == it.index() && first_failure(results@, 0) == first_failure(
                    results@,
                    it.index() as int,
                ) && (forall|k: int|
                    0 <= k < it.index() ==> (#[trigger] results@[k]) == Ok::<
                        DecodedImage<T>,
                        String,
                    >(images@[k])),
            },
    {
        let ghost k = it.index() as int;
        assert(res == results@[k]);
        if failure.is_none() {
            match res {
                Ok(image) => {
                    images.push(image);
                },
                Err(cause) => {
                    let mut e: String = "Image decode error: ".to_owned();
                    e.append(cause.as_str());
                    failure = Some(e);
                },
            }
        }
    }
    match failure {
        Some(e) => Err(e),
        None => Ok(images),
    }
}

// ── laws ──

/// Every group lists positions below `n` in rising order.
pub open spec fn groups_rise(groups: Seq<Seq<int>>, n: int) -> bool {
    forall|g: int|
        0 <= g < groups.len() ==> (#[trigger] groups[g]).len() > 0 && (forall|a: int, b: int|
            0 <= a < b < groups[g].len() ==> groups[g][a] < groups[g][b]) && (forall|a: int|
            0 <= a < groups[g].len() ==> 0 <= #[trigger] groups[g][a] < n)
}

pub(crate) proof fn lemma_groups_rise(errors: Seq<ErrorView>, n: int)
    requires
        0 <= n,
    ensures
        groups_rise(grouped(errors, n), n),
    decreases n,
{
    if n > 0 {
        lemma_groups_rise(errors, n - 1);
        let before = grouped(errors, n - 1);
        let after = grouped(errors, n);
        let j = group_of(errors, before, n - 1, 0);
        assert forall|g: int| 0 <= g < after.len() implies (#[trigger] after[g]).len() > 0 && (
        forall|a: int, b: int| 0 <= a < b < after[g].len() ==> after[g][a] < after[g][b]) && (
        forall|a: int| 0 <= a < after[g].len() ==> 0 <= #[trigger] after[g][a] < n) by {
            if 0 <= j < before.len() {
                if g == j {
                    assert(after[g] == before[j].push(n - 1));
                    assert(before[j].len() > 0);
                } else {
                    assert(after[g] == before[g]);
                }
            } else if g < before.len() {
                assert(after[g] == before[g]);
            } else {
                assert(after[g] == seq![n - 1]);
            }
        }
    }
}

proof fn lemma_errors_are_results(results: Seq<ResultView>, a: int)
    requires
        0 <= a < errors_among(results).len(),
    ensures
        exists|i: int|
            0 <= i < results.len() && (#[trigger] results[i]).is_error && results[i].index
                == errors_among(results)[a].index,
    decreases results.len(),
{
    let before = errors_among(results.drop_last());
    if a < before.len() {
        lemma_errors_are_results(results.drop_last(), a);
        let i = choose|i: int|
            0 <= i < results.drop_last().len() && (#[trigger] results.drop_last()[i]).is_error
                && results.drop_last()[i].index == before[a].index;
        assert(results[i] == results.drop_last()[i]);
    } else {
        assert(results[results.len() - 1] == results.last());
    }
}

/// Only errors are ever masked: a result that is none stays, however often it is
/// repeated.
pub proof fn successes_are_never_masked(results: Seq<ResultView>, k: int)
    requires
        0 <= k < repeat_masks(errors_among(results)).len(),
    ensures
        exists|i: int|
            0 <= i < results.len() && (#[trigger] results[i]).is_error && results[i].index
                == repeat_masks(errors_among(results))[k].0,
{
    let errors = errors_among(results);
    newest_error_is_never_masked(errors, k);
    let a = choose|a: int|
        0 <= a < errors.len() - 1 && #[trigger] errors[a].index == repeat_masks(errors)[k].0;
    lemma_errors_are_results(results, a);
}

/// Masking repeated errors only ever touches older ones: each masked position
/// belongs to an error result with a later one behind it, so the newest error
/// of a conversation stays as it is.
pub proof fn newest_error_is_never_masked(errors: Seq<ErrorView>, k: int)
    requires
        0 <= k < repeat_masks(errors).len(),
    ensures
        exists|a: int|
            0 <= a < errors.len() - 1 && #[trigger] errors[a].index == repeat_masks(errors)[k].0,
{
    let groups = grouped(errors, errors.len() as int);
    lemma_groups_rise(errors, errors.len() as int);
    lemma_masks_are_older(errors, groups, groups.len() as int, k);
}

proof fn lemma_masks_are_older(errors: Seq<ErrorView>, groups: Seq<Seq<int>>, n: int, k: int)
    requires
        groups_rise(groups, errors.len() as int),
        0 <= n <= groups.len(),
        0 <= k < masks_of(errors, groups, n).len(),
    ensures
        exists|a: int|
            0 <= a < errors.len() - 1 && #[trigger] errors[a].index == masks_of(
                errors,
                groups,
                n,
            )[k].0,
    decreases n,
{
    if n > 0 {
        let before = masks_of(errors, groups, n - 1);
        let group = groups[n - 1];
        let own = group_masks(errors, group, group.len() - 1);
        if k < before.len() {
            lemma_masks_are_older(errors, groups, n - 1, k);
        } else {
            let j = k - before.len();
            let a = group[j];
            assert(group[j] < group[group.len() - 1]);
            assert(own[j].0 == errors[a].index);
            assert(masks_of(errors, groups, n)[k] == own[j]);
        }
    }
}

} // verus!
