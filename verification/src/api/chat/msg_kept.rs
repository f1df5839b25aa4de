//! That the entries of a prompt keep the messages they are made of.

use crate::api::chat::msg_entry;
use crate::api::chat::msg_entry::{
    DecodedImage, EntryView, ErrorView, Observations, ResultView,
};
use crate::ir::message;
use crate::ir::message::{ContentPart, Message, Role, ToolCall};
use crate::json;
use crate::json::JsonView;
use crate::text;
use vstd::prelude::*;
use vstd::string::*;

verus! {

// ── tool calls ──

/// The JSON of a tool call carries the call's id, name and arguments.
pub open spec fn carries_call(j: JsonView, call: ToolCall) -> bool {
    &&& j.text_field("id"@) == Some(call.id@)
    &&& j.text_field("type"@) == Some("function"@)
    &&& j.field("function"@) matches Some(f) && f.text_field("name"@) == Some(call.name@)
        && f.field("arguments"@) == Some(call.arguments@)
}

/// The tool calls of an entry are those of the message, one by one; they are
/// absent just when an assistant message has none, and for every other role.
pub open spec fn carries_calls(e: EntryView, m: Message) -> bool {
    match e.tool_calls {
        Some(calls) => {
            &&& m.role is Assistant
            &&& m.tool_calls@.len() > 0
            &&& calls.len() == m.tool_calls@.len()
            &&& forall|i: int|
                0 <= i < calls.len() ==> carries_call(#[trigger] calls[i], m.tool_calls@[i])
        },
        None => m.role is Assistant ==> m.tool_calls@.len() == 0,
    }
}

proof fn lemma_carries_call(call: ToolCall)
    ensures
        carries_call(msg_entry::tool_call_json(call@), call),
{
    reveal_strlit("id");
    reveal_strlit("type");
    reveal_strlit("function");
    reveal_strlit("name");
    reveal_strlit("arguments");
    assert("id"@.len() == 2 && "type"@.len() == 4 && "function"@.len() == 8 && "name"@.len() == 4
        && "arguments"@.len() == 9);
    reveal_with_fuel(json::entry_at, 4);
    let j = msg_entry::tool_call_json(call@);
    let o = j->Object_0;
    assert(o[0].0 == "id"@ && o[1].0 == "type"@ && o[2].0 == "function"@);
    assert(json::entry_at(o, "id"@, 0) == 0);
    assert(json::entry_at(o, "type"@, 0) == 1);
    assert(json::entry_at(o, "function"@, 0) == 2);
    let f = o[2].1->Object_0;
    assert(f[0].0 == "name"@ && f[1].0 == "arguments"@);
    assert(json::entry_at(f, "name"@, 0) == 0);
    assert(json::entry_at(f, "arguments"@, 0) == 1);
}

// ── one entry ──

/// The role of an entry is the message's in the words of the templates, where a
/// developer is a system.
pub open spec fn carries_role(e: EntryView, m: Message) -> bool {
    match m.role {
        Role::System => e.role == "system"@,
        Role::User => e.role == "user"@,
        Role::Assistant => e.role == "assistant"@,
        Role::Tool => e.role == "tool"@,
        Role::Other(s) => {
            &&& s@ == "developer"@ ==> e.role == "system"@
            &&& s@ != "developer"@ ==> e.role == s@
        },
    }
}

/// The reasoning of an assistant message, white space around it aside, is
/// carried unless it is blank or stripped on purpose.
pub open spec fn carries_reasoning(e: EntryView, m: Message, strip: bool) -> bool {
    match e.reasoning {
        Some(r) => {
            &&& m.role is Assistant
            &&& !strip
            &&& m.reasoning matches Some(given) && text::trim(given.text@) == r
            &&& r.len() > 0
        },
        None => m.role is Assistant && !strip ==> (m.reasoning matches Some(given) ==> text::trim(
            given.text@,
        ).len() == 0),
    }
}

/// The texts of the parts one after the other, behind a marker when the tool
/// reported an error.
pub open spec fn said_in(m: Message) -> Seq<char> {
    (if m.tool_error {
        "[tool error]\n"@
    } else {
        Seq::empty()
    }) + texts_in(m.content@)
}

/// The texts of the parts one after the other.
pub open spec fn texts_in(parts: Seq<ContentPart>) -> Seq<char>
    decreases parts.len(),
{
    if parts.len() == 0 {
        Seq::empty()
    } else {
        (match parts[0] {
            ContentPart::Text(t) => t@,
            _ => Seq::empty(),
        }) + texts_in(parts.skip(1))
    }
}

proof fn lemma_texts_join(parts: Seq<ContentPart>, n: int)
    requires
        0 <= n <= parts.len(),
    ensures
        message::joined_text(parts.take(n)) + texts_in(parts.skip(n)) == texts_in(parts),
    decreases n,
{
    if n == 0 {
        assert(parts.skip(0) =~= parts);
        assert(message::joined_text(parts.take(0)) + texts_in(parts) =~= texts_in(parts));
    } else {
        lemma_texts_join(parts, n - 1);
        assert(parts.take(n).drop_last() =~= parts.take(n - 1));
        assert(parts.take(n).last() == parts[n - 1]);
        assert(parts.skip(n - 1)[0] == parts[n - 1]);
        assert(parts.skip(n - 1).skip(1) =~= parts.skip(n));
        assert(message::joined_text(parts.take(n)) + texts_in(parts.skip(n))
            =~= message::joined_text(parts.take(n - 1)) + texts_in(parts.skip(n - 1)));
    }
}

proof fn lemma_said(m: Message)
    ensures
        msg_entry::message_text(m) == said_in(m),
{
    lemma_texts_join(m.content@, m.content@.len() as int);
    assert(m.content@.take(m.content@.len() as int) =~= m.content@);
    assert(texts_in(m.content@.skip(m.content@.len() as int)) =~= Seq::<char>::empty());
    assert(message::joined_text(m.content@) =~= texts_in(m.content@));
    assert(Seq::<char>::empty() + texts_in(m.content@) =~= texts_in(m.content@));
}

/// How many of the parts are images.
pub open spec fn image_parts(parts: Seq<ContentPart>) -> nat {
    parts.filter(|p: ContentPart| p is Image).len()
}

proof fn lemma_image_parts(parts: Seq<ContentPart>)
    ensures
        message::images_in(parts) == image_parts(parts),
    decreases parts.len(),
{
    reveal(Seq::filter);
    if parts.len() > 0 {
        lemma_image_parts(parts.drop_last());
    }
}

/// Everything but the text of an entry comes from the message.
pub open spec fn carries(e: EntryView, m: Message, strip: bool) -> bool {
    &&& carries_role(e, m)
    &&& carries_calls(e, m)
    &&& carries_reasoning(e, m, strip)
    &&& e.image_count == image_parts(m.content@)
}

proof fn lemma_entry_carries(m: Message, content: Seq<char>, tools_active: bool, strip: bool)
    ensures
        carries(msg_entry::entry_of(m, content, tools_active, strip), m, strip),
{
    let e = msg_entry::entry_of(m, content, tools_active, strip);
    lemma_image_parts(m.content@);
    if let Some(calls) = e.tool_calls {
        assert forall|i: int| 0 <= i < calls.len() implies carries_call(
            #[trigger] calls[i],
            m.tool_calls@[i],
        ) by {
            lemma_carries_call(m.tool_calls@[i]);
        }
    }
}

// ── all entries ──

/// The entries agree in all but their texts.
spec fn alike(a: EntryView, b: EntryView) -> bool {
    a.role == b.role && a.tool_calls == b.tool_calls && a.image_count == b.image_count
        && a.reasoning == b.reasoning
}

proof fn lemma_masks_alike(entries: Seq<EntryView>, masks: Seq<(usize, Seq<char>)>)
    ensures
        msg_entry::with_masks(entries, masks).len() == entries.len(),
        forall|i: int|
            0 <= i < entries.len() ==> alike(
                #[trigger] msg_entry::with_masks(entries, masks)[i],
                entries[i],
            ),
        forall|i: int|
            0 <= i < entries.len() && (forall|k: int| 0 <= k < masks.len() ==> masks[k].0 != i)
                ==> #[trigger] msg_entry::with_masks(entries, masks)[i] == entries[i],
    decreases masks.len(),
{
    if masks.len() > 0 {
        let most = masks.drop_last();
        lemma_masks_alike(entries, most);
        assert forall|i: int|
            0 <= i < entries.len() && (forall|k: int|
                0 <= k < masks.len() ==> masks[k].0 != i) implies #[trigger] msg_entry::with_masks(
            entries,
            masks,
        )[i] == entries[i] by {
            assert forall|k: int| 0 <= k < most.len() implies most[k].0 != i by {
                assert(most[k] == masks[k]);
            }
            assert(masks[masks.len() - 1].0 != i);
        }
    }
}

/// A tool result stands for a tool answer.
proof fn lemma_results_are_answers(
    input: Seq<Message>,
    tools_active: bool,
    o: Observations,
    n: int,
    k: int,
)
    requires
        0 <= n <= input.len() <= usize::MAX,
        0 <= k < msg_entry::tool_results(input, tools_active, o, n).len(),
    ensures
        ({
            let r = msg_entry::tool_results(input, tools_active, o, n)[k];
            &&& r.index < n
            &&& input[r.index as int].role is Tool
            &&& r.is_error == o.errors@[r.index as int]
        }),
    decreases n,
{
    if n > 0 {
        let before = msg_entry::tool_results(input, tools_active, o, n - 1);
        if k < before.len() {
            lemma_results_are_answers(input, tools_active, o, n - 1, k);
        }
    }
}

/// What masking leaves of entry `i`.
proof fn lemma_masked_entry(
    input: Seq<Message>,
    tools_active: bool,
    strip: bool,
    dedup: bool,
    o: Observations,
    i: int,
)
    requires
        0 <= i < input.len() <= usize::MAX,
    ensures
        ({
            let masked = msg_entry::masked_entries(input, tools_active, strip, dedup, o);
            let plain = msg_entry::plain_entries(
                input,
                tools_active,
                strip,
                o,
                input.len() as int,
            );
            &&& masked.len() == input.len()
            &&& alike(masked[i], plain[i])
            &&& !(tools_active && input[i].role is Tool && o.errors@[i]) ==> masked[i] == plain[i]
        }),
{
    let n = input.len() as int;
    let plain = msg_entry::plain_entries(input, tools_active, strip, o, n);
    let results = msg_entry::tool_results(input, tools_active, o, n);
    let masks = msg_entry::repeat_masks(msg_entry::errors_among(results));
    lemma_masks_alike(plain, masks);
    if tools_active && dedup && !(input[i].role is Tool && o.errors@[i]) {
        assert forall|k: int| 0 <= k < masks.len() implies masks[k].0 != i by {
            msg_entry::successes_are_never_masked(results, k);
            let j = choose|j: int|
                0 <= j < results.len() && (#[trigger] results[j]).is_error && results[j].index
                    == masks[k].0;
            lemma_results_are_answers(input, tools_active, o, n, j);
        }
    }
}

/// Entries that stand for the messages from `skipped` on.
pub open spec fn stand_for(
    entries: Seq<EntryView>,
    input: Seq<Message>,
    skipped: int,
    strip: bool,
) -> bool {
    &&& entries.len() == input.len() - skipped
    &&& forall|i: int|
        0 <= i < entries.len() ==> carries(#[trigger] entries[i], input[i + skipped], strip)
}

/// The text of an entry is the message's own, or more follows it.
pub open spec fn keeps_text(e: EntryView, m: Message) -> bool {
    said_in(m).is_prefix_of(e.content)
}

/// The entries of a prompt are the messages of the request, in order and each
/// with its role, all its tool calls, its reasoning and its image count. Only one
/// message may be missing: a first one of role system that says nothing. Unless
/// a working directory is told in it, such a one is missing.
pub proof fn entries_keep_their_messages(
    input: Seq<Message>,
    tools_active: bool,
    strip: bool,
    dedup: bool,
    o: Observations,
)
    requires
        input.len() <= usize::MAX,
    ensures
        ({
            let entries = msg_entry::final_entries(input, tools_active, strip, dedup, o);
            let skipped = input.len() - entries.len();
            let masked = msg_entry::masked_entries(input, tools_active, strip, dedup, o);
            let told = tools_active && msg_entry::directory_hint(masked) is Some;
            let empty = input.len() > 0 && msg_entry::entry_role(input[0].role@) == "system"@
                && !(input[0].role is Tool) && msg_entry::is_vacuous(said_in(input[0]));
            &&& skipped == 0 || (skipped == 1 && empty)
            &&& empty && !told ==> skipped == 1
            &&& stand_for(entries, input, skipped, strip)
        }),
{
    let masked = msg_entry::masked_entries(input, tools_active, strip, dedup, o);
    let plain = msg_entry::plain_entries(input, tools_active, strip, o, input.len() as int);
    let placed = msg_entry::with_directory(
        masked,
        tools_active,
        msg_entry::directory_hint(masked),
    );
    let kept = msg_entry::without_vacuous(placed);
    let entries = msg_entry::final_entries(input, tools_active, strip, dedup, o);
    let skipped = input.len() - entries.len();
    reveal_strlit("tool");
    reveal_strlit("system");
    assert("tool"@.len() == 4 && "system"@.len() == 6);
    if input.len() == 0 {
        let results = msg_entry::tool_results(input, tools_active, o, 0);
        lemma_masks_alike(plain, msg_entry::repeat_masks(msg_entry::errors_among(results)));
    } else {
        lemma_masked_entry(input, tools_active, strip, dedup, o, 0);
        lemma_said(input[0]);
        if masked[0].role == "system"@ {
            assert(!(input[0].role is Tool));
            assert(masked[0].content == said_in(input[0]));
            if placed != masked {
                let cwd = msg_entry::directory_hint(masked)->0;
                lemma_told_is_not_vacuous(masked[0].content, cwd);
            }
        }
    }
    assert forall|i: int| 0 <= i < entries.len() implies carries(
        #[trigger] entries[i],
        input[i + skipped],
        strip,
    ) by {
        let m = input[i + skipped];
        lemma_masked_entry(input, tools_active, strip, dedup, o, i + skipped);
        lemma_entry_carries(
            m,
            msg_entry::content_at(input, tools_active, o, i + skipped),
            tools_active,
            strip,
        );
        assert(alike(placed[i + skipped], masked[i + skipped]));
        assert(kept[i] == placed[i + skipped]);
        assert(alike(entries[i], kept[i]));
    }
}

/// An entry that tells the working directory says something.
proof fn lemma_told_is_not_vacuous(content: Seq<char>, cwd: Seq<char>)
    ensures
        !msg_entry::is_vacuous(content + msg_entry::environment_block(cwd)),
{
    reveal_strlit("\n</environment>");
    let block = msg_entry::environment_block(cwd);
    let s = content + block;
    assert("\n</environment>"@.len() == 15 && "\n</environment>"@[14] == '>');
    assert(block.last() == '>');
    assert(s.last() == '>');
    text::trimming_takes_only_space(s);
    let a = text::skip_space(s, 0, s.len() as int);
    let b = text::skip_space_back(s, a, s.len() as int);
    assert(s[s.len() - 1] == '>');
    if b < s.len() {
        assert(text::is_space(s[s.len() - 1]));
    }
    if a == s.len() {
        assert(text::is_space(s[s.len() - 1]));
    }
    assert(text::trim(s).last() == '>');
    instructions_are_not_vacuous(s, 0);
}

/// The text of every message but an erroneous tool answer is kept: as it is, or
/// with a note behind it. A note comes only behind a first message of role
/// system and behind a tool answer.
pub proof fn entries_keep_their_texts(
    input: Seq<Message>,
    tools_active: bool,
    strip: bool,
    dedup: bool,
    o: Observations,
    i: int,
)
    requires
        input.len() <= usize::MAX,
        input.len() - msg_entry::final_entries(input, tools_active, strip, dedup, o).len() <= i
            < input.len(),
        !(tools_active && input[i].role is Tool && o.errors@[i]),
    ensures
        ({
            let entries = msg_entry::final_entries(input, tools_active, strip, dedup, o);
            let e = entries[i - (input.len() - entries.len())];
            let noted = (i == 0 && e.role == "system"@) || e.role == "tool"@;
            &&& keeps_text(e, input[i])
            &&& !noted ==> e.content == said_in(input[i])
            &&& !tools_active ==> e.content == said_in(input[i])
        }),
{
    entries_keep_their_messages(input, tools_active, strip, dedup, o);
    let masked = msg_entry::masked_entries(input, tools_active, strip, dedup, o);
    let placed = msg_entry::with_directory(
        masked,
        tools_active,
        msg_entry::directory_hint(masked),
    );
    let kept = msg_entry::without_vacuous(placed);
    let entries = msg_entry::final_entries(input, tools_active, strip, dedup, o);
    let skipped = input.len() - entries.len();
    lemma_said(input[i]);
    lemma_masked_entry(input, tools_active, strip, dedup, o, i);
    assert(masked[i].content == said_in(input[i]));
    assert(kept[i - skipped] == placed[i]);
    lemma_last_tool(kept, kept.len() as int);
}

proof fn lemma_last_tool(entries: Seq<EntryView>, i: int)
    requires
        0 <= i <= entries.len(),
    ensures
        -1 <= msg_entry::last_tool(entries, i) < i,
        msg_entry::last_tool(entries, i) >= 0 ==> entries[msg_entry::last_tool(entries, i)].role
            == "tool"@,
        forall|k: int|
            msg_entry::last_tool(entries, i) < k < i ==> (#[trigger] entries[k]).role != "tool"@,
    decreases i,
{
    if i > 0 {
        lemma_last_tool(entries, i - 1);
    }
}

/// A nudge for the whole conversation is added behind the text of the last tool
/// answer, and nowhere else.
pub proof fn nudges_go_to_the_last_tool_answer(
    entries: Seq<EntryView>,
    hint: String,
    i: int,
)
    requires
        0 <= i < entries.len(),
        forall|k: int| i < k < entries.len() ==> (#[trigger] entries[k]).role != "tool"@,
        entries[i].role == "tool"@,
    ensures
        ({
            let out = msg_entry::with_nudge(entries, true, Some(hint));
            &&& out.len() == entries.len()
            &&& out[i].content == entries[i].content + hint@
            &&& forall|k: int| 0 <= k < entries.len() && k != i ==> #[trigger] out[k] == entries[k]
        }),
{
    lemma_last_tool(entries, entries.len() as int);
}

// ── images ──

/// How many images the messages have.
pub open spec fn image_total(input: Seq<Message>) -> nat
    decreases input.len(),
{
    if input.len() == 0 {
        0
    } else {
        image_total(input.drop_last()) + image_parts(input.last().content@)
    }
}

/// Every image of a request without remote ones is handed over to be decoded,
/// in order: as many as the entries count, those of a message behind those of the
/// messages before it.
pub proof fn images_are_all_kept(input: Seq<Message>)
    requires
        msg_entry::first_url(msg_entry::all_parts(input)) is None,
    ensures
        msg_entry::inline_images(msg_entry::all_parts(input)).len() == image_total(input),
        input.len() > 0 ==> {
            let before = msg_entry::inline_images(msg_entry::all_parts(input.drop_last()));
            let last = msg_entry::inline_images(input.last().content@);
            &&& msg_entry::inline_images(msg_entry::all_parts(input)) == before + last
            &&& last.len() == image_parts(input.last().content@)
        },
    decreases input.len(),
{
    if input.len() > 0 {
        let most = input.drop_last();
        let parts = input.last().content@;
        msg_entry::lemma_parts_add(msg_entry::all_parts(most), parts);
        images_are_all_kept(most);
        lemma_inline(parts);
    }
}

proof fn lemma_inline(parts: Seq<ContentPart>)
    requires
        msg_entry::first_url(parts) is None,
    ensures
        msg_entry::inline_images(parts).len() == image_parts(parts),
    decreases parts.len(),
{
    reveal(Seq::filter);
    if parts.len() > 0 {
        lemma_inline(parts.drop_last());
    }
}

/// A remote image is refused wherever it stands.
pub proof fn remote_images_are_refused(input: Seq<Message>, i: int, k: int)
    requires
        0 <= i < input.len(),
        0 <= k < input[i].content@.len(),
        input[i].content@[k]@ is Url,
    ensures
        msg_entry::first_url(msg_entry::all_parts(input)) is Some,
    decreases input.len(),
{
    let most = input.drop_last();
    let parts = input.last().content@;
    msg_entry::lemma_parts_add(msg_entry::all_parts(most), parts);
    if i < most.len() {
        assert(most[i] == input[i]);
        remote_images_are_refused(most, i, k);
    } else {
        lemma_url_found(parts, k);
    }
}

proof fn lemma_url_found(parts: Seq<ContentPart>, k: int)
    requires
        0 <= k < parts.len(),
        parts[k]@ is Url,
    ensures
        msg_entry::first_url(parts) is Some,
    decreases parts.len(),
{
    if k < parts.len() - 1 {
        lemma_url_found(parts.drop_last(), k);
    }
}

// ── repeated errors ──

/// The group of error `a` among the first `n` is the first one whose first
/// member it repeats.
proof fn lemma_group_stays(errors: Seq<ErrorView>, a: int, n: int)
    requires
        0 <= a < n <= errors.len(),
    ensures
        ({
            let j = msg_entry::group_of(errors, msg_entry::grouped(errors, a), a, 0);
            let groups = msg_entry::grouped(errors, n);
            &&& 0 <= j < groups.len()
            &&& groups[j].contains(a)
            &&& msg_entry::repeats(errors[groups[j][0]], errors[a]) || groups[j][0] == a
            &&& forall|k: int|
                0 <= k < j ==> !msg_entry::repeats(errors[#[trigger] groups[k][0]], errors[a])
        }),
    decreases n,
{
    let old = msg_entry::grouped(errors, a);
    let j = msg_entry::group_of(errors, old, a, 0);
    msg_entry::lemma_groups_rise(errors, n);
    msg_entry::lemma_groups_rise(errors, n - 1);
    if n == a + 1 {
        lemma_group_of(errors, old, a, 0);
        let groups = msg_entry::grouped(errors, n);
        if j < old.len() {
            assert(old[j].len() > 0);
            assert(groups[j] == old[j].push(a));
            assert(groups[j][old[j].len() as int] == a);
            assert(groups[j][0] == old[j][0]);
        } else {
            assert(groups[j] == seq![a]);
            assert(groups[j][0] == a);
        }
        assert forall|k: int| 0 <= k < j implies !msg_entry::repeats(
            errors[#[trigger] groups[k][0]],
            errors[a],
        ) by {
            assert(groups[k] == old[k]);
        }
    } else {
        lemma_group_stays(errors, a, n - 1);
        let before = msg_entry::grouped(errors, n - 1);
        let groups = msg_entry::grouped(errors, n);
        let i = msg_entry::group_of(errors, before, n - 1, 0);
        assert(forall|k: int| 0 <= k < before.len() ==> (#[trigger] before[k]).len() > 0);
        assert forall|k: int| 0 <= k < before.len() implies (#[trigger] groups[k])[0]
            == before[k][0] by {
            assert(before[k].len() > 0);
        }
        if 0 <= i < before.len() && i == j {
            let p = choose|p: int| 0 <= p < before[j].len() && before[j][p] == a;
            assert(groups[j][p] == a);
        }
        assert forall|k: int| 0 <= k < j implies !msg_entry::repeats(
            errors[#[trigger] groups[k][0]],
            errors[a],
        ) by {
            assert(groups[k][0] == before[k][0]);
        }
    }
}

/// The group that is found is the first one that fits.
proof fn lemma_group_of(errors: Seq<ErrorView>, groups: Seq<Seq<int>>, i: int, j: int)
    requires
        0 <= j <= groups.len(),
    ensures
        ({
            let g = msg_entry::group_of(errors, groups, i, j);
            &&& j <= g <= groups.len()
            &&& g < groups.len() ==> msg_entry::repeats(errors[groups[g][0]], errors[i])
            &&& forall|k: int|
                j <= k < g ==> !msg_entry::repeats(errors[#[trigger] groups[k][0]], errors[i])
        }),
    decreases groups.len() - j,
{
    if j < groups.len() && !msg_entry::repeats(errors[groups[j][0]], errors[i]) {
        lemma_group_of(errors, groups, i, j + 1);
    }
}

/// A member of a group that is not its newest is masked.
proof fn lemma_older_is_masked(errors: Seq<ErrorView>, groups: Seq<Seq<int>>, n: int, j: int, p: int)
    requires
        0 <= j < n <= groups.len(),
        0 <= p < groups[j].len() - 1,
    ensures
        exists|k: int|
            0 <= k < msg_entry::masks_of(errors, groups, n).len() && (#[trigger]
            msg_entry::masks_of(errors, groups, n)[k]).0 == errors[groups[j][p]].index,
    decreases n,
{
    let before = msg_entry::masks_of(errors, groups, n - 1);
    let here = msg_entry::group_masks(errors, groups[n - 1], groups[n - 1].len() - 1);
    let all = msg_entry::masks_of(errors, groups, n);
    assert(all == before + here);
    if j == n - 1 {
        assert(all[before.len() + p] == here[p]);
    } else {
        lemma_older_is_masked(errors, groups, n - 1, j, p);
        let k = choose|k: int|
            0 <= k < before.len() && (#[trigger] before[k]).0 == errors[groups[j][p]].index;
        assert(all[k] == before[k]);
    }
}

/// The notes of a group of repeats count its attempts from the oldest on, and
/// stand where the attempts stood; the newest has none.
pub proof fn notes_count_the_attempts(errors: Seq<ErrorView>, group: Seq<int>, j: int)
    requires
        0 <= j < group.len() - 1,
    ensures
        ({
            let masks = msg_entry::group_masks(errors, group, group.len() - 1);
            &&& masks.len() == group.len() - 1
            &&& masks[j].0 == errors[group[j]].index
            &&& masks[j].1 == "[same error as below, attempt "@ + text::decimal((j + 1) as nat)
                + " of "@ + text::decimal(group.len()) + "]"@
        }),
{
}

/// Two errors repeat each other when they have the same text, or when at least
/// nine tenths of all their shingles are in both; errors with other texts that
/// share less do not.
pub proof fn repeats_are_nearly_the_same(a: ErrorView, b: ErrorView)
    ensures
        a.text == b.text ==> msg_entry::repeats(a, b),
        ({
            let common = in_both(a.shingles, b.shingles);
            let all = a.shingles.len() + b.shingles.len() - common;
            &&& all > 0 && 10 * common >= 9 * all ==> msg_entry::repeats(a, b)
            &&& a.text != b.text && 10 * common < 9 * all ==> !msg_entry::repeats(a, b)
        }),
{
    lemma_shared(a.shingles, b.shingles);
}

/// How many of the shingles of `a` are in `b` too.
pub open spec fn in_both(a: Seq<u64>, b: Seq<u64>) -> int {
    a.filter(|x: u64| b.contains(x)).len() as int
}

proof fn lemma_shared(a: Seq<u64>, b: Seq<u64>)
    ensures
        msg_entry::shared(a, b) == in_both(a, b),
    decreases a.len(),
{
    reveal(Seq::filter);
    if a.len() > 0 {
        lemma_shared(a.drop_last(), b);
    }
}

/// An error that comes again is masked where it came before: of two errors
/// with the same text, the older one gets a note in place of its text.
pub proof fn repeated_errors_are_masked(errors: Seq<ErrorView>, a: int, b: int)
    requires
        0 <= a < b < errors.len(),
        errors[a].text == errors[b].text,
        errors[a].shingles == errors[b].shingles,
    ensures
        exists|k: int|
            0 <= k < msg_entry::repeat_masks(errors).len() && (#[trigger] msg_entry::repeat_masks(
                errors,
            )[k]).0 == errors[a].index,
{
    let n = errors.len() as int;
    let groups = msg_entry::grouped(errors, n);
    let at = msg_entry::group_of(errors, msg_entry::grouped(errors, a), a, 0);
    let bt = msg_entry::group_of(errors, msg_entry::grouped(errors, b), b, 0);
    lemma_group_stays(errors, a, n);
    lemma_group_stays(errors, b, n);
    msg_entry::lemma_groups_rise(errors, n);
    if at < bt {
        assert(!msg_entry::repeats(errors[groups[at][0]], errors[b]));
    }
    if bt < at {
        assert(!msg_entry::repeats(errors[groups[bt][0]], errors[a]));
        if groups[bt][0] == b {
            assert(msg_entry::repeats(errors[b], errors[a]));
        }
    }
    assert(at == bt);
    let p = choose|p: int| 0 <= p < groups[at].len() && groups[at][p] == a;
    let q = choose|q: int| 0 <= q < groups[at].len() && groups[at][q] == b;
    if p >= q {
        if q < p {
            assert(groups[at][q] < groups[at][p]);
        }
    }
    lemma_older_is_masked(errors, groups, groups.len() as int, at, p);
    let masks = msg_entry::masks_of(errors, groups, groups.len() as int);
    let k = choose|k: int| 0 <= k < masks.len() && (#[trigger] masks[k]).0 == errors[a].index;
    assert(msg_entry::repeat_masks(errors)[k].0 == errors[a].index);
}

// ── streaks, tallies and the working directory ──

/// How many of the messages `a..n` are tool answers.
pub open spec fn answers_between(input: Seq<Message>, tools_active: bool, a: int, n: int) -> nat
    decreases n - a,
{
    if n <= a {
        0
    } else {
        answers_between(input, tools_active, a, n - 1) + if tools_active
            && input[n - 1].role is Tool {
            1nat
        } else {
            0nat
        }
    }
}

/// A streak counts the tool answers since the last success: when all of those
/// from `a` on are errors and the one before it is a success, or there is none,
/// the streak is their number.
pub proof fn streaks_count_errors_since_success(
    input: Seq<Message>,
    tools_active: bool,
    errors: Seq<bool>,
    a: int,
    n: int,
)
    requires
        0 <= a <= n <= input.len(),
        a == 0 || (tools_active && input[a - 1].role is Tool && !errors[a - 1]),
        forall|k: int|
            a <= k < n && tools_active && (#[trigger] input[k]).role is Tool ==> errors[k],
    ensures
        msg_entry::error_streak(input, tools_active, errors, n) == answers_between(
            input,
            tools_active,
            a,
            n,
        ),
    decreases n,
{
    if n > a {
        streaks_count_errors_since_success(input, tools_active, errors, a, n - 1);
        assert(input[n - 1].role is Tool && tools_active ==> errors[n - 1]);
    }
}

/// The productive tool calls are among all that were made: none when no flag is
/// set, and all of them when every flag is.
pub proof fn productive_calls_are_among_all(
    input: Seq<Message>,
    productive: Seq<Vec<bool>>,
    n: int,
)
    requires
        0 <= n <= input.len(),
        productive.len() == input.len(),
        forall|i: int|
            0 <= i < input.len() ==> (#[trigger] productive[i])@.len()
                == input[i].tool_calls@.len(),
    ensures
        msg_entry::productive_calls(input, productive, n) <= msg_entry::calls_made(input, n),
        (forall|i: int, k: int|
            0 <= i < n && 0 <= k < productive[i]@.len() ==> #[trigger] productive[i]@[k])
            ==> msg_entry::productive_calls(input, productive, n) == msg_entry::calls_made(
            input,
            n,
        ),
        (forall|i: int, k: int|
            0 <= i < n && 0 <= k < productive[i]@.len() ==> !#[trigger] productive[i]@[k])
            ==> msg_entry::productive_calls(input, productive, n) == 0,
    decreases n,
{
    if n > 0 {
        productive_calls_are_among_all(input, productive, n - 1);
        let flags = productive[n - 1]@;
        lemma_flags(flags, flags.len() as int);
        if forall|i: int, k: int|
            0 <= i < n && 0 <= k < productive[i]@.len() ==> #[trigger] productive[i]@[k] {
            assert(forall|k: int| 0 <= k < flags.len() ==> #[trigger] flags[k]);
        }
        if forall|i: int, k: int|
            0 <= i < n && 0 <= k < productive[i]@.len() ==> !#[trigger] productive[i]@[k] {
            assert(forall|k: int| 0 <= k < flags.len() ==> !#[trigger] flags[k]);
        }
    }
}

proof fn lemma_flags(flags: Seq<bool>, n: int)
    requires
        0 <= n <= flags.len(),
    ensures
        msg_entry::flags_set(flags, n) <= n,
        (forall|k: int| 0 <= k < n ==> #[trigger] flags[k]) ==> msg_entry::flags_set(flags, n) == n,
        (forall|k: int| 0 <= k < n ==> !#[trigger] flags[k]) ==> msg_entry::flags_set(flags, n)
            == 0,
    decreases n,
{
    if n > 0 {
        lemma_flags(flags, n - 1);
    }
}

/// Every tool call of an assistant message is tallied.
pub proof fn every_call_is_tallied(input: Seq<Message>, n: int)
    requires
        0 < n <= input.len(),
    ensures
        input[n - 1].role is Assistant ==> msg_entry::calls_made(input, n) == msg_entry::calls_made(
            input,
            n - 1,
        ) + input[n - 1].tool_calls@.len(),
        !(input[n - 1].role is Assistant) ==> msg_entry::calls_made(input, n)
            == msg_entry::calls_made(input, n - 1),
        msg_entry::calls_made(input, 0) == 0,
{
}

/// The working directory of a line that names one is what stands behind its first
/// colon, without the white space and the quotes around it.
pub proof fn directories_stand_behind_the_colon(
    head: Seq<char>,
    gap: Seq<char>,
    path: Seq<char>,
    lower: Seq<char>,
)
    requires
        msg_entry::names_directory(lower),
        !head.contains(':'),
        forall|k: int| 0 <= k < gap.len() ==> text::is_space(#[trigger] gap[k]),
        path.len() > 0,
        !text::is_space(path[0]) && !text::is_space(path.last()),
        path[0] != '`' && path[0] != '"' && path[0] != '\'',
        path.last() != '`' && path.last() != '"' && path.last() != '\'',
    ensures
        msg_entry::directory_behind(head + seq![':'] + gap + path, lower) == Some(path),
{
    let line = head + seq![':'] + gap + path;
    text::lemma_next_char(line, ':', 0);
    let colon = text::next_char(line, ':', 0);
    assert(line[head.len() as int] == ':');
    assert forall|k: int| 0 <= k < head.len() implies line[k] != ':' by {
        assert(line[k] == head[k]);
        assert(head.contains(head[k]));
    }
    assert(colon == head.len());
    let rest = line.subrange(colon + 1, line.len() as int);
    assert(rest =~= gap + path);
    text::trimming_takes_only_space(rest);
    let a = text::skip_space(rest, 0, rest.len() as int);
    let b = text::skip_space_back(rest, a, rest.len() as int);
    assert(rest[gap.len() as int] == path[0]);
    assert(rest[rest.len() - 1] == path.last());
    assert(a == gap.len()) by {
        if a < gap.len() {
            assert(rest[a] == gap[a]);
            if b > a {
                assert(text::trim(rest)[0] == rest[a]);
            } else {
                assert(text::is_space(rest[rest.len() - 1]));
            }
        }
        if a > gap.len() {
            assert(text::is_space(rest[gap.len() as int]));
        }
    }
    assert(b == rest.len()) by {
        if b < rest.len() {
            assert(text::is_space(rest[rest.len() - 1]));
        }
    }
    assert(text::trim(rest) =~= path);
}

/// The first line that names a working directory is the one that counts.
pub proof fn first_named_directory_counts(s: Seq<char>, lines: Seq<(int, int)>, k: int)
    requires
        0 <= k < lines.len(),
        msg_entry::line_directory(s.subrange(lines[k].0, lines[k].1)) is Some,
        forall|j: int|
            0 <= j < k ==> msg_entry::line_directory(
                s.subrange((#[trigger] lines[j]).0, lines[j].1),
            ) is None,
    ensures
        msg_entry::first_directory(s, lines, 0) == msg_entry::line_directory(
            s.subrange(lines[k].0, lines[k].1),
        ),
{
    lemma_first_directory(s, lines, 0, k);
}

proof fn lemma_first_directory(s: Seq<char>, lines: Seq<(int, int)>, i: int, k: int)
    requires
        0 <= i <= k < lines.len(),
        msg_entry::line_directory(s.subrange(lines[k].0, lines[k].1)) is Some,
        forall|j: int|
            i <= j < k ==> msg_entry::line_directory(
                s.subrange((#[trigger] lines[j]).0, lines[j].1),
            ) is None,
    ensures
        msg_entry::first_directory(s, lines, i) == msg_entry::line_directory(
            s.subrange(lines[k].0, lines[k].1),
        ),
    decreases k - i,
{
    if i < k {
        assert(lines[i].0 == lines[i].0);
        lemma_first_directory(s, lines, i + 1, k);
    }
}

/// With tools in use, a leading system entry tells the model its working
/// directory behind its own text; without tools, or without a directory, every
/// entry stays.
pub proof fn directories_are_told(entries: Seq<EntryView>, cwd: Seq<char>)
    requires
        entries.len() > 0,
    ensures
        entries[0].role == "system"@ ==> msg_entry::with_directory(entries, true, Some(cwd))[0].content
            == entries[0].content + "\n<environment>\nworking_directory: "@ + cwd
            + "\n</environment>"@,
        msg_entry::with_directory(entries, false, Some(cwd)) == entries,
        msg_entry::with_directory(entries, true, None) == entries,
        forall|i: int|
            0 < i < entries.len() ==> #[trigger] msg_entry::with_directory(
                entries,
                true,
                Some(cwd),
            )[i] == entries[i],
{
    assert(entries[0].content + ("\n<environment>\nworking_directory: "@ + cwd
        + "\n</environment>"@) =~= entries[0].content + "\n<environment>\nworking_directory: "@ + cwd
        + "\n</environment>"@);
}

/// A system message counts as absent only when it is blank or a bare label: one
/// with any text behind its colon, with a digit, or longer than a label is an
/// instruction.
pub proof fn instructions_are_not_vacuous(content: Seq<char>, k: int)
    ensures
        ({
            let t = text::trim(content);
            &&& t.len() == 0 ==> msg_entry::is_vacuous(content)
            &&& t.len() > 0 && t.last() != ':' ==> !msg_entry::is_vacuous(content)
            &&& text::byte_len(t) > 32 ==> !msg_entry::is_vacuous(content)
            &&& 0 <= k < t.len() - 1 && !('a' <= t[k] <= 'z' || 'A' <= t[k] <= 'Z' || t[k] == ' '
                || t[k] == '_' || t[k] == '-') ==> !msg_entry::is_vacuous(content)
        }),
{
    let t = text::trim(content);
    if t.len() == 0 {
        assert(t =~= Seq::<char>::empty());
    }
}

/// The hints on an error reach the model: the entry of an erroneous tool answer
/// begins with its hinted text, unless a newer repeat of it has taken its place.
pub proof fn hints_reach_the_model(
    input: Seq<Message>,
    strip: bool,
    dedup: bool,
    o: Observations,
    i: int,
)
    requires
        input.len() <= usize::MAX,
        input.len() - msg_entry::final_entries(input, true, strip, dedup, o).len() <= i
            < input.len(),
        input[i].role is Tool,
        o.errors@[i],
        !dedup || forall|k: int|
            0 <= k < msg_entry::repeat_masks(
                msg_entry::errors_among(
                    msg_entry::tool_results(input, true, o, input.len() as int),
                ),
            ).len() ==> (#[trigger] msg_entry::repeat_masks(
                msg_entry::errors_among(
                    msg_entry::tool_results(input, true, o, input.len() as int),
                ),
            )[k]).0 != i,
    ensures
        ({
            let entries = msg_entry::final_entries(input, true, strip, dedup, o);
            o.hinted@[i]@.is_prefix_of(entries[i - (input.len() - entries.len())].content)
        }),
{
    entries_keep_their_messages(input, true, strip, dedup, o);
    let n = input.len() as int;
    let plain = msg_entry::plain_entries(input, true, strip, o, n);
    let masked = msg_entry::masked_entries(input, true, strip, dedup, o);
    let masks = msg_entry::repeat_masks(
        msg_entry::errors_among(msg_entry::tool_results(input, true, o, n)),
    );
    lemma_masks_alike(plain, masks);
    assert(masked[i] == plain[i]);
    assert(masked[i].content == o.hinted@[i]@);
    let placed = msg_entry::with_directory(masked, true, msg_entry::directory_hint(masked));
    let kept = msg_entry::without_vacuous(placed);
    let entries = msg_entry::final_entries(input, true, strip, dedup, o);
    let skipped = input.len() - entries.len();
    lemma_masked_entry(input, true, strip, dedup, o, i);
    assert(kept[i - skipped] == placed[i]);
    lemma_last_tool(kept, kept.len() as int);
}

/// A bare label counts as absent, with white space around it or not: letters,
/// spaces, underscores and dashes in front of a single colon at the end, up to
/// 32 bytes.
pub proof fn bare_labels_are_vacuous(content: Seq<char>)
    requires
        ({
            let t = text::trim(content);
            &&& 2 <= t.len()
            &&& text::byte_len(t) <= 32
            &&& t.last() == ':'
            &&& forall|k: int|
                0 <= k < t.len() - 1 ==> ('a' <= #[trigger] t[k] <= 'z' || 'A' <= t[k] <= 'Z' || t[k]
                    == ' ' || t[k] == '_' || t[k] == '-')
        }),
    ensures
        msg_entry::is_vacuous(content),
{
}

/// A path loses the quotes and backticks around it, and nothing else.
pub proof fn paths_lose_their_quotes(s: Seq<char>)
    ensures
        ({
            let t = msg_entry::without_quotes(s);
            &&& t.len() <= s.len()
            &&& t.len() > 0 ==> {
                &&& t[0] != '`' && t[0] != '"' && t[0] != '\''
                &&& t.last() != '`' && t.last() != '"' && t.last() != '\''
            }
            &&& s.len() > 0 && s[0] != '`' && s[0] != '"' && s[0] != '\'' && s.last() != '`'
                && s.last() != '"' && s.last() != '\'' ==> t == s
            &&& msg_entry::without_quotes(seq!['"'] + s + seq!['"']) == t
            &&& msg_entry::without_quotes(seq!['`'] + s + seq!['`']) == t
        }),
    decreases s.len(),
{
    if s.len() > 0 && msg_entry::is_quote(s[0]) {
        paths_lose_their_quotes(s.subrange(1, s.len() as int));
    } else if s.len() > 0 && msg_entry::is_quote(s.last()) {
        paths_lose_their_quotes(s.drop_last());
    }
    lemma_quoted(s, '"');
    lemma_quoted(s, '`');
}

/// Quotes around a text are taken off with those that it has.
proof fn lemma_quoted(s: Seq<char>, q: char)
    requires
        msg_entry::is_quote(q),
    ensures
        msg_entry::without_quotes(seq![q] + s + seq![q]) == msg_entry::without_quotes(s),
{
    let all = seq![q] + s + seq![q];
    assert(all.subrange(1, all.len() as int) =~= s + seq![q]);
    lemma_quote_behind(s, q);
}

proof fn lemma_quote_behind(s: Seq<char>, q: char)
    requires
        msg_entry::is_quote(q),
    ensures
        msg_entry::without_quotes(s + seq![q]) == msg_entry::without_quotes(s),
    decreases s.len(),
{
    let all = s + seq![q];
    assert(all.last() == q);
    assert(all.drop_last() =~= s);
    if s.len() == 0 {
        assert(all.subrange(1, 1) =~= Seq::<char>::empty());
        assert(s =~= Seq::<char>::empty());
    } else if msg_entry::is_quote(s[0]) {
        assert(all[0] == s[0]);
        assert(all.subrange(1, all.len() as int) =~= s.subrange(1, s.len() as int) + seq![q]);
        lemma_quote_behind(s.subrange(1, s.len() as int), q);
    } else {
        assert(all[0] == s[0]);
    }
}

/// A line names the working directory in any of three ways.
pub proof fn directories_are_named_in_three_ways(lower: Seq<char>)
    ensures
        text::contains_text(lower, "working directory"@) ==> msg_entry::names_directory(lower),
        text::contains_text(lower, "working_directory"@) ==> msg_entry::names_directory(lower),
        text::contains_text(lower, "cwd:"@) ==> msg_entry::names_directory(lower),
{
}

/// The working directory is read from the first system entry, wherever that
/// stands, and from no other.
pub proof fn first_system_entry_names_the_directory(entries: Seq<EntryView>, i: int)
    requires
        0 <= i < entries.len(),
        entries[i].role == "system"@,
        forall|k: int| 0 <= k < i ==> (#[trigger] entries[k]).role != "system"@,
    ensures
        msg_entry::directory_hint(entries) == msg_entry::first_directory(
            entries[i].content,
            text::lines_from(entries[i].content, 0),
            0,
        ),
{
    lemma_first_system(entries, 0, i);
}

proof fn lemma_first_system(entries: Seq<EntryView>, k: int, i: int)
    requires
        0 <= k <= i < entries.len(),
        entries[i].role == "system"@,
        forall|j: int| k <= j < i ==> (#[trigger] entries[j]).role != "system"@,
    ensures
        msg_entry::first_system(entries, k) == i,
    decreases i - k,
{
    if k < i {
        assert(entries[k].role != "system"@);
        lemma_first_system(entries, k + 1, i);
    }
}

/// The results of the first messages come first among all.
proof fn lemma_results_grow(
    input: Seq<Message>,
    tools_active: bool,
    o: Observations,
    m: int,
    n: int,
)
    requires
        0 <= m <= n,
    ensures
        ({
            let some = msg_entry::tool_results(input, tools_active, o, m);
            let all = msg_entry::tool_results(input, tools_active, o, n);
            &&& some.len() <= all.len()
            &&& forall|k: int| 0 <= k < some.len() ==> #[trigger] all[k] == some[k]
        }),
    decreases n - m,
{
    if m < n {
        lemma_results_grow(input, tools_active, o, m, n - 1);
    }
}

/// The errors among the first results come first among all.
proof fn lemma_errors_grow(results: Seq<ResultView>, m: int, n: int)
    requires
        0 <= m <= n <= results.len(),
    ensures
        ({
            let some = msg_entry::errors_among(results.take(m));
            let all = msg_entry::errors_among(results.take(n));
            &&& some.len() <= all.len()
            &&& forall|k: int| 0 <= k < some.len() ==> #[trigger] all[k] == some[k]
        }),
    decreases n - m,
{
    if m < n {
        lemma_errors_grow(results, m, n - 1);
        assert(results.take(n).drop_last() =~= results.take(n - 1));
    }
}

/// Where result `k`, an error, stands among the errors.
proof fn lemma_error_stands(results: Seq<ResultView>, k: int)
    requires
        0 <= k < results.len(),
        results[k].is_error,
    ensures
        ({
            let at = msg_entry::errors_among(results.take(k)).len() as int;
            let all = msg_entry::errors_among(results);
            &&& at < all.len()
            &&& all[at].index == results[k].index
            &&& all[at].text == text::trim(results[k].text)
            &&& all[at].shingles == results[k].shingles
            &&& msg_entry::errors_among(results.take(k + 1)).len() == at + 1
        }),
{
    assert(results.take(k + 1).drop_last() =~= results.take(k));
    assert(results.take(k + 1).last() == results[k]);
    lemma_errors_grow(results, k + 1, results.len() as int);
    assert(results.take(results.len() as int) =~= results);
    let at = msg_entry::errors_among(results.take(k)).len() as int;
    assert(msg_entry::errors_among(results)[at] == msg_entry::errors_among(
        results.take(k + 1),
    )[at]);
}

/// The text is a note on a repeated error.
pub open spec fn is_note(t: Seq<char>) -> bool {
    exists|a: nat, b: nat| t == #[trigger] msg_entry::repeat_note(a, b)
}

proof fn lemma_masks_are_notes(errors: Seq<ErrorView>, groups: Seq<Seq<int>>, n: int)
    requires
        0 <= n <= groups.len(),
    ensures
        forall|k: int|
            0 <= k < msg_entry::masks_of(errors, groups, n).len() ==> is_note(
                (#[trigger] msg_entry::masks_of(errors, groups, n)[k]).1,
            ),
    decreases n,
{
    if n > 0 {
        lemma_masks_are_notes(errors, groups, n - 1);
        let before = msg_entry::masks_of(errors, groups, n - 1);
        let group = groups[n - 1];
        let here = msg_entry::group_masks(errors, group, group.len() - 1);
        let all = msg_entry::masks_of(errors, groups, n);
        assert(all == before + here);
        assert forall|k: int| 0 <= k < all.len() implies is_note((#[trigger] all[k]).1) by {
            if k < before.len() {
                assert(all[k] == before[k]);
            } else {
                let j = k - before.len();
                assert(all[k] == here[j]);
                assert(here[j].1 == msg_entry::repeat_note((j + 1) as nat, group.len()));
            }
        }
    }
}

/// An entry that some mask names has the text of one.
proof fn lemma_masked_text(entries: Seq<EntryView>, masks: Seq<(usize, Seq<char>)>, i: int)
    requires
        0 <= i < entries.len(),
        forall|k: int| 0 <= k < masks.len() ==> is_note((#[trigger] masks[k]).1),
        exists|k: int| 0 <= k < masks.len() && (#[trigger] masks[k]).0 == i,
    ensures
        is_note(msg_entry::with_masks(entries, masks)[i].content),
    decreases masks.len(),
{
    let most = masks.drop_last();
    lemma_masks_alike(entries, most);
    assert(masks[masks.len() - 1] == masks.last());
    if masks.last().0 != i {
        let k = choose|k: int| 0 <= k < masks.len() && (#[trigger] masks[k]).0 == i;
        assert(most[k].0 == i);
        assert forall|j: int| 0 <= j < most.len() implies is_note((#[trigger] most[j]).1) by {
            assert(most[j] == masks[j]);
        }
        lemma_masked_text(entries, most, i);
    }
}

/// A tool error that comes again later is shown only there: in its old place the
/// model reads a note.
pub proof fn repeated_errors_become_notes(
    input: Seq<Message>,
    strip: bool,
    o: Observations,
    i: int,
    j: int,
)
    requires
        0 <= i < j < input.len() <= usize::MAX,
        input[i].role is Tool,
        input[j].role is Tool,
        o.errors@[i],
        o.errors@[j],
        text::trim(said_in(input[i])) == text::trim(said_in(input[j])),
        o.shingles@[i]@ == o.shingles@[j]@,
    ensures
        ({
            let entries = msg_entry::final_entries(input, true, strip, true, o);
            let skipped = input.len() - entries.len();
            &&& skipped <= i
            &&& is_note(entries[i - skipped].content)
        }),
{
    let n = input.len() as int;
    let results = msg_entry::tool_results(input, true, o, n);
    let errors = msg_entry::errors_among(results);
    let masks = msg_entry::repeat_masks(errors);
    let plain = msg_entry::plain_entries(input, true, strip, o, n);
    lemma_said(input[i]);
    lemma_said(input[j]);
    let p = msg_entry::tool_results(input, true, o, i).len() as int;
    let q = msg_entry::tool_results(input, true, o, j).len() as int;
    lemma_results_grow(input, true, o, i + 1, n);
    lemma_results_grow(input, true, o, j + 1, n);
    lemma_results_grow(input, true, o, i + 1, j);
    assert(results[p] == msg_entry::tool_results(input, true, o, i + 1)[p]);
    assert(results[q] == msg_entry::tool_results(input, true, o, j + 1)[q]);
    assert(p < q);
    lemma_error_stands(results, p);
    lemma_error_stands(results, q);
    lemma_errors_grow(results, p + 1, q);
    let a = msg_entry::errors_among(results.take(p)).len() as int;
    let b = msg_entry::errors_among(results.take(q)).len() as int;
    assert(a < b);
    repeated_errors_are_masked(errors, a, b);
    let k = choose|k: int| 0 <= k < masks.len() && (#[trigger] masks[k]).0 == errors[a].index;
    assert(masks[k].0 == i);
    let groups = msg_entry::grouped(errors, errors.len() as int);
    lemma_masks_are_notes(errors, groups, groups.len() as int);
    lemma_masked_text(plain, masks, i);
    let masked = msg_entry::masked_entries(input, true, strip, true, o);
    assert(is_note(masked[i].content));
    reveal_strlit("tool");
    reveal_strlit("system");
    assert("tool"@.len() == 4 && "system"@.len() == 6);
    entries_keep_their_messages(input, true, strip, true, o);
    lemma_masked_entry(input, true, strip, true, o, i);
    lemma_masked_entry(input, true, strip, true, o, j);
    let placed = msg_entry::with_directory(masked, true, msg_entry::directory_hint(masked));
    let kept = msg_entry::without_vacuous(placed);
    let entries = msg_entry::final_entries(input, true, strip, true, o);
    let skipped = input.len() - entries.len();
    assert(masked[i].role == "tool"@ && masked[j].role == "tool"@);
    assert(placed[i] == masked[i] && placed[j] == masked[j]);
    assert(kept[i - skipped] == placed[i] && kept[j - skipped] == placed[j]);
    lemma_last_tool(kept, kept.len() as int);
    assert(entries[i - skipped] == kept[i - skipped]);
}

/// What is to be told to the model reaches it: with tools in use, the nudge ends
/// the last tool answer, and the working directory that the messages name ends a
/// leading system entry.
pub proof fn notes_reach_the_model(
    input: Seq<Message>,
    strip: bool,
    dedup: bool,
    o: Observations,
    k: int,
)
    requires
        input.len() <= usize::MAX,
    ensures
        ({
            let entries = msg_entry::final_entries(input, true, strip, dedup, o);
            let masked = msg_entry::masked_entries(input, true, strip, dedup, o);
            &&& 0 <= k < entries.len() && entries[k].role == "tool"@ && (forall|j: int|
                k < j < entries.len() ==> (#[trigger] entries[j]).role != "tool"@) ==> (
            o.wander_hint matches Some(h) ==> h@.is_suffix_of(entries[k].content))
            &&& msg_entry::directory_hint(masked) matches Some(cwd) ==> masked.len() > 0
                && masked[0].role == "system"@ ==> entries.len() > 0 && (
            "\n<environment>\nworking_directory: "@ + cwd + "\n</environment>"@).is_suffix_of(
                entries[0].content,
            )
        }),
{
    reveal_strlit("tool");
    reveal_strlit("system");
    assert("tool"@.len() == 4 && "system"@.len() == 6);
    let masked = msg_entry::masked_entries(input, true, strip, dedup, o);
    let hint = msg_entry::directory_hint(masked);
    let placed = msg_entry::with_directory(masked, true, hint);
    let kept = msg_entry::without_vacuous(placed);
    let entries = msg_entry::final_entries(input, true, strip, dedup, o);
    let at = msg_entry::last_tool(kept, kept.len() as int);
    lemma_last_tool(kept, kept.len() as int);
    if 0 <= k < entries.len() && entries[k].role == "tool"@ && (forall|j: int|
        k < j < entries.len() ==> (#[trigger] entries[j]).role != "tool"@) {
        if let Some(h) = o.wander_hint {
            assert(kept[k].role == entries[k].role);
            assert(at >= k);
            if at > k {
                assert(entries[at].role == kept[at].role);
            }
            assert(entries[k].content == kept[k].content + h@);
            assert(entries[k].content.subrange(
                kept[k].content.len() as int,
                entries[k].content.len() as int,
            ) =~= h@);
        }
    }
    if let Some(cwd) = hint {
        if masked.len() > 0 && masked[0].role == "system"@ {
            let block = msg_entry::environment_block(cwd);
            lemma_told_is_not_vacuous(masked[0].content, cwd);
            assert(placed[0].content == masked[0].content + block);
            assert(kept == placed);
            assert(entries[0] == kept[0]);
            let c = entries[0].content;
            assert(c.subrange(masked[0].content.len() as int, c.len() as int) =~= block);
        }
    }
}

/// The remote image that a refusal names is the first one of the request.
pub proof fn first_remote_image_is_named(parts: Seq<ContentPart>, i: int)
    requires
        0 <= i < parts.len(),
        parts[i]@ is Url,
        forall|k: int| 0 <= k < i ==> !((#[trigger] parts[k])@ is Url),
    ensures
        msg_entry::first_url(parts) == Some(parts[i]@->Url_0),
    decreases parts.len(),
{
    let most = parts.drop_last();
    if i < most.len() {
        assert(most[i] == parts[i]);
        assert forall|k: int| 0 <= k < i implies !((#[trigger] most[k])@ is Url) by {
            assert(most[k] == parts[k]);
        }
        first_remote_image_is_named(most, i);
    } else {
        lemma_no_url(most);
    }
}

proof fn lemma_no_url(parts: Seq<ContentPart>)
    requires
        forall|k: int| 0 <= k < parts.len() ==> !((#[trigger] parts[k])@ is Url),
    ensures
        msg_entry::first_url(parts) is None,
    decreases parts.len(),
{
    if parts.len() > 0 {
        let most = parts.drop_last();
        assert forall|k: int| 0 <= k < most.len() implies !((#[trigger] most[k])@ is Url) by {
            assert(most[k] == parts[k]);
        }
        lemma_no_url(most);
        assert(!(parts[parts.len() - 1]@ is Url));
    }
}

/// The failure that refuses a request's images is the first one.
pub proof fn first_failure_is_reported<T>(
    results: Seq<Result<DecodedImage<T>, String>>,
    i: int,
)
    requires
        0 <= i <= results.len(),
    ensures
        ({
            let k = msg_entry::first_failure(results, i);
            &&& i <= k <= results.len()
            &&& k < results.len() ==> results[k] is Err
            &&& forall|j: int| i <= j < k ==> (#[trigger] results[j]) is Ok
        }),
    decreases results.len() - i,
{
    if i < results.len() && results[i] is Ok {
        first_failure_is_reported(results, i + 1);
    }
}

/// A refused remote image is named up to 120 characters of its URL.
pub proof fn refusals_name_the_image(url: Seq<char>)
    ensures
        ({
            let head = "image URLs are not fetched by this server (got '"@;
            let t = msg_entry::url_refusal(url);
            &&& t.take(head.len() as int) == head
            &&& url.len() <= 120 ==> t.subrange(
                head.len() as int,
                (head.len() + url.len()) as int,
            ) == url
            &&& url.len() > 120 ==> t.subrange(head.len() as int, head.len() as int + 120)
                == url.take(120)
        }),
{
    let head = "image URLs are not fetched by this server (got '"@;
    let t = msg_entry::url_refusal(url);
    assert(t.take(head.len() as int) =~= head);
    if url.len() <= 120 {
        assert(url.take(url.len() as int) =~= url);
        assert(t.subrange(head.len() as int, (head.len() + url.len()) as int) =~= url);
    } else {
        assert(t.subrange(head.len() as int, head.len() as int + 120) =~= url.take(120));
    }
}

} // verus!
