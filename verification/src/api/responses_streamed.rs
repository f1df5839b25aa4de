//! What a client of the Responses API reads in the events of a stream, and that
//! it is what was generated.

use crate::api::responses_stream;
use crate::api::responses_stream::StreamView;
use crate::citation;
use crate::ir::response::FinishView;
use crate::ir::stream::StreamDelta;
use crate::json;
use crate::json::JsonView;
use crate::openai::annotations;
use crate::openai::responses::{EventView, ItemView};
use crate::text;
use vstd::prelude::*;
use vstd::string::*;

verus! {

// ── what is generated ──

/// The answer text in a run of deltas.
pub open spec fn answer_in(deltas: Seq<StreamDelta>) -> Seq<char>
    decreases deltas.len(),
{
    if deltas.len() == 0 {
        Seq::empty()
    } else {
        answer_in(deltas.drop_last()) + match deltas.last() {
            StreamDelta::Content { text, .. } => text@,
            _ => Seq::empty(),
        }
    }
}

/// The argument text in a run of deltas.
pub open spec fn args_in(deltas: Seq<StreamDelta>) -> Seq<char>
    decreases deltas.len(),
{
    if deltas.len() == 0 {
        Seq::empty()
    } else {
        args_in(deltas.drop_last()) + match deltas.last() {
            StreamDelta::ToolCallArgs { fragment, .. } => fragment@,
            _ => Seq::empty(),
        }
    }
}

/// A tool call with this id and name starts among the deltas.
pub open spec fn starts_call(deltas: Seq<StreamDelta>, id: Seq<char>, name: Seq<char>) -> bool {
    exists|i: int|
        0 <= i < deltas.len() && (#[trigger] deltas[i] matches StreamDelta::ToolCallStart {
            id: call,
            name: function,
            ..
        } && call@ == id && function@ == name)
}

/// Some tool call starts among the first `n` deltas.
pub open spec fn call_starts_before(deltas: Seq<StreamDelta>, n: int) -> bool {
    exists|i: int| 0 <= i < n && (#[trigger] deltas[i]) is ToolCallStart
}

/// No argument text comes before a tool call has started.
pub open spec fn args_follow_starts(deltas: Seq<StreamDelta>) -> bool {
    forall|n: int|
        0 <= n < deltas.len() && (#[trigger] deltas[n]) is ToolCallArgs ==> call_starts_before(
            deltas,
            n,
        )
}

// ── what a client reads ──

/// The text fragments in `events`, one after the other.
pub open spec fn texts_sent(events: Seq<EventView>) -> Seq<char>
    decreases events.len(),
{
    if events.len() == 0 {
        Seq::empty()
    } else {
        texts_sent(events.drop_last()) + match events.last() {
            EventView::TextDelta { delta, .. } => delta,
            _ => Seq::empty(),
        }
    }
}

/// The text fragments in `events` for the item with id `id`.
pub open spec fn texts_for(events: Seq<EventView>, id: Seq<char>) -> Seq<char>
    decreases events.len(),
{
    if events.len() == 0 {
        Seq::empty()
    } else {
        texts_for(events.drop_last(), id) + match events.last() {
            EventView::TextDelta { item_id, delta, .. } => if item_id == id {
                delta
            } else {
                Seq::empty()
            },
            _ => Seq::empty(),
        }
    }
}

/// The argument fragments in `events`, one after the other.
pub open spec fn args_sent(events: Seq<EventView>) -> Seq<char>
    decreases events.len(),
{
    if events.len() == 0 {
        Seq::empty()
    } else {
        args_sent(events.drop_last()) + match events.last() {
            EventView::ArgsDelta { delta, .. } => delta,
            _ => Seq::empty(),
        }
    }
}

/// The argument fragments in `events` for the item with id `id`.
pub open spec fn args_for(events: Seq<EventView>, id: Seq<char>) -> Seq<char>
    decreases events.len(),
{
    if events.len() == 0 {
        Seq::empty()
    } else {
        args_for(events.drop_last(), id) + match events.last() {
            EventView::ArgsDelta { item_id, delta, .. } => if item_id == id {
                delta
            } else {
                Seq::empty()
            },
            _ => Seq::empty(),
        }
    }
}

/// The id of an item.
pub open spec fn id_of(item: ItemView) -> Seq<char> {
    match item {
        ItemView::Message { id, .. } => id,
        ItemView::FunctionCall { id, .. } => id,
    }
}

/// The events add an item with id `id` in place `index`.
pub open spec fn was_added(events: Seq<EventView>, index: usize, id: Seq<char>) -> bool {
    exists|i: int|
        0 <= i < events.len() && (#[trigger] events[i] matches EventView::ItemAdded {
            index: place,
            item,
            ..
        } && place == index && id_of(item) == id)
}

/// The event fits those before it: text goes to an item that was added, and
/// whatever is reported done holds just what was sent for it.
pub open spec fn fits(before: Seq<EventView>, e: EventView) -> bool {
    match e {
        EventView::TextDelta { item_id, index, .. } => was_added(before, index, item_id),
        EventView::TextDone { item_id, index, text, .. } => {
            &&& was_added(before, index, item_id)
            &&& text == texts_for(before, item_id)
        },
        EventView::ArgsDone { item_id, index, arguments, .. } => {
            &&& was_added(before, index, item_id)
            &&& arguments == args_for(before, item_id)
        },
        EventView::ItemDone { index, item, .. } => match item {
            ItemView::Message { id, status, role, content } => {
                &&& was_added(before, index, id)
                &&& status == "completed"@
                &&& role == "assistant"@
                &&& content.len() == 1
                &&& content[0].text == texts_for(before, id)
                &&& content[0].annotations == annotations::unless_empty(
                    citation::all_citations(texts_for(before, id)),
                )
            },
            ItemView::FunctionCall { id, arguments, status, .. } => {
                &&& was_added(before, index, id)
                &&& status == "completed"@
                &&& arguments == args_for(before, id)
            },
        },
        _ => true,
    }
}

/// Every event fits those before it.
pub open spec fn all_fit(events: Seq<EventView>) -> bool
    decreases events.len(),
{
    events.len() > 0 ==> all_fit(events.drop_last()) && fits(events.drop_last(), events.last())
}

// ── growing lists of events ──

proof fn lemma_push(events: Seq<EventView>, e: EventView)
    ensures
        forall|id: Seq<char>| #[trigger]
            texts_for(events.push(e), id) == texts_for(events, id) + (match e {
                EventView::TextDelta { item_id, delta, .. } => if item_id == id {
                    delta
                } else {
                    Seq::empty()
                },
                _ => Seq::empty(),
            }),
        forall|id: Seq<char>| #[trigger]
            args_for(events.push(e), id) == args_for(events, id) + (match e {
                EventView::ArgsDelta { item_id, delta, .. } => if item_id == id {
                    delta
                } else {
                    Seq::empty()
                },
                _ => Seq::empty(),
            }),
        forall|index: usize, id: Seq<char>|
            was_added(events, index, id) ==> #[trigger] was_added(events.push(e), index, id),
        e matches EventView::ItemAdded { index, item, .. } ==> was_added(
            events.push(e),
            index,
            id_of(item),
        ),
        all_fit(events.push(e)) == (all_fit(events) && fits(events, e)),
{
    let more = events.push(e);
    assert(more.drop_last() =~= events);
    assert(more.last() == e);
    assert forall|index: usize, id: Seq<char>| was_added(events, index, id) implies #[trigger]
        was_added(more, index, id) by {
        let i = choose|i: int|
            0 <= i < events.len() && (#[trigger] events[i] matches EventView::ItemAdded {
                index: place,
                item,
                ..
            } && place == index && id_of(item) == id);
        assert(more[i] == events[i]);
    }
    if e is ItemAdded {
        assert(more[events.len() as int] == e);
    }
}

proof fn lemma_sent_add(a: Seq<EventView>, b: Seq<EventView>)
    ensures
        texts_sent(a + b) == texts_sent(a) + texts_sent(b),
        args_sent(a + b) == args_sent(a) + args_sent(b),
    decreases b.len(),
{
    if b.len() == 0 {
        assert(a + b =~= a);
        assert(texts_sent(a) + texts_sent(b) =~= texts_sent(a));
        assert(args_sent(a) + args_sent(b) =~= args_sent(a));
    } else {
        assert((a + b).drop_last() =~= a + b.drop_last());
        assert((a + b).last() == b.last());
        lemma_sent_add(a, b.drop_last());
        assert(texts_sent(a + b) =~= texts_sent(a) + texts_sent(b));
        assert(args_sent(a + b) =~= args_sent(a) + args_sent(b));
    }
}

/// Events without text or argument fragments.
proof fn lemma_sent_nothing(events: Seq<EventView>)
    requires
        forall|i: int|
            0 <= i < events.len() ==> !((#[trigger] events[i]) is TextDelta) && !(
            events[i] is ArgsDelta),
    ensures
        texts_sent(events) == Seq::<char>::empty(),
        args_sent(events) == Seq::<char>::empty(),
    decreases events.len(),
{
    let none = Seq::<char>::empty();
    if events.len() > 0 {
        let most = events.drop_last();
        assert forall|i: int| 0 <= i < most.len() implies !((#[trigger] most[i]) is TextDelta) && !(
        most[i] is ArgsDelta) by {
            assert(most[i] == events[i]);
        }
        lemma_sent_nothing(most);
        assert(!(events[events.len() - 1] is TextDelta));
        assert(none + none =~= none);
    }
}

/// One event.
proof fn lemma_sent_one(e: EventView)
    ensures
        texts_sent(seq![e]) == (match e {
            EventView::TextDelta { delta, .. } => delta,
            _ => Seq::<char>::empty(),
        }),
        args_sent(seq![e]) == (match e {
            EventView::ArgsDelta { delta, .. } => delta,
            _ => Seq::<char>::empty(),
        }),
{
    let none = Seq::<char>::empty();
    assert(seq![e].drop_last() =~= Seq::<EventView>::empty());
    assert(texts_sent(seq![e].drop_last()) =~= none);
    assert(args_sent(seq![e].drop_last()) =~= none);
    assert(forall|s: Seq<char>| none + s =~= s);
}

// ── no text is lost ──

/// The text and the arguments that one delta sends.
proof fn lemma_step_sends(st: StreamView, d: StreamDelta)
    ensures
        texts_sent(responses_stream::step(st, d).1) == (match d {
            StreamDelta::Content { text, .. } => text@,
            _ => Seq::<char>::empty(),
        }),
        st.fc_item_id is Some ==> args_sent(responses_stream::step(st, d).1) == (match d {
            StreamDelta::ToolCallArgs { fragment, .. } => fragment@,
            _ => Seq::<char>::empty(),
        }),
        st.fc_item_id is None ==> args_sent(responses_stream::step(st, d).1) == Seq::<
            char,
        >::empty(),
        st.fc_item_id is Some || (d is ToolCallStart && !st.fc_started)
            ==> responses_stream::step(st, d).0.fc_item_id is Some,
        responses_stream::step(st, d).0.fc_item_id is Some ==> st.fc_item_id is Some
            || d is ToolCallStart,
{
    let none = Seq::<char>::empty();
    let (next, events) = responses_stream::step(st, d);
    match d {
        StreamDelta::Content { text, .. } => if text@.len() > 0 {
            let (a, closed) = responses_stream::close_call(st);
            let (b, opened) = responses_stream::open_message(a);
            let (c, added) = responses_stream::add_text(b, text@);
            lemma_sent_nothing(closed);
            lemma_sent_nothing(opened);
            lemma_sent_one(added[0]);
            assert(added =~= seq![added[0]]);
            lemma_sent_add(closed, opened);
            lemma_sent_add(closed + opened, added);
            assert(none + none + text@ =~= text@);
            assert(none + none + none =~= none);
        } else {
            assert(text@ =~= none);
        },
        StreamDelta::ToolCallArgs { fragment, .. } => if fragment@.len() > 0 {
            if st.fc_item_id is Some {
                lemma_sent_one(events[0]);
                assert(events =~= seq![events[0]]);
            }
        } else {
            assert(fragment@ =~= none);
        },
        StreamDelta::ToolCallStart { id, name, .. } => {
            lemma_sent_nothing(events);
        },
        StreamDelta::Refusal { .. } => {
            lemma_sent_nothing(events);
        },
        _ => {},
    }
}

/// No answer text is lost, doubled or moved: from any state and over any run of
/// deltas, the text fragments sent, one after the other, are the texts of the
/// content deltas.
pub proof fn streamed_text_is_kept(st: StreamView, deltas: Seq<StreamDelta>)
    ensures
        texts_sent(responses_stream::run(st, deltas).1) == answer_in(deltas),
    decreases deltas.len(),
{
    if deltas.len() > 0 {
        streamed_text_is_kept(st, deltas.drop_last());
        let (before, sent) = responses_stream::run(st, deltas.drop_last());
        lemma_step_sends(before, deltas.last());
        lemma_sent_add(sent, responses_stream::step(before, deltas.last()).1);
    }
}

/// The argument text that comes after the first tool call has started is sent
/// as it comes; argument text before that is not sent.
pub proof fn streamed_arguments_are_kept(
    resp_id: Seq<char>,
    seq: u64,
    before: Seq<StreamDelta>,
    start: StreamDelta,
    after: Seq<StreamDelta>,
)
    requires
        start is ToolCallStart,
        !call_starts_before(before, before.len() as int),
    ensures
        args_sent(
            responses_stream::run(
                responses_stream::fresh(resp_id, seq),
                before.push(start) + after,
            ).1,
        ) == args_in(after),
    decreases after.len(),
{
    let st = responses_stream::fresh(resp_id, seq);
    if after.len() == 0 {
        lemma_no_call_no_args(resp_id, seq, before);
        assert(before.push(start) + after =~= before.push(start));
        assert(before.push(start).drop_last() =~= before);
        let (mid, sent) = responses_stream::run(st, before);
        lemma_step_sends(mid, start);
        lemma_sent_add(sent, responses_stream::step(mid, start).1);
        assert(args_in(after) =~= Seq::<char>::empty() + Seq::<char>::empty());
    } else {
        let most = after.drop_last();
        streamed_arguments_are_kept(resp_id, seq, before, start, most);
        lemma_call_goes_on(resp_id, seq, before, start, most);
        assert((before.push(start) + after).drop_last() =~= before.push(start) + most);
        let (mid, sent) = responses_stream::run(st, before.push(start) + most);
        lemma_step_sends(mid, after.last());
        lemma_sent_add(sent, responses_stream::step(mid, after.last()).1);
    }
}

proof fn lemma_no_call_no_args(resp_id: Seq<char>, seq: u64, deltas: Seq<StreamDelta>)
    requires
        !call_starts_before(deltas, deltas.len() as int),
    ensures
        ({
            let (st, sent) = responses_stream::run(responses_stream::fresh(resp_id, seq), deltas);
            &&& args_sent(sent) == Seq::<char>::empty()
            &&& st.fc_item_id is None
            &&& !st.fc_started
        }),
    decreases deltas.len(),
{
    if deltas.len() > 0 {
        let most = deltas.drop_last();
        assert(!call_starts_before(most, most.len() as int)) by {
            if call_starts_before(most, most.len() as int) {
                let i = choose|i: int| 0 <= i < most.len() && (#[trigger] most[i]) is ToolCallStart;
                assert(deltas[i] is ToolCallStart);
            }
        }
        lemma_no_call_no_args(resp_id, seq, most);
        assert(!(deltas[deltas.len() - 1] is ToolCallStart));
        let (before, sent) = responses_stream::run(responses_stream::fresh(resp_id, seq), most);
        lemma_step_sends(before, deltas.last());
        lemma_sent_add(sent, responses_stream::step(before, deltas.last()).1);
    }
}

/// Once a call has started it has an item.
proof fn lemma_call_goes_on(
    resp_id: Seq<char>,
    seq: u64,
    before: Seq<StreamDelta>,
    start: StreamDelta,
    after: Seq<StreamDelta>,
)
    requires
        start is ToolCallStart,
        !call_starts_before(before, before.len() as int),
    ensures
        responses_stream::run(
            responses_stream::fresh(resp_id, seq),
            before.push(start) + after,
        ).0.fc_item_id is Some,
    decreases after.len(),
{
    let st = responses_stream::fresh(resp_id, seq);
    if after.len() == 0 {
        lemma_no_call_no_args(resp_id, seq, before);
        assert(before.push(start) + after =~= before.push(start));
        assert(before.push(start).drop_last() =~= before);
        lemma_step_sends(responses_stream::run(st, before).0, start);
    } else {
        let most = after.drop_last();
        lemma_call_goes_on(resp_id, seq, before, start, most);
        assert((before.push(start) + after).drop_last() =~= before.push(start) + most);
        lemma_step_sends(
            responses_stream::run(st, before.push(start) + most).0,
            after.last(),
        );
    }
}

// ── what is done holds what was sent ──

/// No text was sent for a message in place `n` or later.
spec fn no_text_from(events: Seq<EventView>, resp_id: Seq<char>, n: int) -> bool {
    forall|j: usize|
        n <= j < 10 ==> texts_for(
            events,
            #[trigger] responses_stream::item_id("msg_"@, resp_id, j),
        ) == Seq::<char>::empty()
}

/// No arguments were sent.
spec fn no_args(events: Seq<EventView>) -> bool {
    forall|id: Seq<char>| #[trigger] args_for(events, id) == Seq::<char>::empty()
}

/// The state knows what was sent.
spec fn told(st: StreamView, events: Seq<EventView>) -> bool {
    &&& responses_stream::in_place(st)
    &&& st.message_started ==> {
        &&& st.content_text == texts_for(events, st.message_item_id)
        &&& was_added(events, st.output_index, st.message_item_id)
        &&& no_text_from(events, st.resp_id, st.output_index + 1)
    }
    &&& !st.message_started ==> {
        &&& st.content_text == Seq::<char>::empty()
        &&& no_text_from(events, st.resp_id, st.output_index as int)
    }
    &&& match st.fc_item_id {
        Some(id) => st.tool_args == args_for(events, id),
        None => st.tool_args == Seq::<char>::empty() && no_args(events),
    }
    &&& st.fc_started ==> st.fc_item_id is Some
    &&& st.fc_started && !st.fc_done ==> was_added(events, st.output_index, st.fc_item_id->0)
    &&& all_fit(events)
}

/// Messages in different places have different ids.
proof fn lemma_ids_differ(resp_id: Seq<char>, i: usize, j: usize)
    requires
        i < 10,
        j < 10,
        i != j,
    ensures
        responses_stream::item_id("msg_"@, resp_id, i) != responses_stream::item_id(
            "msg_"@,
            resp_id,
            j,
        ),
{
    let a = responses_stream::item_id("msg_"@, resp_id, i);
    let b = responses_stream::item_id("msg_"@, resp_id, j);
    assert(text::decimal(i as nat) =~= seq![text::digit_char(i as nat)]);
    assert(text::decimal(j as nat) =~= seq![text::digit_char(j as nat)]);
    assert(a.last() == text::digit_char(i as nat));
    assert(b.last() == text::digit_char(j as nat));
}

proof fn lemma_told_close_call(st: StreamView, events: Seq<EventView>)
    requires
        told(st, events),
    ensures
        told(
            responses_stream::close_call(st).0,
            events + responses_stream::close_call(st).1,
        ),
{
    let (a, closed) = responses_stream::close_call(st);
    let none = Seq::<char>::empty();
    if st.fc_started && !st.fc_done {
        let x = closed[0];
        let y = closed[1];
        lemma_push(events, x);
        lemma_push(events.push(x), y);
        assert(events + closed =~= events.push(x).push(y));
        assert(forall|s: Seq<char>| s + none =~= s);
        assert(responses_stream::in_place(a));
    } else {
        assert(events + closed =~= events);
    }
}

proof fn lemma_told_open_message(st: StreamView, events: Seq<EventView>)
    requires
        told(st, events),
        st.fc_started ==> st.fc_done,
    ensures
        told(
            responses_stream::open_message(st).0,
            events + responses_stream::open_message(st).1,
        ),
{
    let (a, opened) = responses_stream::open_message(st);
    let none = Seq::<char>::empty();
    if st.message_started {
        assert(events + opened =~= events);
    } else {
        let x = opened[0];
        let y = opened[1];
        lemma_push(events, x);
        lemma_push(events.push(x), y);
        assert(events + opened =~= events.push(x).push(y));
        assert(forall|s: Seq<char>| s + none =~= s);
        assert(responses_stream::in_place(a));
        assert(st.message_item_id == responses_stream::item_id(
            "msg_"@,
            st.resp_id,
            st.output_index,
        ));
    }
}

proof fn lemma_told_add_text(st: StreamView, events: Seq<EventView>, t: Seq<char>)
    requires
        told(st, events),
        st.message_started,
    ensures
        told(
            responses_stream::add_text(st, t).0,
            events + responses_stream::add_text(st, t).1,
        ),
{
    let (a, added) = responses_stream::add_text(st, t);
    let none = Seq::<char>::empty();
    let x = added[0];
    let more = events.push(x);
    lemma_push(events, x);
    assert(events + added =~= more);
    assert(forall|s: Seq<char>| s + none =~= s);
    assert(st.message_item_id == responses_stream::item_id(
        "msg_"@,
        st.resp_id,
        st.output_index,
    ));
    assert forall|j: usize| st.output_index + 1 <= j < 10 implies texts_for(
        more,
        #[trigger] responses_stream::item_id("msg_"@, st.resp_id, j),
    ) == none by {
        lemma_ids_differ(st.resp_id, st.output_index, j);
    }
}

proof fn lemma_told_close_message(st: StreamView, events: Seq<EventView>)
    requires
        told(st, events),
        !st.fc_started,
    ensures
        ({
            let (a, closed) = responses_stream::close_message(st);
            let (b, opened) = responses_stream::open_call(a);
            told(b, events + (closed + opened))
        }),
{
    let (a, closed) = responses_stream::close_message(st);
    let (b, opened) = responses_stream::open_call(a);
    let none = Seq::<char>::empty();
    assert(forall|s: Seq<char>| s + none =~= s);
    let z = opened[0];
    if st.message_started {
        let x = closed[0];
        let y = closed[1];
        let done = events.push(x).push(y);
        lemma_push(events, x);
        lemma_push(events.push(x), y);
        lemma_push(done, z);
        assert(events + (closed + opened) =~= done.push(z));
    } else {
        lemma_push(events, z);
        assert(events + (closed + opened) =~= events.push(z));
    }
    assert(responses_stream::in_place(b));
}

proof fn lemma_told_args(st: StreamView, events: Seq<EventView>, t: Seq<char>)
    requires
        told(st, events),
        st.fc_item_id is Some,
    ensures
        told(
            responses_stream::on_args(st, t).0,
            events + responses_stream::on_args(st, t).1,
        ),
{
    let (a, added) = responses_stream::on_args(st, t);
    let none = Seq::<char>::empty();
    let x = added[0];
    lemma_push(events, x);
    assert(events + added =~= events.push(x));
    assert(forall|s: Seq<char>| s + none =~= s);
}

proof fn lemma_told_refusal(st: StreamView, events: Seq<EventView>, t: Seq<char>)
    requires
        told(st, events),
    ensures
        told(
            responses_stream::on_refusal(st, t).0,
            events + responses_stream::on_refusal(st, t).1,
        ),
{
    let (a, added) = responses_stream::on_refusal(st, t);
    let none = Seq::<char>::empty();
    let x = added[0];
    lemma_push(events, x);
    assert(events + added =~= events.push(x));
    assert(forall|s: Seq<char>| s + none =~= s);
}

/// One delta keeps the state told.
proof fn lemma_told_step(st: StreamView, events: Seq<EventView>, d: StreamDelta)
    requires
        told(st, events),
        d is ToolCallArgs ==> st.fc_item_id is Some,
    ensures
        told(responses_stream::step(st, d).0, events + responses_stream::step(st, d).1),
{
    let (next, sent) = responses_stream::step(st, d);
    assert(events + Seq::<EventView>::empty() =~= events);
    match d {
        StreamDelta::Content { text, .. } => if text@.len() > 0 {
            let (a, closed) = responses_stream::close_call(st);
            let (b, opened) = responses_stream::open_message(a);
            let (c, added) = responses_stream::add_text(b, text@);
            lemma_told_close_call(st, events);
            lemma_told_open_message(a, events + closed);
            lemma_told_add_text(b, events + closed + opened, text@);
            assert(events + closed + opened + added =~= events + (closed + opened + added));
        },
        StreamDelta::ToolCallStart { id, name, .. } => {
            let named = StreamView { tool_name: Some(name@), tool_call_id: Some(id@), ..st };
            assert(told(named, events));
            if !st.fc_started {
                lemma_told_close_message(named, events);
            }
        },
        StreamDelta::ToolCallArgs { fragment, .. } => if fragment@.len() > 0 {
            lemma_told_args(st, events, fragment@);
        },
        StreamDelta::Refusal { text } => if text@.len() > 0 {
            lemma_told_refusal(st, events, text@);
        },
        _ => {},
    }
}

/// A run of deltas keeps the state told.
proof fn lemma_told_run(resp_id: Seq<char>, seq: u64, deltas: Seq<StreamDelta>)
    requires
        args_follow_starts(deltas),
    ensures
        ({
            let (st, sent) = responses_stream::run(responses_stream::fresh(resp_id, seq), deltas);
            &&& told(st, sent)
            &&& st.fc_started == call_starts_before(deltas, deltas.len() as int)
            &&& st.resp_id == resp_id
        }),
    decreases deltas.len(),
{
    let first = responses_stream::fresh(resp_id, seq);
    if deltas.len() == 0 {
        assert(responses_stream::in_place(first));
    } else {
        let most = deltas.drop_last();
        assert forall|n: int| 0 <= n < most.len() && (#[trigger] most[n]) is ToolCallArgs implies
            call_starts_before(most, n) by {
            assert(deltas[n] is ToolCallArgs);
            let i = choose|i: int| 0 <= i < n && (#[trigger] deltas[i]) is ToolCallStart;
            assert(most[i] is ToolCallStart);
        }
        lemma_told_run(resp_id, seq, most);
        let (st, sent) = responses_stream::run(first, most);
        let last = deltas.len() - 1;
        let d = deltas.last();
        assert(deltas[last] == d);
        if call_starts_before(most, most.len() as int) {
            let i = choose|i: int| 0 <= i < most.len() && (#[trigger] most[i]) is ToolCallStart;
            assert(deltas[i] is ToolCallStart);
        }
        if d is ToolCallArgs {
            let i = choose|i: int| 0 <= i < last && (#[trigger] deltas[i]) is ToolCallStart;
            assert(most[i] is ToolCallStart);
        }
        if call_starts_before(deltas, deltas.len() as int) && !(d is ToolCallStart) {
            let i = choose|i: int|
                0 <= i < deltas.len() && (#[trigger] deltas[i]) is ToolCallStart;
            assert(most[i] is ToolCallStart);
        }
        lemma_told_step(st, sent, d);
    }
}

/// Two events that fit the events before them.
proof fn lemma_two_fit(sent: Seq<EventView>, x: EventView, y: EventView)
    requires
        all_fit(sent),
        fits(sent, x),
        fits(sent.push(x), y),
    ensures
        all_fit(sent + seq![x, y]),
{
    assert(sent.push(x).drop_last() =~= sent);
    assert(all_fit(sent.push(x)));
    assert(sent.push(x).push(y).drop_last() =~= sent.push(x));
    assert(sent + seq![x, y] =~= sent.push(x).push(y));
}

/// A message is closed with what was sent for it.
proof fn lemma_message_done_fits(st: StreamView, sent: Seq<EventView>)
    requires
        all_fit(sent),
        st.content_text == texts_for(sent, st.message_item_id),
        was_added(sent, st.output_index, st.message_item_id),
    ensures
        all_fit(sent + responses_stream::message_done_events(st)),
{
    let ev = responses_stream::message_done_events(st);
    lemma_push(sent, ev[0]);
    let id = st.message_item_id;
    assert(texts_for(sent.push(ev[0]), id) =~= texts_for(sent, id));
    assert(was_added(sent.push(ev[0]), st.output_index, id));
    assert(fits(sent.push(ev[0]), ev[1]));
    lemma_two_fit(sent, ev[0], ev[1]);
    assert(ev =~= seq![ev[0], ev[1]]);
}

/// A function call is closed with what was sent for it.
proof fn lemma_call_done_fits(st: StreamView, sent: Seq<EventView>, id: Seq<char>)
    requires
        all_fit(sent),
        st.tool_args == args_for(sent, id),
        was_added(sent, st.output_index, id),
    ensures
        all_fit(sent + responses_stream::fc_done_events(st, id)),
{
    let ev = responses_stream::fc_done_events(st, id);
    lemma_push(sent, ev[0]);
    assert(args_for(sent.push(ev[0]), id) =~= args_for(sent, id));
    assert(was_added(sent.push(ev[0]), st.output_index, id));
    assert(fits(sent.push(ev[0]), ev[1]));
    lemma_two_fit(sent, ev[0], ev[1]);
    assert(ev =~= seq![ev[0], ev[1]]);
}

/// What is still open is closed with what was sent for it.
proof fn lemma_closing_fits(st: StreamView, sent: Seq<EventView>)
    requires
        told(st, sent),
    ensures
        all_fit(sent + responses_stream::close_open(st).1),
{
    let closing = responses_stream::close_open(st).1;
    if st.message_started {
        lemma_message_done_fits(st, sent);
        assert(closing =~= responses_stream::message_done_events(st));
    } else if st.fc_started && !st.fc_done {
        lemma_call_done_fits(st, sent, st.fc_item_id->0);
        assert(closing =~= responses_stream::fc_done_events(st, st.fc_item_id->0));
    } else {
        assert(sent + closing =~= sent);
    }
}

/// Whatever a response reports done holds just what was sent for it: the text of
/// a finished message is its text fragments one after the other, with the
/// citations of that text, and the arguments of a finished call are its argument
/// fragments. Text goes to items that were added, under their id and place. Calls
/// whose arguments come before they start are left out.
pub proof fn done_items_hold_what_was_sent(
    resp_id: Seq<char>,
    seq: u64,
    deltas: Seq<StreamDelta>,
)
    requires
        args_follow_starts(deltas),
    ensures
        ({
            let (st, sent) = responses_stream::run(responses_stream::fresh(resp_id, seq), deltas);
            let events = sent + responses_stream::close_open(st).1;
            forall|k: int|
                0 <= k < events.len() ==> fits(events.take(k), #[trigger] events[k])
        }),
{
    lemma_told_run(resp_id, seq, deltas);
    let (st, sent) = responses_stream::run(responses_stream::fresh(resp_id, seq), deltas);
    lemma_closing_fits(st, sent);
    let events = sent + responses_stream::close_open(st).1;
    lemma_all_fit(events);
}

proof fn lemma_all_fit(events: Seq<EventView>)
    requires
        all_fit(events),
    ensures
        forall|k: int| 0 <= k < events.len() ==> fits(events.take(k), #[trigger] events[k]),
    decreases events.len(),
{
    if events.len() > 0 {
        let most = events.drop_last();
        lemma_all_fit(most);
        assert forall|k: int| 0 <= k < events.len() implies fits(
            events.take(k),
            #[trigger] events[k],
        ) by {
            if k < most.len() {
                assert(most[k] == events[k]);
                assert(most.take(k) =~= events.take(k));
            } else {
                assert(events.take(k) =~= most);
            }
        }
    }
}

// ── what a closed response holds ──

/// The texts of the messages among `items`, one after the other.
pub open spec fn message_texts(items: Seq<ItemView>) -> Seq<char>
    decreases items.len(),
{
    if items.len() == 0 {
        Seq::empty()
    } else {
        message_texts(items.drop_last()) + match items.last() {
            ItemView::Message { content, .. } => if content.len() == 1 {
                content[0].text
            } else {
                Seq::empty()
            },
            _ => Seq::empty(),
        }
    }
}

/// The function calls among `items`.
pub open spec fn calls_among(items: Seq<ItemView>) -> Seq<ItemView>
    decreases items.len(),
{
    if items.len() == 0 {
        Seq::empty()
    } else if items.last() is FunctionCall {
        calls_among(items.drop_last()).push(items.last())
    } else {
        calls_among(items.drop_last())
    }
}

/// The call item is one that was started, under the id and name it was given.
pub open spec fn was_given(deltas: Seq<StreamDelta>, item: ItemView) -> bool {
    item matches ItemView::FunctionCall { call_id, name, .. } && starts_call(
        deltas,
        call_id,
        name,
    )
}

/// What a state holds of the answer, and of the calls that were given.
spec fn holds(st: StreamView, deltas: Seq<StreamDelta>) -> bool {
    &&& responses_stream::in_place(st)
    &&& answer_in(deltas) == message_texts(st.completed) + st.content_text
    &&& !st.message_started ==> st.content_text == Seq::<char>::empty()
    &&& st.fc_started == call_starts_before(deltas, deltas.len() as int)
    &&& st.fc_started ==> {
        &&& st.fc_item_id is Some
        &&& st.tool_call_id is Some
        &&& st.tool_name is Some
        &&& starts_call(deltas, st.tool_call_id->0, st.tool_name->0)
    }
    &&& calls_among(st.completed).len() == if st.fc_done {
        1nat
    } else {
        0nat
    }
    &&& st.fc_done ==> st.fc_started && was_given(deltas, calls_among(st.completed)[0])
}

proof fn lemma_items_push(items: Seq<ItemView>, item: ItemView)
    ensures
        message_texts(items.push(item)) == message_texts(items) + (match item {
            ItemView::Message { content, .. } => if content.len() == 1 {
                content[0].text
            } else {
                Seq::empty()
            },
            _ => Seq::empty(),
        }),
        calls_among(items.push(item)) == (if item is FunctionCall {
            calls_among(items).push(item)
        } else {
            calls_among(items)
        }),
{
    assert(items.push(item).drop_last() =~= items);
}

/// A call that was given stays given.
proof fn lemma_given_grows(deltas: Seq<StreamDelta>, d: StreamDelta)
    ensures
        forall|id: Seq<char>, name: Seq<char>|
            starts_call(deltas, id, name) ==> #[trigger] starts_call(deltas.push(d), id, name),
        d matches StreamDelta::ToolCallStart { id, name, .. } ==> starts_call(
            deltas.push(d),
            id@,
            name@,
        ),
        call_starts_before(deltas.push(d), deltas.len() as int + 1) == (call_starts_before(
            deltas,
            deltas.len() as int,
        ) || d is ToolCallStart),
{
    let more = deltas.push(d);
    assert(more[deltas.len() as int] == d);
    assert forall|id: Seq<char>, name: Seq<char>| starts_call(deltas, id, name) implies #[trigger]
        starts_call(more, id, name) by {
        let i = choose|i: int|
            0 <= i < deltas.len() && (#[trigger] deltas[i] matches StreamDelta::ToolCallStart {
                id: call,
                name: function,
                ..
            } && call@ == id && function@ == name);
        assert(more[i] == deltas[i]);
    }
    if call_starts_before(deltas, deltas.len() as int) {
        let i = choose|i: int| 0 <= i < deltas.len() && (#[trigger] deltas[i]) is ToolCallStart;
        assert(more[i] is ToolCallStart);
    }
    if call_starts_before(more, deltas.len() as int + 1) && !(d is ToolCallStart) {
        let i = choose|i: int| 0 <= i < more.len() && (#[trigger] more[i]) is ToolCallStart;
        assert(deltas[i] is ToolCallStart);
    }
}

proof fn lemma_holds_step(st: StreamView, deltas: Seq<StreamDelta>, d: StreamDelta)
    requires
        holds(st, deltas),
    ensures
        holds(responses_stream::step(st, d).0, deltas.push(d)),
{
    let none = Seq::<char>::empty();
    let more = deltas.push(d);
    let next = responses_stream::step(st, d).0;
    lemma_given_grows(deltas, d);
    responses_stream::lemma_step_in_place(st, d);
    assert(more.drop_last() =~= deltas);
    assert(answer_in(deltas) + none =~= answer_in(deltas));
    match d {
        StreamDelta::Content { text, .. } => if text@.len() > 0 {
            let (a, _) = responses_stream::close_call(st);
            if st.fc_started && !st.fc_done {
                let item = responses_stream::fc_item(
                    st,
                    st.fc_item_id->0,
                    st.tool_args,
                    "completed"@,
                );
                lemma_items_push(st.completed, item);
                assert(message_texts(a.completed) =~= message_texts(st.completed));
                assert(calls_among(a.completed)[0] == item);
            }
            assert(answer_in(more) =~= message_texts(next.completed) + next.content_text);
        } else {
            assert(text@ =~= none);
        },
        StreamDelta::ToolCallStart { id, name, .. } => if !st.fc_started {
            if st.message_started {
                let item = responses_stream::done_message(st.message_item_id, st.content_text);
                lemma_items_push(st.completed, item);
            }
            assert(message_texts(next.completed) + next.content_text =~= message_texts(
                st.completed,
            ) + st.content_text);
        },
        _ => {},
    }
}

proof fn lemma_holds_run(resp_id: Seq<char>, seq: u64, deltas: Seq<StreamDelta>)
    ensures
        holds(responses_stream::run(responses_stream::fresh(resp_id, seq), deltas).0, deltas),
    decreases deltas.len(),
{
    let first = responses_stream::fresh(resp_id, seq);
    if deltas.len() == 0 {
        assert(responses_stream::in_place(first));
        assert(answer_in(deltas) =~= message_texts(first.completed) + first.content_text);
    } else {
        let most = deltas.drop_last();
        lemma_holds_run(resp_id, seq, most);
        lemma_holds_step(responses_stream::run(first, most).0, most, deltas.last());
        assert(most.push(deltas.last()) =~= deltas);
    }
}

/// The items of a closed response hold the whole answer: the texts of its
/// messages, one after the other, are the texts of the content deltas, and there
/// is one function call, under an id and name that were given, when a call was
/// started, and none otherwise.
pub proof fn closed_response_holds_the_answer(
    resp_id: Seq<char>,
    seq: u64,
    deltas: Seq<StreamDelta>,
)
    ensures
        ({
            let st = responses_stream::run(responses_stream::fresh(resp_id, seq), deltas).0;
            let items = responses_stream::close_open(st).0.completed;
            let called = call_starts_before(deltas, deltas.len() as int);
            &&& message_texts(items) == answer_in(deltas)
            &&& calls_among(items).len() == if called {
                1nat
            } else {
                0nat
            }
            &&& called ==> was_given(deltas, calls_among(items)[0])
        }),
{
    lemma_holds_run(resp_id, seq, deltas);
    let st = responses_stream::run(responses_stream::fresh(resp_id, seq), deltas).0;
    let items = responses_stream::close_open(st).0.completed;
    let none = Seq::<char>::empty();
    if st.message_started {
        let item = responses_stream::done_message(st.message_item_id, st.content_text);
        lemma_items_push(st.completed, item);
        assert(items =~= st.completed.push(item));
    } else {
        assert(message_texts(st.completed) + none =~= message_texts(st.completed));
        if st.fc_started && !st.fc_done {
            let item = responses_stream::fc_item(st, st.fc_item_id->0, st.tool_args, "completed"@);
            lemma_items_push(st.completed, item);
            assert(items =~= st.completed.push(item));
            assert(calls_among(items)[0] == item);
        }
    }
}

/// A finish is kept as it came: its reason in the words of the wire, and its
/// token counts, the total being the sum of the two.
pub proof fn finishes_are_kept(st: StreamView, d: StreamDelta)
    requires
        d is Finish,
    ensures
        ({
            let next = responses_stream::step(st, d).0;
            let usage = d->Finish_usage;
            &&& next.finish_reason == match d->Finish_reason@ {
                FinishView::Stop => "stop"@,
                FinishView::Length => "length"@,
                FinishView::ToolCalls => "tool_calls"@,
                FinishView::ContentFilter => "content_filter"@,
                FinishView::Other(s) => s,
            }
            &&& next.usage matches Some(u) && {
                &&& u.uint_field("prompt_tokens"@) == Some(usage.prompt_tokens as u64)
                &&& u.uint_field("completion_tokens"@) == Some(usage.completion_tokens as u64)
                &&& u.uint_field("total_tokens"@) == Some(
                    (usage.prompt_tokens + usage.completion_tokens) as u64,
                )
            }
            &&& next.completed == st.completed
            &&& responses_stream::step(st, d).1.len() == 0
        }),
{
    reveal_strlit("prompt_tokens");
    reveal_strlit("completion_tokens");
    reveal_strlit("total_tokens");
    assert("prompt_tokens"@.len() == 13 && "completion_tokens"@.len() == 17
        && "total_tokens"@.len() == 12);
    reveal_with_fuel(json::entry_at, 4);
    let o = responses_stream::usage_json(d->Finish_usage)->Object_0;
    assert(json::entry_at(o, "prompt_tokens"@, 0) == 0);
    assert(json::entry_at(o, "completion_tokens"@, 0) == 1);
    assert(json::entry_at(o, "total_tokens"@, 0) == 2);
}

/// A refusal is sent as it came and kept; reasoning and errors are not sent.
pub proof fn refusals_are_sent(st: StreamView, d: StreamDelta)
    ensures
        ({
            let (next, events) = responses_stream::step(st, d);
            &&& d matches StreamDelta::Refusal { text } ==> text@.len() > 0 ==> {
                &&& next.refusal == Some(text@)
                &&& events.len() == 1
                &&& events[0] is RefusalDelta
                &&& events[0]->RefusalDelta_delta == text@
            }
            &&& d is Reasoning || d is Error ==> events.len() == 0 && next == st
        }),
{
}

} // verus!
