//! Laws of server-sent events: what comes in is kept in order, streams are kept apart, and what
//! is kept stays bounded.

use crate::assoc;
use crate::event::EventModel;
use crate::json::Json;
use crate::sse_content;
use crate::sse_content::ContentModel;
use crate::sse_event::SseEventModel;
use crate::sse_processor;
use crate::sse_processor::{AccumulatorModel, SseModel};
use crate::sse_summary;
use vstd::prelude::*;

verus! {

/// The texts of `after` are those of `before`, followed by those of `added`.
pub open spec fn appended(before: ContentModel, added: ContentModel, after: ContentModel) -> bool {
    &&& after.text == before.text + added.text
    &&& after.json == before.json + added.json
    &&& after.reasoning == before.reasoning + added.reasoning
}

proof fn lemma_appended_transitive(
    a: ContentModel,
    x: ContentModel,
    b: ContentModel,
    y: ContentModel,
    c: ContentModel,
    xy: ContentModel,
)
    requires
        appended(a, x, b),
        appended(b, y, c),
        appended(x, y, xy),
    ensures
        appended(a, xy, c),
{
    assert(a.text + x.text + y.text =~= a.text + (x.text + y.text));
    assert(a.json + x.json + y.json =~= a.json + (x.json + y.json));
    assert(a.reasoning + x.reasoning + y.reasoning =~= a.reasoning + (x.reasoning + y.reasoning));
}

proof fn lemma_same_texts(c: ContentModel, d: ContentModel)
    requires
        d.text == c.text,
        d.json == c.json,
        d.reasoning == c.reasoning,
    ensures
        appended(c, ContentModel::empty(), d),
{
    assert(c.text + Seq::<char>::empty() =~= c.text);
    assert(c.json + Seq::<char>::empty() =~= c.json);
    assert(c.reasoning + Seq::<char>::empty() =~= c.reasoning);
}

proof fn lemma_tool_pieces(c: ContentModel, pieces: Seq<Json>)
    ensures
        c.with_tool_pieces(pieces).text == c.text,
        c.with_tool_pieces(pieces).json == c.json,
        c.with_tool_pieces(pieces).reasoning == c.reasoning,
        c.with_tool_pieces(pieces).events == c.events,
        c.with_tool_pieces(pieces).message_id == c.message_id,
        c.with_tool_pieces(pieces).has_message_start == c.has_message_start,
    decreases pieces.len(),
{
    if pieces.len() > 0 {
        lemma_tool_pieces(c, pieces.drop_last());
    }
}

/// The text that a choice adds.
spec fn choice_text(choice: Json) -> Seq<char> {
    match choice.fields_field("delta"@) {
        Some(delta) => match sse_content::text_under(delta, "content"@) {
            Some(s) => s,
            None => Seq::empty(),
        },
        None => Seq::empty(),
    }
}

/// The reasoning that a choice adds.
spec fn choice_reasoning(choice: Json) -> Seq<char> {
    match choice.fields_field("delta"@) {
        Some(delta) => match sse_content::reasoning_delta(delta) {
            Some(s) => s,
            None => Seq::empty(),
        },
        None => Seq::empty(),
    }
}

proof fn lemma_choice(c: ContentModel, choice: Json)
    ensures
        c.with_choice(choice).text == c.text + choice_text(choice),
        c.with_choice(choice).json == c.json,
        c.with_choice(choice).reasoning == c.reasoning + choice_reasoning(choice),
        c.with_choice(choice).events == c.events,
{
    assert(c.text + Seq::<char>::empty() =~= c.text);
    assert(c.reasoning + Seq::<char>::empty() =~= c.reasoning);
    match choice.fields_field("delta"@) {
        Some(delta) => {
            let s = c.with_text(sse_content::text_under(delta, "content"@)).with_reasoning(
                sse_content::reasoning_delta(delta),
            );
            match sse_content::list_under(delta, "tool_calls"@) {
                Some(pieces) => {
                    lemma_tool_pieces(s, pieces);
                },
                None => {},
            }
        },
        None => {},
    }
}

proof fn lemma_choices(c: ContentModel, choices: Seq<Json>)
    ensures
        appended(c, ContentModel::empty().with_choices(choices), c.with_choices(choices)),
        c.with_choices(choices).events == c.events,
    decreases choices.len(),
{
    if choices.len() == 0 {
        lemma_same_texts(c, c);
    } else {
        let e = ContentModel::empty();
        lemma_choices(c, choices.drop_last());
        lemma_choice(c.with_choices(choices.drop_last()), choices.last());
        lemma_choice(e.with_choices(choices.drop_last()), choices.last());
        let x = e.with_choices(choices.drop_last());
        let t = choice_text(choices.last());
        let r = choice_reasoning(choices.last());
        assert(c.text + x.text + t =~= c.text + (x.text + t));
        assert(c.reasoning + x.reasoning + r =~= c.reasoning + (x.reasoning + r));
    }
}

proof fn lemma_completion(c: ContentModel, data: Json)
    ensures
        appended(c, ContentModel::empty().with_completion(data), c.with_completion(data)),
        c.with_completion(data).events == c.events,
{
    match data.list_field("choices"@) {
        Some(choices) => {
            lemma_choices(c, choices);
        },
        None => {
            lemma_same_texts(c, c);
        },
    }
}

proof fn lemma_response(c: ContentModel, data: Json)
    ensures
        appended(c, ContentModel::empty().with_response(data), c.with_response(data)),
        c.with_response(data).events == c.events,
{
    let e = ContentModel::empty();
    assert(c.text + Seq::<char>::empty() =~= c.text);
    assert(c.json + Seq::<char>::empty() =~= c.json);
    assert(c.reasoning + Seq::<char>::empty() =~= c.reasoning);
    match data.text_field("delta"@) {
        Some(s) => {
            assert(Seq::<char>::empty() + s =~= s);
        },
        None => {},
    }
}

proof fn lemma_message(c: ContentModel, event: SseEventModel)
    ensures
        appended(c, ContentModel::empty().with_message(event), c.with_message(event)),
        c.with_message(event).events == c.events,
{
    let e = ContentModel::empty();
    assert(c.text + Seq::<char>::empty() =~= c.text);
    assert(c.json + Seq::<char>::empty() =~= c.json);
    assert(c.reasoning + Seq::<char>::empty() =~= c.reasoning);
    match event.parsed_data {
        Some(data) => match data.field("delta"@) {
            Some(delta) => {
                match sse_content::delta_text(delta) {
                    Some(s) => {
                        assert(Seq::<char>::empty() + s =~= s);
                    },
                    None => {},
                }
                match delta.text_field("partial_json"@) {
                    Some(s) => {
                        assert(Seq::<char>::empty() + s =~= s);
                    },
                    None => {},
                }
            },
            None => {},
        },
        None => {},
    }
}

/// An event adds the same texts to whatever came in before: the text, the JSON and the reasoning
/// of a stream are those of its events, one after the other.
pub proof fn law_events_append_their_texts(c: ContentModel, e: SseEventModel)
    ensures
        appended(c, ContentModel::empty().adding(e), c.adding(e)),
        c.adding(e).events == c.events.push(e),
{
    let z = ContentModel::empty();
    let c1 = c.with_event(e);
    let z1 = z.with_event(e);
    let c2 = c1.with_message(e);
    let z2 = z1.with_message(e);
    lemma_message(c1, e);
    lemma_message(z1, e);
    let m = z.with_message(e);
    assert(appended(c, m, c2));
    assert(z2.text =~= m.text && z2.json =~= m.json && z2.reasoning =~= m.reasoning);
    assert(appended(c, z2, c2));
    match e.parsed_data {
        Some(data) => {
            let p = z.with_completion(data);
            let q = z.with_response(data);
            let c3 = c2.with_completion(data);
            let z3 = z2.with_completion(data);
            lemma_completion(c2, data);
            lemma_completion(z2, data);
            lemma_appended_transitive(c, z2, c2, p, c3, z3);
            lemma_response(c3, data);
            lemma_response(z3, data);
            lemma_appended_transitive(
                c,
                z3,
                c3,
                q,
                c3.with_response(data),
                z3.with_response(data),
            );
        },
        None => {},
    }
}

/// The texts that events hold, one after the other.
pub open spec fn all_text(events: Seq<SseEventModel>) -> Seq<char>
    decreases events.len(),
{
    if events.len() == 0 {
        Seq::empty()
    } else {
        all_text(events.drop_last()) + ContentModel::empty().adding(events.last()).text
    }
}

/// The text of a stream is what its events hold, one after the other, and all its events are kept.
pub proof fn law_streams_hold_what_their_events_hold(c: ContentModel, events: Seq<SseEventModel>)
    ensures
        c.adding_all(events).text == c.text + all_text(events),
        c.adding_all(events).events == c.events + events,
    decreases events.len(),
{
    if events.len() == 0 {
        assert(c.text + all_text(events) =~= c.text);
        assert(c.events + events =~= c.events);
    } else {
        law_streams_hold_what_their_events_hold(c, events.drop_last());
        law_events_append_their_texts(c.adding_all(events.drop_last()), events.last());
        assert(c.adding_all(events).text =~= c.text + all_text(events));
        assert(c.adding_all(events).events =~= c.events + events);
    }
}

proof fn lemma_encoded_length(a: Seq<char>, b: Seq<char>)
    ensures
        vstd::utf8::encode_utf8(a + b).len() >= vstd::utf8::encode_utf8(a).len(),
    decreases a.len(),
{
    if a.len() > 0 {
        assert((a + b).drop_first() =~= a.drop_first() + b);
        lemma_encoded_length(a.drop_first(), b);
    }
}

/// A stream that is complete stays so, whatever comes in.
pub proof fn law_complete_streams_stay_complete(c: ContentModel, e: SseEventModel)
    requires
        sse_summary::is_complete(c),
    ensures
        sse_summary::is_complete(c.adding(e)),
{
    let z = ContentModel::empty().adding(e);
    let d = c.adding(e);
    law_events_append_their_texts(c, e);
    lemma_encoded_length(c.text, z.text);
    lemma_encoded_length(c.json, z.json);
    if exists|i: int|
        0 <= i < c.events.len() && sse_summary::event_completes(#[trigger] c.events[i]) {
        let i = choose|i: int|
            0 <= i < c.events.len() && sse_summary::event_completes(#[trigger] c.events[i]);
        assert(d.events[i] == c.events[i]);
    }
}

proof fn lemma_oldest_in_range(b: Seq<(Seq<char>, AccumulatorModel)>)
    requires
        b.len() > 0,
    ensures
        0 <= sse_processor::oldest(b) < b.len(),
    decreases b.len(),
{
    if b.len() > 1 {
        lemma_oldest_in_range(b.drop_last());
    }
}

/// `part` keeps entries of `all` only, and its ids stay distinct.
spec fn kept_from(
    part: Seq<(Seq<char>, AccumulatorModel)>,
    all: Seq<(Seq<char>, AccumulatorModel)>,
) -> bool {
    &&& forall|i: int| 0 <= i < part.len() ==> all.contains(#[trigger] part[i])
    &&& assoc::distinct(assoc::keys(all)) ==> assoc::distinct(assoc::keys(part))
    &&& part.len() <= all.len()
}

proof fn lemma_removed_kept(b: Seq<(Seq<char>, AccumulatorModel)>, i: int)
    requires
        0 <= i < b.len(),
    ensures
        kept_from(b.remove(i), b),
{
    let r = b.remove(i);
    assert forall|k: int| 0 <= k < r.len() implies b.contains(#[trigger] r[k]) by {
        if k < i {
            assert(r[k] == b[k]);
        } else {
            assert(r[k] == b[k + 1]);
        }
    }
    if assoc::distinct(assoc::keys(b)) {
        assert forall|x: int, y: int| 0 <= x < y < assoc::keys(r).len() implies #[trigger] assoc::keys(
            r,
        )[x] != #[trigger] assoc::keys(r)[y] by {
            let p = if x < i {
                x
            } else {
                x + 1
            };
            let q = if y < i {
                y
            } else {
                y + 1
            };
            assert(assoc::keys(b)[p] != assoc::keys(b)[q]);
        }
    }
}

proof fn lemma_kept_transitive(
    a: Seq<(Seq<char>, AccumulatorModel)>,
    b: Seq<(Seq<char>, AccumulatorModel)>,
    c: Seq<(Seq<char>, AccumulatorModel)>,
)
    requires
        kept_from(a, b),
        kept_from(b, c),
    ensures
        kept_from(a, c),
{
    assert forall|i: int| 0 <= i < a.len() implies c.contains(#[trigger] a[i]) by {
        assert(b.contains(a[i]));
        let k = choose|k: int| 0 <= k < b.len() && b[k] == a[i];
        assert(c.contains(b[k]));
    }
}

proof fn lemma_youngest(b: Seq<(Seq<char>, AccumulatorModel)>, max: nat)
    ensures
        kept_from(sse_processor::youngest(b, max), b),
        sse_processor::youngest(b, max).len() <= max,
    decreases b.len(),
{
    if b.len() <= max {
        assert forall|i: int| 0 <= i < b.len() implies b.contains(#[trigger] b[i]) by {}
    } else {
        lemma_oldest_in_range(b);
        let i = sse_processor::oldest(b);
        lemma_removed_kept(b, i);
        lemma_youngest(b.remove(i), max);
        lemma_kept_transitive(sse_processor::youngest(b, max), b.remove(i), b);
    }
}

proof fn lemma_alive(b: Seq<(Seq<char>, AccumulatorModel)>, now: u64, timeout_ms: u64)
    ensures
        kept_from(sse_processor::alive(b, now, timeout_ms), b),
        forall|i: int|
            0 <= i < sse_processor::alive(b, now, timeout_ms).len() ==> sse_processor::is_alive(
                (#[trigger] sse_processor::alive(b, now, timeout_ms)[i]).1,
                now,
                timeout_ms,
            ),
    decreases b.len(),
{
    let a = sse_processor::alive(b, now, timeout_ms);
    if b.len() > 0 {
        let c = b.drop_last();
        let before = sse_processor::alive(c, now, timeout_ms);
        lemma_alive(c, now, timeout_ms);
        let n = b.len() - 1;
        assert forall|i: int| 0 <= i < a.len() implies b.contains(#[trigger] a[i]) by {
            if i < before.len() {
                assert(c.contains(before[i]));
                let k = choose|k: int| 0 <= k < c.len() && c[k] == before[i];
                assert(b[k] == a[i]);
            } else {
                assert(a[i] == b[n]);
            }
        }
        if assoc::distinct(assoc::keys(b)) {
            assert(assoc::distinct(assoc::keys(c))) by {
                assert forall|x: int, y: int|
                    0 <= x < y < assoc::keys(c).len() implies #[trigger] assoc::keys(c)[x]
                    != #[trigger] assoc::keys(c)[y] by {
                    assert(assoc::keys(b)[x] != assoc::keys(b)[y]);
                }
            }
            assert forall|x: int, y: int| 0 <= x < y < assoc::keys(a).len() implies #[trigger] assoc::keys(
                a,
            )[x] != #[trigger] assoc::keys(a)[y] by {
                if y < before.len() {
                    assert(assoc::keys(before)[x] != assoc::keys(before)[y]);
                } else {
                    assert(c.contains(before[x]));
                    let k = choose|k: int| 0 <= k < c.len() && c[k] == before[x];
                    assert(assoc::keys(b)[k] != assoc::keys(b)[n]);
                }
            }
        }
    }
}

proof fn lemma_swept(s: SseModel, now: u64)
    ensures
        kept_from(s.swept(now), s.buffers),
        s.swept(now).len() <= s.max_buffers,
{
    let a = sse_processor::alive(s.buffers, now, s.timeout_ms);
    lemma_alive(s.buffers, now, s.timeout_ms);
    lemma_youngest(a, s.max_buffers as nat);
    lemma_kept_transitive(s.swept(now), a, s.buffers);
}

/// What holds of every reachable state: no id occurs twice, no stream that is kept is complete,
/// and there is at most one stream more than the limit.
pub open spec fn orderly(s: SseModel) -> bool {
    &&& assoc::distinct(assoc::keys(s.buffers))
    &&& forall|i: int|
        0 <= i < s.buffers.len() ==> !sse_summary::is_complete((#[trigger] s.buffers[i]).1.content)
    &&& s.buffers.len() <= s.max_buffers + 1
}

proof fn lemma_without(b: Seq<(Seq<char>, AccumulatorModel)>, id: Seq<char>)
    requires
        assoc::distinct(assoc::keys(b)),
    ensures
        kept_from(sse_processor::without(b, id), b),
        forall|i: int|
            0 <= i < sse_processor::without(b, id).len() ==> (#[trigger] sse_processor::without(
                b,
                id,
            )[i]).0 != id,
{
    let w = sse_processor::without(b, id);
    assoc::lemma_index_of(assoc::keys(b), id);
    match assoc::index_of(assoc::keys(b), id) {
        Some(i) => {
            lemma_removed_kept(b, i);
            assert forall|k: int| 0 <= k < w.len() implies (#[trigger] w[k]).0 != id by {
                let p = if k < i {
                    k
                } else {
                    k + 1
                };
                assert(w[k] == b[p]);
                if p < i {
                    assert(assoc::keys(b)[p] != assoc::keys(b)[i]);
                } else {
                    assert(assoc::keys(b)[i] != assoc::keys(b)[p]);
                }
            }
        },
        None => {
            assert forall|k: int| 0 <= k < w.len() implies (#[trigger] w[k]).0 != id by {
                assert(assoc::keys(b)[k] != id);
            }
            assert forall|k: int| 0 <= k < b.len() implies b.contains(#[trigger] b[k]) by {}
        },
    }
}

/// Every event keeps the streams in order: ids stay distinct, only incomplete streams are kept,
/// and there are never more than one above the limit. It is so at the start.
pub proof fn law_streams_stay_in_order(s: SseModel, e: EventModel, timeout_ms: u64)
    ensures
        orderly(SseModel::start(timeout_ms)),
        orderly(s) ==> orderly(s.after(e)),
{
    if orderly(s) {
        match sse_processor::payload_of(e) {
            Some((data, fragment)) => match sse_processor::events_in_payload(data, fragment) {
                Some(events) => {
                    lemma_after_events(s, e, events, fragment);
                },
                None => {},
            },
            None => {},
        }
    }
}

proof fn lemma_after_events(
    s: SseModel,
    e: EventModel,
    events: Seq<SseEventModel>,
    fragment: bool,
)
    requires
        orderly(s),
    ensures
        orderly(s.after_events(e, events, fragment)),
{
    let kept = s.swept(e.timestamp);
    let id = s.target(e, events);
    let others = sse_processor::without(kept, id);
    let t = s.after_events(e, events, fragment);
    lemma_swept(s, e.timestamp);
    lemma_without(kept, id);
    lemma_kept_transitive(others, kept, s.buffers);
    if !s.ignores(e, events) {
        assert forall|i: int| 0 <= i < t.buffers.len() implies !sse_summary::is_complete(
            (#[trigger] t.buffers[i]).1.content,
        ) by {
            if i < others.len() {
                assert(s.buffers.contains(others[i]));
                let k = choose|k: int| 0 <= k < s.buffers.len() && s.buffers[k] == others[i];
                assert(!sse_summary::is_complete(s.buffers[k].1.content));
            }
        }
        if !s.ends(e, events, fragment) {
            assert forall|x: int, y: int|
                0 <= x < y < assoc::keys(t.buffers).len() implies #[trigger] assoc::keys(
                t.buffers,
            )[x] != #[trigger] assoc::keys(t.buffers)[y] by {
                if y < others.len() {
                    assert(assoc::keys(others)[x] != assoc::keys(others)[y]);
                } else {
                    assert(others[x].0 != id);
                }
            }
        }
    }
}

/// Events that name a message go to the stream of that message alone: what is kept of every other
/// stream, once the old ones are forgotten, stays as it is.
pub proof fn law_messages_are_kept_apart(
    s: SseModel,
    e: EventModel,
    events: Seq<SseEventModel>,
    fragment: bool,
    other: Seq<char>,
)
    requires
        orderly(s),
        !s.ignores(e, events),
        other != s.target(e, events),
    ensures
        assoc::lookup(s.after_events(e, events, fragment).buffers, other) == assoc::lookup(
            s.swept(e.timestamp),
            other,
        ),
        sse_content::message_id_of(events) is Some ==> s.target(e, events)
            == sse_processor::thread_prefix(e.data) + sse_content::message_id_of(events)->0,
{
    let kept = s.swept(e.timestamp);
    let id = s.target(e, events);
    let others = sse_processor::without(kept, id);
    let t = s.after_events(e, events, fragment);
    lemma_swept(s, e.timestamp);
    assoc::lemma_index_of(assoc::keys(kept), id);
    assoc::lemma_index_of(assoc::keys(kept), other);
    assoc::lemma_index_of(assoc::keys(t.buffers), other);
    match assoc::index_of(assoc::keys(kept), other) {
        Some(k) => {
            let p = match assoc::index_of(assoc::keys(kept), id) {
                Some(i) => if k < i {
                    k
                } else {
                    k - 1
                },
                None => k,
            };
            assert(others[p] == kept[k]);
            assert(t.buffers[p] == kept[k]);
            assert(assoc::keys(t.buffers)[p] == other);
            assert forall|j: int| 0 <= j < p implies #[trigger] assoc::keys(t.buffers)[j]
                != other by {
                let q = match assoc::index_of(assoc::keys(kept), id) {
                    Some(i) => if j < i {
                        j
                    } else {
                        j + 1
                    },
                    None => j,
                };
                assert(t.buffers[j] == kept[q]);
                assert(assoc::keys(kept)[q] != other);
            }
            assoc::lemma_index_is(assoc::keys(t.buffers), other, p);
        },
        None => {
            assert forall|j: int| 0 <= j < t.buffers.len() implies #[trigger] assoc::keys(
                t.buffers,
            )[j] != other by {
                if j < others.len() {
                    let q = match assoc::index_of(assoc::keys(kept), id) {
                        Some(i) => if j < i {
                            j
                        } else {
                            j + 1
                        },
                        None => j,
                    };
                    assert(others[j] == kept[q]);
                    assert(assoc::keys(kept)[q] != other);
                }
            }
        },
    }
}

/// A stream that ends is forgotten, and one that does not is kept with the events in it.
pub proof fn law_ended_streams_are_forgotten(
    s: SseModel,
    e: EventModel,
    events: Seq<SseEventModel>,
    fragment: bool,
)
    requires
        orderly(s),
        !s.ignores(e, events),
    ensures
        assoc::lookup(s.after_events(e, events, fragment).buffers, s.target(e, events)) == if s.ends(
            e,
            events,
            fragment,
        ) {
            None
        } else {
            Some(s.filled(e, events))
        },
{
    let id = s.target(e, events);
    let kept = s.swept(e.timestamp);
    let others = sse_processor::without(kept, id);
    lemma_swept(s, e.timestamp);
    lemma_without(kept, id);
    let after = s.after_events(e, events, fragment).buffers;
    let k = assoc::keys(after);
    assoc::lemma_index_of(k, id);
    if s.ends(e, events, fragment) {
        assert forall|i: int| 0 <= i < k.len() implies #[trigger] k[i] != id by {
            assert(others[i].0 != id);
        }
    } else {
        let n = others.len() as int;
        assert(k[n] == id);
        assert forall|i: int| 0 <= i < n implies #[trigger] k[i] != id by {
            assert(others[i].0 != id);
        }
        assoc::lemma_index_is(k, id, n);
    }
}

/// An event that holds no server-sent events is passed on, and changes nothing.
pub proof fn law_other_events_pass(s: SseModel, e: EventModel)
    requires
        s.output(e) is Pass,
    ensures
        s.after(e) == s,
{
}

} // verus!
