//! Laws of putting responses together: which stream an event goes to, how long a stream is kept,
//! and what the event for a whole response says.

use crate::assoc;
use crate::capture_metadata::CaptureState;
use crate::event::EventModel;
use crate::json::Json;
use crate::sse_content;
use crate::sse_content::ContentModel;
use crate::sse_event;
use crate::sse_event::SseEventModel;
use crate::sse_processor;
use crate::sse_processor::{AccumulatorModel, OutputModel, SseModel};
use crate::sse_summary;
use crate::sse_summary_laws;
use crate::text;
use vstd::prelude::*;

verus! {

/// The number under a key, zero where there is none.
pub open spec fn number_under(data: Json, key: Seq<char>) -> nat {
    match data.field(key) {
        Some(Json::Unsigned(n)) => n as nat,
        _ => 0,
    }
}

/// What the ids of the streams of a thread begin with: the process and the thread in decimal, each
/// with a colon behind it.
pub open spec fn thread_part(data: Json) -> Seq<char> {
    text::decimal(number_under(data, "pid"@)) + ":"@ + text::decimal(number_under(data, "tid"@))
        + ":"@
}

/// Events of a message go to the stream of that message in their thread. Events without one go on
/// with a stream of their thread whose message has not stopped, and else to one for every ten
/// minutes of time.
pub proof fn law_events_go_to_their_stream(
    s: SseModel,
    e: EventModel,
    events: Seq<SseEventModel>,
    id: Seq<char>,
)
    ensures
        sse_content::message_id_of(events) == Some(id) ==> s.target(e, events) == thread_part(
            e.data,
        ) + id,
        sse_content::message_id_of(events) is None && (forall|i: int|
            0 <= i < s.swept(e.timestamp).len() ==> !text::starts_with(
                (#[trigger] s.swept(e.timestamp)[i]).0,
                thread_part(e.data),
            )) ==> s.target(e, events) == thread_part(e.data) + text::decimal(
            e.timestamp as nat / 600_000_000_000,
        ),
{
    let kept = s.swept(e.timestamp);
    let prefix = thread_part(e.data);
    assert(sse_processor::thread_prefix(e.data) == prefix);
    lemma_open(kept, prefix, 0);
}

proof fn lemma_open(buffers: Seq<(Seq<char>, AccumulatorModel)>, prefix: Seq<char>, i: int)
    requires
        0 <= i,
    ensures
        match sse_processor::open_from(buffers, prefix, i) {
            Some(k) => i <= k < buffers.len() && sse_processor::is_open(buffers[k], prefix)
                && forall|j: int| i <= j < k ==> !sse_processor::is_open(
                #[trigger] buffers[j],
                prefix,
            ),
            None => forall|j: int|
                i <= j < buffers.len() ==> !sse_processor::is_open(#[trigger] buffers[j], prefix),
        },
    decreases buffers.len() - i,
{
    if i < buffers.len() && !sse_processor::is_open(buffers[i], prefix) {
        lemma_open(buffers, prefix, i + 1);
    }
}

/// The stream of this id is one of the thread, and no event that stops its message is in.
pub open spec fn goes_on(entry: (Seq<char>, AccumulatorModel), data: Json) -> bool {
    &&& text::starts_with(entry.0, thread_part(data))
    &&& forall|k: int|
        0 <= k < entry.1.content.events.len() ==> (#[trigger] entry.1.content.events[k]).event
            != Some("message_stop"@)
}

/// Events without a message go on with the stream of their thread that was updated least recently
/// of those that go on.
pub proof fn law_events_go_on_with_an_open_stream(
    s: SseModel,
    e: EventModel,
    events: Seq<SseEventModel>,
    i: int,
)
    requires
        sse_content::message_id_of(events) is None,
        0 <= i < s.swept(e.timestamp).len(),
        goes_on(s.swept(e.timestamp)[i], e.data),
        forall|j: int| 0 <= j < i ==> !goes_on(#[trigger] s.swept(e.timestamp)[j], e.data),
    ensures
        s.target(e, events) == s.swept(e.timestamp)[i].0,
{
    let kept = s.swept(e.timestamp);
    let prefix = thread_part(e.data);
    assert(sse_processor::thread_prefix(e.data) == prefix);
    lemma_open(kept, prefix, 0);
    assert forall|j: int| 0 <= j <= i implies sse_processor::is_open(#[trigger] kept[j], prefix)
        == goes_on(kept[j], e.data) by {}
    match sse_processor::open_from(kept, prefix, 0) {
        Some(k) => {
            if k < i {
                assert(!goes_on(kept[k], e.data));
            }
            if k > i {
                assert(!sse_processor::is_open(kept[i], prefix));
            }
        },
        None => {},
    }
}

/// The host of an event is its own, or else that of the first of its header fields that names one.
pub proof fn law_hosts_are_found(
    data: Json,
    fields: Seq<(Seq<char>, Json)>,
    i: int,
    host: Seq<char>,
)
    ensures
        data.field("host"@) == Some(Json::Text(host)) ==> sse_processor::host_of(data) == Some(
            host,
        ),
        data.field("host"@) is None && data.field("headers"@) == Some(Json::Object(fields)) && 0
            <= i < fields.len() && (text::ascii_lowercase(fields[i].0) == "host"@ || fields[i].0
            == ":authority"@) && fields[i].1 == Json::Text(host) && (forall|j: int|
            0 <= j < i ==> text::ascii_lowercase((#[trigger] fields[j]).0) != "host"@ && fields[j].0
                != ":authority"@) ==> sse_processor::host_of(data) == Some(host),
        data.field("host"@) is None && data.field("headers"@) is None ==> sse_processor::host_of(
            data,
        ) is None,
        data.field("host"@) is None && data.field("headers"@) == Some(Json::Object(fields)) && (
        forall|j: int|
            0 <= j < fields.len() ==> text::ascii_lowercase((#[trigger] fields[j]).0) != "host"@
                && fields[j].0 != ":authority"@) ==> sse_processor::host_of(data) is None,
{
    lemma_host();
    if forall|j: int|
        0 <= j < fields.len() ==> text::ascii_lowercase((#[trigger] fields[j]).0) != "host"@
            && fields[j].0 != ":authority"@ {
        lemma_no_host_from(fields, 0);
    }
    if data.field("headers"@) == Some(Json::Object(fields)) && 0 <= i < fields.len() && (
    text::ascii_lowercase(fields[i].0) == "host"@ || fields[i].0 == ":authority"@) && fields[i].1
        == Json::Text(host) && (forall|j: int|
        0 <= j < i ==> text::ascii_lowercase((#[trigger] fields[j]).0) != "host"@ && fields[j].0
            != ":authority"@) {
        lemma_host_from(fields, 0, i);
    }
}

proof fn lemma_host()
    ensures
        text::ascii_lowercase("host"@) == "host"@,
{
    reveal_strlit("host");
    assert(text::ascii_lowercase("host"@) =~= "host"@);
}

proof fn lemma_no_host_from(fields: Seq<(Seq<char>, Json)>, k: int)
    requires
        0 <= k,
        forall|j: int|
            0 <= j < fields.len() ==> text::ascii_lowercase((#[trigger] fields[j]).0) != "host"@
                && fields[j].0 != ":authority"@,
    ensures
        sse_processor::host_from(fields, k) is None,
    decreases fields.len() - k,
{
    lemma_host();
    if k < fields.len() {
        assert(text::ascii_lowercase(fields[k].0) != "host"@);
        lemma_no_host_from(fields, k + 1);
    }
}

proof fn lemma_host_from(fields: Seq<(Seq<char>, Json)>, k: int, i: int)
    requires
        0 <= k <= i < fields.len(),
        text::ascii_lowercase(fields[i].0) == "host"@ || fields[i].0 == ":authority"@,
        fields[i].1 is Text,
        forall|j: int|
            0 <= j < i ==> text::ascii_lowercase((#[trigger] fields[j]).0) != "host"@ && fields[j].0
                != ":authority"@,
    ensures
        sse_processor::host_from(fields, k) == fields[i].1.as_text(),
    decreases i - k,
{
    lemma_host();
    if k < i {
        assert(text::ascii_lowercase(fields[k].0) != "host"@);
        lemma_host_from(fields, k + 1, i);
    }
}

/// Captured text may hold events, whatever it is, and may be a piece of a response. The body of an
/// HTTP response may hold events where its fields announce them, in letters of either case, or
/// where it looks like it; it is whole. Nothing else may hold events.
pub proof fn law_texts_that_may_hold_events(
    e: EventModel,
    t: Seq<char>,
    fields: Seq<(Seq<char>, Json)>,
    i: int,
    a: Seq<char>,
    b: Seq<char>,
)
    ensures
        e.source == "ssl"@ && e.data.field("data"@) == Some(Json::Text(t))
            ==> sse_processor::payload_of(e) == Some((t, true)),
        e.source == "ssl"@ && e.data.field("data"@) is None ==> sse_processor::payload_of(e) is None,
        e.source == "http_parser"@ && e.data.field("message_type"@) == Some(Json::Text("response"@))
            && e.data.field("body"@) == Some(Json::Text(t)) && sse_event::looks_like_sse(t)
            ==> sse_processor::payload_of(e) == Some((t, false)),
        e.source == "http_parser"@ && e.data.field("message_type"@) == Some(Json::Text("response"@))
            && e.data.field("body"@) == Some(Json::Text(t)) && e.data.field("headers"@) == Some(
            Json::Object(fields),
        ) && 0 <= i < fields.len() && text::ascii_lowercase(fields[i].0) == "content-type"@
            && fields[i].1 == Json::Text(a + "text/event-stream"@ + b) ==> sse_processor::payload_of(
            e,
        ) == Some((t, false)),
        e.source == "http_parser"@ && e.data.field("body"@) == Some(Json::Text(t))
            && !sse_event::looks_like_sse(t) && e.data.field("headers"@) is None
            ==> sse_processor::payload_of(e) is None,
        e.source == "http_parser"@ && e.data.field("body"@) == Some(Json::Text(t))
            && !sse_event::looks_like_sse(t) && e.data.field("headers"@) == Some(
            Json::Object(fields),
        ) && (forall|k: int|
            0 <= k < fields.len() ==> text::ascii_lowercase((#[trigger] fields[k]).0)
                != "content-type"@ || fields[k].1 == Json::Text("application/json"@))
            ==> sse_processor::payload_of(e) is None,
        e.source == "http_parser"@ && e.data.field("message_type"@) != Some(Json::Text("response"@))
            ==> sse_processor::payload_of(e) is None,
        e.source != "ssl"@ && e.source != "http_parser"@ ==> sse_processor::payload_of(e) is None,
{
    reveal_strlit("ssl");
    reveal_strlit("http_parser");
    assert("ssl"@.len() != "http_parser"@.len());
    reveal_strlit("content-type");
    reveal_strlit("text/event-stream");
    let name = "content-type"@;
    let kind = "text/event-stream"@;
    assert(text::ascii_lowercase(name) =~= name);
    assert(text::ascii_lowercase(kind) =~= kind);
    let whole = a + kind + b;
    assert(text::ascii_lowercase(whole) =~= text::ascii_lowercase(a) + kind + text::ascii_lowercase(
        b,
    ));
    text::lemma_contains_around(text::ascii_lowercase(a), kind, text::ascii_lowercase(b));
    if e.data.field("headers"@) == Some(Json::Object(fields)) && 0 <= i < fields.len()
        && text::ascii_lowercase(fields[i].0) == "content-type"@ && fields[i].1 == Json::Text(
        whole,
    ) {
        lemma_announced(e.data, fields, i);
    }
    if forall|k: int|
        0 <= k < fields.len() ==> text::ascii_lowercase((#[trigger] fields[k]).0)
            != "content-type"@ || fields[k].1 == Json::Text("application/json"@) {
        lemma_not_announced(fields);
    }
}

proof fn lemma_not_announced(fields: Seq<(Seq<char>, Json)>)
    requires
        forall|k: int|
            0 <= k < fields.len() ==> text::ascii_lowercase((#[trigger] fields[k]).0)
                != "content-type"@ || fields[k].1 == Json::Text("application/json"@),
    ensures
        forall|k: int|
            0 <= k < fields.len() ==> !sse_processor::announces_sse(
                (#[trigger] fields[k]).0,
                fields[k].1,
            ),
{
    reveal_strlit("content-type");
    reveal_strlit("application/json");
    reveal_strlit("text/event-stream");
    let name = "content-type"@;
    let other = "application/json"@;
    assert(text::ascii_lowercase(name) =~= name);
    assert(text::ascii_lowercase(other).len() == 16);
    assert("text/event-stream"@.len() == 17);
    assert(!text::contains(text::ascii_lowercase(other), "text/event-stream"@));
    assert forall|k: int| 0 <= k < fields.len() implies !sse_processor::announces_sse(
        (#[trigger] fields[k]).0,
        fields[k].1,
    ) by {}
}

proof fn lemma_announced(data: Json, fields: Seq<(Seq<char>, Json)>, i: int)
    requires
        data.field("headers"@) == Some(Json::Object(fields)),
        0 <= i < fields.len(),
        sse_processor::announces_sse(fields[i].0, fields[i].1),
    ensures
        sse_processor::content_type_is_sse(data),
{
    let found = data.fields_field("headers"@)->0;
    assert(found == fields);
    assert(sse_processor::announces_sse(found[i].0, found[i].1));
}

/// A text that looks like it gives its events; a piece of a response that does not may give a
/// usage alone. A text that gives none passes.
pub proof fn law_texts_give_their_events(t: Seq<char>, fragment: bool)
    ensures
        sse_event::looks_like_sse(t) && sse_event::events_in(t).len() > 0
            ==> sse_processor::events_in_payload(t, fragment) == Some(sse_event::events_in(t)),
        sse_event::looks_like_sse(t) && sse_event::events_in(t).len() == 0
            ==> sse_processor::events_in_payload(t, fragment) is None,
        !sse_event::looks_like_sse(t) && !fragment ==> sse_processor::events_in_payload(
            t,
            fragment,
        ) is None,
        !sse_event::looks_like_sse(t) && fragment ==> match sse_event::usage_fragment(t) {
            Some(e) => sse_processor::events_in_payload(t, fragment) is Some
                && sse_processor::events_in_payload(t, fragment)->0.len() == 1
                && sse_processor::events_in_payload(t, fragment)->0[0] == e,
            None => sse_processor::events_in_payload(t, fragment) is None,
        },
{
}

/// The time since a stream was updated last is within the timeout.
pub open spec fn in_time(a: AccumulatorModel, now: u64, timeout_ms: u64) -> bool {
    now as int - a.last_update as int <= timeout_ms as int
}

proof fn lemma_alive(buffers: Seq<(Seq<char>, AccumulatorModel)>, now: u64, timeout_ms: u64)
    ensures
        ({
            let kept = sse_processor::alive(buffers, now, timeout_ms);
            &&& kept.len() <= buffers.len()
            &&& forall|x: (Seq<char>, AccumulatorModel)|
                #![trigger kept.contains(x)]
                #![trigger buffers.contains(x)]
                kept.contains(x) == (buffers.contains(x) && in_time(x.1, now, timeout_ms))
        }),
    decreases buffers.len(),
{
    let kept = sse_processor::alive(buffers, now, timeout_ms);
    if buffers.len() > 0 {
        let fewer = buffers.drop_last();
        let last = buffers.last();
        lemma_alive(fewer, now, timeout_ms);
        let before = sse_processor::alive(fewer, now, timeout_ms);
        assert forall|x: (Seq<char>, AccumulatorModel)|
            #![trigger kept.contains(x)]
            #![trigger buffers.contains(x)]
            kept.contains(x) == (buffers.contains(x) && in_time(x.1, now, timeout_ms)) by {
            assert(fewer.push(last) =~= buffers);
            lemma_contains_pushed(fewer, last, x);
            lemma_contains_pushed(before, last, x);
        }
    } else {
        assert(kept =~= Seq::empty());
    }
}

proof fn lemma_contains_pushed<A>(s: Seq<A>, last: A, x: A)
    ensures
        s.push(last).contains(x) == (s.contains(x) || x == last),
{
    let more = s.push(last);
    if s.contains(x) {
        let i = choose|i: int| 0 <= i < s.len() && s[i] == x;
        assert(more[i] == x);
    }
    if x == last {
        assert(more[s.len() as int] == x);
    }
    if more.contains(x) {
        let i = choose|i: int| 0 <= i < more.len() && more[i] == x;
        if i < s.len() {
            assert(s[i] == x);
        }
    }
}

proof fn lemma_oldest(buffers: Seq<(Seq<char>, AccumulatorModel)>)
    requires
        buffers.len() > 0,
    ensures
        0 <= sse_processor::oldest(buffers) < buffers.len(),
        forall|i: int|
            0 <= i < buffers.len() ==> buffers[sse_processor::oldest(buffers)].1.last_update
                <= (#[trigger] buffers[i]).1.last_update,
    decreases buffers.len(),
{
    if buffers.len() > 1 {
        let fewer = buffers.drop_last();
        lemma_oldest(fewer);
        let o = sse_processor::oldest(fewer);
        assert forall|i: int| 0 <= i < buffers.len() implies buffers[sse_processor::oldest(
            buffers,
        )].1.last_update <= (#[trigger] buffers[i]).1.last_update by {
            if i < fewer.len() {
                assert(fewer[i] == buffers[i]);
            }
            assert(fewer[o] == buffers[o]);
        }
    }
}

/// Of the streams so many are left as fit, or all; those that went were updated no later than any
/// that is left.
proof fn lemma_youngest(buffers: Seq<(Seq<char>, AccumulatorModel)>, max: nat)
    ensures
        ({
            let kept = sse_processor::youngest(buffers, max);
            &&& kept.len() == if buffers.len() <= max {
                buffers.len()
            } else {
                max
            }
            &&& forall|x: (Seq<char>, AccumulatorModel)| #[trigger]
                kept.contains(x) ==> buffers.contains(x)
            &&& forall|x: (Seq<char>, AccumulatorModel), y: (Seq<char>, AccumulatorModel)|
                #[trigger] buffers.contains(x) && !kept.contains(x) && #[trigger] kept.contains(y)
                    ==> x.1.last_update <= y.1.last_update
        }),
    decreases buffers.len(),
{
    if buffers.len() > max {
        lemma_oldest(buffers);
        let o = sse_processor::oldest(buffers);
        let fewer = buffers.remove(o);
        lemma_youngest(fewer, max);
        let kept = sse_processor::youngest(buffers, max);
        assert forall|x: (Seq<char>, AccumulatorModel)| #[trigger]
            fewer.contains(x) implies buffers.contains(x) by {
            let i = choose|i: int| 0 <= i < fewer.len() && fewer[i] == x;
            if i < o {
                assert(buffers[i] == x);
            } else {
                assert(buffers[i + 1] == x);
            }
        }
        assert forall|x: (Seq<char>, AccumulatorModel)| #[trigger]
            kept.contains(x) implies buffers.contains(x) by {
            assert(fewer.contains(x));
        }
        assert forall|x: (Seq<char>, AccumulatorModel), y: (Seq<char>, AccumulatorModel)|
            #[trigger] buffers.contains(x) && !kept.contains(x) && #[trigger] kept.contains(
                y,
            ) implies x.1.last_update <= y.1.last_update by {
            let i = choose|i: int| 0 <= i < buffers.len() && buffers[i] == x;
            assert(fewer.contains(y));
            assert(buffers.contains(y));
            let j = choose|j: int| 0 <= j < buffers.len() && buffers[j] == y;
            if i == o {
                assert(buffers[o].1.last_update <= buffers[j].1.last_update);
            } else {
                if i < o {
                    assert(fewer[i] == x);
                } else {
                    assert(fewer[i - 1] == x);
                }
                assert(fewer.contains(x));
            }
        }
    }
}

/// Streams are kept as long as the timeout allows: one that was updated longer ago is forgotten,
/// and one that was not is forgotten only where there are too many, after all that were updated
/// earlier.
pub proof fn law_streams_are_kept_for_the_timeout(
    s: SseModel,
    now: u64,
    x: (Seq<char>, AccumulatorModel),
    y: (Seq<char>, AccumulatorModel),
)
    requires
        s.buffers.contains(x),
        s.buffers.contains(y),
    ensures
        !in_time(x.1, now, s.timeout_ms) ==> !s.swept(now).contains(x),
        in_time(x.1, now, s.timeout_ms) && s.buffers.len() <= s.max_buffers ==> s.swept(
            now,
        ).contains(x),
        in_time(x.1, now, s.timeout_ms) && !s.swept(now).contains(x) && s.swept(now).contains(y)
            ==> x.1.last_update <= y.1.last_update && s.swept(now).len() == s.max_buffers,
        forall|z: (Seq<char>, AccumulatorModel)| #[trigger]
            s.swept(now).contains(z) ==> s.buffers.contains(z),
{
    let kept = sse_processor::alive(s.buffers, now, s.timeout_ms);
    lemma_alive(s.buffers, now, s.timeout_ms);
    lemma_youngest(kept, s.max_buffers as nat);
    assert(kept.contains(x) == in_time(x.1, now, s.timeout_ms));
    if s.buffers.len() <= s.max_buffers {
        assert(s.swept(now) == kept);
    }
    if in_time(x.1, now, s.timeout_ms) && !s.swept(now).contains(x) {
        assert(kept.len() > s.max_buffers);
    }
    assert forall|z: (Seq<char>, AccumulatorModel)| #[trigger]
        s.swept(now).contains(z) implies s.buffers.contains(z) by {
        assert(kept.contains(z));
    }
}

/// Events go into the stream that is kept for them, after those that are there: its beginning
/// stays, and its end is the time of these. Where none is kept a stream begins with them.
pub proof fn law_streams_take_in_their_events(
    s: SseModel,
    e: EventModel,
    events: Seq<SseEventModel>,
)
    ensures
        ({
            let a = s.filled(e, events);
            let before = assoc::lookup(s.swept(e.timestamp), s.target(e, events));
            &&& a.last_update == e.timestamp
            &&& a.end_time == e.timestamp
            &&& before is Some ==> {
                &&& a.start_time == (before->0).start_time
                &&& a.content == (before->0).content.adding_all(events)
                &&& a.capture == (before->0).capture.observe(e.data)
            }
            &&& before is None ==> {
                &&& a.start_time == e.timestamp
                &&& a.content == ContentModel::empty().adding_all(events)
                &&& a.capture == CaptureState::empty().observe(e.data)
            }
        }),
{
}

/// A stream takes in events one after the other, and begins with nothing.
pub proof fn law_events_are_taken_in_turn(
    c: ContentModel,
    events: Seq<SseEventModel>,
    e: SseEventModel,
)
    ensures
        c.adding_all(Seq::empty()) == c,
        c.adding_all(events.push(e)) == c.adding_all(events).adding(e),
        ContentModel::empty().text.len() == 0 && ContentModel::empty().json.len() == 0
            && ContentModel::empty().reasoning.len() == 0 && ContentModel::empty().events.len() == 0
            && ContentModel::empty().tool_calls.dom().is_empty()
            && ContentModel::empty().message_id is None && !ContentModel::empty().has_message_start,
{
    assert(events.push(e).drop_last() =~= events);
}

/// Events that are all pings or deltas of a message begin no stream: they are held back and change
/// nothing.
pub proof fn law_idle_events_begin_no_stream(
    s: SseModel,
    e: EventModel,
    events: Seq<SseEventModel>,
    fragment: bool,
)
    requires
        forall|i: int|
            0 <= i < events.len() ==> (#[trigger] events[i]).event == Some("ping"@)
                || events[i].event == Some("message_delta"@),
        forall|i: int|
            0 <= i < s.buffers.len() ==> (#[trigger] s.buffers[i]).0
                != sse_processor::connection_id_of(e, events),
    ensures
        s.after_events(e, events, fragment) == s,
        s.output_of_events(e, events, fragment) is Held,
{
    let k = assoc::keys(s.buffers);
    assoc::lemma_index_of(k, sse_processor::connection_id_of(e, events));
    match assoc::index_of(k, sse_processor::connection_id_of(e, events)) {
        Some(i) => {
            assert(s.buffers[i].0 == k[i]);
        },
        None => {},
    }
}

/// A stream that is complete comes out, where it says something, and is kept no longer. So does
/// one that ends with the reason of a choice in the body of a response. Any other stream is kept,
/// at the end, and nothing comes out. This holds of events of which not all are idle, and of any
/// events of a stream that is kept.
pub proof fn law_complete_streams_come_out(
    s: SseModel,
    e: EventModel,
    events: Seq<SseEventModel>,
    fragment: bool,
    i: int,
)
    requires
        (0 <= i < events.len() && events[i].event != Some("ping"@) && events[i].event != Some(
            "message_delta"@,
        )) || (0 <= i < s.buffers.len() && s.buffers[i].0 == sse_processor::connection_id_of(
            e,
            events,
        )),
    ensures
        ({
            let id = s.target(e, events);
            let a = s.filled(e, events);
            let after = s.after_events(e, events, fragment).buffers;
            let out = s.output_of_events(e, events, fragment);
            let complete = sse_summary::is_complete(a.content);
            let finished = exists|k: int|
                0 <= k < events.len() && sse_summary::event_finishes(#[trigger] events[k]);
            let telling = sse_summary::is_meaningful(a.content);
            &&& complete && telling ==> out == OutputModel::Merged(
                sse_processor::merged_event(id, a, e),
            )
            &&& !fragment && finished && telling ==> out == OutputModel::Merged(
                sse_processor::merged_event(id, a, e),
            )
            &&& !telling ==> out is Held
            &&& !complete && (fragment || !finished) ==> out is Held && after.len() > 0
                && after.last() == (id, a)
            &&& complete ==> after.len() <= s.swept(e.timestamp).len()
        }),
{
    let k = assoc::keys(s.buffers);
    assoc::lemma_index_of(k, sse_processor::connection_id_of(e, events));
    if 0 <= i < s.buffers.len() && s.buffers[i].0 == sse_processor::connection_id_of(e, events) {
        assert(k[i] == s.buffers[i].0);
    } else {
        assert(!sse_processor::is_idle(events[i]));
    }
    assert(!s.ignores(e, events));
    let kept = s.swept(e.timestamp);
    assoc::lemma_index_of(assoc::keys(kept), s.target(e, events));
}

/// The event for a whole response has the text and the other content of its stream, how long that
/// took, all of its events in order, and what the last captured event says of the request.
pub proof fn law_merged_events_say_what_came_in(
    id: Seq<char>,
    a: AccumulatorModel,
    e: EventModel,
    i: int,
)
    ensures
        ({
            let m = sse_processor::merged_event(id, a, e);
            &&& m.connection_id == id
            &&& m.message_id == a.content.message_id
            &&& m.text_content == a.content.text
            &&& m.json_content == sse_summary::json_content(a.content)
            &&& m.start_time == a.start_time && m.end_time == a.end_time
            &&& a.start_time <= a.end_time ==> m.start_time + m.duration_ns == m.end_time
            &&& a.start_time > a.end_time ==> m.duration_ns == 0
            &&& m.original_source == e.source
            &&& m.method == (match e.data.field("method"@) {
                Some(Json::Text(t)) => Some(t),
                _ => None,
            })
            &&& m.path == (match e.data.field("path"@) {
                Some(Json::Text(t)) => Some(t),
                _ => None,
            })
            &&& m.host == sse_processor::host_of(e.data)
            &&& match e.data.field("status_code"@) {
                Some(Json::Unsigned(n)) => m.status_code is Some && (n < 65536 ==> m.status_code
                    == Some(n as u16)),
                _ => m.status_code is None,
            }
            &&& m.function == (match e.data.field("function"@) {
                Some(Json::Text(t)) => t,
                _ => "unknown"@,
            })
            &&& m.tid == number_under(e.data, "tid"@)
            &&& m.event_count == a.content.events.len()
            &&& m.sse_events.len() == a.content.events.len()
            &&& 0 <= i < m.sse_events.len() ==> m.sse_events[i] == sse_summary::event_json(
                a.content.events[i],
            ) && sse_summary_laws::stands_for(
                m.sse_events[i].field("data"@),
                a.content.events[i].data,
            )
            &&& m.has_message_start == a.content.has_message_start
            &&& m.capture_metadata == a.capture.summary()
            &&& ({
                let size = vstd::utf8::encode_utf8(m.json_content).len() + vstd::utf8::encode_utf8(
                    m.text_content,
                ).len();
                size <= usize::MAX ==> m.total_size == size
            })
        }),
{
    if 0 <= i < a.content.events.len() {
        sse_summary_laws::law_events_as_json_hold_their_parts(a.content.events[i]);
    }
}

} // verus!
