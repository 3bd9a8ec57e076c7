//! Laws of the HTTP parser: which of its parts an event goes to.

use crate::bytes;
use crate::capture_metadata::CaptureState;
use crate::event::EventModel;
use crate::http2;
use crate::http2::{CaptureContext, HTTP2Direction, Http2Model};
use crate::http2_frame;
use crate::http2_frame::FrameModel;
use crate::http_event::HttpEventModel;
use crate::http_message;
use crate::http_parser;
use crate::http_parser::ParserModel;
use crate::json::Json;
use crate::websocket;
use vstd::prelude::*;

verus! {

/// A captured text that looks like HTTP/1 and is a message of it gives one event, with the thread
/// that the capture names and what the capture says of itself.
pub proof fn law_http1_messages_give_one_event(
    before: ParserModel,
    e: EventModel,
    after: ParserModel,
    output: Option<Seq<HttpEventModel>>,
    content: Seq<char>,
    tid: u64,
)
    requires
        http_parser::takes(before, e, after, output),
        e.source == "ssl"@,
        e.data.field("data"@) == Some(Json::Text(content)),
        e.data.field("tid"@) == Some(Json::Unsigned(tid)),
        http_message::looks_like_http1(content),
        http_message::message_in(content) is Some,
    ensures
        ({
            let m = http_message::message_in(content)->0;
            &&& output is Some
            &&& (output->0).len() == 1
            &&& (output->0)[0].tid == tid
            &&& (output->0)[0].first_line == m.first_line
            &&& (output->0)[0].headers == m.headers
            &&& (output->0)[0].body == m.body
            &&& (output->0)[0].raw_data == if before.include_raw_data {
                Some(content)
            } else {
                None
            }
            &&& (output->0)[0].capture_metadata == CaptureState::empty().observe(e.data).summary()
            &&& after.http2 == before.http2
        }),
{
}

/// Where a capture names no thread, the event for its message has the thread 0. A handshake among
/// the messages opens a connection.
pub proof fn law_http1_messages_without_a_thread(
    before: ParserModel,
    e: EventModel,
    after: ParserModel,
    output: Option<Seq<HttpEventModel>>,
    content: Seq<char>,
)
    requires
        http_parser::takes(before, e, after, output),
        e.source == "ssl"@,
        e.data.field("data"@) == Some(Json::Text(content)),
        http_message::looks_like_http1(content),
        http_message::message_in(content) is Some,
    ensures
        e.data.field("tid"@) is None ==> output is Some && (output->0)[0].tid == 0,
        after.websocket == websocket::after_message(
            before.websocket,
            e,
            http_message::message_in(content)->0,
        ),
        after.include_raw_data == before.include_raw_data,
{
}

/// Other texts are taken for the bytes that were captured.
pub proof fn law_other_texts_are_taken_for_bytes(
    before: ParserModel,
    e: EventModel,
    after: ParserModel,
    output: Option<Seq<HttpEventModel>>,
    content: Seq<char>,
    b: Seq<u8>,
)
    requires
        http_parser::takes(before, e, after, output),
        e.source == "ssl"@,
        e.data.field("data"@) == Some(Json::Text(content)),
        !http_message::looks_like_http1(content) || http_message::message_in(content) is None,
        e.data.field("data_hex"@) == Some(Json::Text(bytes::hex_text(b))),
    ensures
        http_parser::takes_bytes(before, e, b, after, output),
{
    law_bytes_are_those_captured(e.data, content, b);
}

/// A request on an open connection comes out as one event, and is not taken for HTTP/2.
pub proof fn law_requests_on_connections_come_out(
    before: ParserModel,
    e: EventModel,
    b: Seq<u8>,
    after: ParserModel,
    output: Option<Seq<HttpEventModel>>,
    body: Seq<char>,
)
    requires
        http_parser::takes_bytes(before, e, b, after, output),
        websocket::request_text(before.websocket, e.pid, b) == Some(body),
    ensures
        output is Some,
        (output->0).len() == 1,
        (output->0)[0].body == Some(body),
        (output->0)[0].path == Some(before.websocket[e.pid].path),
        (output->0)[0].headers == before.websocket[e.pid].headers,
        (output->0)[0].method == Some("POST"@),
        (output->0)[0].raw_data == if before.include_raw_data {
            Some(body)
        } else {
            None
        },
        after.http2 == before.http2,
{
}

/// A frame of HTTP/2 that is captured alone gives its event: what the frame makes of its stream,
/// which has observed the capture, in the direction of the call and for the thread that the
/// capture names.
pub proof fn law_single_frames_give_their_event(
    before: ParserModel,
    e: EventModel,
    b: Seq<u8>,
    after: ParserModel,
    output: Option<Seq<HttpEventModel>>,
    f: FrameModel,
    function: Seq<char>,
    direction: HTTP2Direction,
    tid: u64,
)
    requires
        http_parser::takes_bytes(before, e, b, after, output),
        websocket::request_text(before.websocket, e.pid, b) is None,
        http2_frame::frames_in(b) == Some(seq![f]),
        f.stream_id != 0,
        f.frame_type == 0 || f.frame_type == 1 || f.frame_type == 9,
        e.data.field("function"@) == Some(Json::Text(function)),
        http2::direction_of(function) == Some(direction),
        e.data.field("tid"@) == Some(Json::Unsigned(tid)),
    ensures
        ({
            let key = http2::stream_key(tid, f.stream_id);
            let c = CaptureContext { tid, direction, include_raw_data: before.include_raw_data };
            let observed = before.http2.stream(key).observed(direction, e.data);
            let found = Http2Model {
                streams: before.http2.streams.insert(key, observed),
                ..before.http2
            };
            &&& output is Some
            &&& output->0 == match found.on_frame(c, f).event {
                Some(x) => seq![x],
                None => Seq::empty(),
            }
            &&& found.steps_to(c, f, after.http2)
        }),
{
    let frames = seq![f];
    let c = CaptureContext { tid, direction, include_raw_data: before.include_raw_data };
    assert(http2::captures_to(
        before.http2,
        e,
        direction,
        frames,
        before.include_raw_data,
        after.http2,
        output->0,
    ));
    let states = choose|states: Seq<Http2Model>|
        {
            &&& #[trigger] http2::follows(states, c, frames)
            &&& states[0] == before.http2.observing(
                tid,
                direction,
                e.data,
                http2::affected_streams(frames),
            )
            &&& states.last() == after.http2
            &&& output->0 == http2::events_along(states, c, frames)
        };
    assert(frames.drop_last() =~= Seq::empty());
    assert(http2::affected_streams(frames.drop_last()) == Seq::<u32>::empty());
    let ids = http2::affected_streams(frames);
    assert(ids =~= seq![f.stream_id]);
    assert(ids.drop_last() =~= Seq::empty());
    assert(before.http2.observing(tid, direction, e.data, ids.drop_last()) == before.http2);
    assert(frames[0] == f);
    assert(states[0].steps_to(c, f, states[1]));
    assert(http2::events_along(states, c, frames.drop_last()) == Seq::<HttpEventModel>::empty());
    match states[0].on_frame(c, f).event {
        Some(x) => {
            assert(Seq::<HttpEventModel>::empty().push(x) =~= seq![x]);
        },
        None => {},
    }
}

/// The bytes of a capture are those that it gives in hexadecimal; where it gives none they are
/// those that its text stands for.
pub proof fn law_bytes_are_those_captured(data: Json, content: Seq<char>, b: Seq<u8>)
    ensures
        data.field("data_hex"@) == Some(Json::Text(bytes::hex_text(b)))
            ==> http_parser::bytes_captured(data, content) == b,
        data.field("data_hex"@) is None && content == bytes::byte_chars(b)
            ==> http_parser::bytes_captured(data, content) == b,
{
    bytes::law_hex_gives_the_bytes_back(b);
    bytes::law_captured_text_gives_the_bytes_back(b);
}

/// Events from elsewhere, and those without a text, are passed on and change nothing.
pub proof fn law_other_events_are_passed_on(
    before: ParserModel,
    e: EventModel,
    after: ParserModel,
    output: Option<Seq<HttpEventModel>>,
)
    requires
        http_parser::takes(before, e, after, output),
        e.source != "ssl"@ || e.data.field("data"@) is None,
    ensures
        output is None,
        after == before,
{
}

/// Bytes that are neither a request on an open WebSocket connection nor captured by a call with a
/// direction are passed on, and change nothing of HTTP/2.
pub proof fn law_bytes_of_no_direction_are_passed_on(
    before: ParserModel,
    e: EventModel,
    b: Seq<u8>,
    after: ParserModel,
    output: Option<Seq<HttpEventModel>>,
)
    requires
        http_parser::takes_bytes(before, e, b, after, output),
        !before.websocket.contains_key(e.pid),
        e.data.field("function"@) is None,
    ensures
        output is None,
        after.http2 == before.http2,
{
    crate::http2_event_laws::law_directions_are_told_by_the_call(
        Seq::empty(),
        Seq::empty(),
        Seq::empty(),
    );
    assert(http2::event_function(e.data) =~= Seq::empty());
    assert(websocket::request_text(before.websocket, e.pid, b) is None);
}

} // verus!
