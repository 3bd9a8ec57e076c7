//! Laws of HTTP/2: what frames carry stands in the events that they give.

use crate::assoc;
use crate::bytes;
use crate::header_block;
use crate::headers;
use crate::http2;
use crate::http2::{CaptureContext, HTTP2Direction, Http2Model, StreamModel};
use crate::http2_frame;
use crate::http2_frame::FrameModel;
use crate::http_event::HttpEventModel;
use crate::json;
use crate::json::Json;
use crate::text;
use vstd::prelude::*;

verus! {

/// A text that holds a character other than a digit and `+` is no number.
proof fn lemma_no_number(t: Seq<char>, i: int, max: nat)
    requires
        0 <= i < t.len(),
        !('0' <= t[i] <= '9'),
        t[i] != '+',
    ensures
        text::parse_unsigned(t, max) is None,
{
    let d = text::without_plus(t);
    let k = if t[0] == '+' {
        i - 1
    } else {
        i
    };
    assert(d[k] == t[i]);
    assert(!text::is_digit(d[k]));
}

/// A response has the status that its `:status` field gives, where that is a number below 65536,
/// and its first line names it. Only a response without such a field, or with something else in
/// it, has the status 200.
pub proof fn law_responses_have_the_status_of_their_header(
    tid: u64,
    stream_id: u32,
    s: StreamModel,
    include_raw_data: bool,
    n: nat,
    t: Seq<char>,
    i: int,
)
    ensures
        ({
            let e = http2::response_event(tid, stream_id, s, include_raw_data);
            let status = assoc::lookup(s.response_headers, ":status"@);
            &&& status == Some(text::decimal(n)) && n < 65536 ==> e.status_code == Some(n as u16)
                && e.first_line == "HTTP/2 "@ + text::decimal(n)
            &&& status is None || (status == Some(text::decimal(n)) && n >= 65536) || (status
                == Some(t) && 0 <= i < t.len() && !('0' <= t[i] <= '9') && t[i] != '+')
                ==> e.status_code == Some(200u16) && e.first_line == "HTTP/2 "@ + text::decimal(200)
        }),
{
    text::law_numbers_are_read_back(n, u16::MAX as nat);
    if 0 <= i < t.len() && !('0' <= t[i] <= '9') && t[i] != '+' {
        lemma_no_number(t, i, u16::MAX as nat);
    }
}

/// What an event says of a body: nothing where there is none, and otherwise its bytes in
/// hexadecimal, its text where it is UTF-8, and how many bytes that takes.
pub open spec fn tells_body(e: HttpEventModel, body: Seq<u8>) -> bool {
    if body.len() == 0 {
        e.body is None && e.body_hex is None && !e.has_body && e.content_length is None
    } else {
        &&& e.has_body
        &&& e.body_hex is Some
        &&& bytes::is_hex_text(e.body_hex->0)
        &&& bytes::hex_bytes(e.body_hex->0) == body
        &&& e.body is Some
        &&& e.content_length is Some
        &&& vstd::utf8::valid_utf8(body) ==> e.body->0 == vstd::utf8::decode_utf8(body)
            && vstd::utf8::encode_utf8(e.body->0) == body && (body.len() <= usize::MAX
            ==> e.content_length == Some(body.len() as usize))
    }
}

proof fn lemma_tells_body(e: HttpEventModel, body: Seq<u8>)
    requires
        e.body == http2::body_text(body),
        e.body_hex == http2::body_hex_text(body),
        e.has_body == (body.len() > 0),
        e.content_length == http2::text_length(http2::body_text(body)),
    ensures
        tells_body(e, body),
{
    if body.len() > 0 {
        bytes::law_hex_gives_the_bytes_back(body);
        if vstd::utf8::valid_utf8(body) {
            vstd::utf8::decode_utf8_encode_utf8(body);
        }
    }
}

/// The event for a request says what was sent on its stream: the method and the path, also in the
/// first line, the fields and the body.
pub proof fn law_request_events_say_what_was_sent(
    tid: u64,
    stream_id: u32,
    s: StreamModel,
    include_raw_data: bool,
    method: Seq<char>,
    path: Seq<char>,
)
    ensures
        ({
            let e = http2::request_event(tid, stream_id, s, include_raw_data);
            let has_method = assoc::lookup(s.request_headers, ":method"@);
            let has_path = assoc::lookup(s.request_headers, ":path"@);
            &&& e.message_type == "request"@
            &&& e.method == has_method
            &&& e.path == has_path
            &&& has_method == Some(method) && has_path == Some(path) ==> e.first_line == method
                + " "@ + path + " HTTP/2"@
            &&& has_method is None && has_path == Some(path) ==> e.first_line == "HTTP"@ + " "@
                + path + " HTTP/2"@
            &&& has_method == Some(method) && has_path is None ==> e.first_line == method + " "@
                + "/"@ + " HTTP/2"@
            &&& e.protocol == Some("HTTP/2"@)
            &&& e.status_code is None
            &&& e.headers == s.request_headers
            &&& e.original_source == "ssl.http2"@
            &&& !e.is_chunked
            &&& tells_body(e, s.request_body)
            &&& e.capture_metadata == s.request_capture.summary()
            &&& e.raw_data is Some == include_raw_data
            &&& include_raw_data && s.request_body.len() > 0 ==> e.raw_data == e.body
            &&& include_raw_data && s.request_body.len() == 0 ==> e.raw_data == Some(
                Seq::<char>::empty(),
            )
            &&& tid * 1_000_000 + stream_id <= u64::MAX ==> e.tid == tid * 1_000_000 + stream_id
            &&& tid * 1_000_000 + stream_id > u64::MAX ==> e.tid == u64::MAX
        }),
{
    lemma_tells_body(http2::request_event(tid, stream_id, s, include_raw_data), s.request_body);
    if s.request_body.len() == 0 {
        assert(bytes::text_of_bytes(s.request_body) =~= Seq::empty());
    }
}

/// The event for a response says what was received on its stream: the fields and the body.
pub proof fn law_response_events_say_what_was_received(
    tid: u64,
    stream_id: u32,
    s: StreamModel,
    include_raw_data: bool,
)
    ensures
        ({
            let e = http2::response_event(tid, stream_id, s, include_raw_data);
            &&& e.message_type == "response"@
            &&& e.method is None
            &&& e.path is None
            &&& e.protocol == Some("HTTP/2"@)
            &&& e.headers == s.response_headers
            &&& e.original_source == "ssl.http2"@
            &&& !e.is_chunked
            &&& tells_body(e, s.response_body)
            &&& e.capture_metadata == s.response_capture.summary()
            &&& e.raw_data is Some == include_raw_data
            &&& include_raw_data && s.response_body.len() > 0 ==> e.raw_data == e.body
            &&& include_raw_data && s.response_body.len() == 0 ==> e.raw_data == Some(
                Seq::<char>::empty(),
            )
            &&& tid * 1_000_000 + stream_id <= u64::MAX ==> e.tid == tid * 1_000_000 + stream_id
            &&& tid * 1_000_000 + stream_id > u64::MAX ==> e.tid == u64::MAX
        }),
{
    lemma_tells_body(http2::response_event(tid, stream_id, s, include_raw_data), s.response_body);
    if s.response_body.len() == 0 {
        assert(bytes::text_of_bytes(s.response_body) =~= Seq::empty());
    }
}

/// A field more puts its bytes into the size of a stream's event, and so does a body.
pub proof fn law_stream_sizes_count_every_part(
    tid: u64,
    stream_id: u32,
    s: StreamModel,
    raw: bool,
    fields: Seq<(Seq<char>, Seq<char>)>,
    name: Seq<char>,
    value: Seq<char>,
)
    ensures
        ({
            let bare = StreamModel {
                request_headers: Seq::empty(),
                response_headers: Seq::empty(),
                ..s
            };
            let some = StreamModel { request_headers: fields, response_headers: fields, ..s };
            let more = StreamModel {
                request_headers: fields.push((name, value)),
                response_headers: fields.push((name, value)),
                ..s
            };
            let extra = vstd::utf8::encode_utf8(name).len() + vstd::utf8::encode_utf8(value).len();
            &&& s.request_body.len() <= usize::MAX ==> http2::request_event(
                tid,
                stream_id,
                bare,
                raw,
            ).total_size == s.request_body.len()
            &&& s.response_body.len() <= usize::MAX ==> http2::response_event(
                tid,
                stream_id,
                bare,
                raw,
            ).total_size == s.response_body.len()
            &&& http2::request_event(tid, stream_id, more, raw).total_size < usize::MAX
                ==> http2::request_event(tid, stream_id, more, raw).total_size
                == http2::request_event(tid, stream_id, some, raw).total_size + extra
            &&& http2::response_event(tid, stream_id, more, raw).total_size < usize::MAX
                ==> http2::response_event(tid, stream_id, more, raw).total_size
                == http2::response_event(tid, stream_id, some, raw).total_size + extra
        }),
{
    assert(fields.push((name, value)).drop_last() =~= fields);
}

/// The events of frames come in the order of the frames: a frame more adds its event, where it
/// gives one, and leaves those before as they are.
pub proof fn law_events_come_in_the_order_of_frames(
    states: Seq<Http2Model>,
    c: CaptureContext,
    frames: Seq<FrameModel>,
    f: FrameModel,
)
    ensures
        http2::events_along(states, c, Seq::empty()).len() == 0,
        http2::events_along(states, c, frames.push(f)) == match states[frames.len() as int].on_frame(
            c,
            f,
        ).event {
            Some(e) => http2::events_along(states, c, frames).push(e),
            None => http2::events_along(states, c, frames),
        },
{
    assert(frames.push(f).drop_last() =~= frames);
}

/// A flag that a frame has.
pub open spec fn has_flag(flags: u8, bit: u8) -> bool {
    (flags / bit) % 2 == 1
}

/// What was sent of a body before and what a frame carries make up the body, in this order, as
/// far as it fits; of a longer one the end is kept. The event is given with the frame that ends
/// the stream, once, or earlier for a response that is JSON with usage metadata. It tells the
/// body with this frame in it. The other direction stays as it is.
pub proof fn law_data_frames_are_appended(s: Http2Model, c: CaptureContext, f: FrameModel)
    requires
        f.frame_type == 0,
        f.stream_id != 0,
        !has_flag(f.flags, 8),
    ensures
        ({
            let key = http2::stream_key(c.tid, f.stream_id);
            let old = s.stream(key);
            let o = s.on_frame(c, f);
            let new = o.state.stream(key);
            let before = if c.direction == HTTP2Direction::Request {
                old.request_body
            } else {
                old.response_body
            };
            let now = if c.direction == HTTP2Direction::Request {
                new.request_body
            } else {
                new.response_body
            };
            let whole = before + f.payload;
            &&& o.state.streams.contains_key(key)
            &&& whole.len() <= 1024 * 1024 ==> now == whole
            &&& whole.len() > 1024 * 1024 ==> now.len() == 1024 * 1024 && whole.skip(
                whole.len() - 1024 * 1024,
            ) == now
            &&& c.direction == HTTP2Direction::Request ==> new.response_body == old.response_body
                && new.response_emitted == old.response_emitted
            &&& c.direction == HTTP2Direction::Response ==> new.request_body == old.request_body
                && new.request_emitted == old.request_emitted
            &&& new.request_headers == old.request_headers
            &&& new.response_headers == old.response_headers
            &&& has_flag(f.flags, 1) && !old.emitted(c.direction) ==> o.event is Some
            &&& old.emitted(c.direction) ==> o.event is None
            &&& !has_flag(f.flags, 1) && c.direction == HTTP2Direction::Request ==> o.event is None
            &&& o.event is Some ==> tells_body(o.event->0, now) && is_event_of(
                o.event->0,
                new,
                c.direction,
            )
            &&& c.direction == HTTP2Direction::Response && !has_flag(f.flags, 1) && !old.emitted(
                c.direction,
            ) && vstd::utf8::valid_utf8(now) ==> o.event is Some == (text::contains(
                vstd::utf8::decode_utf8(now),
                "usageMetadata"@,
            ) && json::parsed(vstd::utf8::decode_utf8(now)) is Some)
        }),
{
    let key = http2::stream_key(c.tid, f.stream_id);
    assert(http2_frame::data_of(f.flags, f.payload) =~= f.payload);
    let old = s.stream(key).with_data(c.direction, f.payload);
    match c.direction {
        HTTP2Direction::Request => {
            lemma_tells_body(
                http2::request_event(c.tid, f.stream_id, old, c.include_raw_data),
                old.request_body,
            );
        },
        HTTP2Direction::Response => {
            lemma_tells_body(
                http2::response_event(c.tid, f.stream_id, old, c.include_raw_data),
                old.response_body,
            );
        },
    }
}

/// The fields of one direction of a stream.
pub open spec fn fields_of(s: StreamModel, direction: HTTP2Direction) -> Seq<(Seq<char>, Seq<char>)> {
    match direction {
        HTTP2Direction::Request => s.request_headers,
        HTTP2Direction::Response => s.response_headers,
    }
}

/// The event is one for this direction of a stream: a request with the method and the path that its
/// fields give, or a response, and it has the fields.
pub open spec fn is_event_of(e: HttpEventModel, s: StreamModel, direction: HTTP2Direction) -> bool {
    match direction {
        HTTP2Direction::Request => {
            &&& e.message_type == "request"@
            &&& e.headers == s.request_headers
            &&& e.method == assoc::lookup(s.request_headers, ":method"@)
            &&& e.path == assoc::lookup(s.request_headers, ":path"@)
            &&& e.status_code is None
        },
        HTTP2Direction::Response => {
            &&& e.message_type == "response"@
            &&& e.headers == s.response_headers
            &&& e.method is None && e.path is None
            &&& e.status_code is Some
        },
    }
}

/// The decoded blocks of one direction.
pub open spec fn blocks_of(s: Http2Model, direction: HTTP2Direction) -> Seq<Seq<u8>> {
    match direction {
        HTTP2Direction::Request => s.request_blocks,
        HTTP2Direction::Response => s.response_blocks,
    }
}

/// A frame with a whole header block gives its stream the fields of the block, in the frame's
/// direction; fields that the block does not have stay as they are. With the flag that ends the
/// stream the event is given, once, and has these fields.
pub proof fn law_header_frames_give_their_fields(
    s: Http2Model,
    c: CaptureContext,
    f: FrameModel,
    pairs: Seq<(Seq<u8>, Seq<u8>)>,
    n: nat,
)
    requires
        f.frame_type == 1,
        f.stream_id != 0,
        has_flag(f.flags, 4),
        !has_flag(f.flags, 8),
        !has_flag(f.flags, 32),
        header_block::broken_update(f.payload) is None,
        header_block::hpack_fields(blocks_of(s, c.direction).push(f.payload)) == Some(pairs),
    ensures
        ({
            let key = http2::stream_key(c.tid, f.stream_id);
            let old = s.stream(key);
            let o = s.on_frame(c, f);
            let new = o.state.stream(key);
            let given = header_block::with_host(header_block::named_fields(pairs));
            &&& o.state.streams.contains_key(key)
            &&& forall|name: Seq<char>| #[trigger]
                assoc::lookup(fields_of(new, c.direction), name) == match assoc::lookup(given, name) {
                    Some(v) => Some(v),
                    None => assoc::lookup(fields_of(old, c.direction), name),
                }
            &&& c.direction == HTTP2Direction::Request ==> new.response_headers
                == old.response_headers
            &&& c.direction == HTTP2Direction::Response ==> new.request_headers
                == old.request_headers
            &&& new.request_body == old.request_body && new.response_body == old.response_body
            &&& o.event is Some == (has_flag(f.flags, 1) && !old.emitted(c.direction))
            &&& o.event is Some ==> is_event_of(o.event->0, new, c.direction)
            &&& o.event is Some && c.direction == HTTP2Direction::Response && assoc::lookup(
                given,
                ":status"@,
            ) == Some(text::decimal(n)) && n < 65536 ==> (o.event->0).status_code == Some(n as u16)
                && (o.event->0).first_line == "HTTP/2 "@ + text::decimal(n)
            &&& blocks_of(o.state, c.direction) == blocks_of(s, c.direction).push(f.payload)
        }),
{
    let key = http2::stream_key(c.tid, f.stream_id);
    let old = s.stream(key);
    let given = header_block::with_host(header_block::named_fields(pairs));
    assert(http2_frame::block_of(f.flags, f.payload) =~= f.payload);
    assert(header_block::readable(f.payload) == f.payload);
    lemma_named_distinct(pairs);
    let named = header_block::named_fields(pairs);
    match assoc::lookup(named, ":authority"@) {
        Some(a) => {
            assoc::lemma_set(named, "host"@, a);
        },
        None => {},
    }
    let now = fields_of(s.on_frame(c, f).state.stream(key), c.direction);
    assert forall|name: Seq<char>| #[trigger]
        assoc::lookup(now, name) == match assoc::lookup(given, name) {
            Some(v) => Some(v),
            None => assoc::lookup(fields_of(old, c.direction), name),
        } by {
        headers::law_later_fields_win(fields_of(old, c.direction), given, name);
    }
    text::law_numbers_are_read_back(n, u16::MAX as nat);
    assert(assoc::lookup(given, ":status"@) is Some ==> assoc::lookup(now, ":status"@)
        == assoc::lookup(given, ":status"@));
}

/// A header block that cannot be decoded gives no fields and no event; the decoder has seen it.
pub proof fn law_blocks_that_cannot_be_decoded_give_nothing(
    s: Http2Model,
    c: CaptureContext,
    f: FrameModel,
)
    requires
        f.frame_type == 1,
        f.stream_id != 0,
        has_flag(f.flags, 4),
        !has_flag(f.flags, 8),
        !has_flag(f.flags, 32),
        header_block::broken_update(f.payload) is None,
        header_block::hpack_fields(blocks_of(s, c.direction).push(f.payload)) is None,
    ensures
        ({
            let o = s.on_frame(c, f);
            &&& o.event is None
            &&& o.state.streams == s.streams
            &&& o.state.pending == s.pending
            &&& blocks_of(o.state, c.direction) == blocks_of(s, c.direction).push(f.payload)
        }),
{
    assert(http2_frame::block_of(f.flags, f.payload) =~= f.payload);
    assert(header_block::readable(f.payload) == f.payload);
}

proof fn lemma_named_distinct(pairs: Seq<(Seq<u8>, Seq<u8>)>)
    ensures
        assoc::distinct(assoc::keys(header_block::named_fields(pairs))),
    decreases pairs.len(),
{
    if pairs.len() > 0 {
        lemma_named_distinct(pairs.drop_last());
        assoc::lemma_set(
            header_block::named_fields(pairs.drop_last()),
            text::ascii_lowercase(bytes::text_of_bytes(pairs.last().0)),
            bytes::text_of_bytes(pairs.last().1),
        );
    }
}

/// A decoded field stands under its name in lower case, in the place of an earlier one of that
/// name; all others stay as they are.
pub proof fn law_decoded_fields_stand_under_their_names(
    pairs: Seq<(Seq<u8>, Seq<u8>)>,
    name: Seq<char>,
    value: Seq<char>,
)
    ensures
        ({
            let before = header_block::named_fields(pairs);
            let after = header_block::named_fields(
                pairs.push((vstd::utf8::encode_utf8(name), vstd::utf8::encode_utf8(value))),
            );
            &&& header_block::named_fields(Seq::empty()).len() == 0
            &&& assoc::lookup(after, text::ascii_lowercase(name)) == Some(value)
            &&& forall|other: Seq<char>|
                other != text::ascii_lowercase(name) ==> #[trigger] assoc::lookup(after, other)
                    == assoc::lookup(before, other)
        }),
{
    let pair = (vstd::utf8::encode_utf8(name), vstd::utf8::encode_utf8(value));
    let more = pairs.push(pair);
    assert(more.drop_last() =~= pairs);
    vstd::utf8::encode_utf8_valid_utf8(name);
    vstd::utf8::encode_utf8_valid_utf8(value);
    vstd::utf8::encode_utf8_decode_utf8(name);
    vstd::utf8::encode_utf8_decode_utf8(value);
    assoc::lemma_set(header_block::named_fields(pairs), text::ascii_lowercase(name), value);
}

/// A request names its host as such or, failing that, as its authority.
pub proof fn law_hosts_are_named(fields: Seq<(Seq<char>, Seq<char>)>)
    ensures
        ({
            let all = header_block::with_host(fields);
            &&& assoc::lookup(all, "host"@) == match assoc::lookup(fields, "host"@) {
                Some(h) => Some(h),
                None => assoc::lookup(fields, ":authority"@),
            }
            &&& forall|other: Seq<char>|
                other != "host"@ ==> #[trigger] assoc::lookup(all, other) == assoc::lookup(
                    fields,
                    other,
                )
        }),
{
    match assoc::lookup(fields, ":authority"@) {
        Some(a) => {
            assoc::lemma_set(fields, "host"@, a);
        },
        None => {},
    }
}

/// A header block may come in pieces: a frame with its beginning and one with the rest leave the
/// fields of the stream as one frame with the whole block does, in the direction of the first, and
/// no block waits any more.
pub proof fn law_header_blocks_may_come_in_pieces(
    s: Http2Model,
    c: CaptureContext,
    d: CaptureContext,
    stream_id: u32,
    a: Seq<u8>,
    b: Seq<u8>,
)
    requires
        stream_id != 0,
        d.tid == c.tid,
        a.len() + b.len() <= 64 * 1024,
    ensures
        ({
            let key = http2::stream_key(c.tid, stream_id);
            let whole = FrameModel { frame_type: 1, flags: 4, stream_id, payload: a + b };
            let first = FrameModel { frame_type: 1, flags: 0, stream_id, payload: a };
            let rest = FrameModel { frame_type: 9, flags: 4, stream_id, payload: b };
            let at_once = s.on_frame(c, whole);
            let begun = s.on_frame(c, first);
            let ended = begun.state.on_frame(d, rest);
            &&& begun.event is None && ended.event is None
            &&& begun.state.streams == s.streams
            &&& begun.state.pending.contains_key(key)
            &&& !ended.state.pending.contains_key(key)
            &&& ended.state.stream(key) == at_once.state.stream(key)
            &&& ended.state.request_blocks == at_once.state.request_blocks
            &&& ended.state.response_blocks == at_once.state.response_blocks
        }),
{
    assert(http2_frame::block_of(4, a + b) =~= a + b);
    assert(http2_frame::block_of(0, a) =~= a);
}

/// A header block of more than 65536 bytes is dropped, wherever it grows too long, and so is the
/// rest of a block of which nothing waits.
pub proof fn law_long_header_blocks_are_dropped(
    s: Http2Model,
    c: CaptureContext,
    stream_id: u32,
    a: Seq<u8>,
    flags: u8,
)
    requires
        stream_id != 0,
    ensures
        ({
            let key = http2::stream_key(c.tid, stream_id);
            let first = FrameModel { frame_type: 1, flags: 0, stream_id, payload: a };
            let rest = FrameModel { frame_type: 9, flags, stream_id, payload: a };
            &&& a.len() > 65536 ==> s.on_frame(c, first).state == s && s.on_frame(
                c,
                first,
            ).event is None
            &&& !s.pending.contains_key(key) ==> s.on_frame(c, rest).state == s && s.on_frame(
                c,
                rest,
            ).event is None
            &&& s.pending.contains_key(key) && s.pending[key].block.len() + a.len() > 65536 ==> {
                let o = s.on_frame(c, rest);
                &&& o.event is None
                &&& o.state.pending == s.pending.remove(key)
                &&& o.state.streams == s.streams
                &&& o.state.request_blocks == s.request_blocks
                &&& o.state.response_blocks == s.response_blocks
            }
            &&& s.pending.contains_key(key) && s.pending[key].block.len() + a.len() <= 65536
                && !has_flag(flags, 4) ==> {
                let o = s.on_frame(c, rest);
                &&& o.event is None
                &&& o.state.pending.contains_key(key)
                &&& o.state.pending[key].block == s.pending[key].block + a
                &&& o.state.pending[key].direction == s.pending[key].direction
                &&& o.state.streams == s.streams
            }
        }),
{
    assert(http2_frame::block_of(0, a) =~= a);
}

/// Frames of other types, and those of stream 0, do nothing.
pub proof fn law_other_frames_do_nothing(s: Http2Model, c: CaptureContext, f: FrameModel)
    requires
        f.stream_id == 0 || (f.frame_type != 0 && f.frame_type != 1 && f.frame_type != 9),
    ensures
        s.on_frame(c, f).state == s,
        s.on_frame(c, f).event is None,
{
}

/// A stream is forgotten once events were given for both directions, and kept before.
pub proof fn law_done_streams_are_forgotten(
    s: Http2Model,
    c: CaptureContext,
    f: FrameModel,
    after: Http2Model,
)
    requires
        s.steps_to(c, f, after),
        s.on_frame(c, f).state.streams.dom().finite(),
        s.on_frame(c, f).state.streams.len() <= 1024,
        s.on_frame(c, f).drops_streams,
    ensures
        ({
            let key = http2::stream_key(c.tid, f.stream_id);
            let o = s.on_frame(c, f).state;
            let done = o.streams.contains_key(key) && o.streams[key].request_emitted
                && o.streams[key].response_emitted;
            &&& done ==> !after.streams.contains_key(key)
            &&& !done ==> after.streams == o.streams
            &&& forall|other: u128|
                other != key ==> after.streams.contains_key(other) == o.streams.contains_key(other)
                    && #[trigger] after.streams[other] == o.streams[other]
        }),
{
    let key = http2::stream_key(c.tid, f.stream_id);
    let o = s.on_frame(c, f).state;
    if o.streams.contains_key(key) {
        assert(o.streams.remove(key).dom() =~= o.streams.dom().remove(key));
    }
}

/// Calls that read or receive, in letters of either case, tell of responses; others that write or
/// send tell of requests.
pub proof fn law_directions_are_told_by_the_call(a: Seq<char>, t: Seq<char>, b: Seq<char>)
    ensures
        text::ascii_uppercase(t) == "READ"@ || text::ascii_uppercase(t) == "RECV"@
            ==> http2::direction_of(a + t + b) == Some(HTTP2Direction::Response),
        (text::ascii_uppercase(t) == "WRITE"@ || text::ascii_uppercase(t) == "SEND"@)
            && !text::contains(text::ascii_uppercase(a + t + b), "READ"@) && !text::contains(
            text::ascii_uppercase(a + t + b),
            "RECV"@,
        ) ==> http2::direction_of(a + t + b) == Some(HTTP2Direction::Request),
        (forall|i: int| 0 <= i < a.len() ==> #[trigger] a[i] != 'e' && a[i] != 'E')
            ==> http2::direction_of(a) is None,
{
    let up = text::ascii_uppercase(a + t + b);
    assert(up =~= text::ascii_uppercase(a) + text::ascii_uppercase(t) + text::ascii_uppercase(b));
    text::lemma_contains_around(
        text::ascii_uppercase(a),
        text::ascii_uppercase(t),
        text::ascii_uppercase(b),
    );
    if forall|i: int| 0 <= i < a.len() ==> #[trigger] a[i] != 'e' && a[i] != 'E' {
        let u = text::ascii_uppercase(a);
        reveal_strlit("READ");
        reveal_strlit("RECV");
        reveal_strlit("WRITE");
        reveal_strlit("SEND");
        assert forall|i: int| 0 <= i < u.len() implies #[trigger] u[i] != 'E' by {
            assert(a[i] != 'e' && a[i] != 'E');
        }
        if text::contains(u, "READ"@) {
            let k = choose|k: int| text::occurs_at(u, "READ"@, k);
            assert(u.subrange(k, k + 4)[1] == u[k + 1]);
        }
        if text::contains(u, "RECV"@) {
            let k = choose|k: int| text::occurs_at(u, "RECV"@, k);
            assert(u.subrange(k, k + 4)[1] == u[k + 1]);
        }
        if text::contains(u, "WRITE"@) {
            let k = choose|k: int| text::occurs_at(u, "WRITE"@, k);
            assert(u.subrange(k, k + 5)[4] == u[k + 4]);
        }
        if text::contains(u, "SEND"@) {
            let k = choose|k: int| text::occurs_at(u, "SEND"@, k);
            assert(u.subrange(k, k + 4)[1] == u[k + 1]);
        }
    }
}

/// A header block is read back without the padding and the priority that it was sent with.
pub proof fn law_padding_and_priority_are_taken_off(
    block: Seq<u8>,
    priority: Seq<u8>,
    padding: Seq<u8>,
    flags: u8,
)
    requires
        padding.len() <= 255,
        priority.len() == 5,
    ensures
        has_flag(flags, 8) && has_flag(flags, 32) ==> http2_frame::block_of(
            flags,
            seq![padding.len() as u8] + priority + block + padding,
        ) == block,
        has_flag(flags, 8) && !has_flag(flags, 32) ==> http2_frame::block_of(
            flags,
            seq![padding.len() as u8] + block + padding,
        ) == block,
        !has_flag(flags, 8) && has_flag(flags, 32) ==> http2_frame::block_of(
            flags,
            priority + block,
        ) == block,
        !has_flag(flags, 8) && !has_flag(flags, 32) ==> http2_frame::block_of(flags, block) == block,
        has_flag(flags, 8) ==> http2_frame::data_of(
            flags,
            seq![padding.len() as u8] + block + padding,
        ) == block,
        !has_flag(flags, 8) ==> http2_frame::data_of(flags, block) == block,
{
    let n = seq![padding.len() as u8];
    let p = n + priority + block + padding;
    assert(p.subrange(6, p.len() - padding.len()) =~= block);
    let q = n + block + padding;
    assert(q.subrange(1, q.len() - padding.len()) =~= block);
    let r = priority + block;
    assert(r.subrange(5, r.len() as int) =~= block);
    assert(block.subrange(0, block.len() as int) =~= block);
}

/// A stream knows the captures of each direction apart.
pub proof fn law_directions_are_observed_apart(s: StreamModel, data: Json)
    ensures
        ({
            let r = s.observed(HTTP2Direction::Request, data);
            let p = s.observed(HTTP2Direction::Response, data);
            &&& r.request_capture == s.request_capture.observe(data)
            &&& r.response_capture == s.response_capture
            &&& p.response_capture == s.response_capture.observe(data)
            &&& p.request_capture == s.request_capture
            &&& r.request_body == s.request_body && p.response_body == s.response_body
            &&& r.request_headers == s.request_headers && p.response_headers == s.response_headers
        }),
{
}

} // verus!
