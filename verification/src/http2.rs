//! HTTP/2 connections: frames are put together to requests and responses.

use crate::assoc;
use crate::bytes;
use crate::capture_metadata::{CaptureMetadataAccumulator, CaptureState};
use crate::event::{Event, EventModel};
use crate::header_block;
use crate::headers;
use crate::headers::HeaderMap;
use crate::http2_frame;
use crate::http2_frame::{FrameModel, HTTP2Frame};
use crate::http_event;
use crate::http_event::{HTTPEvent, HttpEventModel};
use crate::json;
use crate::json::Json;
use crate::text;
use crate::websocket;
use crate::websocket::MAX_HTTP_BODY_BYTES;
use std::collections::{HashMap, HashSet};
use vstd::prelude::*;
use vstd::slice::slice_subrange;

verus! {

broadcast use vstd::std_specs::hash::group_hash_axioms;

/// How many streams are kept.
pub const MAX_HTTP2_STREAMS: usize = 1024;

/// How many header blocks that have not ended are kept.
pub const MAX_HTTP2_PENDING_HEADERS: usize = 1024;

/// How many bytes of a header block are kept until it ends.
pub const MAX_HTTP2_HEADER_BLOCK_BYTES: usize = 64 * 1024;

#[derive(Clone, Copy, PartialEq, Eq, Debug, Structural)]
pub enum HTTP2Direction {
    Request,
    Response,
}

/// The direction that the name of a TLS call tells of.
pub open spec fn direction_of(function: Seq<char>) -> Option<HTTP2Direction> {
    let upper = text::ascii_uppercase(function);
    if text::contains(upper, "READ"@) || text::contains(upper, "RECV"@) {
        Some(HTTP2Direction::Response)
    } else if text::contains(upper, "WRITE"@) || text::contains(upper, "SEND"@) {
        Some(HTTP2Direction::Request)
    } else {
        None
    }
}

/// The direction that the name of a TLS call tells of.
pub fn direction_from_function(function: &str) -> (r: Option<HTTP2Direction>)
    ensures
        r == direction_of(function@),
{
    let all: Vec<char> = text::chars(function);
    let upper: Vec<char> = text::upper(all.as_slice());
    if text::has(upper.as_slice(), "READ") || text::has(upper.as_slice(), "RECV") {
        Some(HTTP2Direction::Response)
    } else if text::has(upper.as_slice(), "WRITE") || text::has(upper.as_slice(), "SEND") {
        Some(HTTP2Direction::Request)
    } else {
        None
    }
}

/// The last `max` bytes of `s`, all where there are no more.
pub open spec fn last_bytes(s: Seq<u8>, max: nat) -> Seq<u8> {
    if s.len() > max {
        s.skip(s.len() - max)
    } else {
        s
    }
}

/// Appends data to a buffer, of which the last `max` bytes are kept.
pub fn extend_capped(buffer: &mut Vec<u8>, data: &[u8], max: usize)
    ensures
        final(buffer)@ == last_bytes(old(buffer)@ + data@, max as nat),
{
    buffer.extend_from_slice(data);
    let total: usize = buffer.len();
    if total > max {
        let mut kept: Vec<u8> = Vec::new();
        let tail: &[u8] = slice_subrange(buffer.as_slice(), total - max, total);
        kept.extend_from_slice(tail);
        assert(kept@ =~= buffer@.skip(total - max));
        *buffer = kept;
    }
}

/// What is left of `before` once entries are dropped until at most `max` are there. Which ones are
/// dropped is not fixed.
pub open spec fn evicted<K, V>(before: Map<K, V>, after: Map<K, V>, max: nat) -> bool {
    if before.len() <= max {
        after == before
    } else {
        after.submap_of(before) && after.len() == max
    }
}

fn any_key<T>(map: &HashMap<u128, T>) -> (r: Option<u128>)
    ensures
        match r {
            Some(k) => map@.contains_key(k),
            None => map@.dom() =~= Set::empty(),
        },
{
    for k in it: map.keys()
        invariant
            it.index() == 0,
            it.seq().unref().to_set() == map@.dom(),
    {
        assert(it.seq().unref()[0] == *k);
        return Some(*k);
    }
    assert forall|k: u128| !map@.dom().contains(k) by {}
    None
}

/// Drops entries until at most `max` are there.
pub fn evict_over_capacity<T>(map: &mut HashMap<u128, T>, max: usize)
    ensures
        evicted(old(map)@, final(map)@, max as nat),
{
    let ghost before = map@;
    while map.len() > max
        invariant
            map@.submap_of(before),
            map@.len() <= before.len(),
            before.len() <= max ==> map@ == before,
            before.len() > max ==> map@.len() >= max,
            map@.dom().finite(),
        decreases map@.len(),
    {
        match any_key(map) {
            Some(key) => {
                let ghost previous = map@;
                map.remove(&key);
                assert(map@ =~= previous.remove(key));
            },
            None => {
                assert(map@.len() == 0);
                return;
            },
        }
    }
}

/// What is known of a stream.
pub struct StreamModel {
    pub request_headers: Seq<(Seq<char>, Seq<char>)>,
    pub response_headers: Seq<(Seq<char>, Seq<char>)>,
    pub request_body: Seq<u8>,
    pub response_body: Seq<u8>,
    pub request_emitted: bool,
    pub response_emitted: bool,
    pub request_capture: CaptureState,
    pub response_capture: CaptureState,
}

impl StreamModel {
    /// A stream of which nothing is known yet.
    pub open spec fn fresh() -> StreamModel {
        StreamModel {
            request_headers: Seq::empty(),
            response_headers: Seq::empty(),
            request_body: Seq::empty(),
            response_body: Seq::empty(),
            request_emitted: false,
            response_emitted: false,
            request_capture: CaptureState::empty(),
            response_capture: CaptureState::empty(),
        }
    }

    /// The stream once a capture with frames of it in this direction has been observed.
    pub open spec fn observed(self, direction: HTTP2Direction, data: Json) -> StreamModel {
        match direction {
            HTTP2Direction::Request => StreamModel {
                request_capture: self.request_capture.observe(data),
                ..self
            },
            HTTP2Direction::Response => StreamModel {
                response_capture: self.response_capture.observe(data),
                ..self
            },
        }
    }

    /// The stream with more data in this direction. The last bytes of a body are kept.
    pub open spec fn with_data(self, direction: HTTP2Direction, data: Seq<u8>) -> StreamModel {
        match direction {
            HTTP2Direction::Request => StreamModel {
                request_body: last_bytes(self.request_body + data, MAX_HTTP_BODY_BYTES as nat),
                ..self
            },
            HTTP2Direction::Response => StreamModel {
                response_body: last_bytes(self.response_body + data, MAX_HTTP_BODY_BYTES as nat),
                ..self
            },
        }
    }

    /// The stream with more header fields in this direction.
    pub open spec fn with_headers(
        self,
        direction: HTTP2Direction,
        fields: Seq<(Seq<char>, Seq<char>)>,
    ) -> StreamModel {
        match direction {
            HTTP2Direction::Request => StreamModel {
                request_headers: headers::extended(self.request_headers, fields),
                ..self
            },
            HTTP2Direction::Response => StreamModel {
                response_headers: headers::extended(self.response_headers, fields),
                ..self
            },
        }
    }

    /// An event was given for this direction.
    pub open spec fn emitted(self, direction: HTTP2Direction) -> bool {
        match direction {
            HTTP2Direction::Request => self.request_emitted,
            HTTP2Direction::Response => self.response_emitted,
        }
    }

    /// The stream once an event is given for this direction, where one is due.
    pub open spec fn emitting(self, direction: HTTP2Direction, due: bool) -> StreamModel {
        match direction {
            HTTP2Direction::Request => StreamModel {
                request_emitted: self.request_emitted || due,
                ..self
            },
            HTTP2Direction::Response => StreamModel {
                response_emitted: self.response_emitted || due,
                ..self
            },
        }
    }

    /// Events were given for the request and for the response.
    pub open spec fn done(self) -> bool {
        self.request_emitted && self.response_emitted
    }

    /// The response is known to be whole before its stream ends: it is JSON that tells the usage.
    pub open spec fn response_is_whole(self) -> bool {
        let body = bytes::text_of_bytes(self.response_body);
        tells_usage(body) && json::parsed(body) is Some
    }
}

/// The text mentions usage metadata.
pub open spec fn tells_usage(body: Seq<char>) -> bool {
    text::contains(body, "usageMetadata"@)
}

/// A header block that has not ended.
pub struct PendingModel {
    pub direction: HTTP2Direction,
    pub block: Seq<u8>,
}

/// The state of all connections. The two decoders are known by the blocks that they were given.
pub struct Http2Model {
    pub request_blocks: Seq<Seq<u8>>,
    pub response_blocks: Seq<Seq<u8>>,
    pub streams: Map<u128, StreamModel>,
    pub pending: Map<u128, PendingModel>,
}

/// What a stream is found by: the thread and the number of the stream.
pub open spec fn stream_key(tid: u64, stream_id: u32) -> u128 {
    (tid * 0x1_0000_0000 + stream_id) as u128
}

/// What a stream is found by.
fn key_of(tid: u64, stream_id: u32) -> (r: u128)
    ensures
        r == stream_key(tid, stream_id),
{
    (tid as u128) * 0x1_0000_0000 + stream_id as u128
}

/// What all frames of one capture have in common.
pub struct CaptureContext {
    pub tid: u64,
    pub direction: HTTP2Direction,
    pub include_raw_data: bool,
}

/// The thread of the events that are given for a stream: a number made of both.
pub open spec fn stream_tid(tid: u64, stream_id: u32) -> u64 {
    if tid * 1_000_000 + stream_id > u64::MAX {
        u64::MAX
    } else {
        (tid * 1_000_000 + stream_id) as u64
    }
}

/// The thread of the events that are given for a stream.
pub fn synthetic_http2_tid(tid: u64, stream_id: u32) -> (r: u64)
    ensures
        r == stream_tid(tid, stream_id),
{
    let wide: u128 = (tid as u128) * 1_000_000 + stream_id as u128;
    if wide > u64::MAX as u128 {
        u64::MAX
    } else {
        wide as u64
    }
}

pub open spec fn body_text(body: Seq<u8>) -> Option<Seq<char>> {
    if body.len() == 0 {
        None
    } else {
        Some(bytes::text_of_bytes(body))
    }
}

pub open spec fn body_hex_text(body: Seq<u8>) -> Option<Seq<char>> {
    if body.len() == 0 {
        None
    } else {
        Some(bytes::hex_text(body))
    }
}

pub open spec fn text_length(s: Option<Seq<char>>) -> Option<usize> {
    match s {
        Some(t) => Some(vstd::utf8::encode_utf8(t).len() as usize),
        None => None,
    }
}

/// `s`, or `other` where it is absent.
pub open spec fn text_or(s: Option<Seq<char>>, other: Seq<char>) -> Seq<char> {
    match s {
        Some(t) => t,
        None => other,
    }
}

/// The event for the request of a stream.
pub open spec fn request_event(
    tid: u64,
    stream_id: u32,
    s: StreamModel,
    include_raw_data: bool,
) -> HttpEventModel {
    let method = assoc::lookup(s.request_headers, ":method"@);
    let path = assoc::lookup(s.request_headers, ":path"@);
    HttpEventModel {
        capture_metadata: s.request_capture.summary(),
        tid: stream_tid(tid, stream_id),
        message_type: "request"@,
        first_line: text_or(method, "HTTP"@) + " "@ + text_or(path, "/"@) + " HTTP/2"@,
        method,
        path,
        protocol: Some("HTTP/2"@),
        status_code: None,
        status_text: None,
        headers: s.request_headers,
        body: body_text(s.request_body),
        body_hex: body_hex_text(s.request_body),
        total_size: headers::bounded(
            headers::total_bytes(s.request_headers, 0) + s.request_body.len(),
        ),
        has_body: s.request_body.len() > 0,
        is_chunked: false,
        content_length: text_length(body_text(s.request_body)),
        original_source: "ssl.http2"@,
        raw_data: if include_raw_data {
            Some(bytes::text_of_bytes(s.request_body))
        } else {
            None
        },
    }
}

/// The status of a response: 200 where the header gives none that can be read.
pub open spec fn status_of(fields: Seq<(Seq<char>, Seq<char>)>) -> u16 {
    match assoc::lookup(fields, ":status"@) {
        Some(s) => match text::parse_unsigned(s, u16::MAX as nat) {
            Some(n) => n as u16,
            None => 200,
        },
        None => 200,
    }
}

/// The event for the response of a stream.
pub open spec fn response_event(
    tid: u64,
    stream_id: u32,
    s: StreamModel,
    include_raw_data: bool,
) -> HttpEventModel {
    let status = status_of(s.response_headers);
    HttpEventModel {
        capture_metadata: s.response_capture.summary(),
        tid: stream_tid(tid, stream_id),
        message_type: "response"@,
        first_line: "HTTP/2 "@ + text::decimal(status as nat),
        method: None,
        path: None,
        protocol: Some("HTTP/2"@),
        status_code: Some(status),
        status_text: None,
        headers: s.response_headers,
        body: body_text(s.response_body),
        body_hex: body_hex_text(s.response_body),
        total_size: headers::bounded(
            headers::total_bytes(s.response_headers, 0) + s.response_body.len(),
        ),
        has_body: s.response_body.len() > 0,
        is_chunked: false,
        content_length: text_length(body_text(s.response_body)),
        original_source: "ssl.http2"@,
        raw_data: if include_raw_data {
            Some(bytes::text_of_bytes(s.response_body))
        } else {
            None
        },
    }
}

/// The event for one direction of a stream.
pub open spec fn stream_event(c: CaptureContext, stream_id: u32, s: StreamModel) -> HttpEventModel {
    match c.direction {
        HTTP2Direction::Request => request_event(c.tid, stream_id, s, c.include_raw_data),
        HTTP2Direction::Response => response_event(c.tid, stream_id, s, c.include_raw_data),
    }
}

/// What a frame does: the state after it, the event that it gives, and whether entries are
/// dropped afterwards where there are too many.
pub struct Outcome {
    pub state: Http2Model,
    pub event: Option<HttpEventModel>,
    pub drops_streams: bool,
    pub drops_pending: bool,
}

impl Http2Model {
    /// Nothing captured yet.
    pub open spec fn start() -> Http2Model {
        Http2Model {
            request_blocks: Seq::empty(),
            response_blocks: Seq::empty(),
            streams: Map::empty(),
            pending: Map::empty(),
        }
    }

    /// The stream under a key, a fresh one where there is none.
    pub open spec fn stream(self, key: u128) -> StreamModel {
        if self.streams.contains_key(key) {
            self.streams[key]
        } else {
            StreamModel::fresh()
        }
    }

    pub open spec fn with_stream(self, key: u128, stream: StreamModel) -> Http2Model {
        Http2Model { streams: self.streams.insert(key, stream), ..self }
    }

    /// The fields that a header block in this direction holds.
    pub open spec fn decoded(self, direction: HTTP2Direction, block: Seq<u8>) -> Option<
        Seq<(Seq<char>, Seq<char>)>,
    > {
        let blocks = match direction {
            HTTP2Direction::Request => self.request_blocks,
            HTTP2Direction::Response => self.response_blocks,
        };
        match header_block::fields_of_block(blocks, block) {
            Some(pairs) => Some(header_block::with_host(header_block::named_fields(pairs))),
            None => None,
        }
    }

    /// The state once a header block in this direction was decoded.
    pub open spec fn after_block(self, direction: HTTP2Direction, block: Seq<u8>) -> Http2Model {
        match direction {
            HTTP2Direction::Request => Http2Model {
                request_blocks: self.request_blocks.push(header_block::readable(block)),
                ..self
            },
            HTTP2Direction::Response => Http2Model {
                response_blocks: self.response_blocks.push(header_block::readable(block)),
                ..self
            },
        }
    }

    /// What a data frame does. The event is due when the stream ends, and for a response also
    /// when it is known to be whole; it is given once.
    pub open spec fn on_data(self, c: CaptureContext, f: FrameModel) -> Outcome {
        let key = stream_key(c.tid, f.stream_id);
        let s = self.stream(key).with_data(
            c.direction,
            http2_frame::data_of(f.flags, f.payload),
        );
        let due = (http2_frame::ends_stream(f.flags) || (c.direction == HTTP2Direction::Response
            && s.response_is_whole())) && !s.emitted(c.direction);
        Outcome {
            state: self.with_stream(key, s.emitting(c.direction, due)),
            event: if due {
                Some(stream_event(c, f.stream_id, s))
            } else {
                None
            },
            drops_streams: true,
            drops_pending: false,
        }
    }

    /// What a frame with the start of a header block does. A whole block is decoded; one that
    /// goes on in other frames is kept until it ends, unless it is too long.
    pub open spec fn on_headers(self, c: CaptureContext, f: FrameModel) -> Outcome {
        let key = stream_key(c.tid, f.stream_id);
        let block = http2_frame::block_of(f.flags, f.payload);
        if http2_frame::ends_headers(f.flags) {
            match self.decoded(c.direction, block) {
                Some(fields) => {
                    let s = self.stream(key).with_headers(c.direction, fields);
                    let due = http2_frame::ends_stream(f.flags) && !s.emitted(c.direction);
                    Outcome {
                        state: self.after_block(c.direction, block).with_stream(
                            key,
                            s.emitting(c.direction, due),
                        ),
                        event: if due {
                            Some(stream_event(c, f.stream_id, s))
                        } else {
                            None
                        },
                        drops_streams: true,
                        drops_pending: false,
                    }
                },
                None => Outcome {
                    state: self.after_block(c.direction, block),
                    event: None,
                    drops_streams: true,
                    drops_pending: false,
                },
            }
        } else if block.len() <= MAX_HTTP2_HEADER_BLOCK_BYTES {
            Outcome {
                state: Http2Model {
                    pending: self.pending.insert(
                        key,
                        PendingModel { direction: c.direction, block },
                    ),
                    ..self
                },
                event: None,
                drops_streams: true,
                drops_pending: true,
            }
        } else {
            Outcome { state: self, event: None, drops_streams: true, drops_pending: false }
        }
    }

    /// What a frame with more of a header block does. Nothing is done for a block that was not
    /// begun, and one that gets too long is forgotten.
    pub open spec fn on_continuation(self, c: CaptureContext, f: FrameModel) -> Outcome {
        let key = stream_key(c.tid, f.stream_id);
        if !self.pending.contains_key(key) {
            Outcome { state: self, event: None, drops_streams: false, drops_pending: false }
        } else {
            let direction = self.pending[key].direction;
            let block = self.pending[key].block + f.payload;
            let taken = Http2Model { pending: self.pending.remove(key), ..self };
            if block.len() > MAX_HTTP2_HEADER_BLOCK_BYTES {
                Outcome { state: taken, event: None, drops_streams: false, drops_pending: false }
            } else if http2_frame::ends_headers(f.flags) {
                let state = taken.after_block(direction, block);
                Outcome {
                    state: match self.decoded(direction, block) {
                        Some(fields) => state.with_stream(
                            key,
                            self.stream(key).with_headers(direction, fields),
                        ),
                        None => state,
                    },
                    event: None,
                    drops_streams: true,
                    drops_pending: false,
                }
            } else {
                Outcome {
                    state: Http2Model {
                        pending: self.pending.insert(key, PendingModel { direction, block }),
                        ..self
                    },
                    event: None,
                    drops_streams: true,
                    drops_pending: false,
                }
            }
        }
    }

    /// The frame is one of data, headers or continuation.
    pub open spec fn concerns_stream(f: FrameModel) -> bool {
        f.frame_type == 0 || f.frame_type == 1 || f.frame_type == 9
    }

    /// What a frame does. Frames of other types do nothing, nor do those of stream 0.
    pub open spec fn on_frame(self, c: CaptureContext, f: FrameModel) -> Outcome {
        if Http2Model::concerns_stream(f) && f.stream_id == 0 {
            Outcome { state: self, event: None, drops_streams: false, drops_pending: false }
        } else if f.frame_type == 0 {
            self.on_data(c, f)
        } else if f.frame_type == 1 {
            self.on_headers(c, f)
        } else if f.frame_type == 9 {
            self.on_continuation(c, f)
        } else {
            Outcome { state: self, event: None, drops_streams: true, drops_pending: false }
        }
    }

    /// The streams without the one under a key, where events were given for both directions.
    pub open spec fn without_done(self, key: u128) -> Map<u128, StreamModel> {
        if self.streams.contains_key(key) && self.streams[key].done() {
            self.streams.remove(key)
        } else {
            self.streams
        }
    }

    /// `after` can follow on the frame: it is what the frame does, with the stream taken out once
    /// it is done, and with entries dropped where there are too many.
    pub open spec fn steps_to(self, c: CaptureContext, f: FrameModel, after: Http2Model) -> bool {
        let o = self.on_frame(c, f);
        let key = stream_key(c.tid, f.stream_id);
        &&& after.request_blocks == o.state.request_blocks
        &&& after.response_blocks == o.state.response_blocks
        &&& if o.drops_pending {
            evicted(o.state.pending, after.pending, MAX_HTTP2_PENDING_HEADERS as nat)
        } else {
            after.pending == o.state.pending
        }
        &&& if o.drops_streams {
            evicted(o.state.without_done(key), after.streams, MAX_HTTP2_STREAMS as nat)
        } else {
            after.streams == o.state.streams
        }
    }
}

/// The streams that frames concern, each once.
pub open spec fn affected_streams(frames: Seq<FrameModel>) -> Seq<u32>
    decreases frames.len(),
{
    if frames.len() == 0 {
        Seq::empty()
    } else {
        let before = affected_streams(frames.drop_last());
        let f = frames.last();
        if Http2Model::concerns_stream(f) && f.stream_id != 0 && !before.contains(f.stream_id) {
            before.push(f.stream_id)
        } else {
            before
        }
    }
}

impl Http2Model {
    /// The state once each of these streams has observed the capture, once however many frames of
    /// the stream are in it.
    pub open spec fn observing(
        self,
        tid: u64,
        direction: HTTP2Direction,
        data: Json,
        ids: Seq<u32>,
    ) -> Http2Model
        decreases ids.len(),
    {
        if ids.len() == 0 {
            self
        } else {
            let before = self.observing(tid, direction, data, ids.drop_last());
            let key = stream_key(tid, ids.last());
            before.with_stream(key, before.stream(key).observed(direction, data))
        }
    }
}

/// The states follow each other, one frame after the other.
pub open spec fn follows(
    states: Seq<Http2Model>,
    c: CaptureContext,
    frames: Seq<FrameModel>,
) -> bool {
    &&& states.len() == frames.len() + 1
    &&& forall|i: int|
        #![trigger frames[i]]
        0 <= i < frames.len() ==> states[i].steps_to(c, frames[i], states[i + 1])
}

/// The events that frames give on their way through these states.
pub open spec fn events_along(
    states: Seq<Http2Model>,
    c: CaptureContext,
    frames: Seq<FrameModel>,
) -> Seq<HttpEventModel>
    decreases frames.len(),
{
    if frames.len() == 0 {
        Seq::empty()
    } else {
        let before = events_along(states, c, frames.drop_last());
        match states[frames.len() - 1].on_frame(c, frames.last()).event {
            Some(e) => before.push(e),
            None => before,
        }
    }
}

/// The name of the TLS call that an event is of.
pub open spec fn event_function(data: Json) -> Seq<char> {
    match data.text_field("function"@) {
        Some(s) => s,
        None => Seq::empty(),
    }
}

/// `after` can follow on the frames of one capture, and these are the events that come of them.
pub open spec fn captures_to(
    before: Http2Model,
    event: EventModel,
    direction: HTTP2Direction,
    frames: Seq<FrameModel>,
    include_raw_data: bool,
    after: Http2Model,
    events: Seq<HttpEventModel>,
) -> bool {
    let tid = websocket::event_tid(event.data);
    let c = CaptureContext { tid, direction, include_raw_data };
    exists|states: Seq<Http2Model>|
        {
            &&& #[trigger] follows(states, c, frames)
            &&& states[0] == before.observing(
                tid,
                direction,
                event.data,
                affected_streams(frames),
            )
            &&& states.last() == after
            &&& events == events_along(states, c, frames)
        }
}

#[derive(Debug)]
struct PendingHTTP2Headers {
    direction: HTTP2Direction,
    block: Vec<u8>,
}

impl View for PendingHTTP2Headers {
    type V = PendingModel;

    closed spec fn view(&self) -> PendingModel {
        PendingModel { direction: self.direction, block: self.block@ }
    }
}

struct HTTP2StreamState {
    request_headers: HeaderMap,
    response_headers: HeaderMap,
    request_body: Vec<u8>,
    response_body: Vec<u8>,
    request_emitted: bool,
    response_emitted: bool,
    request_capture_metadata: CaptureMetadataAccumulator,
    response_capture_metadata: CaptureMetadataAccumulator,
}

impl View for HTTP2StreamState {
    type V = StreamModel;

    closed spec fn view(&self) -> StreamModel {
        StreamModel {
            request_headers: self.request_headers@,
            response_headers: self.response_headers@,
            request_body: self.request_body@,
            response_body: self.response_body@,
            request_emitted: self.request_emitted,
            response_emitted: self.response_emitted,
            request_capture: self.request_capture_metadata@,
            response_capture: self.response_capture_metadata@,
        }
    }
}

/// Whether bytes are JSON that tells the usage.
pub fn looks_like_complete_json(body: &[u8]) -> (r: bool)
    ensures
        r == (tells_usage(bytes::text_of_bytes(body@)) && json::parsed(
            bytes::text_of_bytes(body@),
        ) is Some),
{
    let body_text: String = bytes::from_utf8_lossy(body);
    mentions_usage(body_text.as_str()) && json::parse_json(body_text.as_str()).is_some()
}

/// Whether a text mentions usage metadata.
pub fn mentions_usage(body: &str) -> (r: bool)
    ensures
        r == tells_usage(body@),
{
    let all: Vec<char> = text::chars(body);
    text::has(all.as_slice(), "usageMetadata")
}

fn optional_copy(s: Option<&str>) -> (r: Option<String>)
    ensures
        match s {
            Some(t) => text::optional_view(r) == Some(t@),
            None => r is None,
        },
{
    match s {
        Some(t) => Some(text::owned(t)),
        None => None,
    }
}

fn optional_hex(body: &[u8]) -> (r: Option<String>)
    ensures
        text::optional_view(r) == body_hex_text(body@),
{
    if body.len() == 0 {
        None
    } else {
        Some(bytes::hex_encode(body))
    }
}

fn optional_length(s: &Option<String>) -> (r: Option<usize>)
    ensures
        r == text_length(text::optional_view(*s)),
{
    match s {
        Some(t) => Some(text::byte_len(t.as_str())),
        None => None,
    }
}

impl HTTP2StreamState {
    fn fresh() -> (r: HTTP2StreamState)
        ensures
            r@ == StreamModel::fresh(),
    {
        HTTP2StreamState {
            request_headers: HeaderMap::new(),
            response_headers: HeaderMap::new(),
            request_body: Vec::new(),
            response_body: Vec::new(),
            request_emitted: false,
            response_emitted: false,
            request_capture_metadata: CaptureMetadataAccumulator::default(),
            response_capture_metadata: CaptureMetadataAccumulator::default(),
        }
    }

    fn observe(&mut self, direction: HTTP2Direction, event: &Event)
        ensures
            final(self)@ == old(self)@.observed(direction, event@.data),
    {
        match direction {
            HTTP2Direction::Request => {
                self.request_capture_metadata.observe_event(event);
            },
            HTTP2Direction::Response => {
                self.response_capture_metadata.observe_event(event);
            },
        }
    }

    fn add_data(&mut self, direction: HTTP2Direction, data: &[u8])
        ensures
            final(self)@ == old(self)@.with_data(direction, data@),
    {
        match direction {
            HTTP2Direction::Request => {
                extend_capped(&mut self.request_body, data, MAX_HTTP_BODY_BYTES);
            },
            HTTP2Direction::Response => {
                extend_capped(&mut self.response_body, data, MAX_HTTP_BODY_BYTES);
            },
        }
    }

    fn apply_headers(&mut self, direction: HTTP2Direction, fields: HeaderMap)
        ensures
            final(self)@ == old(self)@.with_headers(direction, fields@),
    {
        match direction {
            HTTP2Direction::Request => {
                self.request_headers.extend(fields);
            },
            HTTP2Direction::Response => {
                self.response_headers.extend(fields);
            },
        }
    }

    fn is_emitted(&self, direction: HTTP2Direction) -> (r: bool)
        ensures
            r == self@.emitted(direction),
    {
        match direction {
            HTTP2Direction::Request => self.request_emitted,
            HTTP2Direction::Response => self.response_emitted,
        }
    }

    /// Gives the event for a direction where it is due, and takes note of it.
    fn emit(
        &mut self,
        due: bool,
        tid: u64,
        direction: HTTP2Direction,
        stream_id: u32,
        include_raw_data: bool,
    ) -> (r: Option<HTTPEvent>)
        ensures
            final(self)@ == old(self)@.emitting(direction, due),
            match r {
                Some(e) => due && e@ == stream_event(
                    CaptureContext { tid, direction, include_raw_data },
                    stream_id,
                    old(self)@,
                ),
                None => !due,
            },
    {
        if !due {
            return None;
        }
        match direction {
            HTTP2Direction::Request => {
                let event: HTTPEvent = create_http2_request_event(
                    tid,
                    stream_id,
                    self,
                    include_raw_data,
                );
                self.request_emitted = true;
                Some(event)
            },
            HTTP2Direction::Response => {
                let event: HTTPEvent = create_http2_response_event(
                    tid,
                    stream_id,
                    self,
                    include_raw_data,
                );
                self.response_emitted = true;
                Some(event)
            },
        }
    }
}

fn create_http2_request_event(
    tid: u64,
    stream_id: u32,
    state: &HTTP2StreamState,
    include_raw_data: bool,
) -> (r: HTTPEvent)
    ensures
        r@ == request_event(tid, stream_id, state@, include_raw_data),
{
    let method: Option<String> = optional_copy(state.request_headers.get(":method"));
    let path: Option<String> = optional_copy(state.request_headers.get(":path"));
    let mut first_line: String = match &method {
        Some(method) => method.clone(),
        None => text::owned("HTTP"),
    };
    text::push_str(&mut first_line, " ");
    match &path {
        Some(path) => {
            text::push_str(&mut first_line, path.as_str());
        },
        None => {
            text::push_str(&mut first_line, "/");
        },
    }
    text::push_str(&mut first_line, " HTTP/2");
    let body: Option<String> = bytes::body_string(state.request_body.as_slice());
    HTTPEvent {
        capture_metadata: state.request_capture_metadata.finish(),
        tid: synthetic_http2_tid(tid, stream_id),
        message_type: text::owned("request"),
        first_line,
        method,
        path,
        protocol: Some(text::owned("HTTP/2")),
        status_code: None,
        status_text: None,
        headers: state.request_headers.clone(),
        content_length: optional_length(&body),
        has_body: body.is_some(),
        is_chunked: false,
        body,
        body_hex: optional_hex(state.request_body.as_slice()),
        total_size: state.request_headers.size_with(0).saturating_add(state.request_body.len()),
        original_source: text::owned("ssl.http2"),
        raw_data: if include_raw_data {
            Some(bytes::from_utf8_lossy(state.request_body.as_slice()))
        } else {
            None
        },
    }
}

fn create_http2_response_event(
    tid: u64,
    stream_id: u32,
    state: &HTTP2StreamState,
    include_raw_data: bool,
) -> (r: HTTPEvent)
    ensures
        r@ == response_event(tid, stream_id, state@, include_raw_data),
{
    let status: u16 = match state.response_headers.get(":status") {
        Some(s) => {
            let digits: Vec<char> = text::chars(s);
            match text::number(digits.as_slice(), u16::MAX as u64) {
                Some(n) => n as u16,
                None => 200,
            }
        },
        None => 200,
    };
    let mut first_line: String = text::owned("HTTP/2 ");
    let status_text: String = text::digits(status as u64);
    text::push_str(&mut first_line, status_text.as_str());
    let body: Option<String> = bytes::body_string(state.response_body.as_slice());
    HTTPEvent {
        capture_metadata: state.response_capture_metadata.finish(),
        tid: synthetic_http2_tid(tid, stream_id),
        message_type: text::owned("response"),
        first_line,
        method: None,
        path: None,
        protocol: Some(text::owned("HTTP/2")),
        status_code: Some(status),
        status_text: None,
        headers: state.response_headers.clone(),
        content_length: optional_length(&body),
        has_body: body.is_some(),
        is_chunked: false,
        body,
        body_hex: optional_hex(state.response_body.as_slice()),
        total_size: state.response_headers.size_with(0).saturating_add(state.response_body.len()),
        original_source: text::owned("ssl.http2"),
        raw_data: if include_raw_data {
            Some(bytes::from_utf8_lossy(state.response_body.as_slice()))
        } else {
            None
        },
    }
}

/// Puts frames together to requests and responses.
pub struct HTTP2State {
    request_decoder: hpack::Decoder<'static>,
    response_decoder: hpack::Decoder<'static>,
    streams: HashMap<u128, HTTP2StreamState>,
    pending_headers: HashMap<u128, PendingHTTP2Headers>,
}

impl View for HTTP2State {
    type V = Http2Model;

    closed spec fn view(&self) -> Http2Model {
        Http2Model {
            request_blocks: header_block::hpack_blocks(self.request_decoder),
            response_blocks: header_block::hpack_blocks(self.response_decoder),
            streams: self.streams@.map_values(|s: HTTP2StreamState| s@),
            pending: self.pending_headers@.map_values(|p: PendingHTTP2Headers| p@),
        }
    }
}

impl Default for HTTP2State {
    fn default() -> (r: HTTP2State)
        ensures
            r@ == Http2Model::start(),
    {
        let r = HTTP2State {
            request_decoder: header_block::new_decoder(),
            response_decoder: header_block::new_decoder(),
            streams: HashMap::new(),
            pending_headers: HashMap::new(),
        };
        assert(r@.streams =~= Map::empty());
        assert(r@.pending =~= Map::empty());
        r
    }
}

proof fn lemma_evicted_views<K, V, W>(before: Map<K, V>, after: Map<K, V>, f: spec_fn(V) -> W, max: nat)
    requires
        evicted(before, after, max),
    ensures
        evicted(before.map_values(f), after.map_values(f), max),
{
    assert(before.map_values(f).dom() =~= before.dom());
    assert(after.map_values(f).dom() =~= after.dom());
}

impl HTTP2State {
    /// Takes a stream out; a fresh one where there is none.
    fn take_stream(&mut self, key: u128) -> (r: HTTP2StreamState)
        ensures
            r@ == old(self)@.stream(key),
            final(self)@ == (Http2Model { streams: old(self)@.streams.remove(key), ..old(self)@ }),
    {
        let ghost before = self@;
        let r: HTTP2StreamState = match self.streams.remove(&key) {
            Some(stream) => stream,
            None => HTTP2StreamState::fresh(),
        };
        assert(self@.streams =~= before.streams.remove(key));
        r
    }

    /// Puts a stream in.
    fn put_stream(&mut self, key: u128, stream: HTTP2StreamState)
        ensures
            final(self)@ == old(self)@.with_stream(key, stream@),
    {
        let ghost before = self@;
        let ghost added = stream@;
        self.streams.insert(key, stream);
        assert(self@.streams =~= before.streams.insert(key, added));
    }

    fn put_pending(&mut self, key: u128, pending: PendingHTTP2Headers)
        ensures
            final(self)@ == (Http2Model {
                pending: old(self)@.pending.insert(key, pending@),
                ..old(self)@
            }),
    {
        let ghost before = self@;
        let ghost added = pending@;
        self.pending_headers.insert(key, pending);
        assert(self@.pending =~= before.pending.insert(key, added));
    }

    fn take_pending(&mut self, key: u128) -> (r: Option<PendingHTTP2Headers>)
        ensures
            match r {
                Some(p) => old(self)@.pending.contains_key(key) && p@ == old(self)@.pending[key],
                None => !old(self)@.pending.contains_key(key),
            },
            final(self)@ == (Http2Model { pending: old(self)@.pending.remove(key), ..old(self)@ }),
    {
        let ghost before = self@;
        let r: Option<PendingHTTP2Headers> = self.pending_headers.remove(&key);
        assert(self@.pending =~= before.pending.remove(key));
        r
    }

    /// Drops streams until there are not too many.
    fn drop_streams(&mut self)
        ensures
            evicted(old(self)@.streams, final(self)@.streams, MAX_HTTP2_STREAMS as nat),
            final(self)@ == (Http2Model { streams: final(self)@.streams, ..old(self)@ }),
    {
        let ghost before = self.streams@;
        evict_over_capacity(&mut self.streams, MAX_HTTP2_STREAMS);
        proof {
            lemma_evicted_views(
                before,
                self.streams@,
                |s: HTTP2StreamState| s@,
                MAX_HTTP2_STREAMS as nat,
            );
        }
    }

    /// Drops header blocks until there are not too many.
    fn drop_pending(&mut self)
        ensures
            evicted(old(self)@.pending, final(self)@.pending, MAX_HTTP2_PENDING_HEADERS as nat),
            final(self)@ == (Http2Model { pending: final(self)@.pending, ..old(self)@ }),
    {
        let ghost before = self.pending_headers@;
        evict_over_capacity(&mut self.pending_headers, MAX_HTTP2_PENDING_HEADERS);
        proof {
            lemma_evicted_views(
                before,
                self.pending_headers@,
                |p: PendingHTTP2Headers| p@,
                MAX_HTTP2_PENDING_HEADERS as nat,
            );
        }
    }

    /// Takes a stream out for good, where events were given for both directions.
    fn drop_done(&mut self, key: u128)
        ensures
            final(self)@ == (Http2Model { streams: old(self)@.without_done(key), ..old(self)@ }),
    {
        let ghost before = self@;
        let done: bool = match self.streams.get(&key) {
            Some(stream) => stream.request_emitted && stream.response_emitted,
            None => false,
        };
        if done {
            self.streams.remove(&key);
            assert(self@.streams =~= before.streams.remove(key));
        }
    }

    /// Decodes a header block.
    fn decode_headers(&mut self, direction: HTTP2Direction, block: &[u8]) -> (r: Option<HeaderMap>)
        ensures
            final(self)@ == old(self)@.after_block(direction, block@),
            match r {
                Some(h) => old(self)@.decoded(direction, block@) == Some(h@),
                None => old(self)@.decoded(direction, block@) is None,
            },
    {
        let decoded: Option<Vec<(Vec<u8>, Vec<u8>)>> = match direction {
            HTTP2Direction::Request => header_block::decode_block(&mut self.request_decoder, block),
            HTTP2Direction::Response => header_block::decode_block(
                &mut self.response_decoder,
                block,
            ),
        };
        match decoded {
            Some(fields) => Some(header_block::headers_from_fields(&fields)),
            None => None,
        }
    }

    fn handle_data(
        &mut self,
        tid: u64,
        direction: HTTP2Direction,
        include_raw_data: bool,
        frame: &HTTP2Frame<'_>,
    ) -> (r: Option<HTTPEvent>)
        ensures
            ({
                let o = old(self)@.on_data(
                    CaptureContext { tid, direction, include_raw_data },
                    frame@,
                );
                &&& final(self)@ == o.state
                &&& match r {
                    Some(e) => o.event == Some(e@),
                    None => o.event is None,
                }
            }),
    {
        let ghost before = self@;
        let key: u128 = key_of(tid, frame.stream_id);
        let mut stream: HTTP2StreamState = self.take_stream(key);
        stream.add_data(direction, http2_frame::data_payload(frame.flags, frame.payload));
        let ends: bool = frame.flags % 2 == 1 || (direction == HTTP2Direction::Response
            && looks_like_complete_json(stream.response_body.as_slice()));
        let due: bool = ends && !stream.is_emitted(direction);
        let event: Option<HTTPEvent> = stream.emit(
            due,
            tid,
            direction,
            frame.stream_id,
            include_raw_data,
        );
        let ghost kept = stream@;
        self.put_stream(key, stream);
        assert(before.streams.remove(key).insert(key, kept) =~= before.streams.insert(key, kept));
        event
    }

    fn handle_headers(
        &mut self,
        tid: u64,
        direction: HTTP2Direction,
        include_raw_data: bool,
        frame: &HTTP2Frame<'_>,
    ) -> (r: Option<HTTPEvent>)
        ensures
            ({
                let o = old(self)@.on_headers(
                    CaptureContext { tid, direction, include_raw_data },
                    frame@,
                );
                &&& if o.drops_pending {
                    evicted(
                        o.state.pending,
                        final(self)@.pending,
                        MAX_HTTP2_PENDING_HEADERS as nat,
                    ) && final(self)@ == (Http2Model { pending: final(self)@.pending, ..o.state })
                } else {
                    final(self)@ == o.state
                }
                &&& match r {
                    Some(e) => o.event == Some(e@),
                    None => o.event is None,
                }
            }),
    {
        let ghost before = self@;
        let key: u128 = key_of(tid, frame.stream_id);
        let fragment: &[u8] = http2_frame::headers_payload(frame.flags, frame.payload);
        if (frame.flags / 4) % 2 == 1 {
            match self.decode_headers(direction, fragment) {
                Some(fields) => {
                    let mut stream: HTTP2StreamState = self.take_stream(key);
                    stream.apply_headers(direction, fields);
                    let due: bool = frame.flags % 2 == 1 && !stream.is_emitted(direction);
                    let event: Option<HTTPEvent> = stream.emit(
                        due,
                        tid,
                        direction,
                        frame.stream_id,
                        include_raw_data,
                    );
                    let ghost kept = stream@;
                    self.put_stream(key, stream);
                    assert(before.streams.remove(key).insert(key, kept) =~= before.streams.insert(
                        key,
                        kept,
                    ));
                    event
                },
                None => None,
            }
        } else if fragment.len() <= MAX_HTTP2_HEADER_BLOCK_BYTES {
            let mut block: Vec<u8> = Vec::new();
            block.extend_from_slice(fragment);
            assert(block@ =~= fragment@);
            self.put_pending(key, PendingHTTP2Headers { direction, block });
            self.drop_pending();
            None
        } else {
            None
        }
    }

    /// Takes a frame with more of a header block. Gives whether there was something to do.
    fn handle_continuation(
        &mut self,
        tid: u64,
        direction: HTTP2Direction,
        include_raw_data: bool,
        frame: &HTTP2Frame<'_>,
    ) -> (r: bool)
        ensures
            ({
                let o = old(self)@.on_continuation(
                    CaptureContext { tid, direction, include_raw_data },
                    frame@,
                );
                &&& final(self)@ == o.state
                &&& r == o.drops_streams
            }),
    {
        let ghost before = self@;
        let key: u128 = key_of(tid, frame.stream_id);
        let mut pending: PendingHTTP2Headers = match self.take_pending(key) {
            Some(pending) => pending,
            None => {
                assert(before.pending.remove(key) =~= before.pending);
                return false;
            },
        };
        pending.block.extend_from_slice(frame.payload);
        assert(pending.block@ =~= before.pending[key].block + frame.payload@);
        if pending.block.len() > MAX_HTTP2_HEADER_BLOCK_BYTES {
            return false;
        }
        if (frame.flags / 4) % 2 == 1 {
            match self.decode_headers(pending.direction, pending.block.as_slice()) {
                Some(fields) => {
                    let mut stream: HTTP2StreamState = self.take_stream(key);
                    stream.apply_headers(pending.direction, fields);
                    let ghost kept = stream@;
                    self.put_stream(key, stream);
                    assert(before.streams.remove(key).insert(key, kept) =~= before.streams.insert(
                        key,
                        kept,
                    ));
                },
                None => {},
            }
        } else {
            let ghost kept = pending@;
            self.put_pending(key, pending);
            assert(before.pending.remove(key).insert(key, kept) =~= before.pending.insert(
                key,
                kept,
            ));
        }
        true
    }

    /// Takes one frame, and gives the event that comes of it.
    fn handle_frame(
        &mut self,
        tid: u64,
        direction: HTTP2Direction,
        include_raw_data: bool,
        frame: &HTTP2Frame<'_>,
    ) -> (r: Option<HTTPEvent>)
        ensures
            ({
                let c = CaptureContext { tid, direction, include_raw_data };
                &&& old(self)@.steps_to(c, frame@, final(self)@)
                &&& match r {
                    Some(e) => old(self)@.on_frame(c, frame@).event == Some(e@),
                    None => old(self)@.on_frame(c, frame@).event is None,
                }
            }),
    {
        let key: u128 = key_of(tid, frame.stream_id);
        let kind: u8 = frame.frame_type;
        if (kind == 0 || kind == 1 || kind == 9) && frame.stream_id == 0 {
            return None;
        }
        let mut event: Option<HTTPEvent> = None;
        if kind == 0 {
            event = self.handle_data(tid, direction, include_raw_data, frame);
        } else if kind == 1 {
            event = self.handle_headers(tid, direction, include_raw_data, frame);
        } else if kind == 9 {
            if !self.handle_continuation(tid, direction, include_raw_data, frame) {
                return None;
            }
        }
        self.drop_done(key);
        self.drop_streams();
        event
    }
}

/// The streams that frames concern, each once.
fn find_affected(frames: &Vec<HTTP2Frame<'_>>) -> (r: Vec<u32>)
    ensures
        r@ == affected_streams(http2_frame::frames_view(frames@)),
{
    let mut ids: Vec<u32> = Vec::new();
    let mut seen: HashSet<u32> = HashSet::new();
    let mut i: usize = 0;
    let ghost all = http2_frame::frames_view(frames@);
    while i < frames.len()
        invariant
            i <= frames@.len(),
            all == http2_frame::frames_view(frames@),
            ids@ == affected_streams(all.take(i as int)),
            forall|id: u32| #[trigger] seen@.contains(id) <==> ids@.contains(id),
        decreases frames@.len() - i,
    {
        let kind: u8 = frames[i].frame_type;
        let id: u32 = frames[i].stream_id;
        proof {
            assert(all.take(i + 1).drop_last() =~= all.take(i as int));
            assert(all.take(i + 1).last() == frames@[i as int]@);
        }
        if (kind == 0 || kind == 1 || kind == 9) && id != 0 {
            if seen.insert(id) {
                let ghost before = ids@;
                ids.push(id);
                proof {
                    assert(ids@[before.len() as int] == id);
                    assert forall|x: u32| #[trigger] seen@.contains(x) <==> ids@.contains(x) by {
                        if before.contains(x) {
                            let k = choose|k: int| 0 <= k < before.len() && before[k] == x;
                            assert(ids@[k] == x);
                        }
                    }
                }
            }
        }
        i += 1;
    }
    assert(all.take(i as int) =~= all);
    ids
}

impl HTTP2State {
    fn observe_capture(
        &mut self,
        tid: u64,
        direction: HTTP2Direction,
        event: &Event,
        ids: &Vec<u32>,
    )
        ensures
            final(self)@ == old(self)@.observing(tid, direction, event@.data, ids@),
    {
        let ghost before = self@;
        let mut i: usize = 0;
        while i < ids.len()
            invariant
                i <= ids@.len(),
                self@ == before.observing(tid, direction, event@.data, ids@.take(i as int)),
            decreases ids@.len() - i,
        {
            proof {
                assert(ids@.take(i + 1).drop_last() =~= ids@.take(i as int));
            }
            let ghost current = self@;
            let key: u128 = key_of(tid, ids[i]);
            let mut stream: HTTP2StreamState = self.take_stream(key);
            stream.observe(direction, event);
            let ghost kept = stream@;
            self.put_stream(key, stream);
            assert(current.streams.remove(key).insert(key, kept) =~= current.streams.insert(
                key,
                kept,
            ));
            i += 1;
        }
        assert(ids@.take(i as int) =~= ids@);
    }

    /// Takes the bytes of an event. Gives the events that come of them, where they are frames.
    pub fn handle_event(
        &mut self,
        original_event: &Event,
        b: &[u8],
        include_raw_data: bool,
    ) -> (r: Option<Vec<HTTPEvent>>)
        ensures
            match (
                direction_of(event_function(original_event@.data)),
                http2_frame::frames_in(b@),
            ) {
                (Some(direction), Some(frames)) => r is Some && captures_to(
                    old(self)@,
                    original_event@,
                    direction,
                    frames,
                    include_raw_data,
                    final(self)@,
                    http_event::events_view(r->0@),
                ),
                _ => r is None && final(self)@ == old(self)@,
            },
    {
        let ghost before = self@;
        let tid: u64 = match original_event.data.get_u64("tid") {
            Some(n) => n,
            None => 0,
        };
        let function: &str = match original_event.data.get_str("function") {
            Some(function) => function,
            None => "",
        };
        proof {
            reveal_strlit("");
            assert(""@ =~= Seq::empty());
        }
        let direction: HTTP2Direction = match direction_from_function(function) {
            Some(direction) => direction,
            None => {
                return None;
            },
        };
        let frames: Vec<HTTP2Frame<'_>> = match http2_frame::parse_http2_frames(b) {
            Some(frames) => frames,
            None => {
                return None;
            },
        };
        let ids: Vec<u32> = find_affected(&frames);
        self.observe_capture(tid, direction, original_event, &ids);

        let ghost c = CaptureContext { tid, direction, include_raw_data };
        let ghost all = http2_frame::frames_view(frames@);
        let ghost first = self@;
        let ghost mut states: Seq<Http2Model> = seq![self@];
        let mut events: Vec<HTTPEvent> = Vec::new();
        assert(http_event::events_view(events@) =~= Seq::empty());
        let mut i: usize = 0;
        while i < frames.len()
            invariant
                i <= frames@.len(),
                all == http2_frame::frames_view(frames@),
                c == (CaptureContext { tid, direction, include_raw_data }),
                states.len() == i + 1,
                states[0] == first,
                states.last() == self@,
                follows(states, c, all.take(i as int)),
                http_event::events_view(events@) == events_along(states, c, all.take(i as int)),
            decreases frames@.len() - i,
        {
            let ghost previous = states;
            let ghost given = events@;
            match self.handle_frame(tid, direction, include_raw_data, &frames[i]) {
                Some(event) => {
                    events.push(event);
                    assert(http_event::events_view(events@) =~= http_event::events_view(
                        given,
                    ).push(event@));
                },
                None => {},
            }
            proof {
                states = states.push(self@);
                lemma_events_kept(previous, self@, c, all.take(i as int));
                let shorter = all.take(i as int);
                let longer = all.take(i + 1);
                assert(longer.drop_last() =~= shorter);
                assert(longer.last() == frames@[i as int]@);
                assert forall|k: int| 0 <= k < longer.len() implies states[k].steps_to(
                    c,
                    #[trigger] longer[k],
                    states[k + 1],
                ) by {
                    if k < i {
                        assert(shorter[k] == longer[k]);
                        assert(previous[k].steps_to(c, shorter[k], previous[k + 1]));
                    }
                }
            }
            i += 1;
        }
        proof {
            assert(all.take(i as int) =~= all);
            assert(follows(states, c, all));
        }
        Some(events)
    }
}

proof fn lemma_events_kept(
    states: Seq<Http2Model>,
    next: Http2Model,
    c: CaptureContext,
    frames: Seq<FrameModel>,
)
    requires
        states.len() > frames.len(),
    ensures
        events_along(states.push(next), c, frames) == events_along(states, c, frames),
    decreases frames.len(),
{
    if frames.len() > 0 {
        lemma_events_kept(states, next, c, frames.drop_last());
    }
}

} // verus!
