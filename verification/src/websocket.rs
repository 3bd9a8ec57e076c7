//! WebSocket requests to model APIs.
//!
//! A connection is known from its handshake on. Its frames are unmasked and decompressed, and a
//! frame that creates a response is given as an HTTP request.

use crate::assoc;
use crate::bytes;
use crate::capture_metadata::{CaptureMetadataAccumulator, CaptureState};
use crate::event::{Event, EventModel};
use crate::headers;
use crate::headers::HeaderMap;
use crate::http_event::{HTTPEvent, HttpEventModel};
use crate::http_message::{HTTPMessage, HTTPMessageType, MessageModel};
use crate::inflate;
use crate::json;
use crate::json::Json;
use crate::text;
use std::collections::HashMap;
use vstd::prelude::*;

verus! {

broadcast use vstd::std_specs::hash::group_hash_axioms;

/// How many bytes of a message body are kept.
pub const MAX_HTTP_BODY_BYTES: usize = 1024 * 1024;

/// The first two bytes are those of a whole text or binary message from a client: the final bit
/// is set, the second and third reserved bits are not, the operation is 1 or 2, and the payload
/// is masked.
pub open spec fn is_masked_message(b: Seq<u8>) -> bool {
    b.len() >= 2 && b[0] >= 128 && (b[0] / 16) % 4 == 0 && (b[0] % 16 == 1 || b[0] % 16 == 2) && b[1]
        >= 128
}

/// The first reserved bit says that the payload is compressed.
pub open spec fn is_compressed(b: Seq<u8>) -> bool {
    (b[0] / 64) % 2 == 1
}

/// Where the mask stands: the payload length takes no, two or eight bytes more.
pub open spec fn mask_offset(b: Seq<u8>) -> int {
    let short = b[1] % 128;
    if short == 126 {
        4
    } else if short == 127 {
        10
    } else {
        2
    }
}

/// The length of the payload.
pub open spec fn payload_length(b: Seq<u8>) -> nat {
    if mask_offset(b) == 2 {
        (b[1] % 128) as nat
    } else {
        bytes::be_value(b.subrange(2, mask_offset(b)))
    }
}

/// Each byte combined with the byte of the mask at its place, the mask repeated.
pub open spec fn masked(mask: Seq<u8>, payload: Seq<u8>) -> Seq<u8> {
    Seq::new(payload.len(), |i: int| payload[i] ^ mask[i % 4])
}

/// The frame that bytes are: whether it is compressed, and its payload unmasked. The bytes are
/// one whole frame and nothing else.
pub open spec fn frame_in(b: Seq<u8>) -> Option<(bool, Seq<u8>)> {
    if is_masked_message(b) && b.len() >= mask_offset(b) + 4 && b.len() == mask_offset(b) + 4
        + payload_length(b) {
        let at = mask_offset(b);
        Some((is_compressed(b), masked(b.subrange(at, at + 4), b.skip(at + 4))))
    } else {
        None
    }
}

/// Reads a masked frame.
pub fn parse_masked_websocket_frame(b: &[u8]) -> (r: Option<(bool, Vec<u8>)>)
    ensures
        match r {
            Some(f) => frame_in(b@) == Some((f.0, f.1@)),
            None => frame_in(b@) is None,
        },
{
    let total: usize = b.len();
    if total < 2 || b[0] < 128 || (b[0] / 16) % 4 != 0 || (b[0] % 16 != 1 && b[0] % 16 != 2) || b[1]
        < 128 {
        return None;
    }
    let short: u8 = b[1] % 128;
    let at: usize = if short == 126 {
        4
    } else if short == 127 {
        10
    } else {
        2
    };
    if total < at + 4 {
        return None;
    }
    let length: u64 = if at == 2 {
        short as u64
    } else {
        bytes::read_be(b, 2, at - 2)
    };
    if length != (total - at - 4) as u64 {
        return None;
    }
    let ghost mask = b@.subrange(at as int, at + 4);
    let ghost payload = b@.skip(at + 4);
    let mut out: Vec<u8> = Vec::new();
    let mut i: usize = 0;
    while i < total - at - 4
        invariant
            total == b@.len(),
            2 <= at <= 10,
            at + 4 <= total,
            i <= total - at - 4,
            mask == b@.subrange(at as int, at + 4),
            payload == b@.skip(at + 4),
            out@ == masked(mask, payload).take(i as int),
        decreases total - i,
    {
        out.push(b[at + 4 + i] ^ b[at + i % 4]);
        assert(out@ =~= masked(mask, payload).take(i + 1));
        i += 1;
    }
    assert(masked(mask, payload).take(i as int) =~= masked(mask, payload));
    Some(((b[0] / 64) % 2 == 1, out))
}

/// What is known of a connection.
pub struct ConnectionModel {
    pub path: Seq<char>,
    pub headers: Seq<(Seq<char>, Seq<char>)>,
    pub inflated: Seq<(Seq<u8>, nat)>,
    pub handshake: CaptureState,
}

/// The message asks for a WebSocket connection to a model API.
pub open spec fn is_handshake(m: MessageModel) -> bool {
    m.message_type == HTTPMessageType::Request && match assoc::lookup(m.headers, "upgrade"@) {
        Some(v) => text::eq_ignore_ascii_case(v, "websocket"@),
        None => false,
    } && match m.path {
        Some(path) => text::contains(path, "/v1/responses"@) || text::contains(
            path,
            "/codex/responses"@,
        ),
        None => false,
    }
}

/// The connection that a handshake opens.
pub open spec fn opened(event: EventModel, m: MessageModel) -> ConnectionModel {
    ConnectionModel {
        path: m.path->0,
        headers: m.headers,
        inflated: Seq::empty(),
        handshake: CaptureState::empty().observe(event.data),
    }
}

/// The connections, by process, after an HTTP message.
pub open spec fn after_message(
    s: Map<u32, ConnectionModel>,
    event: EventModel,
    m: MessageModel,
) -> Map<u32, ConnectionModel> {
    if is_handshake(m) {
        s.insert(event.pid, opened(event, m))
    } else {
        s
    }
}

/// What the compressor of the sender leaves out at the end of each message.
pub open spec fn deflate_tail() -> Seq<u8> {
    seq![0u8, 0u8, 0xffu8, 0xffu8]
}

/// The bytes of a message, once a frame of a connection is decompressed.
pub open spec fn message_bytes(
    c: ConnectionModel,
    compressed: bool,
    payload: Seq<u8>,
) -> Option<Seq<u8>> {
    if compressed {
        inflate::inflated(c.inflated, payload + deflate_tail(), MAX_HTTP_BODY_BYTES as nat)
    } else {
        Some(payload)
    }
}

/// The connection after a frame.
pub open spec fn connection_after(
    c: ConnectionModel,
    compressed: bool,
    payload: Seq<u8>,
) -> ConnectionModel {
    if compressed {
        ConnectionModel {
            inflated: inflate::calls_after(
                c.inflated,
                payload + deflate_tail(),
                MAX_HTTP_BODY_BYTES as nat,
            ),
            ..c
        }
    } else {
        c
    }
}

/// The connections, by process, after the bytes of an event.
pub open spec fn after_bytes(
    s: Map<u32, ConnectionModel>,
    pid: u32,
    b: Seq<u8>,
) -> Map<u32, ConnectionModel> {
    match frame_in(b) {
        Some(frame) => if s.contains_key(pid) {
            s.insert(pid, connection_after(s[pid], frame.0, frame.1))
        } else {
            s
        },
        None => s,
    }
}

/// The JSON value asks for a response to be created.
pub open spec fn creates_response(value: Option<Json>) -> bool {
    match value {
        Some(v) => v.text_field("type"@) == Some("response.create"@),
        None => false,
    }
}

/// The text that the bytes of an event carry as a request on their connection.
pub open spec fn request_text(
    s: Map<u32, ConnectionModel>,
    pid: u32,
    b: Seq<u8>,
) -> Option<Seq<char>> {
    match frame_in(b) {
        Some(frame) => if s.contains_key(pid) {
            match message_bytes(s[pid], frame.0, frame.1) {
                Some(m) => if vstd::utf8::valid_utf8(m) && creates_response(
                    json::parsed(vstd::utf8::decode_utf8(m)),
                ) {
                    Some(vstd::utf8::decode_utf8(m))
                } else {
                    None
                },
                None => None,
            }
        } else {
            None
        },
        None => None,
    }
}

pub open spec fn event_tid(data: Json) -> u64 {
    match data.unsigned_field("tid"@) {
        Some(n) => n,
        None => 0,
    }
}

/// The event for a request that came over a connection.
pub open spec fn request_event(
    c: ConnectionModel,
    event: EventModel,
    body: Seq<char>,
    include_raw_data: bool,
) -> HttpEventModel {
    let encoded = vstd::utf8::encode_utf8(body);
    HttpEventModel {
        capture_metadata: c.handshake.observe(event.data).summary(),
        tid: event_tid(event.data),
        message_type: "request"@,
        first_line: "POST "@ + c.path + " WebSocket"@,
        method: Some("POST"@),
        path: Some(c.path),
        protocol: Some("WebSocket"@),
        status_code: None,
        status_text: None,
        headers: c.headers,
        body: Some(body),
        body_hex: Some(bytes::hex_text(encoded)),
        total_size: headers::bounded(headers::total_bytes(c.headers, 0) + encoded.len()),
        has_body: true,
        is_chunked: false,
        content_length: Some(encoded.len() as usize),
        original_source: "ssl.websocket"@,
        raw_data: if include_raw_data {
            Some(body)
        } else {
            None
        },
    }
}

struct WebSocketConnection {
    path: String,
    headers: HeaderMap,
    inflater: flate2::Decompress,
    handshake_capture_metadata: CaptureMetadataAccumulator,
}

impl View for WebSocketConnection {
    type V = ConnectionModel;

    closed spec fn view(&self) -> ConnectionModel {
        ConnectionModel {
            path: self.path@,
            headers: self.headers@,
            inflated: inflate::inflate_calls(self.inflater),
            handshake: self.handshake_capture_metadata@,
        }
    }
}

/// The WebSocket connections that are open, by process.
pub struct WebSocketState {
    connections: HashMap<u32, WebSocketConnection>,
}

impl View for WebSocketState {
    type V = Map<u32, ConnectionModel>;

    closed spec fn view(&self) -> Map<u32, ConnectionModel> {
        self.connections@.map_values(|c: WebSocketConnection| c@)
    }
}

/// Whether a JSON value asks for a response to be created.
pub fn is_response_create(value: &json::JsonValue) -> (r: bool)
    ensures
        r == creates_response(Some(value@)),
{
    match value.get_str("type") {
        Some(kind) => text::same(kind, "response.create"),
        None => false,
    }
}

impl Default for WebSocketState {
    fn default() -> (r: WebSocketState)
        ensures
            r@ == Map::<u32, ConnectionModel>::empty(),
    {
        let r = WebSocketState { connections: HashMap::new() };
        assert(r@ =~= Map::empty());
        r
    }
}

impl WebSocketState {
    /// Takes note of an HTTP message, which may be a handshake.
    pub fn observe_handshake(&mut self, event: &Event, message: &HTTPMessage)
        ensures
            final(self)@ == after_message(old(self)@, event@, message@),
    {
        let ghost before = self@;
        if message.message_type != HTTPMessageType::Request {
            return;
        }
        let upgrades: bool = match message.headers.get("upgrade") {
            Some(v) => text::same_ignoring_case(v, "websocket"),
            None => false,
        };
        if !upgrades {
            return;
        }
        let path: &String = match &message.path {
            Some(path) => path,
            None => {
                return;
            },
        };
        let path_chars: Vec<char> = text::chars(path.as_str());
        if !text::has(path_chars.as_slice(), "/v1/responses") && !text::has(
            path_chars.as_slice(),
            "/codex/responses",
        ) {
            return;
        }
        let mut metadata: CaptureMetadataAccumulator = CaptureMetadataAccumulator::default();
        metadata.observe_event(event);
        let connection = WebSocketConnection {
            path: path.clone(),
            headers: message.headers.clone(),
            inflater: inflate::new_inflater(),
            handshake_capture_metadata: metadata,
        };
        let ghost added = connection@;
        self.connections.insert(event.pid, connection);
        assert(self@ =~= before.insert(event.pid, added));
    }

    /// Takes the bytes of an event. Gives an event where they are a frame of an open connection
    /// that creates a response.
    pub fn handle_event(&mut self, event: &Event, b: &[u8], include_raw_data: bool) -> (r: Option<
        HTTPEvent,
    >)
        ensures
            final(self)@ == after_bytes(old(self)@, event@.pid, b@),
            match r {
                Some(e) => request_text(old(self)@, event@.pid, b@) is Some && e@ == request_event(
                    old(self)@[event@.pid],
                    event@,
                    request_text(old(self)@, event@.pid, b@)->0,
                    include_raw_data,
                ),
                None => request_text(old(self)@, event@.pid, b@) is None,
            },
    {
        let ghost before = self@;
        if !self.connections.contains_key(&event.pid) {
            return None;
        }
        let (compressed, payload) = match parse_masked_websocket_frame(b) {
            Some(frame) => frame,
            None => {
                return None;
            },
        };
        let mut connection: WebSocketConnection = match self.connections.remove(&event.pid) {
            Some(connection) => connection,
            None => {
                return None;
            },
        };
        let ghost known = connection@;
        let mut content: Option<Vec<u8>> = None;
        if compressed {
            let mut input: Vec<u8> = payload;
            input.push(0);
            input.push(0);
            input.push(0xff);
            input.push(0xff);
            assert(input@ =~= payload@ + deflate_tail());
            content = inflate::inflate(
                &mut connection.inflater,
                input.as_slice(),
                MAX_HTTP_BODY_BYTES,
            );
        } else {
            content = Some(payload);
        }
        assert(connection@ == connection_after(known, compressed, payload@));
        let result: Option<HTTPEvent> = match content {
            Some(content) => match bytes::from_utf8(content) {
                Some(body) => {
                    let creates: bool = match json::parse_json(body.as_str()) {
                        Some(value) => is_response_create(&value),
                        None => false,
                    };
                    if creates {
                        Some(
                            create_websocket_request_event(
                                event,
                                &connection,
                                body,
                                include_raw_data,
                            ),
                        )
                    } else {
                        None
                    }
                },
                None => None,
            },
            None => None,
        };
        let ghost kept = connection@;
        self.connections.insert(event.pid, connection);
        assert(self@ =~= before.insert(event.pid, kept));
        result
    }
}

fn create_websocket_request_event(
    original_event: &Event,
    connection: &WebSocketConnection,
    body: String,
    include_raw_data: bool,
) -> (r: HTTPEvent)
    ensures
        r@ == request_event(connection@, original_event@, body@, include_raw_data),
{
    let tid: u64 = match original_event.data.get_u64("tid") {
        Some(n) => n,
        None => 0,
    };
    let mut capture_metadata: CaptureMetadataAccumulator =
        connection.handshake_capture_metadata.clone();
    capture_metadata.observe_event(original_event);
    let mut first_line: String = text::owned("POST ");
    text::push_str(&mut first_line, connection.path.as_str());
    text::push_str(&mut first_line, " WebSocket");
    let length: usize = text::byte_len(body.as_str());
    let body_hex: String = bytes::hex_encode(body.as_str().as_bytes());
    HTTPEvent {
        capture_metadata: capture_metadata.finish(),
        tid,
        message_type: text::owned("request"),
        first_line,
        method: Some(text::owned("POST")),
        path: Some(connection.path.clone()),
        protocol: Some(text::owned("WebSocket")),
        status_code: None,
        status_text: None,
        headers: connection.headers.clone(),
        body_hex: Some(body_hex),
        total_size: connection.headers.size_with(0).saturating_add(length),
        has_body: true,
        is_chunked: false,
        content_length: Some(length),
        original_source: text::owned("ssl.websocket"),
        raw_data: if include_raw_data {
            Some(body.clone())
        } else {
            None
        },
        body: Some(body),
    }
}

proof fn lemma_xor_twice(x: u8, m: u8)
    ensures
        (x ^ m) ^ m == x,
{
    assert((x ^ m) ^ m == x) by (bit_vector);
}

/// Masking twice with the same mask gives the payload back.
pub proof fn law_masking_undoes_itself(mask: Seq<u8>, payload: Seq<u8>)
    ensures
        masked(mask, masked(mask, payload)) == payload,
{
    let twice = masked(mask, masked(mask, payload));
    assert forall|i: int| 0 <= i < payload.len() implies twice[i] == payload[i] by {
        lemma_xor_twice(payload[i], mask[i % 4]);
    }
    assert(twice =~= payload);
}

/// A client's frame for a payload: the final bit, the bit for compression, the operation, the
/// length in its shortest form, the mask, and the masked payload.
pub open spec fn client_frame(
    compressed: bool,
    operation: u8,
    mask: Seq<u8>,
    payload: Seq<u8>,
) -> Seq<u8> {
    let first = (128 + (if compressed {
        64int
    } else {
        0int
    }) + operation) as u8;
    let n = payload.len();
    let length = if n <= 125 {
        seq![(128 + n) as u8]
    } else if n < 0x1_0000 {
        seq![254u8] + bytes::be_bytes(n, 2)
    } else {
        seq![255u8] + bytes::be_bytes(n, 8)
    };
    seq![first] + length + mask + masked(mask, payload)
}

/// What a client sends as one text or binary message is read back as it was sent.
pub proof fn law_client_frames_are_read_back(
    compressed: bool,
    operation: u8,
    mask: Seq<u8>,
    payload: Seq<u8>,
)
    requires
        operation == 1 || operation == 2,
        mask.len() == 4,
        payload.len() < 0x1_0000_0000_0000_0000,
    ensures
        frame_in(client_frame(compressed, operation, mask, payload)) == Some((compressed, payload)),
{
    let b = client_frame(compressed, operation, mask, payload);
    let n = payload.len();
    bytes::lemma_power_256();
    let size = if n <= 125 {
        0nat
    } else if n < 0x1_0000 {
        2nat
    } else {
        8nat
    };
    if size > 0 {
        bytes::law_big_endian_gives_the_number_back(n, size);
    }
    assert(mask_offset(b) == 2 + size);
    if size > 0 {
        assert(b.subrange(2, 2 + size as int) =~= bytes::be_bytes(n, size));
    }
    assert(payload_length(b) == n);
    let at = mask_offset(b);
    assert(b.subrange(at, at + 4) =~= mask);
    assert(b.skip(at + 4) =~= masked(mask, payload));
    law_masking_undoes_itself(mask, payload);
    assert(is_masked_message(b));
}

/// Frames neither open nor close a connection, other messages than handshakes change none, and
/// what one process sends leaves the connections of the others as they are.
pub proof fn law_only_handshakes_open_connections(
    s: Map<u32, ConnectionModel>,
    event: EventModel,
    m: MessageModel,
    b: Seq<u8>,
)
    ensures
        after_bytes(s, event.pid, b).dom() =~= s.dom(),
        !is_handshake(m) ==> after_message(s, event, m) == s,
        forall|pid: u32|
            pid != event.pid && s.contains_key(pid) ==> {
                &&& #[trigger] after_message(s, event, m)[pid] == s[pid]
                &&& after_bytes(s, event.pid, b)[pid] == s[pid]
            },
{
}

} // verus!
