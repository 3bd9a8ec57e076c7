//! Laws of WebSocket requests: who opens a connection, and what a request on one says.

use crate::assoc;
use crate::bytes;
use crate::capture_metadata::CaptureState;
use crate::event::EventModel;
use crate::headers;
use crate::http_message::{HTTPMessageType, MessageModel};
use crate::inflate;
use crate::json;
use crate::json::Json;
use crate::text;
use crate::websocket;
use crate::websocket::ConnectionModel;
use vstd::prelude::*;

verus! {

/// A request for an upgrade to a WebSocket, in letters of either case, opens a connection where
/// its path is one of those of a model API. The connection is known by the process, and keeps the
/// path, the fields and what the capture said of itself.
pub proof fn law_handshakes_open_a_connection(
    s: Map<u32, ConnectionModel>,
    event: EventModel,
    m: MessageModel,
    v: Seq<char>,
    a: Seq<char>,
    b: Seq<char>,
)
    requires
        m.message_type == HTTPMessageType::Request,
        assoc::lookup(m.headers, "upgrade"@) == Some(v),
        text::ascii_lowercase(v) == "websocket"@,
        m.path == Some(a + "/v1/responses"@ + b) || m.path == Some(a + "/codex/responses"@ + b),
    ensures
        ({
            let after = websocket::after_message(s, event, m);
            &&& after.dom() == s.dom().insert(event.pid)
            &&& Some(after[event.pid].path) == m.path
            &&& after[event.pid].headers == m.headers
            &&& after[event.pid].handshake == CaptureState::empty().observe(event.data)
            &&& after[event.pid].inflated.len() == 0
            &&& forall|pid: u32| pid != event.pid ==> #[trigger] after[pid] == s[pid]
        }),
{
    text::lemma_contains_around(a, "/v1/responses"@, b);
    text::lemma_contains_around(a, "/codex/responses"@, b);
    reveal_strlit("websocket");
    let w = "websocket"@;
    assert(text::ascii_lowercase(w) =~= w);
}

/// Responses, messages without an upgrade, upgrades to something else and requests for other paths
/// open none.
pub proof fn law_other_messages_open_no_connection(
    s: Map<u32, ConnectionModel>,
    event: EventModel,
    m: MessageModel,
)
    requires
        m.message_type == HTTPMessageType::Response || assoc::lookup(m.headers, "upgrade"@) is None
            || text::ascii_lowercase(assoc::lookup(m.headers, "upgrade"@)->0) != "websocket"@
            || m.path is None || (!text::contains(m.path->0, "/v1/responses"@) && !text::contains(
            m.path->0,
            "/codex/responses"@,
        )),
    ensures
        websocket::after_message(s, event, m) == s,
{
    reveal_strlit("websocket");
    let w = "websocket"@;
    assert(text::ascii_lowercase(w) =~= w);
}

/// Where the mask of a frame begins, by the seven low bits of its second byte.
pub open spec fn mask_place(b: Seq<u8>) -> int {
    if b[1] % 128 == 126 {
        4
    } else if b[1] % 128 == 127 {
        10
    } else {
        2
    }
}

/// The payload of a frame is what follows on the mask, each byte combined with the byte of the
/// mask at its place, over and over. The second bit of the frame says whether it is compressed.
pub proof fn law_payloads_are_unmasked(b: Seq<u8>, i: int)
    requires
        websocket::frame_in(b) is Some,
    ensures
        ({
            let at = mask_place(b);
            let (compressed, payload) = websocket::frame_in(b)->0;
            &&& compressed == ((b[0] / 64) % 2 == 1)
            &&& payload.len() == b.len() - at - 4
            &&& 0 <= i < payload.len() ==> payload[i] == b[at + 4 + i] ^ b[at + i % 4]
        }),
{
}

/// Bytes are no frame where the first is not that of a whole message of text or bytes, where they
/// have no mask, and where they are more or fewer than the frame announces.
pub proof fn law_other_bytes_are_no_frame(b: Seq<u8>)
    ensures
        b.len() < 6 ==> websocket::frame_in(b) is None,
        b.len() >= 2 && b[0] < 128 ==> websocket::frame_in(b) is None,
        b.len() >= 2 && b[0] % 16 != 1 && b[0] % 16 != 2 ==> websocket::frame_in(b) is None,
        b.len() >= 2 && (b[0] / 32) % 2 == 1 ==> websocket::frame_in(b) is None,
        b.len() >= 2 && (b[0] / 16) % 2 == 1 ==> websocket::frame_in(b) is None,
        b.len() >= 2 && b[1] < 128 ==> websocket::frame_in(b) is None,
        b.len() >= 2 && b[1] % 128 < 126 && b.len() != 6 + b[1] % 128 ==> websocket::frame_in(
            b,
        ) is None,
{
    if b.len() >= 2 {
        let x = b[0];
        assert((x / 32) % 2 == 1 ==> (x / 16) % 4 != 0) by (bit_vector);
        assert((x / 16) % 2 == 1 ==> (x / 16) % 4 != 0) by (bit_vector);
    }
}

/// A frame on an open connection is a request where its text is JSON that asks for a response to
/// be created, and the request has that text. A compressed frame is read after the frames before
/// it, with the four bytes that its sender left out.
pub proof fn law_requests_have_the_text_of_their_frame(
    s: Map<u32, ConnectionModel>,
    pid: u32,
    b: Seq<u8>,
    body: Seq<char>,
    value: Json,
)
    requires
        websocket::frame_in(b) is Some,
        s.contains_key(pid),
        json::parsed(body) == Some(value),
    ensures
        ({
            let (compressed, payload) = websocket::frame_in(b)->0;
            let encoded = vstd::utf8::encode_utf8(body);
            let asks = value.field("type"@) == Some(Json::Text("response.create"@));
            let found = websocket::request_text(s, pid, b);
            &&& !compressed && payload == encoded ==> found == if asks {
                Some(body)
            } else {
                None
            }
            &&& compressed && inflate::inflated(
                s[pid].inflated,
                payload + seq![0u8, 0u8, 255u8, 255u8],
                1024 * 1024,
            ) == Some(encoded) ==> found == if asks {
                Some(body)
            } else {
                None
            }
        }),
{
    vstd::utf8::encode_utf8_valid_utf8(body);
    vstd::utf8::encode_utf8_decode_utf8(body);
}

/// Bytes that are no frame, or of a process without a connection, are no request.
pub proof fn law_other_bytes_are_no_request(s: Map<u32, ConnectionModel>, pid: u32, b: Seq<u8>)
    requires
        websocket::frame_in(b) is None || !s.contains_key(pid),
    ensures
        websocket::request_text(s, pid, b) is None,
        websocket::after_bytes(s, pid, b) == s,
{
}

/// A compressed frame is remembered by its connection, whatever it says; one that is not
/// compressed changes nothing.
pub proof fn law_compressed_frames_are_remembered(
    s: Map<u32, ConnectionModel>,
    pid: u32,
    b: Seq<u8>,
)
    requires
        websocket::frame_in(b) is Some,
        s.contains_key(pid),
    ensures
        ({
            let (compressed, payload) = websocket::frame_in(b)->0;
            let after = websocket::after_bytes(s, pid, b);
            &&& after[pid].path == s[pid].path
            &&& after[pid].headers == s[pid].headers
            &&& after[pid].handshake == s[pid].handshake
            &&& after[pid].inflated == if compressed {
                inflate::calls_after(
                    s[pid].inflated,
                    payload + seq![0u8, 0u8, 255u8, 255u8],
                    1024 * 1024,
                )
            } else {
                s[pid].inflated
            }
            &&& forall|other: u32|
                other != pid ==> after.contains_key(other) == s.contains_key(other)
                    && #[trigger] after[other] == s[other]
        }),
{
}

/// A compressed input gives what the decompressor writes for it where that takes all of its bytes,
/// and nothing where it takes fewer.
pub proof fn law_inputs_are_taken_whole(calls: Seq<(Seq<u8>, nat)>, input: Seq<u8>, limit: nat)
    requires
        inflate::inflate_total_in(calls) + input.len() <= u64::MAX,
        inflate::inflate_total_out(calls) + limit <= u64::MAX,
    ensures
        ({
            let after = calls.push((input, limit));
            let taken = inflate::inflate_total_in(after) - inflate::inflate_total_in(calls);
            &&& inflate::calls_after(calls, input, limit) == after
            &&& taken == input.len() ==> inflate::inflated(calls, input, limit)
                == inflate::inflate_output(after)
            &&& taken != input.len() ==> inflate::inflated(calls, input, limit) is None
        }),
{
}

/// The event for a request on a connection is a POST to the path of the connection, with its
/// fields, and with the text as its body.
pub proof fn law_request_events_say_what_was_asked(
    c: ConnectionModel,
    event: EventModel,
    body: Seq<char>,
    include_raw_data: bool,
)
    ensures
        ({
            let e = websocket::request_event(c, event, body, include_raw_data);
            let encoded = vstd::utf8::encode_utf8(body);
            &&& e.message_type == "request"@
            &&& e.method == Some("POST"@)
            &&& e.path == Some(c.path)
            &&& e.protocol == Some("WebSocket"@)
            &&& e.first_line == "POST "@ + c.path + " WebSocket"@
            &&& e.headers == c.headers
            &&& e.body == Some(body)
            &&& e.body_hex is Some && bytes::is_hex_text(e.body_hex->0)
            &&& bytes::hex_bytes(e.body_hex->0) == encoded
            &&& e.has_body && !e.is_chunked
            &&& e.status_code is None && e.status_text is None
            &&& encoded.len() <= usize::MAX ==> e.content_length == Some(encoded.len() as usize)
            &&& e.original_source == "ssl.websocket"@
            &&& e.raw_data == if include_raw_data {
                Some(body)
            } else {
                None
            }
            &&& e.capture_metadata == c.handshake.observe(event.data).summary()
            &&& e.tid == match event.data.field("tid"@) {
                Some(Json::Unsigned(n)) => n,
                _ => 0,
            }
            &&& c.headers.len() == 0 && encoded.len() <= usize::MAX ==> e.total_size
                == encoded.len()
        }),
{
    bytes::law_hex_gives_the_bytes_back(vstd::utf8::encode_utf8(body));
}

/// A field more of a connection puts its bytes into the size of the request.
pub proof fn law_request_sizes_count_every_field(
    c: ConnectionModel,
    event: EventModel,
    body: Seq<char>,
    raw: bool,
    name: Seq<char>,
    value: Seq<char>,
)
    ensures
        ({
            let more = ConnectionModel { headers: c.headers.push((name, value)), ..c };
            let size = websocket::request_event(c, event, body, raw).total_size;
            let larger = websocket::request_event(more, event, body, raw).total_size;
            larger < usize::MAX ==> larger == size + vstd::utf8::encode_utf8(name).len()
                + vstd::utf8::encode_utf8(value).len()
        }),
{
    assert(c.headers.push((name, value)).drop_last() =~= c.headers);
    assert(headers::total_bytes(c.headers.push((name, value)), 0) == headers::total_bytes(
        c.headers,
        0,
    ) + vstd::utf8::encode_utf8(name).len() + vstd::utf8::encode_utf8(value).len());
}

} // verus!
