use agentsight_analysis::event::Event;
use agentsight_analysis::header_block::{decode_block, find_broken_update, headers_from_fields};
use agentsight_analysis::headers::HeaderMap;
use agentsight_analysis::http2::{
    direction_from_function, evict_over_capacity, extend_capped, looks_like_complete_json,
    mentions_usage, synthetic_http2_tid, HTTP2Direction,
};
use agentsight_analysis::http2_frame::{data_payload, headers_payload, parse_http2_frames};
use agentsight_analysis::http_event::HTTPEvent;
use agentsight_analysis::http_message::HTTPMessageType;
use agentsight_analysis::http_parser::HTTPParser;
use agentsight_analysis::inflate::inflate;
use agentsight_analysis::json::{parse_json, JsonValue};
use agentsight_analysis::websocket::{is_response_create, parse_masked_websocket_frame};
use flate2::{Compress, Compression, Decompress, FlushCompress};
use hpack::Decoder as HpackDecoder;
use hpack::Encoder as HpackEncoder;
use std::collections::HashMap;

fn text(s: &str) -> JsonValue {
    JsonValue::Text(s.to_string())
}

fn number(n: u64) -> JsonValue {
    JsonValue::Unsigned(n)
}

fn object(fields: Vec<(&str, JsonValue)>) -> JsonValue {
    JsonValue::Object(fields.into_iter().map(|(k, v)| (k.to_string(), v)).collect())
}

fn bytes_to_ssl_json_string(bytes: &[u8]) -> String {
    bytes.iter().map(|b| char::from(*b)).collect()
}

fn ssl_event(timestamp: u64, function: &str, bytes: Vec<u8>) -> Event {
    let len = bytes.len() as u64;
    Event::new_with_timestamp(
        timestamp,
        "ssl".to_string(),
        4242,
        "node".to_string(),
        object(vec![
            ("tid", number(7)),
            ("function", text(function)),
            ("data", text(&bytes_to_ssl_json_string(&bytes))),
            ("data_hex", text(&hex::encode(&bytes))),
            ("transport_handle", text("0xabc")),
            ("process_start_ns", number(12345)),
            ("tls_library", text("openssl")),
            ("capture_seq", number(timestamp)),
            ("len", number(len)),
            ("buf_size", number(len)),
            ("truncated", JsonValue::Bool(false)),
            ("ringbuf_reserve_failures", number(0)),
        ]),
    )
}

fn text_event(data: &str) -> Event {
    Event::new_with_timestamp(
        5,
        "ssl".to_string(),
        1,
        "curl".to_string(),
        object(vec![("data", text(data)), ("tid", number(3))]),
    )
}

fn frame(frame_type: u8, flags: u8, stream_id: u32, payload: &[u8]) -> Vec<u8> {
    let len = payload.len();
    let mut out = vec![
        ((len >> 16) & 0xff) as u8,
        ((len >> 8) & 0xff) as u8,
        (len & 0xff) as u8,
        frame_type,
        flags,
        ((stream_id >> 24) & 0x7f) as u8,
        ((stream_id >> 16) & 0xff) as u8,
        ((stream_id >> 8) & 0xff) as u8,
        (stream_id & 0xff) as u8,
    ];
    out.extend_from_slice(payload);
    out
}

fn masked_frame(first: u8, payload: &[u8]) -> Vec<u8> {
    let mut frame = vec![first];
    if payload.len() <= 125 {
        frame.push(0x80 | payload.len() as u8);
    } else {
        frame.push(0x80 | 126);
        frame.extend_from_slice(&(payload.len() as u16).to_be_bytes());
    }
    let mask = [0x12, 0x34, 0x56, 0x78];
    frame.extend_from_slice(&mask);
    frame.extend(payload.iter().enumerate().map(|(i, byte)| byte ^ mask[i % 4]));
    frame
}

fn compressed_websocket_frame(compressor: &mut Compress, payload: &[u8]) -> Vec<u8> {
    let mut compressed = Vec::with_capacity(payload.len() * 2 + 64);
    compressor.compress_vec(payload, &mut compressed, FlushCompress::Sync).unwrap();
    assert!(compressed.ends_with(&[0, 0, 0xff, 0xff]));
    compressed.truncate(compressed.len() - 4);
    masked_frame(0xc1, &compressed)
}

fn process(parser: &mut HTTPParser, events: &[Event]) -> Vec<HTTPEvent> {
    let mut output = Vec::new();
    for event in events {
        output.extend(parser.process_event(event).expect("the event passed"));
    }
    output
}

fn handshake() -> Vec<u8> {
    b"GET /backend-api/codex/responses HTTP/1.1\r\n\
Host: chatgpt.com\r\nConnection: Upgrade\r\nUpgrade: websocket\r\n\
sec-websocket-extensions: permessage-deflate\r\n\r\n"
        .to_vec()
}

#[test]
fn http1_events_expose_capture_metadata_and_accept_legacy_input() {
    let request =
        b"POST /v1/messages HTTP/1.1\r\nHost: api.example.test\r\nContent-Length: 2\r\n\r\n{}"
            .to_vec();
    let legacy = Event::new_with_timestamp(
        2,
        "ssl".to_string(),
        4242,
        "node".to_string(),
        object(vec![
            ("tid", number(7)),
            ("function", text("READ/RECV")),
            ("data", text("HTTP/1.1 204 No Content\r\nContent-Length: 0\r\n\r\n")),
        ]),
    );
    let mut parser = HTTPParser::new().disable_raw_data();
    let output = process(&mut parser, &[ssl_event(1, "WRITE/SEND", request), legacy]);

    assert_eq!(output.len(), 2);
    assert_eq!(output[0].capture_metadata.capture_fragment_count, 1);
    assert_eq!(output[0].capture_metadata.transport_handle.as_deref(), Some("0xabc"));
    assert!(output[0].capture_metadata.capture_metadata_complete);
    assert_eq!(output[1].capture_metadata.capture_fragment_count, 1);
    assert_eq!(output[1].capture_metadata.transport_handle, None);
    assert_eq!(output[1].capture_metadata.capture_original_len, None);
    assert!(!output[1].capture_metadata.capture_metadata_complete);
}

#[test]
fn compressed_websocket_requests_share_their_context() {
    let shared = "shared context ".repeat(400);
    let first = format!(
        r#"{{"type":"response.create","model":"gpt-test","input":[{{"role":"developer","content":"{shared}"}}]}}"#
    );
    let prompt = "agentsight websocket exact prompt 7f31";
    let second = format!(
        r#"{{"type":"response.create","model":"gpt-test","input":[{{"role":"user","content":"{shared}{prompt}"}}]}}"#
    );
    let mut compressor = Compress::new(Compression::fast(), false);
    let events = [
        ssl_event(1, "WRITE/SEND", handshake()),
        ssl_event(
            2,
            "WRITE/SEND",
            compressed_websocket_frame(&mut compressor, first.as_bytes()),
        ),
        ssl_event(
            3,
            "WRITE/SEND",
            compressed_websocket_frame(&mut compressor, second.as_bytes()),
        ),
    ];
    let mut parser = HTTPParser::new().disable_raw_data();
    let output = process(&mut parser, &events);

    assert_eq!(output.len(), 3);
    assert_eq!(output[1].body.as_deref(), Some(first.as_str()));
    assert_eq!(output[2].path.as_deref(), Some("/backend-api/codex/responses"));
    assert_eq!(output[2].body.as_deref(), Some(second.as_str()));
    assert!(output[2].body.as_ref().unwrap().contains(prompt));
    assert_eq!(output[2].body_hex, Some(hex::encode(second.as_bytes())));
    assert_eq!(output[2].first_line, "POST /backend-api/codex/responses WebSocket");
    assert_eq!(output[2].protocol.as_deref(), Some("WebSocket"));
    assert_eq!(output[2].original_source, "ssl.websocket");
    assert_eq!(output[2].content_length, Some(second.len()));
    assert_eq!(output[2].headers.get("host"), Some("chatgpt.com"));
    assert_eq!(output[2].raw_data, None);
    assert_eq!(output[2].capture_metadata.capture_fragment_count, 2);
    assert_eq!(output[2].capture_metadata.capture_seq_start, Some(1));
    assert_eq!(output[2].capture_metadata.capture_seq_end, Some(3));
    assert_eq!(output[2].capture_metadata.transport_handle.as_deref(), Some("0xabc"));

    // without the first frame the second cannot be read
    let mut late = HTTPParser::new();
    assert!(late.process_event(&events[0]).is_some());
    assert_eq!(late.process_event(&events[2]), None);
}

#[test]
fn websocket_frames_need_an_open_connection() {
    let body = br#"{"type":"response.create"}"#;
    let request = ssl_event(2, "WRITE/SEND", masked_frame(0x81, body));
    let mut parser = HTTPParser::default();
    assert_eq!(parser.process_event(&request), None);
    process(&mut parser, &[ssl_event(1, "WRITE/SEND", handshake())]);
    let output = process(&mut parser, &[request.clone()]);
    assert_eq!(output.len(), 1);
    assert_eq!(output[0].raw_data.as_deref(), Some(r#"{"type":"response.create"}"#));
    assert_eq!(output[0].tid, 7);

    // another process has none
    let mut other = request;
    other.pid = 4243;
    assert_eq!(parser.process_event(&other), None);
    // nor do frames of another kind count
    let done = ssl_event(3, "WRITE/SEND", masked_frame(0x81, br#"{"type":"response.done"}"#));
    assert_eq!(parser.process_event(&done), None);
    let not_utf8 = ssl_event(3, "WRITE/SEND", masked_frame(0x81, &[0xff]));
    assert_eq!(parser.process_event(&not_utf8), None);
    let not_json = ssl_event(3, "WRITE/SEND", masked_frame(0x81, b"{"));
    assert_eq!(parser.process_event(&not_json), None);
    let corrupt = ssl_event(3, "WRITE/SEND", masked_frame(0xc1, &[0x07]));
    assert_eq!(parser.process_event(&corrupt), None);
}

#[test]
fn only_handshakes_for_responses_open_connections() {
    let frame = ssl_event(2, "WRITE/SEND", masked_frame(0x82, br#"{"type":"response.create"}"#));
    let opens = |request: &str| {
        let mut parser = HTTPParser::new();
        process(&mut parser, &[ssl_event(1, "WRITE/SEND", request.as_bytes().to_vec())]);
        parser.process_event(&frame).is_some()
    };
    assert!(opens("GET /v1/responses HTTP/1.1\r\nUPGRADE: WebSocket\r\n\r\n"));
    assert!(!opens("GET /v1/responses HTTP/1.1\r\nUpgrade: h2c\r\n\r\n"));
    assert!(!opens("GET /v1/responses HTTP/1.1\r\nHost: a\r\n\r\n"));
    assert!(!opens("GET /v1/chat HTTP/1.1\r\nUpgrade: websocket\r\n\r\n"));
    assert!(!opens("HTTP/1.1 101 Switching\r\nUpgrade: websocket\r\n\r\n"));
}

#[test]
fn masked_frames_are_read() {
    assert_eq!(
        parse_masked_websocket_frame(&masked_frame(0x81, b"hello")),
        Some((false, b"hello".to_vec()))
    );
    assert_eq!(parse_masked_websocket_frame(&masked_frame(0xc2, b"")), Some((true, Vec::new())));
    let long: Vec<u8> = (0..300u32).map(|i| i as u8).collect();
    assert_eq!(parse_masked_websocket_frame(&masked_frame(0x82, &long)), Some((false, long.clone())));
    let mut wide = vec![0x82, 0x80 | 127, 0, 0, 0, 0, 0, 0, 0, 2, 1, 2, 3, 4];
    wide.extend_from_slice(&[0xf0 ^ 1, 0x0f ^ 2]);
    assert_eq!(parse_masked_websocket_frame(&wide), Some((false, vec![0xf0, 0x0f])));

    // one byte short, one byte over
    let whole = masked_frame(0x81, b"hello");
    assert_eq!(parse_masked_websocket_frame(&whole[..whole.len() - 1]), None);
    let mut over = whole.clone();
    over.push(0);
    assert_eq!(parse_masked_websocket_frame(&over), None);
    // not the last frame, a reserved bit, a ping, not masked
    assert_eq!(parse_masked_websocket_frame(&masked_frame(0x01, b"hello")), None);
    assert_eq!(parse_masked_websocket_frame(&masked_frame(0xa1, b"hello")), None);
    assert_eq!(parse_masked_websocket_frame(&masked_frame(0x89, b"hello")), None);
    assert_eq!(parse_masked_websocket_frame(&[0x81, 0x00]), None);
    assert_eq!(parse_masked_websocket_frame(&[0x81]), None);
    // a length that nothing can have
    let mut huge = vec![0x81, 0x80 | 127];
    huge.extend_from_slice(&[0xff; 8]);
    huge.extend_from_slice(&[0; 4]);
    assert_eq!(parse_masked_websocket_frame(&huge), None);
}

#[test]
fn response_requests_are_told_by_their_type() {
    let value = |s: &str| parse_json(s).unwrap();
    assert!(is_response_create(&value(r#"{"type":"response.create"}"#)));
    assert!(!is_response_create(&value(r#"{"type":"response.created"}"#)));
    assert!(!is_response_create(&value(r#"["type"]"#)));
}

#[test]
fn http2_requests_and_responses_are_put_together() {
    let mut request_encoder = HpackEncoder::new();
    let mut response_encoder = HpackEncoder::new();
    let request_headers = [
        (&b":method"[..], &b"POST"[..]),
        (&b":scheme"[..], &b"https"[..]),
        (&b":authority"[..], &b"cloudcode-pa.googleapis.com"[..]),
        (&b":path"[..], &b"/v1internal:generateContent"[..]),
    ];
    let response_headers = [
        (&b":status"[..], &b"200"[..]),
        (&b"content-type"[..], &b"application/json"[..]),
    ];
    let request_body = br#"{"model":"gemini-2.5-pro","request":{"contents":[]}}"#;
    let response_body = br#"{"usageMetadata":{"promptTokenCount":11,"candidatesTokenCount":4,"totalTokenCount":15}}"#;

    let mut request_bytes = b"PRI * HTTP/2.0\r\n\r\nSM\r\n\r\n".to_vec();
    request_bytes.extend(frame(0x1, 0x4, 1, &request_encoder.encode(request_headers)));
    request_bytes.extend(frame(0x0, 0x1, 1, request_body));

    let response_headers_bytes = frame(0x1, 0x4, 1, &response_encoder.encode(response_headers));
    let response_body_bytes = frame(0x0, 0x1, 1, response_body);
    let expected_response_capture_len =
        (response_headers_bytes.len() + response_body_bytes.len()) as u64;

    let mut parser = HTTPParser::new().disable_raw_data();
    let output = process(
        &mut parser,
        &[
            ssl_event(1, "WRITE/SEND", request_bytes),
            ssl_event(2, "READ/RECV", response_headers_bytes),
            ssl_event(3, "READ/RECV", response_body_bytes),
        ],
    );

    assert_eq!(output.len(), 2);
    assert_eq!(output[0].message_type, "request");
    assert_eq!(output[0].path.as_deref(), Some("/v1internal:generateContent"));
    assert_eq!(output[0].headers.get("host"), Some("cloudcode-pa.googleapis.com"));
    assert_eq!(output[0].first_line, "POST /v1internal:generateContent HTTP/2");
    assert_eq!(output[0].tid, 7_000_001);
    assert_eq!(output[0].body_hex, Some(hex::encode(&request_body[..])));
    assert_eq!(output[0].raw_data, None);
    assert_eq!(output[1].message_type, "response");
    assert_eq!(output[1].status_code, Some(200));
    assert_eq!(output[1].first_line, "HTTP/2 200");
    assert_eq!(output[1].original_source, "ssl.http2");
    assert!(output[1].body.as_ref().unwrap().contains("usageMetadata"));
    assert_eq!(output[1].total_size, 7 + 3 + 12 + 16 + response_body.len());
    assert_eq!(output[0].capture_metadata.capture_fragment_count, 1);
    let metadata = &output[1].capture_metadata;
    assert_eq!(metadata.capture_fragment_count, 2);
    assert_eq!(metadata.capture_seq_start, Some(2));
    assert_eq!(metadata.capture_seq_end, Some(3));
    assert_eq!(metadata.capture_original_len, Some(expected_response_capture_len));
    assert!(metadata.capture_identity_consistent);
    assert!(metadata.capture_metadata_complete);
}

#[test]
fn http2_bodies_may_be_compressed() {
    let mut encoder = HpackEncoder::new();
    let headers = [
        (&b":status"[..], &b"200"[..]),
        (&b"content-type"[..], &b"text/event-stream"[..]),
        (&b"content-encoding"[..], &b"gzip"[..]),
    ];
    let body = [0x1f, 0x8b, 0x08, 0x00, 0xff, 0x00];
    let mut bytes = frame(0x1, 0x4, 1, &encoder.encode(headers));
    bytes.extend(frame(0x0, 0x1, 1, &body));
    let output = process(&mut HTTPParser::new(), &[ssl_event(2, "READ/RECV", bytes)]);
    assert_eq!(output.len(), 1);
    assert_eq!(output[0].body_hex.as_deref(), Some("1f8b0800ff00"));
    assert_eq!(output[0].body.as_deref(), Some("\u{1f}\u{fffd}\u{8}\u{0}\u{fffd}\u{0}"));
    assert_eq!(output[0].raw_data, output[0].body);
    assert_eq!(output[0].capture_metadata.capture_fragment_count, 1);
}

#[test]
fn rejects_non_http2_frames() {
    assert!(parse_http2_frames(b"GET / HTTP/1.1\r\n\r\n").is_none());
}

#[test]
fn frames_are_read_back() {
    let mut bytes = b"PRI * HTTP/2.0\r\n\r\nSM\r\n\r\n".to_vec();
    bytes.extend(frame(0x0, 0x9, 0x7fff_ffff, b"abc"));
    bytes.extend(frame(0xa, 0x0, 5, b"unknown"));
    bytes.extend(frame(0x9, 0x4, 1, b""));
    let frames = parse_http2_frames(&bytes).unwrap();
    assert_eq!(frames.len(), 2);
    assert_eq!(frames[0].frame_type, 0);
    assert_eq!(frames[0].flags, 9);
    assert_eq!(frames[0].stream_id, 0x7fff_ffff);
    assert_eq!(frames[0].payload, b"abc");
    assert_eq!(frames[1].frame_type, 9);
    assert_eq!(frames[1].payload, b"");

    // a frame that is cut, a rest that is none, and unknown frames alone
    assert!(parse_http2_frames(&bytes[..bytes.len() - 1]).is_none());
    assert!(parse_http2_frames(&frame(0xa, 0x0, 5, b"unknown")).is_none());
    assert!(parse_http2_frames(b"").is_none());
    // the reserved bit of a stream number is passed over
    let mut reserved = frame(0x0, 0x0, 1, b"");
    reserved[5] |= 0x80;
    assert_eq!(parse_http2_frames(&reserved).unwrap()[0].stream_id, 1);
}

#[test]
fn padding_and_priority_are_taken_off() {
    assert_eq!(data_payload(0x0, b"abc"), b"abc");
    assert_eq!(data_payload(0x8, &[2, b'a', b'b', 0, 0]), b"ab");
    assert_eq!(data_payload(0x8, &[5, b'a']), b"");
    assert_eq!(data_payload(0x8, b""), b"");
    assert_eq!(headers_payload(0x0, b"abc"), b"abc");
    assert_eq!(headers_payload(0x20, &[0, 0, 0, 0, 0, b'a']), b"a");
    assert_eq!(headers_payload(0x28, &[1, 0, 0, 0, 0, 0, b'a', 0]), b"a");
    assert_eq!(headers_payload(0x28, &[1, 0, 0]), b"");
    assert_eq!(headers_payload(0x8, b""), b"");
}

#[test]
fn header_blocks_may_be_continued() {
    let mut encoder = HpackEncoder::new();
    let block = encoder.encode([(&b":method"[..], &b"GET"[..]), (&b":path"[..], &b"/x"[..])]);
    let mut parser = HTTPParser::new();
    let mut bytes = frame(0x1, 0x0, 3, &block[..1]);
    bytes.extend(frame(0x9, 0x0, 3, &block[1..2]));
    bytes.extend(frame(0x9, 0x4, 3, &block[2..]));
    bytes.extend(frame(0x0, 0x1, 3, b""));
    let output = process(&mut parser, &[ssl_event(1, "WRITE/SEND", bytes)]);
    assert_eq!(output.len(), 1);
    assert_eq!(output[0].first_line, "GET /x HTTP/2");
    assert_eq!(output[0].body, None);
    assert_eq!(output[0].body_hex, None);
    assert!(!output[0].has_body);
    assert_eq!(output[0].content_length, None);
    assert_eq!(output[0].raw_data.as_deref(), Some(""));
}

#[test]
fn streams_are_kept_apart_and_given_once() {
    let mut parser = HTTPParser::new();
    let mut bytes = frame(0x0, 0x0, 1, b"one");
    bytes.extend(frame(0x0, 0x0, 3, b"three"));
    bytes.extend(frame(0x0, 0x1, 1, b"!"));
    bytes.extend(frame(0x0, 0x1, 1, b"again"));
    bytes.extend(frame(0x0, 0x1, 3, b"?"));
    let output = process(&mut parser, &[ssl_event(1, "WRITE/SEND", bytes)]);
    assert_eq!(output.len(), 2);
    assert_eq!(output[0].body.as_deref(), Some("one!"));
    assert_eq!(output[0].first_line, "HTTP / HTTP/2");
    assert_eq!(output[1].body.as_deref(), Some("three?"));
    // a capture counts once for each stream
    assert_eq!(output[0].capture_metadata.capture_fragment_count, 1);
    // nothing is given for what is not done yet
    let more = process(&mut parser, &[ssl_event(2, "WRITE/SEND", frame(0x0, 0x0, 5, b"a"))]);
    assert_eq!(more, Vec::new());
}

#[test]
fn json_with_usage_completes_a_response() {
    let mut parser = HTTPParser::new();
    let half = frame(0x0, 0x0, 1, br#"{"usageMetadata":"#);
    let rest = frame(0x0, 0x0, 1, b"{}}");
    let output = process(
        &mut parser,
        &[ssl_event(1, "SSL_read", half), ssl_event(2, "SSL_read", rest)],
    );
    assert_eq!(output.len(), 1);
    assert_eq!(output[0].body.as_deref(), Some(r#"{"usageMetadata":{}}"#));
    // no status was named
    assert_eq!(output[0].status_code, Some(200));
}

#[test]
fn captures_of_no_direction_pass() {
    let mut parser = HTTPParser::new();
    assert_eq!(
        parser.process_event(&ssl_event(1, "SSL_do_handshake", frame(0x0, 0x1, 1, b"a"))),
        None
    );
}

#[test]
fn bodies_keep_their_last_bytes() {
    let mut parser = HTTPParser::new();
    let chunk = vec![b'a'; 1024 * 1024];
    let mut bytes = frame(0x0, 0x0, 1, &chunk);
    bytes.extend(frame(0x0, 0x1, 1, b"xyz"));
    let output = process(&mut parser, &[ssl_event(1, "WRITE/SEND", bytes)]);
    let body = output[0].body.as_ref().unwrap();
    assert_eq!(body.len(), 1024 * 1024);
    assert!(body.ends_with("axyz"));
}

#[test]
fn directions_are_told_by_the_call() {
    assert_eq!(direction_from_function("ssl_read"), Some(HTTP2Direction::Response));
    assert_eq!(direction_from_function("READ/RECV"), Some(HTTP2Direction::Response));
    assert_eq!(direction_from_function("WRITE/SEND"), Some(HTTP2Direction::Request));
    assert_eq!(direction_from_function("write, then read"), Some(HTTP2Direction::Response));
    assert_eq!(direction_from_function(""), None);
}

#[test]
fn buffers_are_capped() {
    let mut buffer = b"abc".to_vec();
    extend_capped(&mut buffer, b"def", 4);
    assert_eq!(buffer, b"cdef");
    extend_capped(&mut buffer, b"", 4);
    assert_eq!(buffer, b"cdef");
    extend_capped(&mut buffer, b"g", 0);
    assert_eq!(buffer, b"");
}

#[test]
fn maps_are_cut_to_size() {
    let mut map: HashMap<u128, u8> = (0..10u128).map(|k| (k, k as u8)).collect();
    evict_over_capacity(&mut map, 10);
    assert_eq!(map.len(), 10);
    evict_over_capacity(&mut map, 4);
    assert_eq!(map.len(), 4);
    assert!(map.iter().all(|(k, v)| *k == *v as u128));
    evict_over_capacity(&mut map, 0);
    assert!(map.is_empty());
}

#[test]
fn stream_threads_do_not_overflow() {
    assert_eq!(synthetic_http2_tid(7, 3), 7_000_003);
    assert_eq!(synthetic_http2_tid(0, u32::MAX), u32::MAX as u64);
    assert_eq!(synthetic_http2_tid(u64::MAX, 3), u64::MAX);
    assert_eq!(synthetic_http2_tid(u64::MAX / 1_000_000, u32::MAX), u64::MAX);
}

#[test]
fn usage_json_is_told_apart() {
    assert!(looks_like_complete_json(br#"{"usageMetadata":1}"#));
    assert!(!looks_like_complete_json(br#"{"usageMetadata":1"#));
    assert!(!looks_like_complete_json(br#"{"usage":1}"#));
    assert!(!looks_like_complete_json(b"\xffusageMetadata"));
    assert!(mentions_usage("a usageMetadata b"));
    assert!(!mentions_usage("usage metadata"));
}

#[test]
fn header_blocks_are_decoded_in_turn() {
    let mut encoder = HpackEncoder::new();
    let first = encoder.encode([(&b"X-Name"[..], &b"a"[..]), (&b":authority"[..], &b"h"[..])]);
    let second = encoder.encode([(&b"X-Name"[..], &b"a"[..])]);
    let mut decoder: HpackDecoder<'static> = HpackDecoder::new();
    let fields = decode_block(&mut decoder, &first).unwrap();
    let headers = headers_from_fields(&fields);
    assert_eq!(headers.get("x-name"), Some("a"));
    assert_eq!(headers.get("host"), Some("h"));
    let again = headers_from_fields(&decode_block(&mut decoder, &second).unwrap());
    assert_eq!(again.get("x-name"), Some("a"));
    assert_eq!(again.get("host"), None);
    // an index that stands for nothing
    assert_eq!(decode_block(&mut decoder, &[0xff, 0x7f]), None);
}

#[test]
fn later_fields_win_and_a_host_stays() {
    let field = |k: &str, v: &str| (k.as_bytes().to_vec(), v.as_bytes().to_vec());
    let headers = headers_from_fields(&vec![
        field("A", "1"),
        field("Host", "kept"),
        field("a", "2"),
        field(":authority", "other"),
        (vec![0xff], vec![0xfe]),
    ]);
    assert_eq!(headers.len(), 4);
    assert_eq!(headers.get("a"), Some("2"));
    assert_eq!(headers.get("host"), Some("kept"));
    assert_eq!(headers.get("\u{fffd}"), Some("\u{fffd}"));
}

#[test]
fn size_updates_without_an_end_give_nothing() {
    assert_eq!(find_broken_update(&[]), None);
    // an indexed field, and a change of the table size that ends
    assert_eq!(find_broken_update(&[0x82, 0x3f, 0x01, 0x20]), None);
    assert_eq!(find_broken_update(&[0x82, 0x3f]), Some(1));
    assert_eq!(find_broken_update(&[0x3f, 0xff, 0xff, 0xff, 0xff, 0xff]), Some(0));
    // the byte stands inside a literal
    assert_eq!(find_broken_update(&[0x00, 0x01, b'a', 0x01, 0x3f]), None);
    let mut decoder: HpackDecoder<'static> = HpackDecoder::new();
    assert_eq!(decode_block(&mut decoder, &[0x82, 0x3f]), None);
    let fields = decode_block(&mut decoder, &[0x82]).unwrap();
    assert_eq!(fields, vec![(b":method".to_vec(), b"GET".to_vec())]);
}

#[test]
fn header_maps_hold_each_name_once() {
    let mut headers = HeaderMap::new();
    headers.insert("a".to_string(), "1".to_string());
    headers.insert("b".to_string(), "22".to_string());
    headers.insert("a".to_string(), "é".to_string());
    assert_eq!(headers.len(), 2);
    assert_eq!(headers.get("a"), Some("é"));
    assert_eq!(headers.get("c"), None);
    assert_eq!(headers.size_with(0), 1 + 2 + 1 + 2);
    assert_eq!(headers.size_with(4), 1 + 2 + 1 + 2 + 8);
    let mut other = HeaderMap::new();
    other.insert("c".to_string(), "3".to_string());
    other.insert("b".to_string(), "2".to_string());
    headers.extend(other);
    assert_eq!(headers.len(), 3);
    assert_eq!(headers.get("b"), Some("2"));
    assert_eq!(headers.clone(), headers);
}

#[test]
fn inputs_are_inflated_in_turn() {
    let mut compressor = Compress::new(Compression::fast(), false);
    let mut compress = |data: &[u8]| {
        let mut out = Vec::with_capacity(data.len() * 2 + 64);
        compressor.compress_vec(data, &mut out, FlushCompress::Sync).unwrap();
        out
    };
    let first = compress(b"abcabcabc");
    let second = compress(b"abcabcabcd");
    let mut inflater = Decompress::new(false);
    assert_eq!(inflate(&mut inflater, &first, 64).as_deref(), Some(&b"abcabcabc"[..]));
    assert_eq!(inflate(&mut inflater, &second, 64).as_deref(), Some(&b"abcabcabcd"[..]));
    // corrupt input
    assert_eq!(inflate(&mut Decompress::new(false), &[0x07], 64), None);
    // no room to take all of it
    let long = compress(&vec![7u8; 100_000]);
    assert_eq!(inflate(&mut inflater, &long, 16), None);
}

#[test]
fn http_data_is_told_apart() {
    assert!(HTTPParser::is_http_data("GET / HTTP/1.1"));
    assert!(HTTPParser::is_http_data("x\r\nHTTP/1.0 200"));
    assert!(HTTPParser::is_http_data("a user-agent: b"));
    assert!(!HTTPParser::is_http_data("GET / HTTP/2"));
    assert!(!HTTPParser::is_http_data("x HTTP/1.1"));
    assert!(!HTTPParser::is_http_data("HOST: a"));
}

#[test]
fn requests_are_parsed() {
    let data = "POST /a b?c HTTP/1.1\r\nHost : h \r\nX-A: 1\r\nx-a: 2:3\r\nno colon\r\n\r\none\r\n\r\ntwo";
    let m = HTTPParser::parse_http_message(data);
    // the version must follow the path
    assert_eq!(m, None);
    let data = "POST /a HTTP/1.1\r\nHost : h \r\nX-A: 1\r\nx-a: 2:3\r\nno colon\r\n\r\none\r\n\r\ntwo";
    let m = HTTPParser::parse_http_message(data).unwrap();
    assert_eq!(m.message_type, HTTPMessageType::Request);
    assert_eq!(m.first_line, "POST /a HTTP/1.1");
    assert_eq!(m.method.as_deref(), Some("POST"));
    assert_eq!(m.path.as_deref(), Some("/a"));
    assert_eq!(m.protocol.as_deref(), Some("HTTP/1.1"));
    assert_eq!(m.status_code, None);
    assert_eq!(m.headers.len(), 2);
    assert_eq!(m.headers.get("host"), Some("h"));
    assert_eq!(m.headers.get("x-a"), Some("2:3"));
    assert_eq!(m.body.as_deref(), Some("one\r\n\r\ntwo"));
    assert_eq!(m.raw_data, data);
    assert_eq!(m.clone(), m);

    assert_eq!(HTTPParser::parse_http_message("BREW /a HTTP/1.1\r\n\r\n"), None);
    assert_eq!(HTTPParser::parse_http_message("GET /a"), None);
    assert_eq!(HTTPParser::parse_http_message(""), None);
}

#[test]
fn responses_are_parsed() {
    let m = HTTPParser::parse_http_message("HTTP/1.1 404 Not Found\r\nA: b\r\n\r\n \r\n ").unwrap();
    assert_eq!(m.message_type, HTTPMessageType::Response);
    assert_eq!(m.status_code, Some(404));
    assert_eq!(m.status_text.as_deref(), Some("Not Found"));
    assert_eq!(m.protocol.as_deref(), Some("HTTP/1.1"));
    assert_eq!(m.method, None);
    // a body of blanks is none
    assert_eq!(m.body, None);
    let odd = HTTPParser::parse_http_message("HTTP/1.1 70000").unwrap();
    assert_eq!(odd.status_code, None);
    assert_eq!(odd.status_text, None);
    let bare = HTTPParser::parse_http_message("HTTP/1.1").unwrap();
    assert_eq!(bare.protocol, None);
    let plus = HTTPParser::parse_http_message("HTTP/1.1 +200 OK").unwrap();
    assert_eq!(plus.status_code, Some(200));
}

#[test]
fn messages_become_events() {
    let data = "HTTP/1.1 200 OK\r\nContent-Length: 3\r\nTransfer-Encoding: Chunked\r\n\r\naé\u{2020}";
    let event = text_event(data);
    let output = process(&mut HTTPParser::new(), &[event]);
    assert_eq!(output.len(), 1);
    assert_eq!(output[0].tid, 3);
    assert_eq!(output[0].message_type, "response");
    assert_eq!(output[0].content_length, Some(3));
    assert!(output[0].is_chunked);
    assert!(output[0].has_body);
    // a character below 256 is a byte, any other is encoded
    assert_eq!(output[0].body_hex.as_deref(), Some("61e9e280a0"));
    assert_eq!(output[0].original_source, "ssl");
    assert_eq!(output[0].raw_data.as_deref(), Some(data));
    assert_eq!(output[0].total_size, 15 + (14 + 1 + 4) + (17 + 7 + 4) + 6 + 4);
}

#[test]
fn other_events_are_passed_on() {
    let mut parser = HTTPParser::new();
    let mut other = text_event("GET / HTTP/1.1\r\n\r\n");
    other.source = "process".to_string();
    assert_eq!(parser.process_event(&other), None);
    assert_eq!(parser.process_event(&text_event("neither")), None);
    let bare =
        Event::new_with_timestamp(1, "ssl".to_string(), 1, "a".to_string(), object(vec![]));
    assert_eq!(parser.process_event(&bare), None);
}

#[test]
fn bytes_are_taken_from_the_hex_where_it_can_be_read() {
    let bytes = frame(0x0, 0x1, 1, b"abc");
    let event = |hex: &str| {
        Event::new_with_timestamp(
            1,
            "ssl".to_string(),
            1,
            "a".to_string(),
            object(vec![
                ("function", text("write")),
                ("data", text(&bytes_to_ssl_json_string(&bytes))),
                ("data_hex", text(hex)),
            ]),
        )
    };
    let upper = hex::encode(frame(0x0, 0x1, 1, b"xyz")).to_uppercase();
    let from_hex = process(&mut HTTPParser::new(), &[event(&upper)]);
    assert_eq!(from_hex[0].body.as_deref(), Some("xyz"));
    for broken in ["0", "zz", "é"] {
        let from_text = process(&mut HTTPParser::new(), &[event(broken)]);
        assert_eq!(from_text[0].body.as_deref(), Some("abc"));
    }
}

#[test]
fn at_most_so_many_http2_streams_are_kept() {
    let mut parser = HTTPParser::new();
    for i in 0..1100u32 {
        process(&mut parser, &[ssl_event(1, "WRITE/SEND", frame(0x0, 0x0, 2 * i + 1, b"a"))]);
    }
    let mut kept = 0;
    for i in 0..1100u32 {
        let end = frame(0x0, 0x1, 2 * i + 1, b"!");
        let output = process(&mut parser, &[ssl_event(2, "WRITE/SEND", end)]);
        if output[0].body.as_deref() == Some("a!") {
            kept += 1;
        } else {
            assert_eq!(output[0].body.as_deref(), Some("!"));
        }
    }
    assert!(0 < kept && kept <= 1024);
}
