use agentsight_analysis::event::Event;
use agentsight_analysis::json::JsonValue;
use agentsight_analysis::ssl_merger::SSLMerger;

fn read_event(tid: u64, timestamp_ns: u64, data: &str) -> Event {
    Event::new_with_timestamp(
        timestamp_ns,
        "ssl".to_string(),
        10,
        "curl".to_string(),
        JsonValue::Object(vec![
            ("function".to_string(), JsonValue::Text("READ/RECV".to_string())),
            ("tid".to_string(), JsonValue::Unsigned(tid)),
            ("timestamp_ns".to_string(), JsonValue::Unsigned(timestamp_ns)),
            ("data".to_string(), JsonValue::Text(data.to_string())),
        ]),
    )
}

#[test]
fn test_is_complete_http_message_chunked() {
    // Complete chunked HTTP response
    let complete = "HTTP/1.1 200 OK\r\nTransfer-Encoding: chunked\r\n\r\n1a\r\nHello World\r\n0\r\n\r\n";
    assert!(SSLMerger::is_complete_http_message(complete));

    // Incomplete chunked response (missing end marker)
    let incomplete = "HTTP/1.1 200 OK\r\nTransfer-Encoding: chunked\r\n\r\n1a\r\nHello World\r\n";
    assert!(!SSLMerger::is_complete_http_message(incomplete));
}

#[test]
fn test_is_complete_http_message_content_length() {
    // Complete response with Content-Length
    let complete = "HTTP/1.1 200 OK\r\nContent-Length: 5\r\n\r\nHello";
    assert!(SSLMerger::is_complete_http_message(complete));

    // Incomplete response
    let incomplete = "HTTP/1.1 200 OK\r\nContent-Length: 10\r\n\r\nHello";
    assert!(!SSLMerger::is_complete_http_message(incomplete));
}

#[test]
fn test_is_complete_http_message_no_body() {
    // Response with no body (e.g., 204 No Content)
    let no_body = "HTTP/1.1 204 No Content\r\n\r\n";
    assert!(SSLMerger::is_complete_http_message(no_body));
}

#[test]
fn text_that_is_not_http_is_never_complete() {
    assert!(!SSLMerger::is_complete_http_message("hello\r\n\r\nworld"));
    assert!(!SSLMerger::is_complete_http_message(""));
    assert!(!SSLMerger::is_complete_http_message("GET / HTTP/1.1\r\nHost: a\r\n"));
}

#[test]
fn header_names_are_matched_whatever_their_case() {
    assert!(!SSLMerger::is_complete_http_message(
        "HTTP/1.1 200 OK\r\nCONTENT-LENGTH: 3\r\n\r\nab"
    ));
    assert!(SSLMerger::is_complete_http_message(
        "HTTP/1.1 200 OK\r\ncOnTeNt-LeNgTh:3\r\n\r\nabc"
    ));
    assert!(!SSLMerger::is_complete_http_message(
        "HTTP/1.1 200 OK\r\nTRANSFER-ENCODING: CHUNKED\r\n\r\n1\r\na\r\n"
    ));
    // the Kelvin sign is a `k` in lower case
    assert!(!SSLMerger::is_complete_http_message(
        "HTTP/1.1 200 OK\r\nTransfer-Encoding: chun\u{212a}ed\r\n\r\n1\r\na\r\n"
    ));
}

#[test]
fn lengths_count_bytes_and_other_names_do_not_count() {
    // three bytes, two characters
    assert!(SSLMerger::is_complete_http_message(
        "HTTP/1.1 200 OK\r\nContent-Length: 3\r\n\r\naé"
    ));
    assert!(!SSLMerger::is_complete_http_message(
        "HTTP/1.1 200 OK\r\nContent-Length: 4\r\n\r\naé"
    ));
    assert!(SSLMerger::is_complete_http_message(
        "HTTP/1.1 200 OK\r\nX-Content-Length: 99\r\n\r\na"
    ));
    // a length that cannot be read is passed over for the next one
    assert!(!SSLMerger::is_complete_http_message(
        "HTTP/1.1 200 OK\r\nContent-Length: many\r\nContent-Length: 2\r\n\r\na"
    ));
    assert!(SSLMerger::is_complete_http_message(
        "HTTP/1.1 200 OK\r\nContent-Length: -1\r\n\r\na"
    ));
}

#[test]
fn other_events_pass_through() {
    let mut merger = SSLMerger::new();
    let mut event = read_event(1, 5, "HTTP/1.1 200 OK\r\n\r\n");
    event.source = "process".to_string();
    assert_eq!(merger.process_event(event.clone()), Some(event));

    let write = Event::new_with_timestamp(
        5,
        "ssl".to_string(),
        10,
        "curl".to_string(),
        JsonValue::Object(vec![(
            "function".to_string(),
            JsonValue::Text("WRITE/SEND".to_string()),
        )]),
    );
    assert_eq!(merger.process_event(write.clone()), Some(write));
}

#[test]
fn reads_of_a_thread_are_merged() {
    let mut merger = SSLMerger::new();
    assert_eq!(
        merger.process_event(read_event(7, 100, "HTTP/1.1 200 OK\r\nContent-Length: 10\r\n\r\nHello")),
        None
    );
    // another thread has a buffer of its own
    assert_eq!(merger.process_event(read_event(8, 110, "HTTP/1.1 200 OK\r\n")), None);
    let merged = merger.process_event(read_event(7, 120, "World")).unwrap();
    assert_eq!(merged.timestamp, 120);
    assert_eq!(
        merged.data.get_str("data"),
        Some("HTTP/1.1 200 OK\r\nContent-Length: 10\r\n\r\nHelloWorld")
    );
    assert_eq!(merged.data.get_u64("len"), Some(49));
    assert_eq!(merged.data.get_u64("merged_events"), Some(2));
    assert_eq!(merged.data.get_u64("first_timestamp_ns"), Some(100));
    assert_eq!(merged.data.get_u64("timestamp_ns"), Some(100));
    let other = merger.process_event(read_event(8, 130, "\r\n")).unwrap();
    assert_eq!(other.data.get_str("data"), Some("HTTP/1.1 200 OK\r\n\r\n"));
    assert_eq!(other.data.get_u64("tid"), Some(8));
}

#[test]
fn incomplete_messages_are_flushed_after_the_timeout() {
    let mut merger = SSLMerger::with_timeout(2);
    assert_eq!(merger.process_event(read_event(1, 0, "HTTP/1.1 200 OK\r\n")), None);
    assert_eq!(merger.process_event(read_event(1, 2_999_999, "A: b\r\n")), None);
    let flushed = merger.process_event(read_event(1, 3_000_000, "C: d\r\n")).unwrap();
    assert_eq!(flushed.data.get_str("data"), Some("HTTP/1.1 200 OK\r\nA: b\r\nC: d\r\n"));
    assert_eq!(flushed.data.get_u64("merged_events"), Some(3));
    // the buffer is empty again
    let next = merger.process_event(read_event(1, 4_000_000, "HTTP/1.1 204 No\r\n\r\n")).unwrap();
    assert_eq!(next.data.get_u64("merged_events"), Some(1));
}

#[test]
fn merged_text_is_the_text_that_was_read() {
    let mut merger = SSLMerger::new();
    let pieces = ["HTTP/1.1 ", "200 OK\r\n\r", "\nrest", "POST / HTTP/1.1\r\n", "\r\n"];
    let mut given = String::new();
    for (i, piece) in pieces.iter().enumerate() {
        if let Some(event) = merger.process_event(read_event(3, i as u64, piece)) {
            given.push_str(event.data.get_str("data").unwrap());
        }
    }
    assert_eq!(given, pieces.concat());
}
