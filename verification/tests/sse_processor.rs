use agentsight_analysis::event::Event;
use agentsight_analysis::json::{parse_json, JsonValue};
use agentsight_analysis::sse_event::SSEEvent;
use agentsight_analysis::sse_processor::{SSEOutput, SSEProcessor, SSEProcessorEvent};

fn text(s: &str) -> JsonValue {
    JsonValue::Text(s.to_string())
}

fn number(n: u64) -> JsonValue {
    JsonValue::Unsigned(n)
}

fn object(fields: Vec<(&str, JsonValue)>) -> JsonValue {
    JsonValue::Object(fields.into_iter().map(|(k, v)| (k.to_string(), v)).collect())
}

fn event_of(source: &str, timestamp: u64, data: JsonValue) -> Event {
    Event::new_with_timestamp(timestamp, source.to_string(), 1234, "node".to_string(), data)
}

fn ssl_event(timestamp: u64, data: &str) -> Event {
    event_of(
        "ssl",
        timestamp,
        object(vec![
            ("data", text(data)),
            ("function", text("READ/RECV")),
            ("pid", number(1234)),
            ("tid", number(99)),
            ("timestamp_ns", number(timestamp)),
        ]),
    )
}

fn ssl_sse_chunk(timestamp: u64, data: &str) -> Event {
    let len = data.len() as u64;
    event_of(
        "ssl",
        timestamp,
        object(vec![
            ("data", text(data)),
            ("function", text("READ/RECV")),
            ("pid", number(1234)),
            ("tid", number(99)),
            ("timestamp_ns", number(timestamp)),
            ("transport_handle", text("0xabc")),
            ("process_start_ns", number(12345)),
            ("tls_library", text("openssl")),
            ("capture_seq", number(timestamp)),
            ("len", number(len)),
            ("buf_size", number(len)),
            ("truncated", JsonValue::Bool(false)),
            ("ringbuf_reserve_failures", number(4)),
        ]),
    )
}

fn ended(body: &str) -> String {
    if body.contains("\n\n") || body.contains("\r\n\r\n") {
        body.to_string()
    } else {
        format!("{body}\n\n")
    }
}

fn http_sse_response(timestamp: u64, body: &str) -> Event {
    event_of(
        "http_parser",
        timestamp,
        object(vec![
            ("tid", number(99)),
            ("message_type", text("response")),
            ("status_code", number(200)),
            (
                "headers",
                object(vec![
                    ("content-type", text("text/event-stream")),
                    ("host", text("api.example.test")),
                ]),
            ),
            ("path", text("/v1/chat/completions")),
            ("body", text(&ended(body))),
        ]),
    )
}

/// The merged events that come of `events`; none of them passes.
fn process(processor: &mut SSEProcessor, events: &[Event]) -> Vec<SSEProcessorEvent> {
    let mut merged = Vec::new();
    for event in events {
        match processor.process_event(event) {
            SSEOutput::Pass => panic!("the event passed"),
            SSEOutput::Held => {}
            SSEOutput::Merged(event) => merged.push(event),
        }
    }
    merged
}

fn process_chunks(chunks: &[&str]) -> Vec<SSEProcessorEvent> {
    let events: Vec<Event> = chunks
        .iter()
        .enumerate()
        .map(|(idx, data)| ssl_sse_chunk((idx + 2) as u64, &ended(data)))
        .collect();
    process(&mut SSEProcessor::new(), &events)
}

fn sse(event: Option<&str>, data: &str) -> SSEEvent {
    SSEEvent {
        event: event.map(str::to_string),
        data: Some(data.to_string()),
        id: None,
        parsed_data: parse_json(data),
        raw_data: None,
    }
}

#[test]
fn capture_metadata_aggregates_all_raw_sse_fragments() {
    let output = process_chunks(&[
        "data: {\"id\":\"chatcmpl-1\",\"choices\":[{\"delta\":{\"content\":\"hello\"}}]}",
        "data: [DONE]",
    ]);

    assert_eq!(output.len(), 1);
    let metadata = &output[0].capture_metadata;
    assert_eq!(metadata.capture_fragment_count, 2);
    assert_eq!(metadata.capture_seq_start, Some(2));
    assert_eq!(metadata.capture_seq_end, Some(3));
    assert_eq!(metadata.transport_handle.as_deref(), Some("0xabc"));
    assert_eq!(metadata.capture_tids, vec![99]);
    assert!(metadata.capture_metadata_complete);
}

#[test]
fn test_is_sse_data() {
    assert!(SSEProcessor::is_sse_data(
        "event: content_block_delta\ndata: {\"type\":\"content_block_delta\"}\r\n0\r\n\r\n"
    ));
    assert!(SSEProcessor::is_sse_data(
        "event: message_start\ndata: {\"message\":{\"id\":\"123\"}}\r\n0\r\n\r\n"
    ));
    assert!(SSEProcessor::is_sse_data(
        "Transfer-Encoding: chunked\r\nevent: content_block_delta\r\ndata: {\"type\":\"content_block_delta\"}\r\n0\r\n\r\n"
    ));
    assert!(SSEProcessor::is_sse_data(
        "HTTP/1.1 200 OK\r\nContent-Type: text/event-stream\r\n\r\n"
    ));
    assert!(SSEProcessor::is_sse_data(
        "Transfer-Encoding: chunked\r\n\r\n1a\r\nevent: message_start\r\n"
    ));
    assert!(SSEProcessor::is_sse_data(
        "data: {\"message\": \"hello\"}\r\n\r\n"
    ));
    assert!(!SSEProcessor::is_sse_data("regular text"));
    assert!(!SSEProcessor::is_sse_data(
        "HTTP/1.1 200 OK\r\nContent-Type: application/json\r\n\r\n{\"data\":\"value\"}"
    ));
}

#[test]
fn gemini_usage_completes_the_stream() {
    let test_data = "HTTP/1.1 200 OK\r\nContent-Type: text/event-stream\r\n\r\ndata: {\"usageMetadata\":{\"promptTokenCount\":11,\"candidatesTokenCount\":4,\"totalTokenCount\":15}}\r\n\r\n";
    let merged = process(&mut SSEProcessor::new(), &[ssl_event(2, test_data)]);

    assert_eq!(merged.len(), 1);
    let usage = merged[0].sse_events[0].get("parsed_data").unwrap().get("usageMetadata").unwrap();
    assert_eq!(usage.get_u64("promptTokenCount"), Some(11));
    assert_eq!(usage.get_u64("candidatesTokenCount"), Some(4));
    assert_eq!(usage.get_u64("totalTokenCount"), Some(15));
}

#[test]
fn openai_usage_completes_the_stream_once() {
    let merged = process(
        &mut SSEProcessor::new(),
        &[
            ssl_event(2, "HTTP/1.1 200 OK\r\nContent-Type: text/event-stream\r\n\r\ndata: {\"message\":{\"usage\":{\"input_tokens\":5,\"cache_read_input_tokens\":2}}}\r\n\r\n"),
            ssl_event(3, "data: {\"usage\":{\"output_tokens\":3}}\r\n\r\n"),
            ssl_event(4, "data: [DONE]\r\n\r\n"),
        ],
    );
    assert_eq!(merged.len(), 1);
    assert_eq!(merged[0].start_time, 2);
    assert_eq!(merged[0].end_time, 3);
    assert_eq!(merged[0].duration_ns, 1);
    assert_eq!(merged[0].event_count, 2);
}

#[test]
fn a_stream_without_usage_gives_its_text() {
    let collected = process_chunks(&[
        r#"data: {"id":"chatcmpl-1","object":"chat.completion.chunk","model":"openai-mock","choices":[{"index":0,"delta":{"role":"assistant"},"finish_reason":null}]}"#,
        r#"data: {"id":"chatcmpl-1","object":"chat.completion.chunk","model":"openai-mock","choices":[{"index":0,"delta":{"content":"Hello"},"finish_reason":null}]}"#,
        r#"data: {"id":"chatcmpl-1","object":"chat.completion.chunk","model":"openai-mock","choices":[{"index":0,"delta":{},"finish_reason":"stop"}]}"#,
        "data: [DONE]\n\n",
    ]);

    assert_eq!(collected.len(), 1);
    assert_eq!(collected[0].message_id.as_deref(), Some("chatcmpl-1"));
    assert_eq!(collected[0].text_content, "Hello");
    assert_eq!(collected[0].connection_id, "1234:99:chatcmpl-1");
    assert_eq!(collected[0].json_content, "");
    assert_eq!(collected[0].total_size, 5);
    assert_eq!(collected[0].event_count, 4);
    assert_eq!(collected[0].original_source, "ssl");
    assert_eq!(collected[0].function, "READ/RECV");
    assert_eq!(collected[0].tid, 99);
    assert!(!collected[0].has_message_start);
}

#[test]
fn test_openai_usage_null_does_not_complete_or_split_stream() {
    let collected = process_chunks(&[
        r#"data: {"id":"chatcmpl-null","object":"chat.completion.chunk","model":"openai-mock","choices":[{"index":0,"delta":{"content":"Hel"},"finish_reason":null}],"usage":null}"#,
        r#"data: {"id":"chatcmpl-null","object":"chat.completion.chunk","model":"openai-mock","choices":[{"index":0,"delta":{"content":"lo"},"finish_reason":null}],"usage":null}"#,
        r#"data: {"id":"chatcmpl-null","object":"chat.completion.chunk","model":"openai-mock","choices":[{"index":0,"delta":{},"finish_reason":"stop"}],"usage":null}"#,
        "data: [DONE]\n\n",
    ]);

    assert_eq!(collected.len(), 1);
    assert_eq!(collected[0].message_id.as_deref(), Some("chatcmpl-null"));
    assert_eq!(collected[0].text_content, "Hello");
}

#[test]
fn the_last_usage_chunk_completes_the_stream_once() {
    let collected = process_chunks(&[
        r#"data: {"id":"chatcmpl-usage","object":"chat.completion.chunk","model":"openai-mock","choices":[{"index":0,"delta":{"content":"Hello"},"finish_reason":null}]}"#,
        r#"data: {"id":"chatcmpl-usage","object":"chat.completion.chunk","model":"openai-mock","choices":[{"index":0,"delta":{},"finish_reason":"stop"}]}"#,
        r#"data: {"id":"chatcmpl-usage","object":"chat.completion.chunk","model":"openai-mock","choices":[],"usage":{"prompt_tokens":2,"completion_tokens":5,"total_tokens":7}}"#,
        "data: [DONE]\n\n",
    ]);

    assert_eq!(collected.len(), 1);
    assert_eq!(collected[0].text_content, "Hello");
}

#[test]
fn test_openai_response_id_separates_keepalive_streams() {
    let collected = process(
        &mut SSEProcessor::new(),
        &[
            http_sse_response(
                2,
                r#"data: {"id":"chatcmpl-a","object":"chat.completion.chunk","model":"openai-mock","choices":[{"index":0,"delta":{"content":"A"},"finish_reason":"stop"}]}"#,
            ),
            http_sse_response(
                3,
                r#"data: {"id":"chatcmpl-b","object":"chat.completion.chunk","model":"openai-mock","choices":[{"index":0,"delta":{"content":"B"},"finish_reason":"stop"}]}"#,
            ),
        ],
    );

    assert_eq!(collected.len(), 2);
    assert_eq!(collected[0].message_id.as_deref(), Some("chatcmpl-a"));
    assert_eq!(collected[0].text_content, "A");
    assert_eq!(collected[1].message_id.as_deref(), Some("chatcmpl-b"));
    assert_eq!(collected[1].text_content, "B");
}

#[test]
fn streamed_tool_calls_are_put_together() {
    let collected = process_chunks(&[
        r#"data: {"id":"chatcmpl-tool","object":"chat.completion.chunk","model":"openai-mock","choices":[{"index":0,"delta":{"tool_calls":[{"index":0,"id":"call_1","type":"function","function":{"name":"lookup","arguments":"{\"q\":"}}]},"finish_reason":null}]}"#,
        r#"data: {"id":"chatcmpl-tool","object":"chat.completion.chunk","model":"openai-mock","choices":[{"index":0,"delta":{"tool_calls":[{"index":0,"function":{"arguments":"\"x\"}"}}]},"finish_reason":null}]}"#,
        r#"data: {"id":"chatcmpl-tool","object":"chat.completion.chunk","model":"openai-mock","choices":[{"index":0,"delta":{},"finish_reason":"tool_calls"}]}"#,
        "data: [DONE]\n\n",
    ]);

    assert_eq!(collected.len(), 1);
    let json_content = parse_json(&collected[0].json_content).unwrap();
    let call = &json_content.get_array("tool_calls").unwrap()[0];
    assert_eq!(call.get_str("id"), Some("call_1"));
    assert_eq!(call.get_u64("index"), Some(0));
    assert_eq!(call.get_str("type"), Some("function"));
    let function = call.get("function").unwrap();
    assert_eq!(function.get_str("name"), Some("lookup"));
    assert_eq!(function.get_str("arguments"), Some("{\"q\":\"x\"}"));
}

#[test]
fn response_streams_give_text_and_tools() {
    let collected = process_chunks(&[
        r#"event: response.output_item.added
data: {"type":"response.output_item.added","response_id":"resp_1","output_index":0,"item":{"id":"fc_1","type":"function_call","name":"lookup","arguments":""}}"#,
        r#"event: response.function_call_arguments.delta
data: {"type":"response.function_call_arguments.delta","response_id":"resp_1","item_id":"fc_1","output_index":0,"delta":"{\"q\":"}"#,
        r#"event: response.function_call_arguments.done
data: {"type":"response.function_call_arguments.done","response_id":"resp_1","item_id":"fc_1","output_index":0,"arguments":"{\"q\":\"x\"}"}"#,
        r#"event: response.output_text.delta
data: {"type":"response.output_text.delta","response_id":"resp_1","output_index":1,"content_index":0,"delta":"Hello"}"#,
        r#"event: response.completed
data: {"type":"response.completed","response":{"id":"resp_1","status":"completed","usage":{"input_tokens":2,"output_tokens":5,"total_tokens":7}}}"#,
    ]);

    assert_eq!(collected.len(), 1);
    assert_eq!(collected[0].message_id.as_deref(), Some("resp_1"));
    assert_eq!(collected[0].text_content, "Hello");
    let json_content = parse_json(&collected[0].json_content).unwrap();
    let call = &json_content.get_array("tool_calls").unwrap()[0];
    assert_eq!(call.get_str("id"), Some("fc_1"));
    let function = call.get("function").unwrap();
    assert_eq!(function.get_str("name"), Some("lookup"));
    assert_eq!(function.get_str("arguments"), Some("{\"q\":\"x\"}"));
}

#[test]
fn test_gemini_usage_metadata_fragment_completes_sse_stream() {
    let test_data = r#""text": ""}]},"finishReason":"STOP"}],"usageMetadata":{"promptTokenCount":11,"candidatesTokenCount":4,"totalTokenCount":15},"modelVersion":"gemini-3-flash-preview","responseId":"abc"}"#;
    let collected = process(&mut SSEProcessor::new(), &[ssl_event(2, test_data)]);

    assert_eq!(collected.len(), 1);
    assert_eq!(
        collected[0].sse_events[0].get("parsed_data").unwrap().get_str("modelVersion"),
        Some("gemini-3-flash-preview")
    );
}

#[test]
fn test_http_parser_sse_response_body_is_processed() {
    let data = parse_json(
        r#"{
            "tid": 99,
            "message_type": "response",
            "status_code": 200,
            "headers": { "content-type": "text/event-stream", "host": "api.example.test" },
            "path": "/v1/chat/completions",
            "body": "data: {\"usage\":{\"input_tokens\":2,\"output_tokens\":3}}\n\ndata: [DONE]\n\n",
            "transport_handle": "0xdef",
            "process_start_ns": 45678,
            "tls_library": "boringssl",
            "capture_seq_start": 10,
            "capture_seq_end": 12,
            "capture_fragment_count": 3,
            "capture_original_len": 300,
            "capture_captured_len": 280,
            "capture_truncated": true,
            "capture_bytes_lost": 20,
            "ringbuf_reserve_failures_start": 1,
            "ringbuf_reserve_failures_end": 2,
            "ringbuf_reserve_failures_delta": 1,
            "capture_tids": [99, 100],
            "capture_tid_count": 2,
            "capture_tids_truncated": false,
            "capture_identity_consistent": true,
            "capture_metadata_complete": true
        }"#,
    )
    .unwrap();
    let collected = process(&mut SSEProcessor::new(), &[event_of("http_parser", 2, data)]);

    assert_eq!(collected.len(), 1);
    assert_eq!(collected[0].original_source, "http_parser");
    assert_eq!(collected[0].host.as_deref(), Some("api.example.test"));
    assert_eq!(collected[0].path.as_deref(), Some("/v1/chat/completions"));
    assert_eq!(collected[0].status_code, Some(200));
    let metadata = &collected[0].capture_metadata;
    assert_eq!(metadata.capture_fragment_count, 3);
    assert_eq!(metadata.capture_original_len, Some(300));
    assert_eq!(metadata.capture_captured_len, Some(280));
    assert_eq!(metadata.capture_bytes_lost, Some(20));
    assert_eq!(metadata.capture_tids, vec![99, 100]);
    assert_eq!(metadata.ringbuf_reserve_failures_start, Some(1));
    assert_eq!(metadata.ringbuf_reserve_failures_end, Some(2));
    assert_eq!(metadata.ringbuf_reserve_failures_delta, Some(1));
    // what the event does not say
    assert_eq!(collected[0].method, None);
    assert_eq!(collected[0].function, "unknown");
}

#[test]
fn test_http_parser_non_streaming_usage_response_passes_through() {
    let data = parse_json(
        r#"{
            "tid": 99,
            "message_type": "response",
            "status_code": 200,
            "headers": { "content-type": "application/json" },
            "body": "{\"usageMetadata\":{\"promptTokenCount\":11,\"totalTokenCount\":11}}"
        }"#,
    )
    .unwrap();
    let event = event_of("http_parser", 2, data);
    assert!(matches!(SSEProcessor::new().process_event(&event), SSEOutput::Pass));
}

#[test]
fn test_sse_processor_ignores_non_ssl_events() {
    let data = parse_json(r#"{"comm": "test", "data": "some data", "pid": 1234}"#).unwrap();
    let event =
        Event::new_with_timestamp(5, "process".to_string(), 1234, "test".to_string(), data);
    // Should pass through non-SSL events unchanged
    assert!(matches!(SSEProcessor::new().process_event(&event), SSEOutput::Pass));
}

#[test]
fn test_sse_processor_ignores_non_sse_ssl_events() {
    let data = parse_json(
        r#"{"comm": "test", "data": "regular HTTP data without SSE",
            "function": "READ/RECV", "pid": 1234}"#,
    )
    .unwrap();
    let event = Event::new_with_timestamp(5, "ssl".to_string(), 1234, "test".to_string(), data);
    // Should pass through non-SSE SSL events unchanged
    assert!(matches!(SSEProcessor::new().process_event(&event), SSEOutput::Pass));
}

#[test]
fn test_enhanced_chunked_content_cleaning() {
    let chunked_data = "1a\r\nevent: content_block_delta\r\n0\r\n\r\n";
    let cleaned = SSEProcessor::clean_chunked_content(chunked_data);
    assert!(cleaned.contains("event: content_block_delta"));
    assert!(!cleaned.contains("1a")); // Chunk size should be removed

    let multi_chunk_data =
        "10\r\nevent: message_start\r\n15\r\ndata: {\"id\": \"123\"}\r\n0\r\n\r\n";
    let cleaned_multi = SSEProcessor::clean_chunked_content(multi_chunk_data);
    assert!(cleaned_multi.contains("event: message_start"));
    assert!(cleaned_multi.contains("data: {\"id\": \"123\"}"));
    assert!(!cleaned_multi.contains("10")); // Chunk sizes should be removed
    assert!(!cleaned_multi.contains("15"));
}

#[test]
fn chunks_are_joined_line_by_line() {
    assert_eq!(
        SSEProcessor::clean_chunked_content("5\r\nhello\r\n6\r\n world\r\n0\r\n\r\n"),
        "hello\n world"
    );
    // a size is trimmed, and what stands between the chunks goes
    assert_eq!(
        SSEProcessor::clean_chunked_content("HTTP/1.1 200 OK\r\n 5 \r\nhello\r\nrest\r\n1\r\na"),
        "hello\na"
    );
    // a size that does not fit in thirty-two bits counts as zero
    assert_eq!(SSEProcessor::clean_chunked_content("1\r\na\r\n100000000\r\nb\r\n1\r\nc"), "a");
    assert_eq!(SSEProcessor::clean_chunked_content("ffffffff\r\nb"), "b");
    assert_eq!(SSEProcessor::clean_chunked_content("5"), "");
    assert_eq!(SSEProcessor::clean_chunked_content(""), "");
}

#[test]
fn events_are_read_from_a_chunk() {
    let events = SSEProcessor::parse_sse_events_from_chunk(
        "event: a\r\ndata: {\"x\": 1}\r\nid: 7\r\n\r\n: comment\n\n  \n\ndata: one\ndata:  two \n\nevent: lone",
    );
    assert_eq!(events.len(), 3);
    assert_eq!(events[0].event.as_deref(), Some("a"));
    assert_eq!(events[0].data.as_deref(), Some("{\"x\": 1}"));
    assert_eq!(events[0].id.as_deref(), Some("7"));
    assert_eq!(events[0].parsed_data.as_ref().unwrap().get_u64("x"), Some(1));
    assert_eq!(events[0].raw_data, None);
    assert_eq!(events[1].event, None);
    assert_eq!(events[1].data.as_deref(), Some("one\ntwo"));
    assert_eq!(events[1].parsed_data, None);
    assert_eq!(events[1].raw_data.as_deref(), Some("one\ntwo"));
    assert_eq!(events[2].event.as_deref(), Some("lone"));
    assert_eq!(events[2].data, None);
}

#[test]
fn events_are_read_from_chunked_and_from_plain_text() {
    let chunked = SSEProcessor::parse_sse_events("9\r\ndata: one\r\n0\r\n\r\n");
    assert_eq!(chunked.len(), 1);
    assert_eq!(chunked[0].data.as_deref(), Some("one"));
    let plain = SSEProcessor::parse_sse_events("data: one\n\ndata: two\n\n");
    assert_eq!(plain.len(), 2);
    assert_eq!(plain[1].data.as_deref(), Some("two"));
}

#[test]
fn usage_is_read_from_a_fragment() {
    let event = SSEProcessor::parse_usage_metadata_fragment(
        r#"x"usageMetadata" : {"totalTokenCount": 3, "s": "}"}, "model": "ab""#,
    )
    .unwrap();
    assert_eq!(event.event.as_deref(), Some("message_stop"));
    assert_eq!(event.data, None);
    let parsed = event.parsed_data.unwrap();
    assert_eq!(parsed.get_str("modelVersion"), Some("ab"));
    assert_eq!(parsed.get("usageMetadata").unwrap().get_u64("totalTokenCount"), Some(3));

    let unnamed =
        SSEProcessor::parse_usage_metadata_fragment(r#""usageMetadata":{"promptTokenCount":null}"#)
            .unwrap();
    assert_eq!(unnamed.parsed_data.unwrap().get("modelVersion"), None);
    assert_eq!(SSEProcessor::parse_usage_metadata_fragment(r#""usageMetadata":{"a":1}"#), None);
    assert_eq!(SSEProcessor::parse_usage_metadata_fragment(r#""usageMetadata":{"a":}"#), None);
    assert_eq!(SSEProcessor::parse_usage_metadata_fragment(r#""usageMetadata":{"a":1"#), None);
    assert_eq!(SSEProcessor::parse_usage_metadata_fragment("usageMetadata"), None);
}

#[test]
fn content_blocks_are_put_together() {
    let collected = process_chunks(&[
        "event: message_start\ndata: {\"message\":{\"id\":\"msg_1\"}}",
        "event: content_block_delta\ndata: {\"delta\":{\"type\":\"text_delta\",\"text\":\"Hi \"}}",
        "event: ping\ndata: {}",
        "event: content_block_delta\ndata: {\"delta\":{\"type\":\"thinking_delta\",\"thinking\":\"you\"}}",
        "event: content_block_delta\ndata: {\"delta\":{\"type\":\"input_json_delta\",\"partial_json\":\"{\\\"a\\\":\"}}",
        "event: content_block_delta\ndata: {\"delta\":{\"type\":\"input_json_delta\",\"partial_json\":\"1}\"}}",
        "event: message_stop\ndata: {\"type\":\"message_stop\"}",
    ]);
    assert_eq!(collected.len(), 1);
    assert_eq!(collected[0].connection_id, "1234:99:msg_1");
    assert_eq!(collected[0].text_content, "Hi you");
    assert_eq!(collected[0].json_content, "{\n  \"a\": 1\n}");
    assert_eq!(collected[0].total_size, 6 + 12);
    // a lone ping of a connection without a stream is dropped, and this one had no stream:
    // its id is made of the time
    assert_eq!(collected[0].event_count, 6);
    assert!(collected[0].has_message_start);
}

#[test]
fn reasoning_and_json_are_merged() {
    let collected = process_chunks(&[
        "event: content_block_delta\ndata: {\"delta\":{\"partial_json\":\"[1\"}}",
        "data: {\"choices\":[{\"delta\":{\"reasoning\":\"why\"}}]}",
        "data: {\"type\":\"response.reasoning_text.delta\",\"delta\":\" not\"}",
        "event: error\ndata: x",
    ]);
    assert_eq!(collected.len(), 1);
    assert_eq!(
        collected[0].json_content,
        "{\n  \"partial_json\": \"[1\",\n  \"reasoning_content\": \"why not\"\n}"
    );
}

#[test]
fn legacy_function_calls_are_put_together() {
    let collected = process_chunks(&[
        "data: {\"choices\":[{\"delta\":{\"function_call\":{\"name\":\"f\",\"arguments\":\"{\"}}}]}",
        "data: {\"choices\":[{\"delta\":{\"function_call\":{\"arguments\":\"}\"}}}]}",
        "data: [DONE]",
    ]);
    assert_eq!(collected.len(), 1);
    let json_content = parse_json(&collected[0].json_content).unwrap();
    let call = &json_content.get_array("tool_calls").unwrap()[0];
    assert_eq!(call.get("id"), Some(&JsonValue::Null));
    assert_eq!(call.get_str("type"), Some("function"));
    assert_eq!(call.get("function").unwrap().get_str("arguments"), Some("{}"));
}

#[test]
fn streams_without_content_are_dropped() {
    let collected = process_chunks(&["event: message_stop\ndata: {\"type\":\"message_stop\"}"]);
    assert_eq!(collected.len(), 0);
}

#[test]
fn long_texts_complete_the_stream() {
    let long = "x".repeat(50_001);
    let delta = format!(
        "data: {{\"id\":\"a\",\"choices\":[{{\"delta\":{{\"content\":\"{long}\"}}}}]}}"
    );
    let collected = process_chunks(&[delta.as_str()]);
    assert_eq!(collected.len(), 1);
    assert_eq!(collected[0].text_content.len(), 50_001);
    let short = delta.replacen("xx", "x", 1);
    assert_eq!(process_chunks(&[short.as_str()]).len(), 0);
}

#[test]
fn streams_are_forgotten_after_the_timeout() {
    let chunk = r#"data: {"id":"a","choices":[{"delta":{"content":"A"}}]}"#;
    let mut processor = SSEProcessor::new_with_timeout(10);
    let kept = process(
        &mut processor,
        &[
            ssl_event(0, &ended(chunk)),
            ssl_event(10, &ended(chunk)),
            ssl_event(20, "data: [DONE]\n\n"),
        ],
    );
    assert_eq!(kept.len(), 1);
    assert_eq!(kept[0].text_content, "AA");
    let lost = process(
        &mut processor,
        &[
            ssl_event(30, &ended(chunk)),
            ssl_event(41, &ended(chunk)),
            ssl_event(42, "data: [DONE]\n\n"),
        ],
    );
    assert_eq!(lost.len(), 1);
    assert_eq!(lost[0].text_content, "A");
}

#[test]
fn the_default_timeout_is_thirty_thousand() {
    let chunk = r#"data: {"id":"a","choices":[{"delta":{"content":"A"}}]}"#;
    let kept = process(
        &mut SSEProcessor::default(),
        &[ssl_event(0, &ended(chunk)), ssl_event(30_000, "data: [DONE]\n\n")],
    );
    assert_eq!(kept[0].text_content, "A");
    let lost = process(
        &mut SSEProcessor::default(),
        &[ssl_event(0, &ended(chunk)), ssl_event(30_001, "data: [DONE]\n\n")],
    );
    assert_eq!(lost.len(), 0);
}

#[test]
fn at_most_so_many_streams_are_kept() {
    let mut processor = SSEProcessor::new_with_timeout(u64::MAX);
    for i in 0..1026u64 {
        let chunk = format!(
            "data: {{\"id\":\"s{i}\",\"choices\":[{{\"delta\":{{\"content\":\"{i}\"}}}}]}}\n\n"
        );
        assert!(matches!(processor.process_event(&ssl_event(i, &chunk)), SSEOutput::Held));
    }
    // the stream that waited longest is gone
    let gone = process(
        &mut processor,
        &[ssl_event(2000, "data: {\"id\":\"s0\",\"usage\":{\"a\":1}}\n\n")],
    );
    assert_eq!(gone[0].text_content, "");
    let kept = process(
        &mut processor,
        &[ssl_event(2001, "data: {\"id\":\"s900\",\"usage\":{\"a\":1}}\n\n")],
    );
    assert_eq!(kept[0].text_content, "900");
}

#[test]
fn messages_are_kept_apart() {
    let mut processor = SSEProcessor::new();
    let a = r#"data: {"id":"a","choices":[{"delta":{"content":"A"}}]}"#;
    let b = r#"data: {"id":"b","choices":[{"delta":{"content":"B"}}]}"#;
    let merged = process(
        &mut processor,
        &[
            ssl_event(1, &ended(a)),
            ssl_event(2, &ended(b)),
            ssl_event(3, &ended(a)),
            ssl_event(4, "data: {\"id\":\"a\",\"usage\":{\"n\":1}}\n\n"),
            ssl_event(5, "data: {\"id\":\"b\",\"usage\":{\"n\":1}}\n\n"),
        ],
    );
    assert_eq!(merged.len(), 2);
    assert_eq!(merged[0].text_content, "AA");
    assert_eq!(merged[1].text_content, "B");
}

#[test]
fn connection_ids_name_the_message_or_the_time() {
    let event = ssl_event(1_200_000_000_000, "");
    assert_eq!(SSEProcessor::generate_connection_id(&event, &[]), "1234:99:2");
    assert_eq!(
        SSEProcessor::generate_connection_id(&event, &[sse(None, r#"{"response_id":"r"}"#)]),
        "1234:99:r"
    );
    assert_eq!(
        SSEProcessor::generate_connection_id(
            &event,
            &[
                sse(None, r#"{"id":"other"}"#),
                sse(Some("message_start"), r#"{"message":{"id":"m"}}"#)
            ]
        ),
        "1234:99:m"
    );
    let bare = event_of("ssl", 599_999_999_999, object(vec![]));
    assert_eq!(SSEProcessor::generate_connection_id(&bare, &[]), "0:0:0");
}

#[test]
fn hosts_are_found_in_the_event_or_its_headers() {
    let host = |data: &str| SSEProcessor::event_host(&event_of("ssl", 0, parse_json(data).unwrap()));
    assert_eq!(host(r#"{"host":"a","headers":{"host":"b"}}"#).as_deref(), Some("a"));
    assert_eq!(host(r#"{"headers":{"HoSt":"b"}}"#).as_deref(), Some("b"));
    assert_eq!(host(r#"{"headers":{":authority":"c","host":5}}"#).as_deref(), Some("c"));
    assert_eq!(host(r#"{"headers":{":Authority":"c"}}"#), None);
    assert_eq!(host(r#"{"headers":[]}"#), None);
}

#[test]
fn payloads_are_found_by_source_and_type() {
    let response = |headers: &str, body: &str| {
        event_of(
            "http_parser",
            0,
            object(vec![
                ("message_type", text("response")),
                ("headers", parse_json(headers).unwrap()),
                ("body", text(body)),
            ]),
        )
    };
    assert_eq!(SSEProcessor::sse_payload(&ssl_event(0, "x")), Some(("x", true)));
    assert_eq!(
        SSEProcessor::sse_payload(&response(r#"{"Content-Type":"TEXT/Event-Stream; a"}"#, "x")),
        Some(("x", false))
    );
    assert_eq!(
        SSEProcessor::sse_payload(&response("{}", "data: x\n\n")),
        Some(("data: x\n\n", false))
    );
    assert_eq!(SSEProcessor::sse_payload(&response("{}", "x")), None);
    assert_eq!(SSEProcessor::sse_payload(&event_of("ssl", 0, object(vec![]))), None);
}

#[test]
fn texts_joined_by_a_blank_line_give_the_events_of_both() {
    let texts = ["", "data: a", "data: a\n", "data: a\r", "\n", "\r\n\r\ndata: b\n\n\n", "\nid: 1\ndata: c"];
    for a in texts {
        for b in texts {
            let mut both = SSEProcessor::parse_sse_events_from_chunk(a);
            both.extend(SSEProcessor::parse_sse_events_from_chunk(b));
            let joined = format!("{a}\n\n{b}");
            assert_eq!(SSEProcessor::parse_sse_events_from_chunk(&joined), both, "{joined:?}");
        }
    }
}

#[test]
fn either_kind_of_line_end_gives_the_same_events() {
    let read = SSEProcessor::parse_sse_events_from_chunk;
    for s in [
        "event: a\r\ndata: 1\r\n\r\ndata: 2\r\n\n",
        "data: 1\r\r\n\r\ndata: 2",
        "\r\r\n\r\ndata: 1",
    ] {
        assert_eq!(read(s), read(&s.replace("\r\n", "\n")), "{s:?}");
    }
    // a line that is `\r` alone before its line end is the exception
    let odd = "data: 1\n\r\r\ndata: 2";
    assert_eq!(read(odd).len(), 1);
    assert_eq!(read(&odd.replace("\r\n", "\n")).len(), 2);
}

#[test]
fn events_hold_their_data_once_more() {
    for e in SSEProcessor::parse_sse_events_from_chunk("data: 1\n\ndata: x\n\nevent: n\n\nid: 3") {
        assert!(e.event.is_some() || e.data.is_some());
        assert_eq!(e.data.is_some(), e.parsed_data.is_some() != e.raw_data.is_some());
        if e.raw_data.is_some() {
            assert_eq!(e.raw_data, e.data);
        }
    }
}
