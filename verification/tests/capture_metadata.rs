use agentsight_analysis::capture_metadata::{
    CaptureMetadata, CaptureMetadataAccumulator, MAX_CAPTURE_TIDS,
};
use agentsight_analysis::event::Event;
use agentsight_analysis::json::{parse_json, JsonValue};

fn capture_event(data: &str) -> Event {
    Event::new_with_timestamp(
        1,
        "ssl".to_string(),
        10,
        "test".to_string(),
        parse_json(data).unwrap(),
    )
}

fn number_or_null(n: Option<u64>) -> JsonValue {
    match n {
        Some(n) => JsonValue::Unsigned(n),
        None => JsonValue::Null,
    }
}

fn text_or_null(s: &Option<String>) -> JsonValue {
    match s {
        Some(s) => JsonValue::Text(s.clone()),
        None => JsonValue::Null,
    }
}

fn carrying(m: &CaptureMetadata) -> Event {
    let truncated = match m.capture_truncated {
        Some(b) => JsonValue::Bool(b),
        None => JsonValue::Null,
    };
    let tids = m.capture_tids.iter().map(|t| JsonValue::Unsigned(*t)).collect();
    let fields = vec![
        ("transport_handle", text_or_null(&m.transport_handle)),
        ("process_start_ns", number_or_null(m.process_start_ns)),
        ("tls_library", text_or_null(&m.tls_library)),
        ("capture_seq_start", number_or_null(m.capture_seq_start)),
        ("capture_seq_end", number_or_null(m.capture_seq_end)),
        ("capture_fragment_count", JsonValue::Unsigned(m.capture_fragment_count)),
        ("capture_original_len", number_or_null(m.capture_original_len)),
        ("capture_captured_len", number_or_null(m.capture_captured_len)),
        ("capture_truncated", truncated),
        ("capture_bytes_lost", number_or_null(m.capture_bytes_lost)),
        ("ringbuf_reserve_failures_start", number_or_null(m.ringbuf_reserve_failures_start)),
        ("ringbuf_reserve_failures_end", number_or_null(m.ringbuf_reserve_failures_end)),
        ("capture_tids", JsonValue::List(tids)),
        ("capture_tid_count", JsonValue::Unsigned(m.capture_tid_count)),
        ("capture_tids_truncated", JsonValue::Bool(m.capture_tids_truncated)),
        ("capture_identity_consistent", JsonValue::Bool(m.capture_identity_consistent)),
        ("capture_metadata_complete", JsonValue::Bool(m.capture_metadata_complete)),
    ];
    Event::new_with_timestamp(
        1,
        "http_parser".to_string(),
        10,
        "test".to_string(),
        JsonValue::Object(fields.into_iter().map(|(k, v)| (k.to_string(), v)).collect()),
    )
}

#[test]
fn aggregates_lengths_ranges_loss_and_unique_tids() {
    let mut accumulator = CaptureMetadataAccumulator::default();
    accumulator.observe_event(&capture_event(
        r#"{
            "transport_handle": "0xa",
            "process_start_ns": 11,
            "tls_library": "openssl",
            "capture_seq": 20,
            "len": 100,
            "buf_size": 90,
            "truncated": true,
            "bytes_lost": 10,
            "ringbuf_reserve_failures": 2,
            "tid": 100
        }"#,
    ));
    accumulator.observe_event(&capture_event(
        r#"{
            "transport_handle": "0xa",
            "process_start_ns": 11,
            "tls_library": "openssl",
            "capture_seq": 21,
            "len": 50,
            "buf_size": 50,
            "truncated": false,
            "ringbuf_reserve_failures": 5,
            "tid": 200
        }"#,
    ));

    let metadata = accumulator.finish();
    assert_eq!(metadata.transport_handle.as_deref(), Some("0xa"));
    assert_eq!(metadata.capture_seq_start, Some(20));
    assert_eq!(metadata.capture_seq_end, Some(21));
    assert_eq!(metadata.capture_fragment_count, 2);
    assert_eq!(metadata.capture_original_len, Some(150));
    assert_eq!(metadata.capture_captured_len, Some(140));
    assert_eq!(metadata.capture_truncated, Some(true));
    assert_eq!(metadata.capture_bytes_lost, Some(10));
    assert_eq!(metadata.ringbuf_reserve_failures_delta, Some(3));
    assert_eq!(metadata.capture_tids, vec![100, 200]);
    assert!(metadata.capture_identity_consistent);
    assert!(metadata.capture_metadata_complete);
}

#[test]
fn conflicts_clear_identity_and_missing_lengths_are_not_partial_totals() {
    let mut accumulator = CaptureMetadataAccumulator::default();
    accumulator.observe_event(&capture_event(
        r#"{
            "transport_handle": "0xa", "process_start_ns": 11,
            "tls_library": "openssl", "capture_seq": 20,
            "len": 100, "buf_size": 100, "truncated": false,
            "ringbuf_reserve_failures": 0, "tid": 100
        }"#,
    ));
    accumulator.observe_event(&capture_event(
        r#"{
            "transport_handle": "0xb", "process_start_ns": 11,
            "tls_library": "openssl", "capture_seq": 21,
            "truncated": false, "ringbuf_reserve_failures": 0, "tid": 100
        }"#,
    ));

    let metadata = accumulator.finish();
    assert_eq!(metadata.transport_handle, None);
    assert_eq!(metadata.process_start_ns, None);
    assert_eq!(metadata.tls_library, None);
    assert!(!metadata.capture_identity_consistent);
    assert_eq!(metadata.capture_original_len, None);
    assert_eq!(metadata.capture_captured_len, None);
    assert!(!metadata.capture_metadata_complete);
}

#[test]
fn limits_serialized_tid_list_but_keeps_unique_count() {
    let mut accumulator = CaptureMetadataAccumulator::default();
    for tid in 0..70 {
        accumulator.observe_event(&capture_event(&format!(
            r#"{{
                "transport_handle": "0xa", "process_start_ns": 11,
                "tls_library": "openssl", "capture_seq": {tid},
                "len": 1, "buf_size": 1, "truncated": false,
                "ringbuf_reserve_failures": 0, "tid": {tid}
            }}"#
        )));
    }
    let metadata = accumulator.finish();
    assert_eq!(metadata.capture_tids.len(), MAX_CAPTURE_TIDS);
    assert_eq!(metadata.capture_tid_count, 70);
    assert!(metadata.capture_tids_truncated);
}

#[test]
fn legacy_fragment_remains_compatible_and_marks_metadata_incomplete() {
    let mut accumulator = CaptureMetadataAccumulator::default();
    accumulator.observe_event(&capture_event(
        r#"{"data": "legacy", "function": "READ/RECV", "tid": 100}"#,
    ));

    let metadata = accumulator.finish();
    assert_eq!(metadata.capture_fragment_count, 1);
    assert_eq!(metadata.transport_handle, None);
    assert_eq!(metadata.capture_original_len, None);
    assert_eq!(metadata.capture_truncated, None);
    assert_eq!(metadata.capture_tids, vec![100]);
    assert!(metadata.capture_identity_consistent);
    assert!(!metadata.capture_metadata_complete);
}

#[test]
fn the_default_summary_knows_nothing() {
    let metadata = CaptureMetadata::default();
    assert_eq!(metadata.transport_handle, None);
    assert_eq!(metadata.capture_fragment_count, 0);
    assert!(metadata.capture_identity_consistent);
    assert!(!metadata.capture_metadata_complete);
}

#[test]
fn numbers_and_texts_stand_for_each_other() {
    let mut accumulator = CaptureMetadataAccumulator::default();
    accumulator.observe_event(&capture_event(
        r#"{"transport_handle": 12, "process_start_ns": "+34", "tls_library": -5,
            "capture_seq": "7", "len": "8", "buf_size": 8, "truncated": false,
            "ringbuf_reserve_failures": "0", "tid": "9"}"#,
    ));
    let metadata = accumulator.finish();
    assert_eq!(metadata.transport_handle.as_deref(), Some("12"));
    assert_eq!(metadata.process_start_ns, Some(34));
    assert_eq!(metadata.tls_library.as_deref(), Some("-5"));
    assert_eq!(metadata.capture_seq_start, Some(7));
    assert_eq!(metadata.capture_original_len, Some(8));
    assert_eq!(metadata.capture_tids, vec![9]);
    assert!(metadata.capture_metadata_complete);

    let mut other = CaptureMetadataAccumulator::default();
    other.observe_event(&capture_event(
        r#"{"transport_handle": 1.50, "tls_library": -9223372036854775808, "tid": "x"}"#,
    ));
    let metadata = other.finish();
    assert_eq!(metadata.transport_handle.as_deref(), Some("1.5"));
    assert_eq!(metadata.tls_library.as_deref(), Some("-9223372036854775808"));
    assert_eq!(metadata.capture_tids, Vec::<u64>::new());
}

#[test]
fn totals_that_do_not_fit_are_absent() {
    let mut accumulator = CaptureMetadataAccumulator::default();
    let big = r#"{"len": 18446744073709551615, "buf_size": 1, "truncated": true,
                  "bytes_lost": 18446744073709551615}"#;
    accumulator.observe_event(&capture_event(big));
    assert_eq!(accumulator.finish().capture_original_len, Some(u64::MAX));
    assert_eq!(accumulator.finish().capture_bytes_lost, Some(u64::MAX));
    accumulator.observe_event(&capture_event(big));
    assert_eq!(accumulator.finish().capture_original_len, None);
    assert_eq!(accumulator.finish().capture_captured_len, None);
    assert_eq!(accumulator.finish().capture_bytes_lost, None);
    assert_eq!(accumulator.finish().capture_truncated, Some(true));
}

#[test]
fn a_conflict_is_not_forgotten() {
    let mut accumulator = CaptureMetadataAccumulator::default();
    for handle in ["a", "b", "a", "a"] {
        accumulator.observe_event(&capture_event(&format!(
            r#"{{"transport_handle": "{handle}"}}"#
        )));
    }
    let metadata = accumulator.finish();
    assert!(!metadata.capture_identity_consistent);
    assert_eq!(metadata.transport_handle, None);
    assert_eq!(metadata.capture_fragment_count, 4);
}

#[test]
fn summaries_survive_being_observed_again() {
    let mut accumulator = CaptureMetadataAccumulator::default();
    for tid in 0..70u64 {
        accumulator.observe_event(&capture_event(&format!(
            r#"{{"transport_handle": "0xa", "process_start_ns": 11, "tls_library": "openssl",
                "capture_seq": {}, "len": 3, "buf_size": 2, "truncated": true, "bytes_lost": 1,
                "ringbuf_reserve_failures": {}, "tid": {}}}"#,
            100 - tid,
            tid,
            1000 - tid
        )));
    }
    let metadata = accumulator.finish();
    assert_eq!(metadata.capture_tids[0], 931);
    assert_eq!(metadata.capture_tids[63], 994);
    let mut again = CaptureMetadataAccumulator::default();
    again.observe_event(&carrying(&metadata));
    assert_eq!(again.finish(), metadata);
}

#[test]
fn summaries_and_fragments_add_up() {
    let mut accumulator = CaptureMetadataAccumulator::default();
    accumulator.observe_event(&capture_event(
        r#"{"capture_fragment_count": 3, "transport_handle": "0xa", "process_start_ns": 1,
            "tls_library": "l", "capture_seq_start": 4, "capture_seq_end": 9,
            "capture_original_len": 10, "capture_captured_len": 9, "capture_truncated": true,
            "capture_bytes_lost": 1, "ringbuf_reserve_failures_start": 2,
            "ringbuf_reserve_failures_end": 3, "capture_tids": [5, "6", null],
            "capture_tid_count": 4, "capture_tids_truncated": true,
            "capture_identity_consistent": true, "capture_metadata_complete": true}"#,
    ));
    accumulator.observe_event(&capture_event(
        r#"{"transport_handle": "0xa", "process_start_ns": 1, "tls_library": "l",
            "capture_seq": 2, "len": 5, "buf_size": 5, "truncated": false,
            "ringbuf_reserve_failures": 8, "tid": 6}"#,
    ));
    let metadata = accumulator.finish();
    assert_eq!(metadata.capture_fragment_count, 4);
    assert_eq!(metadata.capture_seq_start, Some(2));
    assert_eq!(metadata.capture_seq_end, Some(9));
    assert_eq!(metadata.capture_original_len, Some(15));
    assert_eq!(metadata.capture_captured_len, Some(14));
    assert_eq!(metadata.capture_bytes_lost, Some(1));
    assert_eq!(metadata.ringbuf_reserve_failures_start, Some(2));
    assert_eq!(metadata.ringbuf_reserve_failures_end, Some(8));
    assert_eq!(metadata.ringbuf_reserve_failures_delta, Some(6));
    assert_eq!(metadata.capture_tids, vec![5, 6]);
    assert_eq!(metadata.capture_tid_count, 4);
    assert!(metadata.capture_tids_truncated);
    assert!(metadata.capture_metadata_complete);

    // a summary that does not say that its identity is consistent counts as in conflict
    accumulator.observe_event(&capture_event(r#"{"capture_fragment_count": "1"}"#));
    let metadata = accumulator.finish();
    assert_eq!(metadata.capture_fragment_count, 5);
    assert!(!metadata.capture_identity_consistent);
    assert_eq!(metadata.capture_seq_start, None);
    assert!(!metadata.capture_metadata_complete);
}

fn fragment(handle: &str, seq: u64, len: u64, lost: u64, failures: u64, tid: u64) -> Event {
    capture_event(&format!(
        r#"{{"transport_handle": "{handle}", "process_start_ns": 1, "tls_library": "l",
            "capture_seq": {seq}, "len": {len}, "buf_size": {len}, "truncated": {},
            "bytes_lost": {lost}, "ringbuf_reserve_failures": {failures}, "tid": {tid}}}"#,
        lost > 0
    ))
}

fn summed_up(events: &[Event]) -> CaptureMetadata {
    let mut accumulator = CaptureMetadataAccumulator::default();
    for event in events {
        accumulator.observe_event(event);
    }
    accumulator.finish()
}

#[test]
fn the_order_of_captures_does_not_matter() {
    let unknown = capture_event(r#"{"capture_seq": 5, "tid": 2}"#);
    for more in [fragment("a", 9, 4, 2, 1, 3), fragment("b", 9, 4, 2, 1, 3), unknown] {
        let one = fragment("a", 3, 10, 1, 7, 2);
        let two = fragment("a", 1, 20, 0, 8, 1);
        let mut forth = summed_up(&[one.clone(), two.clone(), more.clone()]);
        let mut back = summed_up(&[more, two, one]);
        // the reserve failures are those of the first capture and of the last one
        assert_eq!(forth.ringbuf_reserve_failures_start, Some(7));
        assert_eq!(back.ringbuf_reserve_failures_end, Some(7));
        assert_eq!(forth.ringbuf_reserve_failures_end, back.ringbuf_reserve_failures_start);
        for m in [&mut forth, &mut back] {
            m.ringbuf_reserve_failures_start = None;
            m.ringbuf_reserve_failures_end = None;
            m.ringbuf_reserve_failures_delta = None;
        }
        assert_eq!(forth, back);
    }
}

#[test]
fn metadata_are_complete_if_every_capture_tells_all() {
    let whole = [
        ("transport_handle", "\"a\""),
        ("process_start_ns", "1"),
        ("tls_library", "2"),
        ("capture_seq", "3"),
        ("len", "4"),
        ("buf_size", "5"),
        ("truncated", "true"),
        ("bytes_lost", "6"),
        ("ringbuf_reserve_failures", "7"),
        ("tid", "8"),
    ];
    let without = |left_out: &str| {
        let fields: Vec<String> = whole
            .iter()
            .filter(|(name, _)| *name != left_out)
            .map(|(name, value)| format!("\"{name}\": {value}"))
            .collect();
        capture_event(&format!("{{{}}}", fields.join(", ")))
    };
    assert!(summed_up(&[without(""), without("")]).capture_metadata_complete);
    for (name, _) in whole {
        assert!(!summed_up(&[without(""), without(name)]).capture_metadata_complete, "{name}");
    }
    // captures that contradict each other are complete, totals that do not fit are not
    let a = fragment("a", 1, 1, 0, 0, 1);
    let b = fragment("b", 1, u64::MAX - 1, 0, 0, 1);
    let two = summed_up(&[a.clone(), b.clone()]);
    assert!(two.capture_metadata_complete);
    assert!(!two.capture_identity_consistent);
    assert!(!summed_up(&[a.clone(), b, a]).capture_metadata_complete);
}
