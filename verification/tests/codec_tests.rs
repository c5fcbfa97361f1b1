use vortex_runtime::codec::{encode_execution_result, encode_log_entry, parse_log_entry_str};
use vortex_runtime::rfc3339::{format_timestamp, parse_timestamp_str, TEXT_RANGE_END_MS};
use vortex_runtime::LogEntry;

fn entry(timestamp_ms: u64, message: &str) -> LogEntry {
    LogEntry { timestamp_ms, message: message.to_string() }
}

#[test]
fn format_timestamp_epoch() {
    assert_eq!(format_timestamp(0).unwrap(), "1970-01-01T00:00:00.000Z");
}

#[test]
fn format_timestamp_known_instant() {
    // 2001-09-09T01:46:40.555Z is 1_000_000_000_555 ms after the epoch
    assert_eq!(format_timestamp(1_000_000_000_555).unwrap(), "2001-09-09T01:46:40.555Z");
}

#[test]
fn format_timestamp_leap_day() {
    // 2000 is a leap year (divisible by 400), 2100 is not
    let t = parse_timestamp_str("2000-02-29T12:00:00.000Z").unwrap();
    assert_eq!(format_timestamp(t).unwrap(), "2000-02-29T12:00:00.000Z");
    assert!(parse_timestamp_str("2100-02-29T12:00:00.000Z").is_none());
}

#[test]
fn format_timestamp_range_end() {
    assert!(format_timestamp(TEXT_RANGE_END_MS).is_none());
    assert!(format_timestamp(TEXT_RANGE_END_MS - 1).is_some());
}

#[test]
fn parse_timestamp_round_trip() {
    for &t in &[0u64, 1, 999, 86_400_000, 1_700_000_000_123, 253402300799999] {
        let text = format_timestamp(t).unwrap();
        assert_eq!(parse_timestamp_str(&text), Some(t));
    }
}

#[test]
fn parse_timestamp_rejects_malformed() {
    assert!(parse_timestamp_str("").is_none());
    assert!(parse_timestamp_str("2024-01-15 12:34:56.789Z").is_none());
    assert!(parse_timestamp_str("2024-13-15T12:34:56.789Z").is_none());
    assert!(parse_timestamp_str("2024-04-31T12:34:56.789Z").is_none());
    assert!(parse_timestamp_str("2024-00-15T12:34:56.789Z").is_none());
    assert!(parse_timestamp_str("2024-01-00T12:34:56.789Z").is_none());
    assert!(parse_timestamp_str("2024-01-15T24:00:00.000Z").is_none());
    assert!(parse_timestamp_str("2024-01-15T12:60:56.789Z").is_none());
    assert!(parse_timestamp_str("1969-12-31T23:59:59.999Z").is_none());
    assert!(parse_timestamp_str("2024-01-15T12:34:56.789").is_none());
    assert!(parse_timestamp_str("2024-01-15T12:34:56.78Zz").is_none());
    assert_eq!(parse_timestamp_str("2024-01-15T12:34:56.789Z"), Some(1705322096789));
}

#[test]
fn timestamp_agrees_with_chrono() {
    for &t in &[0u64, 1_000_000_000_555, 1_700_000_000_123] {
        let text = format_timestamp(t).unwrap();
        let parsed = chrono::DateTime::parse_from_rfc3339(&text).unwrap();
        assert_eq!(parsed.timestamp_millis(), t as i64);
    }
    // and back: an instant chrono renders is the instant this crate reads
    let dt = chrono::DateTime::from_timestamp_millis(1_000_000_000_555).unwrap();
    let ours = format_timestamp(1_000_000_000_555).unwrap();
    assert_eq!(dt.timestamp_millis(), parse_timestamp_str(&ours).unwrap() as i64);
}

#[test]
fn encode_log_entry_exact_text() {
    let e = entry(0, "hello");
    assert_eq!(
        encode_log_entry(&e).unwrap(),
        "{\"timestamp\":\"1970-01-01T00:00:00.000Z\",\"message\":\"hello\"}"
    );
}

#[test]
fn encode_log_entry_escapes() {
    let e = entry(0, "a\"b\\c\nd\re\tf\u{1}g");
    let text = encode_log_entry(&e).unwrap();
    assert_eq!(
        text,
        "{\"timestamp\":\"1970-01-01T00:00:00.000Z\",\"message\":\"a\\\"b\\\\c\\nd\\re\\tf\\u0001g\"}"
    );
}

#[test]
fn log_entry_round_trip() {
    let cases = [
        entry(0, ""),
        entry(1_700_000_000_123, "hello world"),
        entry(42, "quotes \" and \\ backslashes"),
        entry(7, "line\nbreak\ttab\rreturn"),
        entry(253402300799999, "edge of the text range"),
        entry(99, "unicode: héllo wörld ☃"),
        entry(3, "\u{0}\u{1}\u{1f}"),
    ];
    for e in &cases {
        let text = encode_log_entry(e).unwrap();
        let back = parse_log_entry_str(&text).unwrap();
        assert_eq!(back.timestamp_ms, e.timestamp_ms);
        assert_eq!(back.message, e.message);
    }
}

#[test]
fn encode_log_entry_agrees_with_serde_json() {
    let e = entry(1_700_000_000_123, "tricky \"msg\"\nwith\tescapes");
    let text = encode_log_entry(&e).unwrap();
    let v: serde_json::Value = serde_json::from_str(&text).unwrap();
    assert_eq!(v["message"].as_str().unwrap(), e.message);
    let ts = v["timestamp"].as_str().unwrap();
    assert_eq!(parse_timestamp_str(ts), Some(e.timestamp_ms));
}

#[test]
fn encode_log_entry_out_of_range() {
    assert!(encode_log_entry(&entry(TEXT_RANGE_END_MS, "late")).is_err());
}

#[test]
fn parse_log_entry_rejects_malformed() {
    assert!(parse_log_entry_str("").is_none());
    assert!(parse_log_entry_str("{\"timestamp\":\"1970-01-01T00:00:00.000Z\"}").is_none());
    assert!(
        parse_log_entry_str("{\"timestamp\":\"1970-01-01T00:00:00.000Z\",\"message\":\"x\"} ")
            .is_none()
    );
    assert!(
        parse_log_entry_str("{\"timestamp\":\"1970-01-01T00:00:00.000Z\",\"message\":\"x\\q\"}")
            .is_none()
    );
    assert!(
        parse_log_entry_str("{\"timestamp\":\"1970-13-01T00:00:00.000Z\",\"message\":\"x\"}")
            .is_none()
    );
    assert!(
        parse_log_entry_str("{\"timestamp\":\"1970-01-01T00:00:00.000Z\",\"message\":\"x\"")
            .is_none()
    );
}

#[test]
fn parse_log_entry_accepts_upper_case_hex_escape() {
    let e = parse_log_entry_str(
        "{\"timestamp\":\"1970-01-01T00:00:00.000Z\",\"message\":\"a\\u000Ab\"}",
    )
    .unwrap();
    assert_eq!(e.message, "a\nb");
    assert_eq!(e.timestamp_ms, 0);
}

#[test]
fn result_doc_exact_text() {
    let doc = encode_execution_result(&Some("2".to_string()), &vec![], 5).unwrap();
    assert_eq!(doc, "{\"output\":2,\"logs\":[],\"execution_time_ms\":5}");
    let doc = encode_execution_result(&None, &vec![], 0).unwrap();
    assert_eq!(doc, "{\"output\":null,\"logs\":[],\"execution_time_ms\":0}");
}

#[test]
fn result_doc_with_logs() {
    let logs = vec![entry(0, "first"), entry(1, "second")];
    let doc = encode_execution_result(&None, &logs, 12).unwrap();
    assert_eq!(
        doc,
        "{\"output\":null,\"logs\":[\
         {\"timestamp\":\"1970-01-01T00:00:00.000Z\",\"message\":\"first\"},\
         {\"timestamp\":\"1970-01-01T00:00:00.001Z\",\"message\":\"second\"}],\
         \"execution_time_ms\":12}"
    );
}

#[test]
fn result_doc_agrees_with_serde_json() {
    let logs = vec![entry(1_700_000_000_000, "a"), entry(1_700_000_000_001, "b \"quoted\"")];
    let doc =
        encode_execution_result(&Some("{\"answer\":42}".to_string()), &logs, 250).unwrap();
    let v: serde_json::Value = serde_json::from_str(&doc).unwrap();
    assert_eq!(v["output"]["answer"].as_i64().unwrap(), 42);
    assert_eq!(v["execution_time_ms"].as_u64().unwrap(), 250);
    let arr = v["logs"].as_array().unwrap();
    assert_eq!(arr.len(), 2);
    assert_eq!(arr[0]["message"].as_str().unwrap(), "a");
    assert_eq!(arr[1]["message"].as_str().unwrap(), "b \"quoted\"");
}

#[test]
fn result_doc_out_of_range_entry() {
    let logs = vec![entry(0, "fine"), entry(TEXT_RANGE_END_MS, "late")];
    assert!(encode_execution_result(&None, &logs, 1).is_err());
}
