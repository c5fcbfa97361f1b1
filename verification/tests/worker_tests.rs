use vortex_runtime::bootstrap::{format_console_message, ConsoleLevel, ConsoleValue};
use vortex_runtime::codec::encode_execution_result;
use vortex_runtime::ops::{clamp_epoch_ms, now_ms};
use vortex_runtime::worker::{elapsed_ms, output_of, wrap_code, EngineValue};
use vortex_runtime::{ExecutionResult, LogEntry, VortexWorker};

#[test]
fn test_log_entry_creation() {
    let entry = LogEntry::new("test message".to_string());
    assert_eq!(entry.message, "test message");
    // Timestamp should be recent (within last second)
    let now = now_ms();
    assert!(now.saturating_sub(entry.timestamp_ms) < 1000);
}

#[test]
fn test_get_time_ms_logic() {
    let time1 = now_ms();
    // spin until the clock has moved at least 10ms
    loop {
        if now_ms() >= time1 + 10 {
            break;
        }
    }
    let time2 = now_ms();
    assert!(time2 > time1);
    assert!(time2 - time1 >= 10);
}

#[test]
fn capture_preserves_order_and_count() {
    let mut worker = VortexWorker::new();
    let start = worker.begin_run();
    worker.capture_log("first".to_string());
    worker.capture_log("second".to_string());
    worker.capture_log("third".to_string());
    let result = worker.finish_run(None, start, now_ms());
    assert_eq!(result.logs.len(), 3);
    assert_eq!(result.logs[0].message, "first");
    assert_eq!(result.logs[1].message, "second");
    assert_eq!(result.logs[2].message, "third");
    assert!(result.output.is_none());
}

#[test]
fn logs_never_leak_across_runs() {
    let mut worker = VortexWorker::new();
    let start = worker.begin_run();
    worker.capture_log("from run one".to_string());
    let first = worker.finish_run(None, start, now_ms());
    assert_eq!(first.logs.len(), 1);

    let start = worker.begin_run();
    worker.capture_log("from run two".to_string());
    let second = worker.finish_run(None, start, now_ms());
    assert_eq!(second.logs.len(), 1);
    assert_eq!(second.logs[0].message, "from run two");
}

#[test]
fn entries_captured_before_a_run_are_cleared() {
    let mut worker = VortexWorker::new();
    worker.capture_log("stale".to_string());
    let start = worker.begin_run();
    let result = worker.finish_run(None, start, now_ms());
    assert_eq!(result.logs.len(), 0);
}

#[test]
fn independent_workers_agree_on_messages() {
    // identical capture sequences on two fresh workers give identical
    // messages, timestamps aside
    let script = ["hello world", "a second line", "done"];
    let mut one = VortexWorker::new();
    let mut two = VortexWorker::new();
    let s1 = one.begin_run();
    let s2 = two.begin_run();
    for m in &script {
        one.capture_log(m.to_string());
        two.capture_log(m.to_string());
    }
    let r1 = one.finish_run(Some("null".to_string()), s1, now_ms());
    let r2 = two.finish_run(Some("null".to_string()), s2, now_ms());
    assert_eq!(r1.output, r2.output);
    assert_eq!(r1.logs.len(), r2.logs.len());
    for (a, b) in r1.logs.iter().zip(r2.logs.iter()) {
        assert_eq!(a.message, b.message);
    }
}

#[test]
fn execution_time_reflects_the_clock() {
    let mut worker = VortexWorker::new();
    let start = worker.begin_run();
    let end = now_ms();
    let result = worker.finish_run(None, start, end);
    // exactly the elapsed wall-clock time between the two readings
    assert_eq!(result.execution_time_ms, end.saturating_sub(start));
    assert!(result.execution_time_ms <= now_ms().saturating_sub(start));
}

#[test]
fn execution_time_is_the_clamped_difference() {
    let mut worker = VortexWorker::new();
    let r = worker.finish_run(None, 100, 250);
    assert_eq!(r.execution_time_ms, 150);
    let r = worker.finish_run(None, 250, 100);
    assert_eq!(r.execution_time_ms, 0);
    let r = worker.finish_run(None, 7, 7);
    assert_eq!(r.execution_time_ms, 0);
}

#[test]
fn elapsed_ms_clamps_at_zero() {
    assert_eq!(elapsed_ms(100, 250), 150);
    assert_eq!(elapsed_ms(250, 100), 0);
    assert_eq!(elapsed_ms(7, 7), 0);
}

#[test]
fn clamp_epoch_ms_maps_every_reading() {
    // a clock before the epoch reads as zero; one beyond the scale saturates
    assert_eq!(clamp_epoch_ms(None), 0);
    assert_eq!(clamp_epoch_ms(Some(0)), 0);
    assert_eq!(clamp_epoch_ms(Some(1_700_000_000_123)), 1_700_000_000_123);
    assert_eq!(clamp_epoch_ms(Some(u64::MAX as u128)), u64::MAX);
    assert_eq!(clamp_epoch_ms(Some(u64::MAX as u128 + 1)), u64::MAX);
    assert_eq!(clamp_epoch_ms(Some(u128::MAX)), u64::MAX);
}

#[test]
fn capture_logs_batch_keeps_order() {
    let mut worker = VortexWorker::new();
    let start = worker.begin_run();
    let messages: Vec<String> =
        ["one", "two", "three", "four"].iter().map(|s| s.to_string()).collect();
    worker.capture_logs(&messages);
    let result = worker.finish_run(None, start, now_ms());
    assert_eq!(result.logs.len(), 4);
    for (entry, message) in result.logs.iter().zip(messages.iter()) {
        assert_eq!(&entry.message, message);
    }
}

#[test]
fn output_of_engine_values() {
    // a script resolving to a JSON-representable value reports its text;
    // undefined (a bare expression without return), null, and values with
    // no JSON form report no output
    assert_eq!(output_of(EngineValue::Json("2".to_string())), Some("2".to_string()));
    assert_eq!(output_of(EngineValue::Undefined), None);
    assert_eq!(output_of(EngineValue::Null), None);
    assert_eq!(output_of(EngineValue::Unrepresentable), None);
}

#[test]
fn wrap_code_is_an_async_iife() {
    assert_eq!(wrap_code("return 1 + 1"), "(async () => {\nreturn 1 + 1\n})()");
    assert_eq!(wrap_code(""), "(async () => {\n\n})()");
}

#[test]
fn captured_entries_are_streamed() {
    let (tx, mut rx) = tokio::sync::mpsc::unbounded_channel::<String>();
    let mut worker = VortexWorker::new_with_redis(Some(tx));
    let start = worker.begin_run();
    worker.capture_log("streamed".to_string());
    // the enqueued copy is the entry's wire text
    let line = rx.try_recv().unwrap();
    let entry = vortex_runtime::codec::parse_log_entry_str(&line).unwrap();
    assert_eq!(entry.message, "streamed");
    let result = worker.finish_run(None, start, now_ms());
    assert_eq!(result.logs.len(), 1);
    assert_eq!(result.logs[0].message, "streamed");

    // a closed queue is swallowed: capture still succeeds
    drop(rx);
    let start = worker.begin_run();
    worker.capture_log("after close".to_string());
    let result = worker.finish_run(None, start, now_ms());
    assert_eq!(result.logs.len(), 1);
    assert_eq!(result.logs[0].message, "after close");
}

#[test]
fn console_log_reaches_the_result() {
    // a script logging one line and resolving to undefined: one captured
    // message, no output
    let mut worker = VortexWorker::new();
    let start = worker.begin_run();
    let line = format_console_message(
        ConsoleLevel::Log,
        &vec![ConsoleValue::Text("hello world".to_string())],
    );
    worker.capture_log(line);
    let output = output_of(EngineValue::Undefined);
    let result = worker.finish_run(output, start, now_ms());
    assert_eq!(result.logs.len(), 1);
    assert_eq!(result.logs[0].message, "hello world");
    assert!(result.output.is_none());
    let doc = encode_execution_result(&result.output, &result.logs, result.execution_time_ms)
        .unwrap();
    assert!(doc.starts_with("{\"output\":null,\"logs\":[{\"timestamp\":\""));
    assert!(doc.contains("\"message\":\"hello world\""));
}

#[test]
fn execution_result_new_keeps_fields() {
    let logs = vec![LogEntry { timestamp_ms: 5, message: "m".to_string() }];
    let r = ExecutionResult::new(Some("42".to_string()), logs, 9);
    assert_eq!(r.output.as_deref(), Some("42"));
    assert_eq!(r.logs.len(), 1);
    assert_eq!(r.logs[0].timestamp_ms, 5);
    assert_eq!(r.execution_time_ms, 9);
}
