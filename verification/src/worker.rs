//! The execution worker: one isolated environment's capture state, the
//! wrapping of user code, and the assembly of a run's result.

use vstd::prelude::*;
use vstd::string::StringExecFns;
use crate::ops::{op_log, now_ms, LogEntry, RedisPublisher};

verus! {

/// Result of one script run: the resolved output value's JSON text (none
/// when the script resolved to undefined, null, or a value with no JSON
/// form), every log entry captured during the run in call order, and the
/// elapsed wall-clock time.
pub struct ExecutionResult {
    /// JSON text of the script's resolved value, if it has one.
    pub output: Option<String>,
    /// All captured log entries, in capture order.
    pub logs: Vec<LogEntry>,
    /// Total execution time in milliseconds.
    pub execution_time_ms: u64,
}

impl ExecutionResult {
    /// Assemble a result from its parts, unchanged.
    pub fn new(output: Option<String>, logs: Vec<LogEntry>, execution_time_ms: u64) -> (r:
        ExecutionResult)
        ensures
            r.output == output,
            r.logs == logs,
            r.execution_time_ms == execution_time_ms,
    {
        ExecutionResult { output, logs, execution_time_ms }
    }
}

/// The isolated environment could not be created or its bootstrap threw;
/// fatal, no partial result.
pub struct InitializationError {
    /// The underlying cause's text.
    pub message: String,
}

/// The script failed: a syntax error, an uncaught exception, or a failure
/// while driving scheduled work; fatal to this run only.
pub struct ExecutionError {
    /// The engine's error text.
    pub message: String,
}

/// The resolved value of a run's top-level promise, as the embedded engine
/// reports it once scheduled work is done.
pub enum EngineValue {
    /// The promise resolved to the undefined value.
    Undefined,
    /// The promise resolved to the null value.
    Null,
    /// The promise resolved to a value with the given JSON text.
    Json(String),
    /// The promise resolved to a value with no JSON form.
    Unrepresentable,
}

/// The output reported for a resolved value: its JSON text when it has one,
/// none for undefined, null, and values with no JSON form.
pub fn output_of(value: EngineValue) -> (r: Option<String>)
    ensures
        match value {
            EngineValue::Json(s) => r == Some(s),
            _ => r is None,
        },
{
    match value {
        EngineValue::Json(s) => Some(s),
        _ => None,
    }
}

/// Wall-clock time elapsed between two millisecond readings, clamped at
/// zero if the clock moved backwards.
pub fn elapsed_ms(start_ms: u64, end_ms: u64) -> (r: u64)
    ensures
        r == if end_ms >= start_ms { end_ms - start_ms } else { 0 },
{
    if end_ms >= start_ms {
        end_ms - start_ms
    } else {
        0
    }
}

/// User code wrapped in an anonymous asynchronous function invoked at once,
/// so it may suspend and span several statements; its completion value is
/// what an explicit `return` gives, and without one there is no output.
pub fn wrap_code(code: &str) -> (r: String)
    ensures
        r@ == "(async () => {\n"@ + code@ + "\n})()"@,
{
    let mut out = String::from_str("(async () => {\n");
    out.append(code);
    out.append("\n})()");
    out
}

/// One execution worker: owns one isolated environment's log capture store
/// and, when streaming is configured, the sending half of the sidecar's
/// queue. One instance runs scripts strictly one after another.
pub struct VortexWorker {
    /// The per-run log capture store, cleared when a run begins.
    log_storage: Vec<LogEntry>,
    /// The streaming publisher handle, if streaming was configured; lives as
    /// long as the worker, across runs.
    publisher: Option<RedisPublisher>,
}

impl VortexWorker {
    /// The captured entries of the run in progress, in capture order.
    pub closed spec fn logs(&self) -> Seq<LogEntry> {
        self.log_storage@
    }

    /// Whether a streaming publisher is configured.
    pub closed spec fn has_publisher(&self) -> bool {
        self.publisher is Some
    }

    /// A fresh worker without log streaming.
    pub fn new() -> (r: VortexWorker)
        ensures
            r.logs() == Seq::<LogEntry>::empty(),
            !r.has_publisher(),
    {
        Self::new_with_redis(None)
    }

    /// A fresh worker; with a sender, every captured entry is also enqueued
    /// for the streaming sidecar whose background task holds the receiving
    /// half.
    pub fn new_with_redis(sender: Option<tokio::sync::mpsc::UnboundedSender<String>>) -> (r:
        VortexWorker)
        ensures
            r.logs() == Seq::<LogEntry>::empty(),
            r.has_publisher() == (sender is Some),
    {
        let publisher = match sender {
            Some(s) => Some(RedisPublisher { sender: s }),
            None => None,
        };
        VortexWorker { log_storage: Vec::new(), publisher }
    }

    /// The logging capability, as wired into the sandbox: appends one entry
    /// carrying exactly `message` behind the entries already captured, and
    /// streams a copy if configured. Never fails and never waits.
    pub fn capture_log(&mut self, message: String)
        ensures
            final(self).logs().len() == old(self).logs().len() + 1,
            final(self).logs() == old(self).logs().push(final(self).logs().last()),
            final(self).logs().last().message == message,
            final(self).has_publisher() == old(self).has_publisher(),
    {
        op_log(&mut self.log_storage, &self.publisher, message);
    }

    /// Start a run: the capture store is cleared, so nothing captured before
    /// this instant can reach this run's result; returns the start reading
    /// of the host clock.
    pub fn begin_run(&mut self) -> (start_ms: u64)
        ensures
            final(self).logs() == Seq::<LogEntry>::empty(),
            final(self).has_publisher() == old(self).has_publisher(),
    {
        self.log_storage = Vec::new();
        now_ms()
    }

    /// Finish a run: drains the capture store in order into the result —
    /// exactly the entries captured since the run began, none kept for a
    /// later run — beside the given output and the elapsed time between the
    /// run's two clock readings, clamped at zero.
    pub fn finish_run(&mut self, output: Option<String>, start_ms: u64, end_ms: u64) -> (r:
        ExecutionResult)
        ensures
            r.output == output,
            r.logs@ == old(self).logs(),
            r.execution_time_ms == if end_ms >= start_ms { end_ms - start_ms } else { 0 },
            final(self).logs() == Seq::<LogEntry>::empty(),
            final(self).has_publisher() == old(self).has_publisher(),
    {
        let execution_time_ms = elapsed_ms(start_ms, end_ms);
        let mut logs: Vec<LogEntry> = Vec::new();
        core::mem::swap(&mut logs, &mut self.log_storage);
        ExecutionResult::new(output, logs, execution_time_ms)
    }

    /// Capture a whole sequence of messages, one entry each: however many
    /// logging calls a run makes, their messages land behind the store's
    /// entries in exactly call order and count — nothing reordered, lost or
    /// duplicated.
    pub fn capture_logs(&mut self, messages: &Vec<String>)
        ensures
            messages_of(final(self).logs()) == messages_of(old(self).logs())
                + messages.deep_view(),
            final(self).logs().len() == old(self).logs().len() + messages@.len(),
            final(self).has_publisher() == old(self).has_publisher(),
    {
        let mut i: usize = 0;
        while i < messages.len()
            invariant
                0 <= i <= messages@.len(),
                messages_of(self.logs()) == messages_of(old(self).logs())
                    + messages.deep_view().take(i as int),
                self.logs().len() == old(self).logs().len() + i,
                self.has_publisher() == old(self).has_publisher(),
            decreases messages@.len() - i,
        {
            let ghost logs_before = self.logs();
            self.capture_log(messages[i].clone());
            proof {
                lemma_capture_preserves_order(
                    logs_before,
                    self.logs(),
                    messages.deep_view()[i as int],
                );
                assert(messages.deep_view().take(i as int + 1) =~= messages.deep_view().take(
                    i as int,
                ).push(messages.deep_view()[i as int]));
                assert(messages_of(old(self).logs()) + messages.deep_view().take(i as int + 1)
                    =~= (messages_of(old(self).logs()) + messages.deep_view().take(
                    i as int,
                )).push(messages.deep_view()[i as int]));
            }
            i = i + 1;
        }
        proof {
            assert(messages.deep_view().take(messages@.len() as int) =~= messages.deep_view());
        }
    }
}

/// The messages of a sequence of entries, in the same order.
pub open spec fn messages_of(entries: Seq<LogEntry>) -> Seq<Seq<char>> {
    entries.map_values(|e: LogEntry| e.message@)
}

/// Within one run, logging preserves exact call order and count: each
/// capture appends exactly its message behind the messages already
/// captured, and touches nothing else.
pub proof fn lemma_capture_preserves_order(
    before: Seq<LogEntry>,
    after: Seq<LogEntry>,
    message: Seq<char>,
)
    requires
        after.len() == before.len() + 1,
        after == before.push(after.last()),
        after.last().message@ == message,
    ensures
        messages_of(after) == messages_of(before).push(message),
{
    assert(messages_of(after) =~= messages_of(before).push(message));
}

/// Environment creation is idempotent on the library side: two workers whose
/// capture stores carry the same message sequence carry it identically,
/// timestamps aside — nothing about an instance leaks into its messages.
pub proof fn lemma_identical_captures_identical_messages(
    logs1: Seq<LogEntry>,
    logs2: Seq<LogEntry>,
    messages: Seq<Seq<char>>,
)
    requires
        messages_of(logs1) == messages,
        messages_of(logs2) == messages,
    ensures
        messages_of(logs1) == messages_of(logs2),
{
}

} // verus!
