//! The capability bridge: the host-provided primitive operations reachable
//! from inside the sandbox (logging and wall-clock time), and the handle of
//! the optional log-streaming sidecar.

use vstd::prelude::*;
use vstd::string::StringExecFns;
use crate::codec::encode_log_entry;

verus! {

/// A single log entry captured from the sandbox's console methods.
#[derive(Debug, Clone)]
pub struct LogEntry {
    /// Milliseconds since the Unix epoch when the entry was captured.
    pub timestamp_ms: u64,
    /// The log message content.
    pub message: String,
}

/// Relies on std's `SystemTime::now` and `SystemTime::duration_since` with
/// the Unix epoch: the elapsed whole milliseconds since the epoch, or
/// nothing when the host clock reads before the epoch — `duration_since`
/// reports that case as its documented error, mapped to `None` here, so no
/// path panics. The reading depends on the clock, so nothing relates two
/// calls.
#[verifier::external_body]
fn system_unix_millis() -> Option<u128> {
    match std::time::SystemTime::now().duration_since(std::time::UNIX_EPOCH) {
        Ok(d) => Some(d.as_millis()),
        Err(_) => None,
    }
}

/// A raw clock reading brought into the millisecond scale: a clock before
/// the epoch reads as zero, and a reading beyond the scale saturates.
pub fn clamp_epoch_ms(raw: Option<u128>) -> (r: u64)
    ensures
        r == match raw {
            None => 0u64,
            Some(ms) => if ms > u64::MAX as u128 {
                u64::MAX
            } else {
                ms as u64
            },
        },
{
    match raw {
        None => 0,
        Some(ms) => {
            if ms > u64::MAX as u128 {
                u64::MAX
            } else {
                ms as u64
            }
        },
    }
}

/// The host clock, as milliseconds since the Unix epoch; the raw reading
/// passes through `clamp_epoch_ms`, so a clock before the epoch reads as
/// zero. Safe in every phase: it touches no per-run state, and no path
/// panics.
pub fn now_ms() -> u64 {
    clamp_epoch_ms(system_unix_millis())
}

impl LogEntry {
    /// A new entry carrying `message`, stamped with the current host time.
    pub fn new(message: String) -> (r: LogEntry)
        ensures
            r.message == message,
    {
        LogEntry { timestamp_ms: now_ms(), message }
    }
}

#[verifier::external_type_specification]
#[verifier::external_body]
#[verifier::reject_recursive_types(T)]
pub struct ExUnboundedSender<T>(tokio::sync::mpsc::UnboundedSender<T>);

/// Relies on tokio's `UnboundedSender::send`: it never blocks or waits (the
/// queue is unbounded), and it fails only when the receiving half is gone.
/// Whether it fails depends on the receiver, so nothing is promised of the
/// outcome.
#[verifier::external_body]
fn try_send_line(sender: &tokio::sync::mpsc::UnboundedSender<String>, line: String) -> bool {
    sender.send(line).is_ok()
}

/// The sending half of the log-streaming sidecar's outbound queue. The
/// receiving half is drained by a background task outside the execution
/// path.
pub struct RedisPublisher {
    /// Sender onto the sidecar's queue; enqueueing never blocks.
    pub sender: tokio::sync::mpsc::UnboundedSender<String>,
}

/// The logging capability: appends one entry, stamped with the current host
/// time and carrying exactly `message`, at the end of the store; earlier
/// entries stay untouched. When a streaming publisher is configured, a
/// serialized copy of the entry is also enqueued, fire-and-forget: a full or
/// closed queue, like an entry whose timestamp has no text form, is silently
/// ignored. The call never waits.
pub fn op_log(store: &mut Vec<LogEntry>, publisher: &Option<RedisPublisher>, message: String)
    ensures
        final(store)@.len() == old(store)@.len() + 1,
        final(store)@ == old(store)@.push(final(store)@.last()),
        final(store)@.last().message == message,
{
    let entry = LogEntry::new(message);
    if let Some(p) = publisher {
        match encode_log_entry(&entry) {
            Ok(line) => {
                try_send_line(&p.sender, line);
            },
            Err(_) => {},
        }
    }
    store.push(entry);
}

/// The streaming channel a worker publishes to: a fixed prefix, then the
/// invocation identifier.
pub fn channel_name(function_id: &str) -> (r: String)
    ensures
        r@ == "logs:"@ + function_id@,
{
    let mut out = String::from_str("logs:");
    out.append(function_id);
    out
}

} // verus!
