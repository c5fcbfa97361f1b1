//! A sandboxed script-execution worker: log capture with optional
//! streaming, console formatting, timer bookkeeping, CLI parsing, and the
//! wire codec for execution results.

pub mod bootstrap;
pub mod cli;
pub mod codec;
pub mod digits;
pub mod ops;
pub mod rfc3339;
pub mod worker;

pub use ops::LogEntry;
pub use worker::{ExecutionResult, VortexWorker};
