//! Core of a single-process telemetry stream engine: batches of spans,
//! metrics and log records are queued, dispatched through trace correlation,
//! topology discovery and anomaly detection, persisted, and any alert is
//! broadcast to subscribers.
use vstd::prelude::*;

pub mod analytics;
pub mod config;
pub mod engine;
pub mod fanout;
pub mod host;
pub mod operators;
pub mod sinks;
pub mod telemetry;
pub mod text;

verus! {

/// Backpressure signal: the bounded ingestion queue is full and the caller
/// must retry or drop the batch.
#[derive(Debug, Clone, Copy, PartialEq, Eq, Structural)]
pub struct QueueFull;

} // verus!
