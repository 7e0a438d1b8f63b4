//! An embedded background job engine.
//!
//! Jobs live in an append-only log. The modules of this library hold the state that is
//! rebuilt from that log, the rules by which jobs are queued, dispatched, retried,
//! rescheduled and buried, and the text that the dashboard serves.

pub mod clock;
pub mod dashboard;
pub mod dependencies;
pub mod draws;
pub mod execution;
pub mod file_store;
pub mod http;
pub mod json;
pub mod lines;
pub mod payloads;
pub mod pools;
pub mod priority;
pub mod progress;
pub mod queue;
pub mod queue_laws;
pub mod rate_limiter;
pub mod runs;
pub mod schedule;
pub mod sharded_queue;
pub mod table;
pub mod task;
pub mod text;
pub mod time;
