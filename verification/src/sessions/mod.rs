//! Per-client quality-of-experience sessions.
//!
//! Records arrive in batches.  Each is folded into the session of its client,
//! which counts in bins of five seconds.  When a bin ends, the session reports
//! what it has counted, and the report becomes a line for InfluxDB.

pub mod addresses;
pub mod client;
pub mod engine;
pub mod identity;
pub mod influx;
pub mod media_metrics;
pub mod network_metrics;
pub mod state;

pub use crate::channels::record::{Batch, BATCH_SIZE};
pub use engine::{push_batch, push_shutdown_batch, SessionEngine};
