//! Sinks that decouple the capture cores from disk and the session layer.
//! Every platform has its own.

pub mod csv;
pub mod dedup;
pub mod pcap;
pub mod queue;
pub mod record;

pub use pcap::{CapturedPacket, Message as PcapMessage, MAX_PACKET_SIZE};
pub use record::{Batch, RecordMessage, RecordStats, BATCH_SIZE};
