//! Packet models shared by the capture path and every platform.

pub mod ip_text;
pub mod rtp_record;
pub mod timestamp;

pub use rtp_record::{parse_rtp_record, RtpRecord};
pub use timestamp::Timestamp;
