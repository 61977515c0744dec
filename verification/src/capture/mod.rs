//! Vendor-agnostic capture utilities: frame parsing and protocol
//! demultiplexing.  Nothing here knows any particular conferencing vendor.

pub mod bytes;
pub mod frame;
pub mod protocol;

pub use frame::{parse_frame, ParsedPacket};
pub use protocol::{classify_protocol, Protocol};
