//! The structured representation of one captured RTP packet.

use super::ip_text::{push_ipv4, push_ipv6};
#[allow(unused_imports)]
use super::ip_text::{ipv4_text, ipv6_text};
use super::timestamp::Timestamp;
use crate::capture::bytes::{read_be16, read_be32};
#[allow(unused_imports)]
use crate::capture::bytes::{be16, be32, numbers_give_their_bytes_back};
#[allow(unused_imports)]
use crate::capture::frame::{frame, frame_slices_the_capture};
#[allow(unused_imports)]
use crate::capture::protocol::{kept_as_rtp, protocol_of, Protocol};
use vstd::prelude::*;
use vstd::slice::slice_subrange;

verus! {

/// All fields captured from a single RTP/UDP/IP frame, in the order of the CSV
/// columns.
#[derive(Clone, Debug)]
pub struct RtpRecord {
    /// Wall-clock time of the capture, nanoseconds since the UNIX epoch.
    pub arrival_epoch_ns: u64,
    /// Dotted-decimal IPv4 or colon-hex IPv6.
    pub src_ip: String,
    pub dst_ip: String,
    /// Always 17 (UDP) for records produced here.
    pub ip_proto: u8,
    /// Total IP packet length (header + payload).
    pub ip_len: u16,
    pub src_port: u16,
    pub dst_port: u16,
    /// UDP length field (header + payload).
    pub udp_len: u16,
    /// RTP synchronisation source identifier.
    pub ssrc: u32,
    /// RTP media clock timestamp.
    pub rtp_timestamp: u32,
    /// RTP sequence number.
    pub seq_num: u16,
    /// RTP payload type (lower 7 bits of the second byte).
    pub payload_type: u8,
    /// RTP marker bit (top bit of the second byte).
    pub marker: bool,
}

/// Mathematical model of an [`RtpRecord`].
#[verifier::ext_equal]
pub struct RecordModel {
    pub arrival_epoch_ns: u64,
    pub src_ip: Seq<char>,
    pub dst_ip: Seq<char>,
    pub ip_proto: u8,
    pub ip_len: u16,
    pub src_port: u16,
    pub dst_port: u16,
    pub udp_len: u16,
    pub ssrc: u32,
    pub rtp_timestamp: u32,
    pub seq_num: u16,
    pub payload_type: u8,
    pub marker: bool,
}

impl View for RtpRecord {
    type V = RecordModel;

    open spec fn view(&self) -> RecordModel {
        RecordModel {
            arrival_epoch_ns: self.arrival_epoch_ns,
            src_ip: self.src_ip@,
            dst_ip: self.dst_ip@,
            ip_proto: self.ip_proto,
            ip_len: self.ip_len,
            src_port: self.src_port,
            dst_port: self.dst_port,
            udp_len: self.udp_len,
            ssrc: self.ssrc,
            rtp_timestamp: self.rtp_timestamp,
            seq_num: self.seq_num,
            payload_type: self.payload_type,
            marker: self.marker,
        }
    }
}

/// Size of the fixed IP header.
pub open spec fn ip_header_len(is_ipv6: bool) -> int {
    if is_ipv6 {
        40
    } else {
        20
    }
}

/// The record of the RTP packet in the frame `data`, whose IP header starts at
/// `ip_start` and whose UDP payload starts at `payload`.
pub open spec fn record_of(
    data: Seq<u8>,
    is_ipv6: bool,
    ip_start: int,
    payload: int,
    ts: Timestamp,
) -> RecordModel {
    RecordModel {
        arrival_epoch_ns: (ts.nanos() % 0x1_0000_0000_0000_0000) as u64,
        src_ip: if is_ipv6 {
            ipv6_text(data.subrange(ip_start + 8, ip_start + 24))
        } else {
            ipv4_text(data.subrange(ip_start + 12, ip_start + 16))
        },
        dst_ip: if is_ipv6 {
            ipv6_text(data.subrange(ip_start + 24, ip_start + 40))
        } else {
            ipv4_text(data.subrange(ip_start + 16, ip_start + 20))
        },
        src_port: be16(data, payload - 8) as u16,
        dst_port: be16(data, payload - 6) as u16,
        ip_proto: 17,
        ip_len: if is_ipv6 {
            // the IPv6 length field does not count the fixed header
            ((be16(data, ip_start + 4) + 40) % 0x10000) as u16
        } else {
            be16(data, ip_start + 2) as u16
        },
        udp_len: be16(data, payload - 4) as u16,
        ssrc: be32(data, payload + 8) as u32,
        rtp_timestamp: be32(data, payload + 4) as u32,
        seq_num: be16(data, payload + 2) as u16,
        payload_type: (data[payload + 1] % 128) as u8,
        marker: data[payload + 1] >= 128,
    }
}

/// The text of an address.
fn address_text(ip: &[u8], is_ipv6: bool) -> (r: String)
    requires
        ip@.len() == if is_ipv6 { 16nat } else { 4nat },
    ensures
        r@ == if is_ipv6 { ipv6_text(ip@) } else { ipv4_text(ip@) },
{
    let mut text = String::new();
    if is_ipv6 {
        push_ipv6(&mut text, ip);
    } else {
        push_ipv4(&mut text, ip);
    }
    assert(text@ =~= if is_ipv6 { ipv6_text(ip@) } else { ipv4_text(ip@) });
    text
}

/// Extract the RTP, UDP and IP header fields of a frame.
///
/// Where an RTP header fits behind `udp_payload_offset`, a UDP header must
/// stand before it and an IP header of the given version must start at
/// `ip_start`; the offsets of a parsed frame meet this.
///
/// Returns `None` exactly if fewer than the 12 bytes of the fixed RTP header
/// were captured.
pub fn parse_rtp_record(
    data: &[u8],
    is_ipv6: bool,
    ip_start: usize,
    udp_payload_offset: usize,
    ts: Timestamp,
) -> (r: Option<RtpRecord>)
    requires
        udp_payload_offset + 12 <= data@.len() ==> {
            &&& 8 <= udp_payload_offset
            &&& ip_start + ip_header_len(is_ipv6) <= data@.len()
        },
    ensures
        match r {
            Some(record) => udp_payload_offset + 12 <= data@.len() && record@ == record_of(
                data@,
                is_ipv6,
                ip_start as int,
                udp_payload_offset as int,
                ts,
            ),
            None => udp_payload_offset + 12 > data@.len(),
        },
{
    if data.len() < 12 || udp_payload_offset > data.len() - 12 {
        return None;
    }
    let udp_header = udp_payload_offset - 8;
    let src_port = read_be16(data, udp_header);
    let dst_port = read_be16(data, udp_header + 2);
    let udp_len = read_be16(data, udp_header + 4);

    let (src_ip, dst_ip, ip_len) = if is_ipv6 {
        let payload_len = read_be16(data, ip_start + 4);
        (
            address_text(slice_subrange(data, ip_start + 8, ip_start + 24), true),
            address_text(slice_subrange(data, ip_start + 24, ip_start + 40), true),
            payload_len.wrapping_add(40),
        )
    } else {
        (
            address_text(slice_subrange(data, ip_start + 12, ip_start + 16), false),
            address_text(slice_subrange(data, ip_start + 16, ip_start + 20), false),
            read_be16(data, ip_start + 2),
        )
    };

    let second = data[udp_payload_offset + 1];
    let record = RtpRecord {
        arrival_epoch_ns: ts.epoch_ns(),
        src_ip,
        dst_ip,
        src_port,
        dst_port,
        ip_proto: 17,
        ip_len,
        udp_len,
        ssrc: read_be32(data, udp_payload_offset + 8),
        rtp_timestamp: read_be32(data, udp_payload_offset + 4),
        seq_num: read_be16(data, udp_payload_offset + 2),
        payload_type: second % 128,
        marker: second >= 128,
    };
    assert(record@ =~= record_of(
        data@,
        is_ipv6,
        ip_start as int,
        udp_payload_offset as int,
        ts,
    ));
    Some(record)
}

/// Every packet that is kept as RTP yields a record: its headers were captured
/// in full, and its payload holds a whole RTP header.
pub proof fn rtp_packets_have_records(data: Seq<u8>)
    ensures
        frame(data) matches Some(pkt) ==> protocol_of(pkt.udp_payload) == Protocol::Rtp ==> {
            &&& 8 <= pkt.udp_payload_offset
            &&& pkt.udp_payload_offset + 12 <= data.len()
            &&& pkt.ip_start + ip_header_len(pkt.is_ipv6) <= data.len()
        },
{
    frame_slices_the_capture(data);
    if let Some(pkt) = frame(data) {
        kept_as_rtp(pkt.udp_payload);
    }
}

/// A record gives the header bytes of its frame back: the ports and the length of
/// the UDP header, the fields of the RTP header, and the length of the IP packet.
pub proof fn records_give_their_headers_back(
    data: Seq<u8>,
    is_ipv6: bool,
    ip_start: int,
    payload: int,
    ts: Timestamp,
)
    ensures
        ({
            let r = record_of(data, is_ipv6, ip_start, payload, ts);
            &&& r.src_port / 256 == data[payload - 8] && r.src_port % 256 == data[payload - 7]
            &&& r.dst_port / 256 == data[payload - 6] && r.dst_port % 256 == data[payload - 5]
            &&& r.udp_len / 256 == data[payload - 4] && r.udp_len % 256 == data[payload - 3]
            &&& r.payload_type < 128
            &&& r.payload_type + (if r.marker {
                128int
            } else {
                0
            }) == data[payload + 1]
            &&& r.seq_num / 256 == data[payload + 2] && r.seq_num % 256 == data[payload + 3]
            &&& r.rtp_timestamp / 0x100_0000 == data[payload + 4]
            &&& r.rtp_timestamp / 0x1_0000 % 256 == data[payload + 5]
            &&& r.rtp_timestamp / 0x100 % 256 == data[payload + 6]
            &&& r.rtp_timestamp % 256 == data[payload + 7]
            &&& r.ssrc / 0x100_0000 == data[payload + 8]
            &&& r.ssrc / 0x1_0000 % 256 == data[payload + 9]
            &&& r.ssrc / 0x100 % 256 == data[payload + 10]
            &&& r.ssrc % 256 == data[payload + 11]
            &&& r.ip_proto == 17
            &&& !is_ipv6 ==> r.ip_len / 256 == data[ip_start + 2] && r.ip_len % 256
                == data[ip_start + 3]
            &&& is_ipv6 ==> r.ip_len == (data[ip_start + 4] * 256 + data[ip_start + 5] + 40)
                % 0x10000
        }),
{
    numbers_give_their_bytes_back(data, payload - 8);
    numbers_give_their_bytes_back(data, payload - 6);
    numbers_give_their_bytes_back(data, payload - 4);
    numbers_give_their_bytes_back(data, payload + 2);
    numbers_give_their_bytes_back(data, payload + 4);
    numbers_give_their_bytes_back(data, payload + 8);
    numbers_give_their_bytes_back(data, ip_start + 2);
}

/// The addresses of a record are the text of those of the frame, source first, and
/// its time is that of the capture, in nanoseconds.
pub proof fn records_name_both_ends(
    data: Seq<u8>,
    is_ipv6: bool,
    ip_start: int,
    payload: int,
    ts: Timestamp,
)
    requires
        0 <= ip_start,
        ip_start + (if is_ipv6 {
            40int
        } else {
            20
        }) <= data.len(),
    ensures
        ({
            let r = record_of(data, is_ipv6, ip_start, payload, ts);
            let (first, len) = if is_ipv6 {
                (ip_start + 8, 16int)
            } else {
                (ip_start + 12, 4int)
            };
            let src = Seq::new(len as nat, |i: int| data[first + i]);
            let dst = Seq::new(len as nat, |i: int| data[first + len + i]);
            &&& r.src_ip == if is_ipv6 {
                ipv6_text(src)
            } else {
                ipv4_text(src)
            }
            &&& r.dst_ip == if is_ipv6 {
                ipv6_text(dst)
            } else {
                ipv4_text(dst)
            }
            &&& ts.secs < 18_000_000_000 ==> r.arrival_epoch_ns == ts.secs * 1_000_000_000
                + ts.subsec_nanos
        }),
{
    let (first, len) = if is_ipv6 {
        (ip_start + 8, 16int)
    } else {
        (ip_start + 12, 4int)
    };
    assert(data.subrange(first, first + len) =~= Seq::new(
        len as nat,
        |i: int| data[first + i],
    ));
    assert(data.subrange(first + len, first + 2 * len) =~= Seq::new(
        len as nat,
        |i: int| data[first + len + i],
    ));
}

} // verus!
