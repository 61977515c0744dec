//! The single-vendor filter: one pass over a raw frame that keeps Teams media.

use crate::capture::frame::{
    find_udp_header, unwrap_ethernet, ETHERTYPE_IPV4, ETHERTYPE_IPV6, PROTO_UDP,
};
#[allow(unused_imports)]
use crate::capture::frame::{frame, ipv4_frame, ipv6_frame};
#[allow(unused_imports)]
use crate::platforms::teams::classify::teams_packet;
use crate::platforms::teams::ip_ranges;
#[allow(unused_imports)]
use crate::platforms::teams::ip_ranges::{teams_ipv4, teams_ipv6};
use vstd::prelude::*;
use vstd::slice::slice_subrange;

verus! {

/// Whether an IPv4 address lies in a Teams media range.
pub fn is_microsoft_ipv4(ip: [u8; 4]) -> (r: bool)
    ensures
        r == teams_ipv4(ip@),
{
    ip_ranges::is_microsoft_ipv4(ip.as_slice())
}

/// Whether an IPv6 address (16 bytes) lies in a Teams media range.
pub fn is_microsoft_ipv6(ip: &[u8]) -> (r: bool)
    ensures
        r == teams_ipv6(ip@),
{
    ip_ranges::is_microsoft_ipv6(ip)
}

/// What passes: the Teams packets among the UDP-over-IP packets,
/// as IP version, offset of the IP header and offset of the UDP payload.
pub open spec fn precheck(data: Seq<u8>) -> Option<(bool, int, int)> {
    match frame(data) {
        Some(pkt) => if teams_packet(pkt) {
            Some((pkt.is_ipv6, pkt.ip_start, pkt.udp_payload_offset))
        } else {
            None
        },
        None => None,
    }
}

/// Filter a raw Ethernet frame:
/// 1. the ethertype is IPv4 or IPv6, behind at most one 802.1ad and one 802.1Q
///    tag,
/// 2. the transport protocol is UDP,
/// 3. source or destination lies in a Teams media range.
///
/// The addresses of an IPv6 packet are looked at before its extension headers
/// are walked.
pub fn quick_precheck(data: &[u8]) -> (r: Option<(bool, usize, usize)>)
    ensures
        match r {
            Some((is_ipv6, ip_start, udp_payload_offset)) => precheck(data@) == Some(
                (is_ipv6, ip_start as int, udp_payload_offset as int),
            ),
            None => precheck(data@) is None,
        },
{
    let (ethertype, ip_start) = match unwrap_ethernet(data) {
        Some(layer) => layer,
        None => {
            return None;
        },
    };

    if ethertype == ETHERTYPE_IPV4 {
        if data.len() < ip_start + 20 {
            return None;
        }
        if data[ip_start + 9] != PROTO_UDP {
            return None;
        }
        let header_len = (data[ip_start] % 16) as usize * 4;
        if header_len < 20 {
            return None;
        }
        let src = [
            data[ip_start + 12],
            data[ip_start + 13],
            data[ip_start + 14],
            data[ip_start + 15],
        ];
        let dst = [
            data[ip_start + 16],
            data[ip_start + 17],
            data[ip_start + 18],
            data[ip_start + 19],
        ];
        assert(src@ =~= data@.subrange(ip_start + 12, ip_start + 16));
        assert(dst@ =~= data@.subrange(ip_start + 16, ip_start + 20));
        if is_microsoft_ipv4(src) || is_microsoft_ipv4(dst) {
            return Some((false, ip_start, ip_start + header_len + 8));
        }
        return None;
    }
    if ethertype != ETHERTYPE_IPV6 {
        return None;
    }
    if data.len() < ip_start + 40 {
        return None;
    }
    let src = slice_subrange(data, ip_start + 8, ip_start + 24);
    let dst = slice_subrange(data, ip_start + 24, ip_start + 40);
    if !is_microsoft_ipv6(src) && !is_microsoft_ipv6(dst) {
        return None;
    }
    match find_udp_header(data, data[ip_start + 6], ip_start + 40) {
        Some(offset) => Some((true, ip_start, offset.saturating_add(8))),
        None => None,
    }
}

/// What passes of the untagged IPv4 frames, byte by byte: UDP with an end in
/// `52.112.0.0/14` or `52.122.0.0/15`.
pub proof fn ipv4_frames_pass_by_their_addresses(data: Seq<u8>)
    requires
        data.len() >= 34,
        data[12] == 0x08,
        data[13] == 0x00,
    ensures
        precheck(data) == if data[23] == 17 && data[14] % 16 >= 5 && {
            ||| data[26] == 52 && (112 <= data[27] <= 115 || 122 <= data[27] <= 123)
            ||| data[30] == 52 && (112 <= data[31] <= 115 || 122 <= data[31] <= 123)
        } {
            Some((false, 14int, 14 + 4 * (data[14] % 16) + 8))
        } else {
            None
        },
{
    crate::capture::frame::ipv4_frames_parse(data);
    if let Some(pkt) = frame(data) {
        ip_ranges::teams_ranges_by_their_bytes(pkt.src_ip);
        ip_ranges::teams_ranges_by_their_bytes(pkt.dst_ip);
    }
}

/// A frame passes exactly if it parses and one of its ends is in the Teams media
/// ranges, with the offsets of the parsed packet.
pub proof fn the_filter_agrees_with_the_classifier(data: Seq<u8>)
    ensures
        precheck(data) is Some <==> frame(data) is Some && {
            let pkt = frame(data)->Some_0;
            if pkt.is_ipv6 {
                teams_ipv6(pkt.src_ip) || teams_ipv6(pkt.dst_ip)
            } else {
                teams_ipv4(pkt.src_ip) || teams_ipv4(pkt.dst_ip)
            }
        },
        precheck(data) matches Some((is_ipv6, ip_start, offset)) ==> {
            let pkt = frame(data)->Some_0;
            is_ipv6 == pkt.is_ipv6 && ip_start == pkt.ip_start && offset == pkt.udp_payload_offset
        },
{
}

} // verus!
