//! The Google Meet classification rule: source or destination in a Google Meet
//! media range.

use super::ip_ranges::{is_google_ipv4, is_google_ipv6};
#[allow(unused_imports)]
use super::ip_ranges::{meet_ipv4, meet_ipv6};
use crate::capture::frame::ParsedPacket;
#[allow(unused_imports)]
use crate::capture::frame::FrameModel;
use vstd::prelude::*;

verus! {

/// Whether an address of the given version lies in a Google Meet media range.
pub open spec fn meet_address(is_ipv6: bool, ip: Seq<u8>) -> bool {
    if is_ipv6 {
        meet_ipv6(ip)
    } else {
        meet_ipv4(ip)
    }
}

/// Whether a packet is Google Meet media.
pub open spec fn meet_packet(pkt: FrameModel) -> bool {
    meet_address(pkt.is_ipv6, pkt.src_ip) || meet_address(pkt.is_ipv6, pkt.dst_ip)
}

/// Is this parsed packet Google Meet media?
pub fn is_google_meet(pkt: &ParsedPacket) -> (r: bool)
    ensures
        r == meet_packet(pkt@),
{
    if pkt.is_ipv6 {
        is_google_ipv6(pkt.src_ip) || is_google_ipv6(pkt.dst_ip)
    } else {
        is_google_ipv4(pkt.src_ip) || is_google_ipv4(pkt.dst_ip)
    }
}

/// A packet is Google Meet media whichever of its ends lies in the ranges.
pub proof fn either_end_makes_meet_media(pkt: FrameModel, back: FrameModel)
    requires
        back.is_ipv6 == pkt.is_ipv6,
        back.src_ip == pkt.dst_ip,
        back.dst_ip == pkt.src_ip,
    ensures
        meet_packet(back) == meet_packet(pkt),
        meet_packet(pkt) <==> if pkt.is_ipv6 {
            meet_ipv6(pkt.src_ip) || meet_ipv6(pkt.dst_ip)
        } else {
            meet_ipv4(pkt.src_ip) || meet_ipv4(pkt.dst_ip)
        },
{
}

} // verus!
