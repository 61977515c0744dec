//! The Teams classification rule: source or destination in a Teams media range.

use super::ip_ranges::{is_microsoft_ipv4, is_microsoft_ipv6};
#[allow(unused_imports)]
use super::ip_ranges::{teams_ipv4, teams_ipv6};
use crate::capture::frame::ParsedPacket;
#[allow(unused_imports)]
use crate::capture::frame::FrameModel;
use vstd::prelude::*;

verus! {

/// Whether an address of the given version lies in a Teams media range.
pub open spec fn teams_address(is_ipv6: bool, ip: Seq<u8>) -> bool {
    if is_ipv6 {
        teams_ipv6(ip)
    } else {
        teams_ipv4(ip)
    }
}

/// Whether a packet is Teams media.
pub open spec fn teams_packet(pkt: FrameModel) -> bool {
    teams_address(pkt.is_ipv6, pkt.src_ip) || teams_address(pkt.is_ipv6, pkt.dst_ip)
}

/// Is this parsed packet Teams media?
pub fn is_teams(pkt: &ParsedPacket) -> (r: bool)
    ensures
        r == teams_packet(pkt@),
{
    if pkt.is_ipv6 {
        is_microsoft_ipv6(pkt.src_ip) || is_microsoft_ipv6(pkt.dst_ip)
    } else {
        is_microsoft_ipv4(pkt.src_ip) || is_microsoft_ipv4(pkt.dst_ip)
    }
}

/// A packet is Teams media whichever of its ends lies in the ranges.
pub proof fn either_end_makes_teams_media(pkt: FrameModel, back: FrameModel)
    requires
        back.is_ipv6 == pkt.is_ipv6,
        back.src_ip == pkt.dst_ip,
        back.dst_ip == pkt.src_ip,
    ensures
        teams_packet(back) == teams_packet(pkt),
        !pkt.is_ipv6 && (teams_ipv4(pkt.src_ip) || teams_ipv4(pkt.dst_ip)) ==> teams_packet(pkt),
        pkt.is_ipv6 && (teams_ipv6(pkt.src_ip) || teams_ipv6(pkt.dst_ip)) ==> teams_packet(pkt),
        !pkt.is_ipv6 && !teams_ipv4(pkt.src_ip) && !teams_ipv4(pkt.dst_ip) ==> !teams_packet(pkt),
        pkt.is_ipv6 && !teams_ipv6(pkt.src_ip) && !teams_ipv6(pkt.dst_ip) ==> !teams_packet(pkt),
{
}

} // verus!
