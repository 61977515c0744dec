//! Microsoft Teams' published UDP media ranges.

#[allow(unused_imports)]
use crate::platforms::cidr::in_block;
use vstd::prelude::*;

verus! {

/// The Teams media IPv4 ranges: `52.112.0.0/14` and `52.122.0.0/15`.
pub open spec fn teams_ipv4(ip: Seq<u8>) -> bool {
    &&& ip.len() >= 4
    &&& in_block(ip, seq![52, 112], 14) || in_block(ip, seq![52, 122], 15)
}

/// The Teams media IPv6 ranges: `2603:1063::/38`, `2603:1027::/48`,
/// `2603:1037::/48`, `2603:1047::/48`, `2603:1057::/48`, `2620:1ec:6::/48` and
/// `2620:1ec:40::/42`.
pub open spec fn teams_ipv6(ip: Seq<u8>) -> bool {
    &&& ip.len() >= 16
    &&& {
        ||| in_block(ip, seq![0x26, 0x03, 0x10, 0x63, 0x00], 38)
        ||| in_block(ip, seq![0x26, 0x03, 0x10, 0x27, 0x00, 0x00], 48)
        ||| in_block(ip, seq![0x26, 0x03, 0x10, 0x37, 0x00, 0x00], 48)
        ||| in_block(ip, seq![0x26, 0x03, 0x10, 0x47, 0x00, 0x00], 48)
        ||| in_block(ip, seq![0x26, 0x03, 0x10, 0x57, 0x00, 0x00], 48)
        ||| in_block(ip, seq![0x26, 0x20, 0x01, 0xec, 0x00, 0x06], 48)
        ||| in_block(ip, seq![0x26, 0x20, 0x01, 0xec, 0x00, 0x40], 42)
    }
}

/// A block of 38 bits, byte by byte.
proof fn lemma_block_38(ip: Seq<u8>, net: Seq<u8>)
    requires
        net.len() == 5,
    ensures
        in_block(ip, net, 38) <==> ip[0] == net[0] && ip[1] == net[1] && ip[2] == net[2] && ip[3]
            == net[3] && ip[4] as int / 4 == net[4] as int / 4,
{
}

/// A block of 42 bits, byte by byte.
proof fn lemma_block_42(ip: Seq<u8>, net: Seq<u8>)
    requires
        net.len() == 6,
    ensures
        in_block(ip, net, 42) <==> ip[0] == net[0] && ip[1] == net[1] && ip[2] == net[2] && ip[3]
            == net[3] && ip[4] == net[4] && ip[5] as int / 64 == net[5] as int / 64,
{
}

/// A block of 48 bits, byte by byte.
proof fn lemma_block_48(ip: Seq<u8>, net: Seq<u8>)
    requires
        net.len() == 6,
    ensures
        in_block(ip, net, 48) <==> ip[0] == net[0] && ip[1] == net[1] && ip[2] == net[2] && ip[3]
            == net[3] && ip[4] == net[4] && ip[5] == net[5],
{
}

/// The blocks of [`teams_ipv6`], byte by byte.
pub(crate) proof fn lemma_teams_ipv6(ip: Seq<u8>)
    ensures
        teams_ipv6(ip) <==> ip.len() >= 16 && ip[0] == 0x26 && {
            ||| ip[1] == 0x03 && ip[2] == 0x10 && ip[3] == 0x63 && ip[4] < 4
            ||| ip[1] == 0x03 && ip[2] == 0x10 && (ip[3] == 0x27 || ip[3] == 0x37 || ip[3] == 0x47
                || ip[3] == 0x57) && ip[4] == 0 && ip[5] == 0
            ||| ip[1] == 0x20 && ip[2] == 0x01 && ip[3] == 0xec && ip[4] == 0 && (ip[5] == 0x06
                || ip[5] as int / 64 == 1)
        },
{
    lemma_block_48(ip, seq![0x26, 0x03, 0x10, 0x27, 0x00, 0x00]);
    lemma_block_48(ip, seq![0x26, 0x03, 0x10, 0x37, 0x00, 0x00]);
    lemma_block_48(ip, seq![0x26, 0x03, 0x10, 0x47, 0x00, 0x00]);
    lemma_block_48(ip, seq![0x26, 0x03, 0x10, 0x57, 0x00, 0x00]);
    lemma_block_48(ip, seq![0x26, 0x20, 0x01, 0xec, 0x00, 0x06]);
    lemma_block_38(ip, seq![0x26, 0x03, 0x10, 0x63, 0x00]);
    lemma_block_42(ip, seq![0x26, 0x20, 0x01, 0xec, 0x00, 0x40]);
}

/// Whether an IPv4 address (4 bytes) lies in a Teams media range.
pub fn is_microsoft_ipv4(ip: &[u8]) -> (r: bool)
    ensures
        r == teams_ipv4(ip@),
{
    if ip.len() < 4 {
        return false;
    }
    let second = ip[1];
    ip[0] == 52 && ((112 <= second && second <= 115) || (122 <= second && second <= 123))
}

/// Whether an IPv6 address (16 bytes) lies in a Teams media range.
pub fn is_microsoft_ipv6(ip: &[u8]) -> (r: bool)
    ensures
        r == teams_ipv6(ip@),
{
    proof {
        lemma_teams_ipv6(ip@);
    }
    if ip.len() < 16 {
        return false;
    }
    if ip[0] == 0x26 && ip[1] == 0x03 && ip[2] == 0x10 {
        if ip[3] == 0x63 {
            return ip[4] < 4;
        }
        if ip[3] == 0x27 || ip[3] == 0x37 || ip[3] == 0x47 || ip[3] == 0x57 {
            return ip[4] == 0 && ip[5] == 0;
        }
    }
    if ip[0] == 0x26 && ip[1] == 0x20 && ip[2] == 0x01 && ip[3] == 0xec {
        return ip[4] == 0 && (ip[5] == 0x06 || ip[5] / 64 == 1);
    }
    false
}

/// The Teams media ranges, byte by byte.
pub proof fn teams_ranges_by_their_bytes(ip: Seq<u8>)
    ensures
        ip.len() == 4 ==> (teams_ipv4(ip) <==> ip[0] == 52 && (112 <= ip[1] <= 115 || 122 <= ip[1]
            <= 123)),
        ip.len() < 4 ==> !teams_ipv4(ip),
        ip.len() < 16 ==> !teams_ipv6(ip),
        ip.len() == 16 ==> (teams_ipv6(ip) <==> ip[0] == 0x26 && {
            ||| ip[1] == 0x03 && ip[2] == 0x10 && ip[3] == 0x63 && ip[4] <= 3
            ||| ip[1] == 0x03 && ip[2] == 0x10 && (ip[3] == 0x27 || ip[3] == 0x37 || ip[3] == 0x47
                || ip[3] == 0x57) && ip[4] == 0 && ip[5] == 0
            ||| ip[1] == 0x20 && ip[2] == 0x01 && ip[3] == 0xec && ip[4] == 0 && (ip[5] == 0x06
                || 0x40 <= ip[5] <= 0x7f)
        }),
{
    lemma_teams_ipv6(ip);
    assert(teams_ipv4(ip) <==> ip.len() >= 4 && ip[0] == 52 && (112 <= ip[1] <= 115 || 122 <= ip[1]
        <= 123));
}

} // verus!
