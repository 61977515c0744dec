//! Google Meet's media ranges.

#[allow(unused_imports)]
use crate::platforms::cidr::in_block;
use vstd::prelude::*;

verus! {

/// The Google Meet media IPv4 ranges: `74.125.250.0/24`, `74.125.247.128/32`
/// and `142.250.82.0/24`.
pub open spec fn meet_ipv4(ip: Seq<u8>) -> bool {
    &&& ip.len() >= 4
    &&& {
        ||| in_block(ip, seq![74, 125, 250], 24)
        ||| in_block(ip, seq![74, 125, 247, 128], 32)
        ||| in_block(ip, seq![142, 250, 82], 24)
    }
}

/// The address `2001:4860:4864:4:8000::`.
pub open spec fn meet_ipv6_host() -> Seq<u8> {
    seq![
        0x20,
        0x01,
        0x48,
        0x60,
        0x48,
        0x64,
        0x00,
        0x04,
        0x80,
        0x00,
        0x00,
        0x00,
        0x00,
        0x00,
        0x00,
        0x00,
    ]
}

/// The Google Meet media IPv6 ranges: `2001:4860:4864:5::/64`,
/// `2001:4860:4864:6::/64` and the single host `2001:4860:4864:4:8000::`.
pub open spec fn meet_ipv6(ip: Seq<u8>) -> bool {
    &&& ip.len() >= 16
    &&& {
        ||| in_block(ip, seq![0x20, 0x01, 0x48, 0x60, 0x48, 0x64, 0x00, 0x05], 64)
        ||| in_block(ip, seq![0x20, 0x01, 0x48, 0x60, 0x48, 0x64, 0x00, 0x06], 64)
        ||| ip == meet_ipv6_host()
    }
}

/// Whether an IPv4 address (4 bytes) lies in a Google Meet media range.
pub fn is_google_ipv4(ip: &[u8]) -> (r: bool)
    ensures
        r == meet_ipv4(ip@),
{
    if ip.len() < 4 {
        return false;
    }
    if ip[0] == 74 && ip[1] == 125 && ip[2] == 250 {
        return true;
    }
    if ip[0] == 74 && ip[1] == 125 && ip[2] == 247 && ip[3] == 128 {
        return true;
    }
    ip[0] == 142 && ip[1] == 250 && ip[2] == 82
}

/// Whether an IPv6 address (16 bytes) lies in a Google Meet media range.
pub fn is_google_ipv6(ip: &[u8]) -> (r: bool)
    ensures
        r == meet_ipv6(ip@),
{
    if ip.len() < 16 {
        return false;
    }
    if ip[0] != 0x20 || ip[1] != 0x01 || ip[2] != 0x48 || ip[3] != 0x60 || ip[4] != 0x48 || ip[5]
        != 0x64 || ip[6] != 0x00 {
        return false;
    }
    if ip[7] == 0x05 || ip[7] == 0x06 {
        return true;
    }
    if ip.len() != 16 || ip[7] != 0x04 || ip[8] != 0x80 {
        return false;
    }
    let mut i: usize = 9;
    while i < 16
        invariant
            9 <= i <= 16,
            ip@.len() == 16,
            ip@.take(9) == meet_ipv6_host().take(9),
            forall|j: int| 9 <= j < i ==> #[trigger] ip@[j] == 0,
            ip@[7] == 0x04,
        decreases 16 - i,
    {
        if ip[i] != 0 {
            assert(meet_ipv6_host()[i as int] == 0);
            return false;
        }
        i += 1;
    }
    assert(ip@ =~= meet_ipv6_host()) by {
        assert(forall|j: int| 0 <= j < 9 ==> ip@[j] == #[trigger] ip@.take(9)[j]);
        assert(forall|j: int|
            0 <= j < 9 ==> meet_ipv6_host()[j] == #[trigger] meet_ipv6_host().take(9)[j]);
    }
    true
}

/// The Google Meet media ranges, byte by byte.
pub proof fn meet_ranges_by_their_bytes(ip: Seq<u8>)
    ensures
        ip.len() < 4 ==> !meet_ipv4(ip),
        ip.len() == 4 ==> (meet_ipv4(ip) <==> {
            ||| ip[0] == 74 && ip[1] == 125 && ip[2] == 250
            ||| ip[0] == 74 && ip[1] == 125 && ip[2] == 247 && ip[3] == 128
            ||| ip[0] == 142 && ip[1] == 250 && ip[2] == 82
        }),
        ip.len() < 16 ==> !meet_ipv6(ip),
        ip.len() == 16 ==> (meet_ipv6(ip) <==> {
            &&& ip[0] == 0x20 && ip[1] == 0x01 && ip[2] == 0x48 && ip[3] == 0x60
            &&& ip[4] == 0x48 && ip[5] == 0x64 && ip[6] == 0
            &&& ip[7] == 5 || ip[7] == 6 || (ip[7] == 4 && ip[8] == 0x80 && forall|i: int|
                9 <= i < 16 ==> #[trigger] ip[i] == 0)
        }),
{
    let host = meet_ipv6_host();
    if ip.len() == 16 && ip != host {
        assert(!(ip =~= host));
    }
    if ip == host {
        assert forall|i: int| 9 <= i < 16 implies #[trigger] ip[i] == 0 by {
            assert(host[i] == 0);
        }
    }
}

} // verus!
