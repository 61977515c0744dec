//! RFC 7983 demultiplexing: which application protocol a UDP payload carries.
//!
//! Some byte ranges overlap, so the order of the checks matters:
//!   1. STUN / TURN Channel Data
//!   2. DTLS
//!   3. QUIC
//!   4. RTCP
//!   5. RTP
//!   6. unknown

use super::bytes::{read_be16, read_be32};
#[allow(unused_imports)]
use super::bytes::{be16, be32};
use vstd::prelude::*;

verus! {

/// The STUN magic cookie.
pub const STUN_MAGIC: u32 = 0x2112A442;

/// Application-layer protocol identified inside a UDP payload.
#[derive(Clone, Copy, Debug, PartialEq, Eq, Structural)]
pub enum Protocol {
    Unknown,
    Rtp,
    Rtcp,
    Stun,
    Dtls,
    Quic,
}

/// A STUN message (RFC 5389): full header, top two bits zero, magic cookie.
pub open spec fn native_stun(p: Seq<u8>) -> bool {
    &&& p.len() >= 20
    &&& p[0] < 64
    &&& be32(p, 4) == STUN_MAGIC
}

/// TURN Channel Data (RFC 8656): a channel number in `0x4000..=0x7FFF` and a
/// declared length within 3 bytes of the rest of the payload (padding).
pub open spec fn turn_channel_data(p: Seq<u8>) -> bool {
    &&& p.len() >= 4
    &&& 0x4000 <= be16(p, 0) <= 0x7FFF
    &&& -3 <= p.len() - 4 - be16(p, 2) <= 3
}

/// STUN or TURN Channel Data.
pub open spec fn stun(p: Seq<u8>) -> bool {
    native_stun(p) || turn_channel_data(p)
}

/// DTLS (RFC 6347, RFC 9147): content type 20 to 23, version 1.0, 1.2 or 1.3.
pub open spec fn dtls(p: Seq<u8>) -> bool {
    &&& p.len() >= 3
    &&& 20 <= p[0] <= 23
    &&& be16(p, 1) == 0xFEFF || be16(p, 1) == 0xFEFD || be16(p, 1) == 0xFEFC
}

/// The four version bytes of a QUIC long header are zero (version
/// negotiation), or each ends in the nibble `0xa` (a reserved version).
pub open spec fn quic_negotiation(p: Seq<u8>) -> bool {
    &&& p.len() >= 5
    &&& p[0] >= 128
    &&& be32(p, 1) == 0 || forall|i: int| 1 <= i < 5 ==> #[trigger] p[i] % 16 == 10
}

/// QUIC (RFC 9000): long header, short header or version negotiation.
pub open spec fn quic(p: Seq<u8>) -> bool {
    &&& p.len() >= 1
    &&& 192 <= p[0] || 64 <= p[0] <= 127 || quic_negotiation(p)
}

/// The two top bits of the first byte hold RTP version 2.
pub open spec fn rtp_version_2(p: Seq<u8>) -> bool {
    128 <= p[0] <= 191
}

/// RTCP (RFC 3550): version 2, packet type 200 to 207.
pub open spec fn rtcp(p: Seq<u8>) -> bool {
    &&& p.len() >= 2
    &&& rtp_version_2(p)
    &&& 200 <= p[1] <= 207
}

/// RTP (RFC 3550): version 2 and a full fixed header.
pub open spec fn rtp(p: Seq<u8>) -> bool {
    &&& p.len() >= 12
    &&& rtp_version_2(p)
}

/// The protocol of a UDP payload: the first of the checks that holds.
pub open spec fn protocol_of(p: Seq<u8>) -> Protocol {
    if stun(p) {
        Protocol::Stun
    } else if dtls(p) {
        Protocol::Dtls
    } else if quic(p) {
        Protocol::Quic
    } else if rtcp(p) {
        Protocol::Rtcp
    } else if rtp(p) {
        Protocol::Rtp
    } else {
        Protocol::Unknown
    }
}

/// STUN and TURN Channel Data.
pub fn is_stun(payload: &[u8]) -> (r: bool)
    ensures
        r == stun(payload@),
{
    if payload.len() < 4 {
        return false;
    }
    if payload.len() >= 20 && payload[0] < 64 && read_be32(payload, 4) == STUN_MAGIC {
        return true;
    }
    let channel = read_be16(payload, 0);
    if 0x4000 <= channel && channel <= 0x7FFF {
        let declared = read_be16(payload, 2) as usize;
        let remaining = payload.len() - 4;
        return declared <= remaining + 3 && remaining <= declared + 3;
    }
    false
}

/// DTLS.
pub fn is_dtls(payload: &[u8]) -> (r: bool)
    ensures
        r == dtls(payload@),
{
    if payload.len() < 3 {
        return false;
    }
    if payload[0] < 20 || 23 < payload[0] {
        return false;
    }
    let version = read_be16(payload, 1);
    version == 0xFEFF || version == 0xFEFD || version == 0xFEFC
}

/// QUIC.  Checked after STUN, so that TURN Channel Data is not taken for a
/// short header.
pub fn is_quic(payload: &[u8]) -> (r: bool)
    ensures
        r == quic(payload@),
{
    if payload.len() == 0 {
        return false;
    }
    let first = payload[0];
    if 192 <= first {
        return true;
    }
    if 64 <= first && first <= 127 {
        return true;
    }
    if payload.len() >= 5 && first >= 128 {
        if read_be32(payload, 1) == 0 {
            return true;
        }
        return payload[1] % 16 == 10 && payload[2] % 16 == 10 && payload[3] % 16 == 10
            && payload[4] % 16 == 10;
    }
    false
}

/// RTCP.
pub fn is_rtcp(payload: &[u8]) -> (r: bool)
    ensures
        r == rtcp(payload@),
{
    if payload.len() < 2 {
        return false;
    }
    payload[0] / 64 == 2 && 200 <= payload[1] && payload[1] <= 207
}

/// RTP.  The payload type is not looked at: RTCP is eliminated before.
pub fn is_rtp_payload(payload: &[u8]) -> (r: bool)
    ensures
        r == rtp(payload@),
{
    payload.len() >= 12 && payload[0] / 64 == 2
}

/// Identify the protocol of a UDP payload in RFC 7983 order.
pub fn classify_protocol(payload: &[u8]) -> (r: Protocol)
    ensures
        r == protocol_of(payload@),
{
    if payload.len() == 0 {
        return Protocol::Unknown;
    }
    if is_stun(payload) {
        return Protocol::Stun;
    }
    if is_dtls(payload) {
        return Protocol::Dtls;
    }
    if is_quic(payload) {
        return Protocol::Quic;
    }
    if is_rtcp(payload) {
        return Protocol::Rtcp;
    }
    if is_rtp_payload(payload) {
        return Protocol::Rtp;
    }
    Protocol::Unknown
}

/// TURN Channel Data is never taken for a QUIC short header, although every
/// channel number starts like one.
pub proof fn turn_channel_data_is_not_quic(p: Seq<u8>)
    requires
        turn_channel_data(p),
    ensures
        quic(p),
        protocol_of(p) == Protocol::Stun,
{
    assert(0x40 <= p[0] <= 0x7F);
}

/// What is kept as RTP: at least a full fixed header, version 2, a second byte
/// outside the RTCP range, and no QUIC version negotiation in bytes 1 to 4.
pub proof fn kept_as_rtp(p: Seq<u8>)
    ensures
        protocol_of(p) == Protocol::Rtp <==> {
            &&& p.len() >= 12
            &&& 128 <= p[0] <= 191
            &&& !(200 <= p[1] <= 207)
            &&& !quic_negotiation(p)
        },
{
    if p.len() >= 12 && 128 <= p[0] {
        assert(be16(p, 0) >= 0x8000);
    }
}

/// The first byte alone bounds the protocol: STUN and DTLS stay below 128,
/// RTP and RTCP lie in `128..=191`, and everything from 192 on is QUIC.
pub proof fn first_byte_bounds_protocol(p: Seq<u8>)
    requires
        p.len() > 0,
    ensures
        protocol_of(p) == Protocol::Stun ==> p[0] < 128,
        protocol_of(p) == Protocol::Dtls ==> 20 <= p[0] <= 23,
        protocol_of(p) == Protocol::Rtp || protocol_of(p) == Protocol::Rtcp ==> 128 <= p[0] <= 191,
        protocol_of(p) == Protocol::Quic ==> 64 <= p[0],
        192 <= p[0] ==> protocol_of(p) == Protocol::Quic,
{
    if p.len() >= 4 && 128 <= p[0] {
        assert(be16(p, 0) >= 0x8000);
    }
}

/// What tells each protocol apart, on the bytes themselves: the magic cookie of
/// STUN and the declared length of TURN Channel Data, the record header of DTLS,
/// the version field of QUIC, and the packet type of RTCP.
pub proof fn checks_by_their_bytes(p: Seq<u8>)
    ensures
        stun(p) <==> {
            ||| p.len() >= 20 && p[0] <= 63 && p[4] == 0x21 && p[5] == 0x12 && p[6] == 0xA4 && p[7]
                == 0x42
            ||| p.len() >= 4 && 64 <= p[0] <= 127 && p.len() <= p[2] * 256 + p[3] + 7 && p[2] * 256
                + p[3] <= p.len() - 1
        },
        dtls(p) <==> p.len() >= 3 && 20 <= p[0] <= 23 && p[1] == 0xFE && (p[2] == 0xFF || p[2]
            == 0xFD || p[2] == 0xFC),
        quic(p) <==> p.len() >= 1 && {
            ||| p[0] >= 192
            ||| 64 <= p[0] <= 127
            ||| p[0] >= 128 && p.len() >= 5 && p[1] == 0 && p[2] == 0 && p[3] == 0 && p[4] == 0
            ||| p[0] >= 128 && p.len() >= 5 && p[1] % 16 == 10 && p[2] % 16 == 10 && p[3] % 16 == 10
                && p[4] % 16 == 10
        },
        rtcp(p) <==> p.len() >= 2 && p[0] / 64 == 2 && 200 <= p[1] <= 207,
        rtp(p) <==> p.len() >= 12 && p[0] / 64 == 2,
{
    if p.len() >= 4 {
        assert(0x4000 <= be16(p, 0) <= 0x7FFF <==> 64 <= p[0] <= 127);
    }
    if p.len() >= 5 {
        assert(be32(p, 1) == 0 <==> p[1] == 0 && p[2] == 0 && p[3] == 0 && p[4] == 0);
        if p[1] % 16 == 10 && p[2] % 16 == 10 && p[3] % 16 == 10 && p[4] % 16 == 10 {
            assert forall|i: int| 1 <= i < 5 implies #[trigger] p[i] % 16 == 10 by {
                assert(i == 1 || i == 2 || i == 3 || i == 4);
            }
        }
        if forall|i: int| 1 <= i < 5 ==> #[trigger] p[i] % 16 == 10 {
            assert(p[1] % 16 == 10 && p[2] % 16 == 10 && p[3] % 16 == 10 && p[4] % 16 == 10);
        }
    }
    if p.len() >= 20 {
        lemma_magic(p[4], p[5], p[6], p[7]);
    }
}

/// The bytes of the STUN magic cookie.
proof fn lemma_magic(a: u8, b: u8, c: u8, d: u8)
    ensures
        (a * 256 + b) * 65536 + (c * 256 + d) == STUN_MAGIC <==> a == 0x21 && b == 0x12 && c == 0xA4
            && d == 0x42,
{
}

/// RTP is kept: a payload with a whole RTP header, version 2 and no RTCP packet
/// type is RTP, whatever padding, extension, contributing sources, marker and
/// payload type its first two bytes name.  Only bytes 1 to 4 that look like a
/// QUIC version negotiation make an exception.
pub proof fn rtp_by_its_bytes(p: Seq<u8>)
    requires
        p.len() >= 12,
        128 <= p[0] <= 191,
        p[1] < 200 || 207 < p[1],
        p[1] != 0 || p[2] != 0 || p[3] != 0 || p[4] != 0,
        p[1] % 16 != 10 || p[2] % 16 != 10 || p[3] % 16 != 10 || p[4] % 16 != 10,
    ensures
        protocol_of(p) == Protocol::Rtp,
{
    checks_by_their_bytes(p);
}

/// The protocol of a payload, by its first bytes and its length.
pub proof fn protocols_by_their_bytes(p: Seq<u8>)
    ensures
        ({
            let cookie = p.len() >= 20 && p[4] == 0x21 && p[5] == 0x12 && p[6] == 0xA4 && p[7]
                == 0x42;
            let fits = p.len() >= 4 && p.len() <= p[2] * 256 + p[3] + 7 && p[2] * 256 + p[3]
                <= p.len() - 1;
            let version = p.len() >= 5 && {
                ||| p[1] == 0 && p[2] == 0 && p[3] == 0 && p[4] == 0
                ||| p[1] % 16 == 10 && p[2] % 16 == 10 && p[3] % 16 == 10 && p[4] % 16 == 10
            };
            let handshake = p.len() >= 3 && 20 <= p[0] <= 23 && p[1] == 0xFE && (p[2] == 0xFF
                || p[2] == 0xFD || p[2] == 0xFC);
            let control = p.len() >= 2 && 200 <= p[1] <= 207;
            &&& p.len() == 0 ==> protocol_of(p) == Protocol::Unknown
            &&& p.len() > 0 && p[0] <= 63 ==> protocol_of(p) == if cookie {
                Protocol::Stun
            } else if handshake {
                Protocol::Dtls
            } else {
                Protocol::Unknown
            }
            &&& p.len() > 0 && 64 <= p[0] <= 127 ==> protocol_of(p) == if fits {
                Protocol::Stun
            } else {
                Protocol::Quic
            }
            &&& p.len() > 0 && 128 <= p[0] <= 191 ==> protocol_of(p) == if version {
                Protocol::Quic
            } else if control {
                Protocol::Rtcp
            } else if p.len() >= 12 {
                Protocol::Rtp
            } else {
                Protocol::Unknown
            }
            &&& p.len() > 0 && 192 <= p[0] ==> protocol_of(p) == Protocol::Quic
        }),
{
    checks_by_their_bytes(p);
}

/// What stands behind the first bytes of a media packet does not change its
/// protocol.
pub proof fn media_keeps_its_protocol(p: Seq<u8>, tail: Seq<u8>)
    requires
        p.len() >= 12,
        p[0] >= 128,
    ensures
        protocol_of(p + tail) == protocol_of(p),
{
    let q = p + tail;
    assert(q[0] == p[0] && q[1] == p[1] && q[2] == p[2] && q[3] == p[3] && q[4] == p[4]);
    protocols_by_their_bytes(p);
    protocols_by_their_bytes(q);
}

} // verus!
