//! Parsing of a raw Ethernet frame down to the UDP payload.
//!
//! Understands Ethernet, 802.1Q / QinQ VLAN tags, IPv4, IPv6 (including the
//! extension-header chain) and UDP.  Nothing is copied: every slice of the
//! result borrows from the frame.

use super::bytes::read_be16;
#[allow(unused_imports)]
use super::bytes::be16;
use vstd::prelude::*;
use vstd::slice::slice_subrange;

verus! {

/// Ethertype of an outer 802.1ad (QinQ) tag.
pub const ETHERTYPE_QINQ: u16 = 0x88a8;

/// Ethertype of an 802.1Q tag.
pub const ETHERTYPE_VLAN: u16 = 0x8100;

/// Ethertype of IPv4.
pub const ETHERTYPE_IPV4: u16 = 0x0800;

/// Ethertype of IPv6.
pub const ETHERTYPE_IPV6: u16 = 0x86DD;

/// IP protocol number of UDP.
pub const PROTO_UDP: u8 = 17;

/// A parsed UDP-over-IP frame, ready for platform classification.
///
/// All slices borrow from the frame buffer (`raw`).
pub struct ParsedPacket<'a> {
    /// The full Ethernet frame.
    pub raw: &'a [u8],
    /// `true` for IPv6, `false` for IPv4.
    pub is_ipv6: bool,
    /// Byte offset of the IP header within `raw`.
    pub ip_start: usize,
    /// Byte offset of the first UDP payload byte.  Lies at or past the end of
    /// `raw` when the payload is empty or the frame was truncated.
    pub udp_payload_offset: usize,
    /// Source IP address bytes (4 for IPv4, 16 for IPv6).
    pub src_ip: &'a [u8],
    /// Destination IP address bytes (4 for IPv4, 16 for IPv6).
    pub dst_ip: &'a [u8],
    /// The UDP payload (empty if the frame was truncated).
    pub udp_payload: &'a [u8],
}

/// Mathematical model of a [`ParsedPacket`].
#[verifier::ext_equal]
pub struct FrameModel {
    pub raw: Seq<u8>,
    pub is_ipv6: bool,
    pub ip_start: int,
    pub udp_payload_offset: int,
    pub src_ip: Seq<u8>,
    pub dst_ip: Seq<u8>,
    pub udp_payload: Seq<u8>,
}

impl<'a> View for ParsedPacket<'a> {
    type V = FrameModel;

    open spec fn view(&self) -> FrameModel {
        FrameModel {
            raw: self.raw@,
            is_ipv6: self.is_ipv6,
            ip_start: self.ip_start as int,
            udp_payload_offset: self.udp_payload_offset as int,
            src_ip: self.src_ip@,
            dst_ip: self.dst_ip@,
            udp_payload: self.udp_payload@,
        }
    }
}

/// The ethertype of the network layer and the offset of its header, with at
/// most one 802.1ad and one 802.1Q tag unwrapped.
pub open spec fn network_layer(data: Seq<u8>) -> Option<(int, int)> {
    if data.len() < 14 {
        None
    } else if be16(data, 12) == ETHERTYPE_QINQ {
        if data.len() < 22 {
            None
        } else if be16(data, 16) == ETHERTYPE_VLAN {
            Some((be16(data, 20), 22))
        } else {
            Some((be16(data, 16), 18))
        }
    } else if be16(data, 12) == ETHERTYPE_VLAN {
        if data.len() < 18 {
            None
        } else {
            Some((be16(data, 16), 18))
        }
    } else {
        Some((be16(data, 12), 14))
    }
}

/// The length of the IPv6 extension header of type `next_hdr` at `offset`, if
/// it is one the walk steps over and enough of it was captured to tell.
pub open spec fn extension_len(data: Seq<u8>, next_hdr: u8, offset: int) -> Option<int> {
    if next_hdr == 0 || next_hdr == 60 || next_hdr == 43 {
        // Hop-by-Hop, Destination, Routing: 8-byte units, first unit not counted
        if offset + 2 <= data.len() {
            Some((data[offset + 1] + 1) * 8)
        } else {
            None
        }
    } else if next_hdr == 44 {
        // Fragment: fixed size
        if offset + 8 <= data.len() {
            Some(8)
        } else {
            None
        }
    } else if next_hdr == 51 {
        // Authentication: 4-byte units, first two not counted
        if offset + 2 <= data.len() {
            Some((data[offset + 1] + 2) * 4)
        } else {
            None
        }
    } else {
        None
    }
}

/// The offset of the UDP header reached from `offset` through the chain of
/// extension headers that starts with type `next_hdr`.
pub open spec fn udp_header(data: Seq<u8>, next_hdr: u8, offset: int) -> Option<int>
    decreases data.len() - offset,
{
    if next_hdr == PROTO_UDP {
        Some(offset)
    } else {
        match extension_len(data, next_hdr, offset) {
            Some(n) => if n > 0 && offset + n <= data.len() {
                udp_header(data, data[offset], offset + n)
            } else {
                None
            },
            None => None,
        }
    }
}

/// The offset just past an 8-byte UDP header at `offset`.  Offsets are machine
/// integers; no slice is long enough for the bound to be reached.
pub open spec fn past_udp_header(offset: int) -> int {
    if offset + 8 <= usize::MAX {
        offset + 8
    } else {
        usize::MAX as int
    }
}

/// What lies from `offset` to the end of the frame, nothing if `offset` is past
/// the end.
pub open spec fn rest_of(data: Seq<u8>, offset: int) -> Seq<u8> {
    if offset <= data.len() {
        data.skip(offset)
    } else {
        Seq::empty()
    }
}

/// The UDP-over-IPv4 packet whose IP header starts at `ip_start`.
pub open spec fn ipv4_frame(data: Seq<u8>, ip_start: int) -> Option<FrameModel> {
    let header_len = (data[ip_start] % 16) * 4;
    let payload = ip_start + header_len + 8;
    if data.len() < ip_start + 20 || data[ip_start + 9] != PROTO_UDP || header_len < 20 {
        None
    } else {
        Some(
            FrameModel {
                raw: data,
                is_ipv6: false,
                ip_start,
                udp_payload_offset: payload,
                src_ip: data.subrange(ip_start + 12, ip_start + 16),
                dst_ip: data.subrange(ip_start + 16, ip_start + 20),
                udp_payload: rest_of(data, payload),
            },
        )
    }
}

/// The UDP-over-IPv6 packet whose IP header starts at `ip_start`.
pub open spec fn ipv6_frame(data: Seq<u8>, ip_start: int) -> Option<FrameModel> {
    if data.len() < ip_start + 40 {
        None
    } else {
        match udp_header(data, data[ip_start + 6], ip_start + 40) {
            Some(offset) => {
                let payload = past_udp_header(offset);
                Some(
                    FrameModel {
                        raw: data,
                        is_ipv6: true,
                        ip_start,
                        udp_payload_offset: payload,
                        src_ip: data.subrange(ip_start + 8, ip_start + 24),
                        dst_ip: data.subrange(ip_start + 24, ip_start + 40),
                        udp_payload: rest_of(data, payload),
                    },
                )
            },
            None => None,
        }
    }
}

/// The UDP-over-IP packet that the Ethernet frame `data` carries, if any.
pub open spec fn frame(data: Seq<u8>) -> Option<FrameModel> {
    match network_layer(data) {
        Some((ethertype, ip_start)) => if ethertype == ETHERTYPE_IPV4 {
            ipv4_frame(data, ip_start)
        } else if ethertype == ETHERTYPE_IPV6 {
            ipv6_frame(data, ip_start)
        } else {
            None
        },
        None => None,
    }
}

/// The walk over extension headers only moves forward and stays in the frame.
proof fn lemma_udp_header_bounds(data: Seq<u8>, next_hdr: u8, offset: int)
    requires
        0 <= offset <= data.len(),
    ensures
        udp_header(data, next_hdr, offset) matches Some(end) ==> offset <= end <= data.len(),
    decreases data.len() - offset,
{
    if next_hdr != PROTO_UDP {
        if let Some(n) = extension_len(data, next_hdr, offset) {
            if n > 0 && offset + n <= data.len() {
                lemma_udp_header_bounds(data, data[offset], offset + n);
            }
        }
    }
}

/// A parsed packet is a set of views into its frame: the addresses have the
/// size of their IP version and lie inside the captured IP header, the UDP
/// header lies between the IP header and the payload, and the payload is
/// everything from the payload offset on (empty if that is past the end).
pub proof fn frame_slices_the_capture(data: Seq<u8>)
    ensures
        frame(data) matches Some(pkt) ==> {
            &&& pkt.raw == data
            &&& pkt.ip_start == 14 || pkt.ip_start == 18 || pkt.ip_start == 22
            &&& pkt.src_ip.len() == if pkt.is_ipv6 { 16nat } else { 4nat }
            &&& pkt.dst_ip.len() == pkt.src_ip.len()
            &&& pkt.src_ip + pkt.dst_ip == data.subrange(
                pkt.ip_start + if pkt.is_ipv6 { 8int } else { 12int },
                pkt.ip_start + if pkt.is_ipv6 { 40int } else { 20int },
            )
            &&& pkt.ip_start + (if pkt.is_ipv6 { 40int } else { 20int }) <= data.len()
            &&& pkt.ip_start + (if pkt.is_ipv6 { 48int } else { 28int }) <= pkt.udp_payload_offset
            &&& pkt.udp_payload == rest_of(data, pkt.udp_payload_offset)
        },
{
    if let Some((ethertype, ip_start)) = network_layer(data) {
        if ethertype == ETHERTYPE_IPV6 && data.len() >= ip_start + 40 {
            lemma_udp_header_bounds(data, data[ip_start + 6], ip_start + 40);
        }
        if let Some(pkt) = frame(data) {
            assert(pkt.src_ip + pkt.dst_ip =~= data.subrange(
                pkt.ip_start + if pkt.is_ipv6 { 8int } else { 12int },
                pkt.ip_start + if pkt.is_ipv6 { 40int } else { 20int },
            ));
        }
    }
}

/// Whether `tag` is one of the accepted stacks of VLAN tags: 802.1Q, 802.1ad, or
/// 802.1Q inside 802.1ad.
pub open spec fn is_vlan_tag(tag: Seq<u8>) -> bool {
    ||| tag.len() == 4 && be16(tag, 0) == ETHERTYPE_VLAN
    ||| tag.len() == 4 && be16(tag, 0) == ETHERTYPE_QINQ
    ||| tag.len() == 8 && be16(tag, 0) == ETHERTYPE_QINQ && be16(tag, 4) == ETHERTYPE_VLAN
}

/// The frame with VLAN tags put behind its hardware addresses.
pub open spec fn tagged(data: Seq<u8>, tag: Seq<u8>) -> Seq<u8> {
    data.take(12) + tag + data.skip(12)
}

/// A packet whose frame got `n` bytes longer in front of its ethertype.
pub open spec fn shifted(pkt: FrameModel, raw: Seq<u8>, n: int) -> FrameModel {
    FrameModel {
        raw,
        ip_start: pkt.ip_start + n,
        udp_payload_offset: pkt.udp_payload_offset + n,
        ..pkt
    }
}

/// The walk over extension headers takes the same steps in a tagged frame.
proof fn lemma_udp_header_shifts(data: Seq<u8>, t: Seq<u8>, n: int, next_hdr: u8, offset: int)
    requires
        0 <= n,
        t.len() == data.len() + n,
        forall|i: int| 12 <= i < data.len() ==> t[i + n] == #[trigger] data[i],
        12 <= offset <= data.len(),
    ensures
        udp_header(t, next_hdr, offset + n) == match udp_header(data, next_hdr, offset) {
            Some(end) => Some(end + n),
            None => None,
        },
    decreases data.len() - offset,
{
    if next_hdr != PROTO_UDP {
        if offset + 2 <= data.len() {
            assert(t[offset + n] == data[offset]);
            assert(t[offset + 1 + n] == data[offset + 1]);
        }
        assert(extension_len(t, next_hdr, offset + n) == extension_len(data, next_hdr, offset));
        if let Some(len) = extension_len(data, next_hdr, offset) {
            if len > 0 && offset + len <= data.len() {
                lemma_udp_header_shifts(data, t, n, data[offset], offset + len);
            }
        }
    }
}

/// VLAN tags only shift a packet: a tagged frame parses exactly if the frame
/// without the tags does, to the same packet, with its offsets larger by the
/// length of the tags.
pub proof fn vlan_tags_only_shift(data: Seq<u8>, tag: Seq<u8>)
    requires
        14 <= data.len() <= usize::MAX - 16,
        be16(data, 12) != ETHERTYPE_VLAN,
        be16(data, 12) != ETHERTYPE_QINQ,
        is_vlan_tag(tag),
    ensures
        frame(tagged(data, tag)) == match frame(data) {
            Some(pkt) => Some(shifted(pkt, tagged(data, tag), tag.len() as int)),
            None => None,
        },
{
    let t = tagged(data, tag);
    let n = tag.len() as int;
    assert forall|i: int| 12 <= i < data.len() implies t[i + n] == #[trigger] data[i] by {
        assert(data.skip(12)[i - 12] == data[i]);
    }
    assert(t[12] == tag[0] && t[13] == tag[1]);
    assert(t[12 + n] == data[12] && t[13 + n] == data[13]);
    if n == 8 {
        assert(t[16] == tag[4] && t[17] == tag[5]);
    }
    let ethertype = be16(data, 12);
    if data.len() < 34 {
        // too short for either IP header, tagged or not
        assert(frame(data) is None);
        assert(frame(t) is None);
    } else {
        assert(network_layer(t) == Some((ethertype, 14 + n)));
        assert(network_layer(data) == Some((ethertype, 14int)));
        if ethertype == ETHERTYPE_IPV4 {
            assert(t[14 + n] == data[14] && t[23 + n] == data[23]);
            lemma_slice_shifts(data, t, n, 26, 30);
            lemma_slice_shifts(data, t, n, 30, 34);
            let payload = 14 + (data[14] % 16) * 4 + 8;
            lemma_rest_shifts(data, t, n, payload);
        } else if ethertype == ETHERTYPE_IPV6 && data.len() >= 54 {
            assert(t[20 + n] == data[20]);
            lemma_slice_shifts(data, t, n, 22, 38);
            lemma_slice_shifts(data, t, n, 38, 54);
            lemma_udp_header_shifts(data, t, n, data[20], 54);
            lemma_udp_header_bounds(data, data[20], 54);
            if let Some(offset) = udp_header(data, data[20], 54) {
                lemma_rest_shifts(data, t, n, offset + 8);
            }
        }
    }
}

/// A stretch of a frame behind its hardware addresses is the same in the tagged
/// frame.
proof fn lemma_slice_shifts(data: Seq<u8>, t: Seq<u8>, n: int, from: int, to: int)
    requires
        0 <= n,
        t.len() == data.len() + n,
        forall|i: int| 12 <= i < data.len() ==> t[i + n] == #[trigger] data[i],
        12 <= from <= to <= data.len(),
    ensures
        t.subrange(from + n, to + n) == data.subrange(from, to),
{
    assert forall|i: int| 0 <= i < to - from implies t.subrange(from + n, to + n)[i]
        == data.subrange(from, to)[i] by {
        assert(t[from + i + n] == data[from + i]);
    }
    assert(t.subrange(from + n, to + n) =~= data.subrange(from, to));
}

/// The payload is the same in the tagged frame.
proof fn lemma_rest_shifts(data: Seq<u8>, t: Seq<u8>, n: int, offset: int)
    requires
        0 <= n,
        t.len() == data.len() + n,
        forall|i: int| 12 <= i < data.len() ==> t[i + n] == #[trigger] data[i],
        12 <= offset,
    ensures
        rest_of(t, offset + n) == rest_of(data, offset),
{
    if offset <= data.len() {
        lemma_slice_shifts(data, t, n, offset, data.len() as int);
        assert(t.skip(offset + n) =~= t.subrange(offset + n, data.len() + n));
        assert(data.skip(offset) =~= data.subrange(offset, data.len() as int));
    }
}

/// Unwrap the VLAN tags of a frame: the ethertype of its network layer and the
/// offset of the network-layer header.
pub fn unwrap_ethernet(data: &[u8]) -> (r: Option<(u16, usize)>)
    ensures
        match r {
            Some((ethertype, ip_start)) => network_layer(data@) == Some(
                (ethertype as int, ip_start as int),
            ),
            None => network_layer(data@) is None,
        },
        r matches Some((_, ip_start)) ==> 14 <= ip_start <= 22 && ip_start <= data@.len(),
{
    if data.len() < 14 {
        return None;
    }
    let outer = read_be16(data, 12);
    if outer == ETHERTYPE_QINQ {
        if data.len() < 22 {
            return None;
        }
        let inner = read_be16(data, 16);
        if inner == ETHERTYPE_VLAN {
            Some((read_be16(data, 20), 22))
        } else {
            Some((inner, 18))
        }
    } else if outer == ETHERTYPE_VLAN {
        if data.len() < 18 {
            return None;
        }
        Some((read_be16(data, 16), 18))
    } else {
        Some((outer, 14))
    }
}

/// The length of the IPv6 extension header of type `next_hdr` at `offset`.
fn read_extension_len(data: &[u8], next_hdr: u8, offset: usize) -> (r: Option<usize>)
    requires
        offset <= data@.len(),
    ensures
        match r {
            Some(n) => extension_len(data@, next_hdr, offset as int) == Some(n as int) && n > 0
                && offset < data@.len(),
            None => extension_len(data@, next_hdr, offset as int) is None,
        },
{
    let remaining = data.len() - offset;
    match next_hdr {
        0 | 60 | 43 => if remaining < 2 {
            None
        } else {
            Some((data[offset + 1] as usize + 1) * 8)
        },
        44 => if remaining < 8 {
            None
        } else {
            Some(8)
        },
        51 => if remaining < 2 {
            None
        } else {
            Some((data[offset + 1] as usize + 2) * 4)
        },
        _ => None,
    }
}

/// Walk the IPv6 extension headers from `start` until the UDP header is found.
pub fn find_udp_header(data: &[u8], first_hdr: u8, start: usize) -> (r: Option<usize>)
    requires
        start <= data@.len(),
    ensures
        match r {
            Some(offset) => udp_header(data@, first_hdr, start as int) == Some(offset as int)
                && offset <= data@.len(),
            None => udp_header(data@, first_hdr, start as int) is None,
        },
{
    let mut next_hdr = first_hdr;
    let mut offset = start;
    loop
        invariant
            offset <= data@.len(),
            udp_header(data@, next_hdr, offset as int) == udp_header(
                data@,
                first_hdr,
                start as int,
            ),
        decreases data@.len() - offset,
    {
        if next_hdr == PROTO_UDP {
            return Some(offset);
        }
        match read_extension_len(data, next_hdr, offset) {
            Some(n) => {
                if n > data.len() - offset {
                    return None;
                }
                next_hdr = data[offset];
                offset += n;
            },
            None => {
                return None;
            },
        }
    }
}

/// The bytes from `offset` to the end of the frame, empty if `offset` is past
/// the end.
fn payload_from(data: &[u8], offset: usize) -> (r: &[u8])
    ensures
        r@ == rest_of(data@, offset as int),
{
    let r = if offset <= data.len() {
        slice_subrange(data, offset, data.len())
    } else {
        slice_subrange(data, data.len(), data.len())
    };
    assert(r@ =~= rest_of(data@, offset as int));
    r
}

/// Parse a raw Ethernet frame.
///
/// Returns `None` exactly for frames that are not UDP over IPv4 or IPv6.
pub fn parse_frame(data: &[u8]) -> (r: Option<ParsedPacket<'_>>)
    ensures
        match r {
            Some(pkt) => frame(data@) == Some(pkt@),
            None => frame(data@) is None,
        },
{
    let (ethertype, ip_start) = match unwrap_ethernet(data) {
        Some(layer) => layer,
        None => {
            return None;
        },
    };

    if ethertype == ETHERTYPE_IPV4 {
        if data.len() < ip_start + 20 {
            return None;
        }
        if data[ip_start + 9] != PROTO_UDP {
            return None;
        }
        let header_len = (data[ip_start] % 16) as usize * 4;
        if header_len < 20 {
            return None;
        }
        let udp_payload_offset = ip_start + header_len + 8;
        return Some(
            ParsedPacket {
                raw: data,
                is_ipv6: false,
                ip_start,
                udp_payload_offset,
                src_ip: slice_subrange(data, ip_start + 12, ip_start + 16),
                dst_ip: slice_subrange(data, ip_start + 16, ip_start + 20),
                udp_payload: payload_from(data, udp_payload_offset),
            },
        );
    }
    if ethertype != ETHERTYPE_IPV6 {
        return None;
    }
    if data.len() < ip_start + 40 {
        return None;
    }
    match find_udp_header(data, data[ip_start + 6], ip_start + 40) {
        Some(offset) => {
            let udp_payload_offset = offset.saturating_add(8);
            Some(
                ParsedPacket {
                    raw: data,
                    is_ipv6: true,
                    ip_start,
                    udp_payload_offset,
                    src_ip: slice_subrange(data, ip_start + 8, ip_start + 24),
                    dst_ip: slice_subrange(data, ip_start + 24, ip_start + 40),
                    udp_payload: payload_from(data, udp_payload_offset),
                },
            )
        },
        None => None,
    }
}

/// The hardware header of an untagged IPv4 frame.
proof fn lemma_untagged_ipv4(data: Seq<u8>)
    requires
        data.len() >= 14,
        data[12] == 0x08,
        data[13] == 0x00,
    ensures
        network_layer(data) == Some((0x0800int, 14int)),
        frame(data) == ipv4_frame(data, 14),
{
}

/// Whether a slice holds the bytes of a frame from `from` on.
pub open spec fn is_slice(part: Seq<u8>, data: Seq<u8>, from: int, len: int) -> bool {
    &&& part.len() == len
    &&& forall|i: int| 0 <= i < len ==> #[trigger] part[i] == data[from + i]
}

/// An untagged IPv4 frame parses exactly if its IP header was captured, carries
/// UDP and is at least five words long, whatever its other header bytes are.  The
/// addresses are bytes 12 to 19 of the IP header, and the payload is all that was
/// captured behind the IP header and the 8 bytes of the UDP header.
pub proof fn ipv4_frames_parse(data: Seq<u8>)
    requires
        data.len() >= 14,
        data[12] == 0x08,
        data[13] == 0x00,
    ensures
        frame(data) is Some <==> data.len() >= 34 && data[23] == 17 && data[14] % 16 >= 5,
        frame(data) matches Some(pkt) ==> {
            let offset = 14 + 4 * (data[14] % 16) + 8;
            &&& pkt.raw == data
            &&& !pkt.is_ipv6
            &&& pkt.ip_start == 14
            &&& pkt.udp_payload_offset == offset
            &&& is_slice(pkt.src_ip, data, 26, 4)
            &&& is_slice(pkt.dst_ip, data, 30, 4)
            &&& is_slice(
                pkt.udp_payload,
                data,
                offset,
                if offset <= data.len() {
                    data.len() - offset
                } else {
                    0
                },
            )
        },
{
    lemma_untagged_ipv4(data);
}

/// An untagged IPv6 frame whose fixed header names UDP parses exactly if the
/// header was captured.  The addresses are bytes 8 to 39 of the header, and the
/// payload starts behind it and the UDP header.
pub proof fn ipv6_frames_parse(data: Seq<u8>)
    requires
        14 <= data.len() <= usize::MAX - 8,
        data[12] == 0x86,
        data[13] == 0xDD,
    ensures
        frame(data) is Some ==> data.len() >= 54,
        data.len() >= 54 && data[20] == 17 ==> {
            &&& frame(data) matches Some(pkt)
            &&& pkt.raw == data
            &&& pkt.is_ipv6
            &&& pkt.ip_start == 14
            &&& pkt.udp_payload_offset == 62
            &&& is_slice(pkt.src_ip, data, 22, 16)
            &&& is_slice(pkt.dst_ip, data, 38, 16)
            &&& is_slice(
                pkt.udp_payload,
                data,
                62,
                if 62 <= data.len() {
                    data.len() - 62
                } else {
                    0
                },
            )
        },
{
}

/// Whether `ext` is a whole IPv6 extension header of the given type: Hop-by-Hop,
/// Routing and Destination count their length in eights behind the first eight
/// bytes, Authentication in fours behind the first eight, and Fragment has eight.
pub open spec fn is_extension(kind: u8, ext: Seq<u8>) -> bool {
    &&& ext.len() >= 8
    &&& match kind {
        0 => ext.len() == 8 + 8 * ext[1],
        43 => ext.len() == 8 + 8 * ext[1],
        60 => ext.len() == 8 + 8 * ext[1],
        44 => ext.len() == 8,
        51 => ext.len() == 8 + 4 * ext[1],
        _ => false,
    }
}

/// An untagged IPv6 frame with an extension header put behind its fixed header.
/// The fixed header names the extension header.
pub open spec fn extended(data: Seq<u8>, kind: u8, ext: Seq<u8>) -> Seq<u8> {
    data.take(54).update(20, kind) + ext + data.skip(54)
}

/// The walk takes the same steps behind the point where bytes were put in.
proof fn lemma_walk_shifts(data: Seq<u8>, t: Seq<u8>, n: int, next_hdr: u8, offset: int)
    requires
        0 <= n,
        t.len() == data.len() + n,
        forall|i: int| 54 <= i < data.len() ==> t[i + n] == #[trigger] data[i],
        54 <= offset <= data.len(),
    ensures
        udp_header(t, next_hdr, offset + n) == match udp_header(data, next_hdr, offset) {
            Some(end) => Some(end + n),
            None => None,
        },
    decreases data.len() - offset,
{
    if next_hdr != PROTO_UDP {
        if offset + 2 <= data.len() {
            assert(t[offset + n] == data[offset]);
            assert(t[offset + 1 + n] == data[offset + 1]);
        }
        assert(extension_len(t, next_hdr, offset + n) == extension_len(data, next_hdr, offset));
        if let Some(len) = extension_len(data, next_hdr, offset) {
            if len > 0 && offset + len <= data.len() {
                lemma_walk_shifts(data, t, n, data[offset], offset + len);
            }
        }
    }
}

/// Extension headers only shift a packet: a frame with one more of them parses
/// exactly if the frame without it does, to the same packet, with its payload
/// offset larger by the length of the header.
pub proof fn extension_headers_only_shift(data: Seq<u8>, kind: u8, ext: Seq<u8>)
    requires
        54 <= data.len(),
        data.len() + ext.len() <= usize::MAX - 8,
        data[12] == 0x86,
        data[13] == 0xDD,
        is_extension(kind, ext),
        ext[0] == data[20],
    ensures
        frame(extended(data, kind, ext)) == match frame(data) {
            Some(pkt) => Some(
                FrameModel {
                    raw: extended(data, kind, ext),
                    udp_payload_offset: pkt.udp_payload_offset + ext.len(),
                    ..pkt
                },
            ),
            None => None,
        },
{
    let t = extended(data, kind, ext);
    let n = ext.len() as int;
    assert forall|i: int| 54 <= i < data.len() implies t[i + n] == #[trigger] data[i] by {
        assert(data.skip(54)[i - 54] == data[i]);
    }
    assert(t[12] == data[12] && t[13] == data[13] && t[20] == kind);
    assert(t[54] == ext[0] && t[55] == ext[1]);
    assert(extension_len(t, kind, 54) == Some(n));
    assert(udp_header(t, kind, 54) == udp_header(t, data[20], 54 + n));
    lemma_walk_shifts(data, t, n, data[20], 54);
    lemma_udp_header_bounds(data, data[20], 54);
    assert(t.subrange(22, 38) =~= data.subrange(22, 38));
    assert(t.subrange(38, 54) =~= data.subrange(38, 54));
    if let Some(end) = udp_header(data, data[20], 54) {
        if end + 8 <= data.len() {
            assert(t.skip(end + 8 + n) =~= data.skip(end + 8)) by {
                assert forall|i: int| 0 <= i < data.len() - (end + 8) implies #[trigger] t.skip(
                    end + 8 + n,
                )[i] == data.skip(end + 8)[i] by {
                    assert(t[end + 8 + i + n] == data[end + 8 + i]);
                }
            }
        }
    }
}

/// A chain of extension headers that does not reach UDP gives no packet: one that
/// names any other protocol, or whose header was not captured in full.
pub proof fn broken_header_chains_are_rejected(data: Seq<u8>)
    requires
        54 <= data.len(),
        data[12] == 0x86,
        data[13] == 0xDD,
        ({
            let kind = data[20];
            ||| kind != 17 && kind != 0 && kind != 43 && kind != 44 && kind != 51 && kind != 60
            ||| kind != 17 && data.len() < 62
            ||| (kind == 0 || kind == 43 || kind == 60) && data.len() < 54 + 8 + 8 * data[55]
            ||| kind == 51 && data.len() < 54 + 8 + 4 * data[55]
        }),
    ensures
        frame(data) is None,
{
}

/// What is no UDP over IP: short frames and other ethertypes, behind at most one
/// tag of each kind.
pub proof fn other_frames_are_rejected(data: Seq<u8>)
    requires
        ({
            ||| data.len() < 34
            ||| {
                &&& !(data[12] == 0x08 && data[13] == 0x00)
                &&& !(data[12] == 0x86 && data[13] == 0xDD)
                &&& !(data[12] == 0x81 && data[13] == 0x00)
                &&& !(data[12] == 0x88 && data[13] == 0xA8)
            }
            ||| {
                &&& data[12] == 0x81 && data[13] == 0x00
                &&& !(data[16] == 0x08 && data[17] == 0x00)
                &&& !(data[16] == 0x86 && data[17] == 0xDD)
            }
            ||| {
                &&& data[12] == 0x88 && data[13] == 0xA8
                &&& !(data[16] == 0x08 && data[17] == 0x00)
                &&& !(data[16] == 0x86 && data[17] == 0xDD)
                &&& !(data[16] == 0x81 && data[17] == 0x00)
            }
            ||| {
                &&& data[12] == 0x88 && data[13] == 0xA8
                &&& data[16] == 0x81 && data[17] == 0x00
                &&& !(data[20] == 0x08 && data[21] == 0x00)
                &&& !(data[20] == 0x86 && data[21] == 0xDD)
            }
        }),
    ensures
        frame(data) is None,
{
}

/// The accepted stacks of VLAN tags, byte by byte.
pub proof fn vlan_tags_by_their_bytes(tag: Seq<u8>)
    ensures
        is_vlan_tag(tag) <==> {
            ||| tag.len() == 4 && tag[0] == 0x81 && tag[1] == 0x00
            ||| tag.len() == 4 && tag[0] == 0x88 && tag[1] == 0xA8
            ||| tag.len() == 8 && tag[0] == 0x88 && tag[1] == 0xA8 && tag[4] == 0x81 && tag[5]
                == 0x00
        },
{
}

/// How the tags of a frame are unwrapped: at most one 802.1ad tag and one 802.1Q
/// tag, in this order, each four bytes long.
pub proof fn tags_are_unwrapped(data: Seq<u8>)
    ensures
        ({
            let vlan = |i: int| data[i] == 0x81 && data[i + 1] == 0x00;
            let qinq = data[12] == 0x88 && data[13] == 0xA8;
            let layer = |i: int| Some((data[i] * 256 + data[i + 1], i + 2));
            &&& data.len() < 14 ==> network_layer(data) is None
            &&& data.len() >= 14 && !qinq && !vlan(12) ==> network_layer(data) == layer(12)
            &&& data.len() >= 14 && vlan(12) ==> network_layer(data) == if data.len() < 18 {
                None
            } else {
                layer(16)
            }
            &&& data.len() >= 14 && qinq ==> network_layer(data) == if data.len() < 22 {
                None
            } else if vlan(16) {
                layer(20)
            } else {
                layer(16)
            }
        }),
{
}

/// How a chain of IPv6 headers is walked: UDP ends it, every extension header is
/// stepped over by its own length, and anything else, or a header that was not
/// captured in full, breaks it off.
pub proof fn walks_step_over_extension_headers(data: Seq<u8>, kind: u8, offset: int)
    requires
        0 <= offset <= data.len(),
    ensures
        ({
            let rest = data.len() - offset;
            let eights = 8 + 8 * data[offset + 1];
            let fours = 8 + 4 * data[offset + 1];
            &&& kind == 17 ==> udp_header(data, kind, offset) == Some(offset)
            &&& kind == 0 || kind == 43 || kind == 60 ==> udp_header(data, kind, offset) == if rest
                >= 2 && eights <= rest {
                udp_header(data, data[offset], offset + eights)
            } else {
                None
            }
            &&& kind == 44 ==> udp_header(data, kind, offset) == if rest >= 8 {
                udp_header(data, data[offset], offset + 8)
            } else {
                None
            }
            &&& kind == 51 ==> udp_header(data, kind, offset) == if rest >= 2 && fours <= rest {
                udp_header(data, data[offset], offset + fours)
            } else {
                None
            }
            &&& kind != 17 && kind != 0 && kind != 43 && kind != 60 && kind != 44 && kind != 51
                ==> udp_header(data, kind, offset) is None
        }),
{
}

} // verus!
