//! Textual form of IP addresses: dotted-decimal IPv4 and canonical IPv6
//! (RFC 5952).

use crate::capture::bytes::read_be16;
#[allow(unused_imports)]
use crate::capture::bytes::be16;
use crate::text::{push_dec, push_hex};
#[allow(unused_imports)]
use crate::text::{dec, hex};
use vstd::prelude::*;
use vstd::slice::slice_subrange;

verus! {

/// The dotted-decimal form of a 4-byte address.
pub open spec fn ipv4_text(ip: Seq<u8>) -> Seq<char> {
    dec(ip[0] as nat) + "."@ + dec(ip[1] as nat) + "."@ + dec(ip[2] as nat) + "."@ + dec(
        ip[3] as nat,
    )
}

/// The `i`-th 16-bit segment of a 16-byte address.
pub open spec fn segment(ip: Seq<u8>, i: int) -> int {
    be16(ip, 2 * i)
}

/// The number of consecutive zero segments from the `i`-th on.
pub open spec fn zero_run(ip: Seq<u8>, i: int) -> int
    decreases 8 - i,
{
    if i >= 8 || segment(ip, i) != 0 {
        0
    } else {
        1 + zero_run(ip, i + 1)
    }
}

/// Where the longest run of zero segments starts, among the starts from `i`
/// on; the first of several equally long ones.
pub open spec fn longest_run(ip: Seq<u8>, i: int) -> int
    decreases 7 - i,
{
    if i >= 7 {
        7
    } else {
        let later = longest_run(ip, i + 1);
        if zero_run(ip, i) >= zero_run(ip, later) {
            i
        } else {
            later
        }
    }
}

/// Segments `from` to `to` in hexadecimal, separated by colons.
pub open spec fn segments_text(ip: Seq<u8>, from: int, to: int) -> Seq<char>
    decreases to - from,
{
    if from >= to {
        Seq::empty()
    } else if from + 1 == to {
        hex(segment(ip, from) as nat)
    } else {
        segments_text(ip, from, to - 1) + ":"@ + hex(segment(ip, to - 1) as nat)
    }
}

/// Whether a 16-byte address is an IPv4-mapped one (`::ffff:0:0/96`).
pub open spec fn ipv4_mapped(ip: Seq<u8>) -> bool {
    &&& forall|i: int| 0 <= i < 10 ==> #[trigger] ip[i] == 0
    &&& ip[10] == 255 && ip[11] == 255
}

/// The canonical form of a 16-byte address: lower-case hexadecimal segments,
/// the first longest run of two or more zero segments replaced by `::`, and
/// IPv4-mapped addresses with a dotted-decimal tail.
pub open spec fn ipv6_text(ip: Seq<u8>) -> Seq<char> {
    let start = longest_run(ip, 0);
    let len = zero_run(ip, start);
    if ipv4_mapped(ip) {
        "::ffff:"@ + ipv4_text(ip.skip(12))
    } else if len >= 2 {
        segments_text(ip, 0, start) + "::"@ + segments_text(ip, start + len, 8)
    } else {
        segments_text(ip, 0, 8)
    }
}

/// Append the dotted-decimal form of a 4-byte address.
pub fn push_ipv4(out: &mut String, ip: &[u8])
    requires
        ip@.len() == 4,
    ensures
        final(out)@ == old(out)@ + ipv4_text(ip@),
{
    let ghost start = out@;
    push_dec(out, ip[0] as u64);
    out.append(".");
    push_dec(out, ip[1] as u64);
    out.append(".");
    push_dec(out, ip[2] as u64);
    out.append(".");
    push_dec(out, ip[3] as u64);
    assert(out@ =~= start + ipv4_text(ip@));
}

fn zero_run_len(ip: &[u8], i: usize) -> (r: usize)
    requires
        ip@.len() == 16,
        i <= 8,
    ensures
        r == zero_run(ip@, i as int),
        i + r <= 8,
    decreases 8 - i,
{
    if i >= 8 || read_be16(ip, 2 * i) != 0 {
        0
    } else {
        1 + zero_run_len(ip, i + 1)
    }
}

fn longest_run_start(ip: &[u8]) -> (r: usize)
    requires
        ip@.len() == 16,
    ensures
        r == longest_run(ip@, 0),
        r <= 7,
{
    let mut best: usize = 7;
    let mut i: usize = 7;
    while i > 0
        invariant
            ip@.len() == 16,
            i <= 7,
            best <= 7,
            best == longest_run(ip@, i as int),
        decreases i,
    {
        i -= 1;
        if zero_run_len(ip, i) >= zero_run_len(ip, best) {
            best = i;
        }
    }
    best
}

fn push_segments(out: &mut String, ip: &[u8], from: usize, to: usize)
    requires
        ip@.len() == 16,
        to <= 8,
    ensures
        final(out)@ == old(out)@ + segments_text(ip@, from as int, to as int),
    decreases to,
{
    let ghost start = out@;
    if from < to {
        if from + 1 < to {
            push_segments(out, ip, from, to - 1);
            out.append(":");
        }
        push_hex(out, read_be16(ip, 2 * (to - 1)) as u64);
    }
    assert(out@ =~= start + segments_text(ip@, from as int, to as int));
}

fn is_ipv4_mapped(ip: &[u8]) -> (r: bool)
    requires
        ip@.len() == 16,
    ensures
        r == ipv4_mapped(ip@),
{
    let mut i: usize = 0;
    while i < 10
        invariant
            ip@.len() == 16,
            i <= 10,
            forall|j: int| 0 <= j < i ==> #[trigger] ip@[j] == 0,
        decreases 10 - i,
    {
        if ip[i] != 0 {
            return false;
        }
        i += 1;
    }
    ip[10] == 255 && ip[11] == 255
}

/// Append the canonical form of a 16-byte address.
pub fn push_ipv6(out: &mut String, ip: &[u8])
    requires
        ip@.len() == 16,
    ensures
        final(out)@ == old(out)@ + ipv6_text(ip@),
{
    let ghost before = out@;
    if is_ipv4_mapped(ip) {
        out.append("::ffff:");
        let tail = slice_subrange(ip, 12, 16);
        assert(tail@ =~= ip@.skip(12));
        push_ipv4(out, tail);
    } else {
        let start = longest_run_start(ip);
        let len = zero_run_len(ip, start);
        if len >= 2 {
            push_segments(out, ip, 0, start);
            out.append("::");
            push_segments(out, ip, start + len, 8);
        } else {
            push_segments(out, ip, 0, 8);
        }
    }
    assert(out@ =~= before + ipv6_text(ip@));
}

/// An IPv4 address is written as its four bytes in decimal, with dots between
/// them.
pub proof fn ipv4_text_is_dotted(ip: Seq<u8>)
    ensures
        ipv4_text(ip) == dec(ip[0] as nat).push('.') + dec(ip[1] as nat).push('.') + dec(
            ip[2] as nat,
        ).push('.') + dec(ip[3] as nat),
{
    reveal_strlit(".");
    assert(ipv4_text(ip) =~= dec(ip[0] as nat).push('.') + dec(ip[1] as nat).push('.') + dec(
        ip[2] as nat,
    ).push('.') + dec(ip[3] as nat));
}

/// A run of zero segments goes on as far as the bytes are zero.
proof fn lemma_zero_run(ip: Seq<u8>, i: int)
    requires
        0 <= i <= 8,
    ensures
        0 <= zero_run(ip, i) <= 8 - i,
        forall|k: int|
            2 * i <= k < 2 * (i + zero_run(ip, i)) ==> #[trigger] ip[k] == 0,
        i + zero_run(ip, i) < 8 ==> ip[2 * (i + zero_run(ip, i))] != 0 || ip[2 * (i + zero_run(
            ip,
            i,
        )) + 1] != 0,
    decreases 8 - i,
{
    if i < 8 && segment(ip, i) == 0 {
        assert(ip[2 * i] == 0 && ip[2 * i + 1] == 0);
        lemma_zero_run(ip, i + 1);
        assert forall|k: int| 2 * i <= k < 2 * (i + zero_run(ip, i)) implies #[trigger] ip[k] == 0 by {
            if k >= 2 * (i + 1) {
                assert(2 * (i + 1) <= k < 2 * (i + 1 + zero_run(ip, i + 1)));
            }
        }
    }
}

/// The chosen run is the first of the longest ones.
proof fn lemma_longest(ip: Seq<u8>, i: int)
    requires
        0 <= i <= 7,
    ensures
        i <= longest_run(ip, i) <= 7,
        forall|k: int| i <= k <= 7 ==> #[trigger] zero_run(ip, k) <= zero_run(ip, longest_run(ip, i)),
        forall|k: int|
            i <= k < longest_run(ip, i) ==> #[trigger] zero_run(ip, k) < zero_run(
                ip,
                longest_run(ip, i),
            ),
    decreases 7 - i,
{
    if i < 7 {
        lemma_longest(ip, i + 1);
    }
}

/// Which zeros an IPv6 address is shortened by: the run that starts at the chosen
/// segment consists of zero bytes and cannot be extended, no other run is longer,
/// and those before it are shorter.
pub proof fn the_first_longest_run_is_shortened(ip: Seq<u8>, k: int)
    requires
        0 <= k <= 7,
    ensures
        ({
            let start = longest_run(ip, 0);
            let len = zero_run(ip, start);
            &&& 0 <= start <= 7
            &&& 0 <= len <= 8 - start
            &&& forall|i: int| 2 * start <= i < 2 * (start + len) ==> #[trigger] ip[i] == 0
            &&& start + len < 8 ==> ip[2 * (start + len)] != 0 || ip[2 * (start + len) + 1] != 0
            &&& zero_run(ip, k) <= len
            &&& k < start ==> zero_run(ip, k) < len
            &&& (ip[2 * k] == 0 && ip[2 * k + 1] == 0) <==> zero_run(ip, k) >= 1
            &&& k < 7 && ip[2 * k] == 0 && ip[2 * k + 1] == 0 ==> zero_run(ip, k) == 1 + zero_run(
                ip,
                k + 1,
            )
        }),
{
    lemma_longest(ip, 0);
    lemma_zero_run(ip, longest_run(ip, 0));
    lemma_zero_run(ip, k);
    lemma_zero_run(ip, k + 1);
    assert(segment(ip, k) == 0 <==> ip[2 * k] == 0 && ip[2 * k + 1] == 0);
}

/// Segments are written in hexadecimal with colons between them, in order.
pub proof fn segments_are_written_in_order(ip: Seq<u8>, from: int, to: int)
    ensures
        from >= to ==> segments_text(ip, from, to) == Seq::<char>::empty(),
        from + 1 == to ==> segments_text(ip, from, to) == hex(
            (ip[2 * from] * 256 + ip[2 * from + 1]) as nat,
        ),
        from + 1 < to ==> segments_text(ip, from, to) == hex(
            (ip[2 * from] * 256 + ip[2 * from + 1]) as nat,
        ).push(':') + segments_text(ip, from + 1, to),
    decreases to - from,
{
    reveal_strlit(":");
    let first = hex((ip[2 * from] * 256 + ip[2 * from + 1]) as nat);
    if from + 2 == to {
        assert(segments_text(ip, from, from + 1) == first);
        assert(segments_text(ip, from, to) =~= first.push(':') + segments_text(ip, from + 1, to));
    } else if from + 2 < to {
        segments_are_written_in_order(ip, from, to - 1);
        assert(segments_text(ip, from, to) =~= first.push(':') + segments_text(ip, from + 1, to));
    }
}

/// How an IPv6 address is written: an IPv4-mapped one (ten zero bytes and two
/// bytes of ones) with a dotted tail; one with two or more zero segments in a row
/// with `::` in their place; and any other in full.
pub proof fn ipv6_text_is_canonical(ip: Seq<u8>)
    requires
        ip.len() == 16,
    ensures
        ({
            let mapped = ip.take(10) == Seq::new(10, |i: int| 0u8) && ip[10] == 0xff && ip[11]
                == 0xff;
            let start = longest_run(ip, 0);
            let len = zero_run(ip, start);
            &&& mapped ==> ipv6_text(ip) == seq![':', ':', 'f', 'f', 'f', 'f', ':'] + ipv4_text(
                seq![ip[12], ip[13], ip[14], ip[15]],
            )
            &&& !mapped && len >= 2 ==> ipv6_text(ip) == segments_text(ip, 0, start) + seq![
                ':',
                ':',
            ] + segments_text(ip, start + len, 8)
            &&& !mapped && len < 2 ==> ipv6_text(ip) == segments_text(ip, 0, 8)
        }),
{
    reveal_strlit("::ffff:");
    reveal_strlit("::");
    let zeros = Seq::new(10, |i: int| 0u8);
    if ipv4_mapped(ip) {
        assert(ip.take(10) =~= zeros);
        assert(ip.skip(12) =~= seq![ip[12], ip[13], ip[14], ip[15]]);
        assert("::ffff:"@ =~= seq![':', ':', 'f', 'f', 'f', 'f', ':']);
    } else {
        assert("::"@ =~= seq![':', ':']);
        if ip.take(10) == zeros {
            assert forall|i: int| 0 <= i < 10 implies #[trigger] ip[i] == 0 by {
                assert(ip.take(10)[i] == zeros[i]);
            }
        }
    }
}

} // verus!
