//! The byte-level address ranges of the classifier and the textual ones of the
//! session layer agree.

#[allow(unused_imports)]
use super::client::{dec_value, is_digit, is_octet, label_end, microsoft_ip, second_label, unsigned_part};
#[allow(unused_imports)]
use super::network_metrics::{server_ip, NetworkModel};
#[allow(unused_imports)]
use crate::capture::frame::{frame, frame_slices_the_capture};
#[allow(unused_imports)]
use crate::models::ip_text::{
    ipv4_mapped, ipv4_text, ipv6_text, longest_run, segment, segments_text, zero_run,
};
#[allow(unused_imports)]
use crate::models::rtp_record::record_of;
#[allow(unused_imports)]
use crate::models::timestamp::Timestamp;
#[allow(unused_imports)]
use crate::platforms::cidr::in_block;
#[allow(unused_imports)]
use crate::platforms::teams::classify::teams_packet;
#[allow(unused_imports)]
use crate::platforms::teams::ip_ranges::{lemma_teams_ipv6, teams_ipv4, teams_ipv6};
#[allow(unused_imports)]
use crate::text::{dec, digit_char, has_prefix, hex};
use vstd::prelude::*;

verus! {

/// The decimal form of a byte, digit by digit.
proof fn lemma_dec_byte(n: nat)
    requires
        n < 256,
    ensures
        n < 10 ==> dec(n) == seq![digit_char(n)],
        10 <= n < 100 ==> dec(n) == seq![digit_char(n / 10), digit_char(n % 10)],
        100 <= n ==> dec(n) == seq![
            digit_char(n / 100),
            digit_char(n / 10 % 10),
            digit_char(n % 10),
        ],
        1 <= dec(n).len() <= 3,
        forall|i: int| 0 <= i < dec(n).len() ==> is_digit(#[trigger] dec(n)[i]),
        dec_value(dec(n)) == n,
{
    reveal_with_fuel(dec, 3);
    reveal_with_fuel(dec_value, 4);
    if n < 10 {
        assert(dec(n).drop_last() =~= Seq::empty());
    } else if n < 100 {
        assert(dec(n) =~= seq![digit_char(n / 10), digit_char(n % 10)]);
        assert(dec(n).drop_last() =~= seq![digit_char(n / 10)]);
        assert(dec(n).drop_last().drop_last() =~= Seq::empty());
    } else {
        assert(n / 10 / 10 == n / 100);
        assert(dec(n) =~= seq![digit_char(n / 100), digit_char(n / 10 % 10), digit_char(n % 10)]);
        assert(dec(n).drop_last() =~= seq![digit_char(n / 100), digit_char(n / 10 % 10)]);
        assert(dec(n).drop_last().drop_last() =~= seq![digit_char(n / 100)]);
        assert(dec(n).drop_last().drop_last().drop_last() =~= Seq::empty());
    }
}

/// What is known of the characters of a dotted-decimal address.
proof fn lemma_ipv4_chars(ip: Seq<u8>)
    requires
        ip.len() == 4,
    ensures
        ({
            let t = ipv4_text(ip);
            let a = dec(ip[0] as nat);
            let b = dec(ip[1] as nat);
            &&& t.len() >= a.len() + b.len() + 5
            &&& forall|j: int| 0 <= j < a.len() ==> t[j] == #[trigger] a[j]
            &&& t[a.len() as int] == '.'
            &&& forall|j: int| 0 <= j < b.len() ==> t[a.len() + 1 + j] == #[trigger] b[j]
            &&& t[(a.len() + 1 + b.len()) as int] == '.'
            &&& t.len() <= 15
            &&& forall|j: int| 0 <= j < t.len() ==> is_digit(#[trigger] t[j]) || t[j] == '.'
        }),
{
    reveal_strlit(".");
    lemma_dec_byte(ip[0] as nat);
    lemma_dec_byte(ip[1] as nat);
    lemma_dec_byte(ip[2] as nat);
    lemma_dec_byte(ip[3] as nat);
    let head = dec(ip[0] as nat) + "."@ + dec(ip[1] as nat) + "."@;
    let tail = dec(ip[2] as nat) + "."@ + dec(ip[3] as nat);
    assert(ipv4_text(ip) =~= head + tail);
}

/// Whether a text holds no dot.
spec fn dotless(s: Seq<char>) -> bool {
    forall|i: int| 0 <= i < s.len() ==> #[trigger] s[i] != '.'
}

/// Texts that are cut at their first dot are compared part by part.
proof fn lemma_first_part(a: Seq<char>, x: Seq<char>, b: Seq<char>, y: Seq<char>)
    requires
        dotless(a),
        dotless(b),
    ensures
        has_prefix(a.push('.') + x, b.push('.') + y) <==> a == b && has_prefix(x, y),
{
    let s = a.push('.') + x;
    let p = b.push('.') + y;
    if has_prefix(s, p) {
        assert forall|i: int| 0 <= i < p.len() implies s[i] == #[trigger] p[i] by {
            assert(s.take(p.len() as int)[i] == s[i]);
        }
        assert(p[b.len() as int] == '.');
        assert(s[a.len() as int] == '.');
        if a.len() < b.len() {
            assert(p[a.len() as int] == b[a.len() as int]);
        } else if b.len() < a.len() {
            assert(s[b.len() as int] == a[b.len() as int]);
        }
        assert(a.len() == b.len());
        assert forall|i: int| 0 <= i < a.len() implies a[i] == b[i] by {
            assert(s[i] == a[i] && p[i] == b[i]);
        }
        assert(a =~= b);
        assert forall|i: int| 0 <= i < y.len() implies x[i] == y[i] by {
            assert(p[a.len() + 1 + i] == y[i]);
            assert(s[a.len() + 1 + i] == x[i]);
        }
        assert(x.take(y.len() as int) =~= y);
    }
    if a == b && has_prefix(x, y) {
        assert(s.take(p.len() as int) =~= p) by {
            assert forall|i: int| 0 <= i < p.len() implies s[i] == #[trigger] p[i] by {
                if i > b.len() {
                    assert(x.take(y.len() as int)[i - b.len() - 1] == x[i - b.len() - 1]);
                }
            }
        }
    }
}

/// The parts of a dotted-decimal address.
proof fn lemma_ipv4_parts(ip: Seq<u8>)
    requires
        ip.len() == 4,
    ensures
        ({
            let a = dec(ip[0] as nat);
            let b = dec(ip[1] as nat);
            let rest = dec(ip[2] as nat) + "."@ + dec(ip[3] as nat);
            &&& dotless(a)
            &&& dotless(b)
            &&& ipv4_text(ip) == a.push('.') + (b.push('.') + rest)
        }),
{
    reveal_strlit(".");
    lemma_dec_byte(ip[0] as nat);
    lemma_dec_byte(ip[1] as nat);
    let a = dec(ip[0] as nat);
    let b = dec(ip[1] as nat);
    let rest = dec(ip[2] as nat) + "."@ + dec(ip[3] as nat);
    assert(ipv4_text(ip) =~= a.push('.') + (b.push('.') + rest));
}

/// A textual prefix of one byte stands for this byte.
proof fn lemma_first_byte(ip: Seq<u8>)
    requires
        ip.len() == 4,
    ensures
        has_prefix(ipv4_text(ip), "52."@) <==> ip[0] == 52,
{
    reveal_strlit("52.");
    lemma_dec_byte(52);
    lemma_dec_byte(ip[0] as nat);
    lemma_ipv4_parts(ip);
    let a = dec(ip[0] as nat);
    let b = dec(ip[1] as nat);
    let rest = dec(ip[2] as nat) + "."@ + dec(ip[3] as nat);
    assert("52."@ =~= dec(52).push('.') + Seq::<char>::empty());
    lemma_first_part(a, b.push('.') + rest, dec(52), Seq::empty());
    assert((b.push('.') + rest).take(0) =~= Seq::<char>::empty());
}

/// A textual prefix of two bytes stands for these two bytes.
proof fn lemma_two_bytes(ip: Seq<u8>, first: u8, second: u8)
    requires
        ip.len() == 4,
    ensures
        has_prefix(
            ipv4_text(ip),
            dec(first as nat).push('.') + dec(second as nat).push('.'),
        ) <==> ip[0] == first && ip[1] == second,
{
    lemma_dec_byte(first as nat);
    lemma_dec_byte(second as nat);
    lemma_dec_byte(ip[0] as nat);
    lemma_dec_byte(ip[1] as nat);
    lemma_ipv4_parts(ip);
    let a = dec(ip[0] as nat);
    let b = dec(ip[1] as nat);
    let rest = dec(ip[2] as nat) + "."@ + dec(ip[3] as nat);
    let p = dec(first as nat);
    let q = dec(second as nat);
    assert(q.push('.') + Seq::<char>::empty() =~= q.push('.'));
    lemma_first_part(a, b.push('.') + rest, p, q.push('.'));
    lemma_first_part(b, rest, q, Seq::empty());
    assert(rest.take(0) =~= Seq::<char>::empty());
}

/// A dotted-decimal address starts with no prefix that has a colon behind four
/// characters.
proof fn lemma_no_colon(ip: Seq<u8>, prefix: Seq<char>)
    requires
        ip.len() == 4,
        prefix.len() > 4,
        prefix[4] == ':',
    ensures
        !has_prefix(ipv4_text(ip), prefix),
{
    lemma_ipv4_chars(ip);
    let t = ipv4_text(ip);
    if has_prefix(t, prefix) {
        assert(t.take(prefix.len() as int)[4] == t[4]);
    }
}

/// No textual IPv6 prefix fits a dotted-decimal address.
proof fn lemma_not_ipv6(ip: Seq<u8>)
    requires
        ip.len() == 4,
    ensures
        !has_prefix(ipv4_text(ip), "2603:1010"@),
        !has_prefix(ipv4_text(ip), "2603:1027"@),
        !has_prefix(ipv4_text(ip), "2603:1037"@),
        !has_prefix(ipv4_text(ip), "2603:1047"@),
        !has_prefix(ipv4_text(ip), "2603:1057"@),
        !has_prefix(ipv4_text(ip), "2620:1ec"@),
{
    reveal_strlit("2603:1010");
    reveal_strlit("2603:1027");
    reveal_strlit("2603:1037");
    reveal_strlit("2603:1047");
    reveal_strlit("2603:1057");
    reveal_strlit("2620:1ec");
    lemma_no_colon(ip, "2603:1010"@);
    lemma_no_colon(ip, "2603:1027"@);
    lemma_no_colon(ip, "2603:1037"@);
    lemma_no_colon(ip, "2603:1047"@);
    lemma_no_colon(ip, "2603:1057"@);
    lemma_no_colon(ip, "2620:1ec"@);
}

/// The part of an address behind `52.` is the text of the second byte.
proof fn lemma_second_label(ip: Seq<u8>)
    requires
        ip.len() == 4,
        ip[0] == 52,
    ensures
        second_label(ipv4_text(ip)) == dec(ip[1] as nat),
{
    reveal_with_fuel(label_end, 4);
    lemma_dec_byte(52);
    lemma_dec_byte(ip[1] as nat);
    lemma_ipv4_chars(ip);
    let t = ipv4_text(ip);
    let b = dec(ip[1] as nat);
    assert(t[3] == b[0]);
    if b.len() > 1 {
        assert(t[4] == b[1]);
    }
    if b.len() > 2 {
        assert(t[5] == b[2]);
    }
    assert(label_end(t, 3) == 3 + b.len());
    assert(second_label(t) =~= b);
}

/// For IPv4 the two layers agree: the classifier's ranges, the server prefixes
/// of the metrics and the client rule of the sessions pick the same addresses.
pub proof fn ipv4_ranges_agree(ip: Seq<u8>)
    requires
        ip.len() == 4,
    ensures
        server_ip(ipv4_text(ip)) == teams_ipv4(ip),
        microsoft_ip(ipv4_text(ip)) == teams_ipv4(ip),
{
    let t = ipv4_text(ip);
    lemma_not_ipv6(ip);
    assert(teams_ipv4(ip) <==> ip[0] == 52 && (112 <= ip[1] <= 115 || 122 <= ip[1] <= 123));
    assert(server_ip(t) == teams_ipv4(ip)) by {
        lemma_dec_byte(52);
        lemma_dec_byte(112);
        lemma_dec_byte(113);
        lemma_dec_byte(114);
        lemma_dec_byte(115);
        lemma_dec_byte(122);
        lemma_dec_byte(123);
        reveal_strlit("52.112.");
        reveal_strlit("52.113.");
        reveal_strlit("52.114.");
        reveal_strlit("52.115.");
        reveal_strlit("52.122.");
        reveal_strlit("52.123.");
        assert("52.112."@ =~= dec(52).push('.') + dec(112).push('.'));
        assert("52.113."@ =~= dec(52).push('.') + dec(113).push('.'));
        assert("52.114."@ =~= dec(52).push('.') + dec(114).push('.'));
        assert("52.115."@ =~= dec(52).push('.') + dec(115).push('.'));
        assert("52.122."@ =~= dec(52).push('.') + dec(122).push('.'));
        assert("52.123."@ =~= dec(52).push('.') + dec(123).push('.'));
        lemma_two_bytes(ip, 52, 112);
        lemma_two_bytes(ip, 52, 113);
        lemma_two_bytes(ip, 52, 114);
        lemma_two_bytes(ip, 52, 115);
        lemma_two_bytes(ip, 52, 122);
        lemma_two_bytes(ip, 52, 123);
    }
    lemma_first_byte(ip);
    if ip[0] == 52 {
        lemma_second_label(ip);
        lemma_dec_byte(ip[1] as nat);
        let b = dec(ip[1] as nat);
        assert(is_digit(b[0]));
        assert(unsigned_part(b) == b);
        assert(is_octet(b));
    }
}

/// The longest run of zero segments starts nowhere before the search does.
proof fn lemma_longest_run(ip: Seq<u8>, i: int)
    requires
        0 <= i <= 7,
    ensures
        i <= longest_run(ip, i) <= 7,
    decreases 7 - i,
{
    if i < 7 {
        lemma_longest_run(ip, i + 1);
    }
}

/// The text of the first segments starts with the first two.
proof fn lemma_segments_prefix(ip: Seq<u8>, to: int)
    requires
        2 <= to,
    ensures
        has_prefix(
            segments_text(ip, 0, to),
            hex(segment(ip, 0) as nat) + ":"@ + hex(segment(ip, 1) as nat),
        ),
    decreases to,
{
    let prefix = hex(segment(ip, 0) as nat) + ":"@ + hex(segment(ip, 1) as nat);
    let t = segments_text(ip, 0, to);
    if to == 2 {
        assert(segments_text(ip, 0, 1) == hex(segment(ip, 0) as nat));
        assert(t.take(prefix.len() as int) =~= prefix);
    } else {
        lemma_segments_prefix(ip, to - 1);
        let before = segments_text(ip, 0, to - 1);
        assert(t.take(prefix.len() as int) =~= before.take(prefix.len() as int));
    }
}

/// An address whose first two segments are not zero starts with their text.
proof fn lemma_ipv6_prefix(ip: Seq<u8>)
    requires
        ip.len() == 16,
        ip[0] != 0,
        segment(ip, 0) != 0,
        segment(ip, 1) != 0,
    ensures
        has_prefix(
            ipv6_text(ip),
            hex(segment(ip, 0) as nat) + ":"@ + hex(segment(ip, 1) as nat),
        ),
{
    let prefix = hex(segment(ip, 0) as nat) + ":"@ + hex(segment(ip, 1) as nat);
    let start = longest_run(ip, 0);
    let len = zero_run(ip, start);
    lemma_longest_run(ip, 0);
    assert(!ipv4_mapped(ip));
    assert(zero_run(ip, 0) == 0);
    assert(zero_run(ip, 1) == 0);
    if len >= 2 {
        lemma_segments_prefix(ip, start);
        let before = segments_text(ip, 0, start);
        assert(ipv6_text(ip).take(prefix.len() as int) =~= before.take(prefix.len() as int));
    } else {
        lemma_segments_prefix(ip, 8);
    }
}

/// The IPv6 media addresses of the classifier, `2603:1063::/38` aside, are
/// server addresses to the metrics and Microsoft's to the client rule.
pub proof fn ipv6_media_is_recognised(ip: Seq<u8>)
    requires
        ip.len() == 16,
        teams_ipv6(ip),
        !in_block(ip, seq![0x26, 0x03, 0x10, 0x63, 0x00], 38),
    ensures
        server_ip(ipv6_text(ip)),
        microsoft_ip(ipv6_text(ip)),
{
    lemma_teams_ipv6(ip);
    lemma_ipv6_prefix(ip);
    reveal_with_fuel(hex, 4);
    reveal_strlit(":");
    reveal_strlit("2603:1027");
    reveal_strlit("2603:1037");
    reveal_strlit("2603:1047");
    reveal_strlit("2603:1057");
    reveal_strlit("2620:1ec");
    let text = hex(segment(ip, 0) as nat) + ":"@ + hex(segment(ip, 1) as nat);
    if ip[1] == 0x03 && ip[3] == 0x27 {
        assert(text =~= "2603:1027"@);
    } else if ip[1] == 0x03 && ip[3] == 0x37 {
        assert(text =~= "2603:1037"@);
    } else if ip[1] == 0x03 && ip[3] == 0x47 {
        assert(text =~= "2603:1047"@);
    } else if ip[1] == 0x03 && ip[3] == 0x57 {
        assert(text =~= "2603:1057"@);
    } else if ip[1] == 0x20 {
        assert(text =~= "2620:1ec"@);
    }
}

/// Every packet that the classifier takes for Teams media is counted by the
/// metrics, as uplink or as downlink; IPv6 packets with an end in
/// `2603:1063::/38` are the exception.
pub proof fn teams_media_is_counted(data: Seq<u8>, ts: Timestamp, m: NetworkModel)
    requires
        frame(data) matches Some(pkt) && teams_packet(pkt) && (pkt.is_ipv6 ==> !in_block(
            pkt.src_ip,
            seq![0x26, 0x03, 0x10, 0x63, 0x00],
            38,
        ) && !in_block(pkt.dst_ip, seq![0x26, 0x03, 0x10, 0x63, 0x00], 38)),
    ensures
        ({
            let pkt = frame(data)->Some_0;
            let r = record_of(data, pkt.is_ipv6, pkt.ip_start, pkt.udp_payload_offset, ts);
            let after = m.after(r).counts;
            &&& server_ip(r.src_ip) || server_ip(r.dst_ip)
            &&& after.uplink_packets == m.counts.uplink_packets.wrapping_add(1)
                || after.downlink_packets == m.counts.downlink_packets.wrapping_add(1)
        }),
{
    let pkt = frame(data)->Some_0;
    frame_slices_the_capture(data);
    if pkt.is_ipv6 {
        if teams_ipv6(pkt.src_ip) {
            ipv6_media_is_recognised(pkt.src_ip);
        }
        if teams_ipv6(pkt.dst_ip) {
            ipv6_media_is_recognised(pkt.dst_ip);
        }
    } else {
        ipv4_ranges_agree(pkt.src_ip);
        ipv4_ranges_agree(pkt.dst_ip);
    }
}

} // verus!
