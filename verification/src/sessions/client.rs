//! Which end of a packet is the client.

use crate::models::rtp_record::RtpRecord;
#[allow(unused_imports)]
use crate::models::rtp_record::RecordModel;
#[allow(unused_imports)]
use super::network_metrics::{lemma_prefix_8, lemma_prefix_9};
use crate::text::{chars_of, starts_with};
#[allow(unused_imports)]
use crate::text::{dec, decimals_are_written_by_digits, has_prefix};
use vstd::prelude::*;

verus! {

/// Whether `c` is a decimal digit.
pub open spec fn is_digit(c: char) -> bool {
    48 <= c as int <= 57
}

/// The number that decimal digits stand for.
pub open spec fn dec_value(digits: Seq<char>) -> int
    decreases digits.len(),
{
    if digits.len() == 0 {
        0
    } else {
        dec_value(digits.drop_last()) * 10 + (digits.last() as int - 48)
    }
}

/// The text without a leading plus sign.
pub open spec fn unsigned_part(s: Seq<char>) -> Seq<char> {
    if s.len() > 0 && s[0] == '+' {
        s.skip(1)
    } else {
        s
    }
}

/// Whether the text stands for a number from 0 to 255: one or more digits, with
/// or without a plus sign before them.
pub open spec fn is_octet(s: Seq<char>) -> bool {
    let digits = unsigned_part(s);
    &&& digits.len() > 0
    &&& forall|i: int| 0 <= i < digits.len() ==> is_digit(#[trigger] digits[i])
    &&& dec_value(digits) <= 255
}

/// Where the part of a dotted address that holds position `i` ends.
pub open spec fn label_end(s: Seq<char>, i: int) -> int
    decreases s.len() - i,
{
    if i >= s.len() || s[i] == '.' {
        i
    } else {
        label_end(s, i + 1)
    }
}

/// The second part of a dotted address that starts with `52.`.
pub open spec fn second_label(ip: Seq<char>) -> Seq<char> {
    ip.subrange(3, label_end(ip, 3))
}

/// The addresses of Microsoft, in text form.
pub open spec fn microsoft_ip(ip: Seq<char>) -> bool {
    ||| has_prefix(ip, "52."@) && is_octet(second_label(ip)) && {
        let octet = dec_value(unsigned_part(second_label(ip)));
        112 <= octet <= 115 || 122 <= octet <= 123
    }
    ||| has_prefix(ip, "2603:1010"@)
    ||| has_prefix(ip, "2603:1027"@)
    ||| has_prefix(ip, "2603:1037"@)
    ||| has_prefix(ip, "2603:1047"@)
    ||| has_prefix(ip, "2603:1057"@)
    ||| has_prefix(ip, "2620:1ec"@)
}

/// The end of a packet that is not Microsoft's.
pub open spec fn client_ip(r: RecordModel) -> Seq<char> {
    if microsoft_ip(r.src_ip) {
        r.dst_ip
    } else {
        r.src_ip
    }
}

/// The number from 0 to 255 that `s` holds from `start` up to the next dot.
fn octet_from(s: &Vec<char>, start: usize) -> (r: Option<u8>)
    requires
        start <= s@.len(),
    ensures
        ({
            let label = s@.subrange(start as int, label_end(s@, start as int));
            match r {
                Some(octet) => is_octet(label) && octet == dec_value(unsigned_part(label)),
                None => !is_octet(label),
            }
        }),
{
    let mut end: usize = start;
    while end < s.len() && s[end] != '.'
        invariant
            start <= end <= s@.len(),
            label_end(s@, end as int) == label_end(s@, start as int),
        decreases s@.len() - end,
    {
        end += 1;
    }
    let ghost label = s@.subrange(start as int, end as int);
    let first: usize = if start < end && s[start] == '+' {
        start + 1
    } else {
        start
    };
    let ghost digits = unsigned_part(label);
    assert(digits =~= s@.subrange(first as int, end as int));
    if first == end {
        return None;
    }
    // The value so far, or 256 where it is larger.
    let mut value: u32 = 0;
    let mut i: usize = first;
    while i < end
        invariant
            first <= i <= end <= s@.len(),
            digits == s@.subrange(first as int, end as int),
            digits == unsigned_part(label),
            label == s@.subrange(start as int, label_end(s@, start as int)),
            forall|j: int| 0 <= j < i - first ==> is_digit(#[trigger] digits[j]),
            value <= 256,
            value < 256 ==> value == dec_value(digits.take(i - first)),
            value == 256 ==> dec_value(digits.take(i - first)) >= 256,
        decreases end - i,
    {
        let c = s[i];
        assert(digits[i - first] == c);
        if c < '0' || '9' < c {
            assert(!is_digit(digits[i - first]));
            return None;
        }
        assert(digits.take(i - first + 1).drop_last() =~= digits.take(i - first));
        value = value * 10 + (c as u32 - 48);
        if value > 256 {
            value = 256;
        }
        i += 1;
    }
    assert(digits.take(end - first) =~= digits);
    if value < 256 {
        Some(value as u8)
    } else {
        None
    }
}

/// Whether an address, in text form, is one of Microsoft's.
pub fn is_microsoft_ip(ip: &str) -> (r: bool)
    ensures
        r == microsoft_ip(ip@),
{
    let ip = chars_of(ip);
    if starts_with(&ip, "52.") {
        proof {
            reveal_strlit("52.");
        }
        if let Some(octet) = octet_from(&ip, 3) {
            if (112 <= octet && octet <= 115) || (122 <= octet && octet <= 123) {
                return true;
            }
        }
    }
    starts_with(&ip, "2603:1010") || starts_with(&ip, "2603:1027") || starts_with(&ip, "2603:1037")
        || starts_with(&ip, "2603:1047") || starts_with(&ip, "2603:1057") || starts_with(
        &ip,
        "2620:1ec",
    )
}

/// The end of a packet that is not Microsoft's.
pub fn get_client_ip(r: &RtpRecord) -> (ip: String)
    ensures
        ip@ == client_ip(r@),
{
    if is_microsoft_ip(r.src_ip.as_str()) {
        r.dst_ip.clone()
    } else {
        r.src_ip.clone()
    }
}

/// Both directions of a conversation with Microsoft belong to the same client.
pub proof fn both_directions_have_one_client(there: RecordModel, back: RecordModel)
    requires
        there.src_ip == back.dst_ip,
        there.dst_ip == back.src_ip,
        microsoft_ip(there.src_ip) != microsoft_ip(there.dst_ip),
    ensures
        client_ip(there) == client_ip(back),
        !microsoft_ip(client_ip(there)),
{
}

/// Decimal digits stand for the number that they were written for.
proof fn lemma_dec_value(n: nat)
    ensures
        dec_value(dec(n)) == n,
    decreases n,
{
    decimals_are_written_by_digits(n);
    if n >= 10 {
        lemma_dec_value(n / 10);
    } else {
        assert(dec(n).drop_last() =~= Seq::empty());
        assert(dec_value(dec(n).drop_last()) == 0);
    }
}

/// A leading zero does not change a number.
proof fn lemma_leading_zero(digits: Seq<char>)
    ensures
        dec_value(seq!['0'] + digits) == dec_value(digits),
    decreases digits.len(),
{
    let more = seq!['0'] + digits;
    if digits.len() == 0 {
        assert(more.drop_last() =~= Seq::empty());
        assert(dec_value(more.drop_last()) == 0);
    } else {
        assert(more.drop_last() =~= seq!['0'] + digits.drop_last());
        lemma_leading_zero(digits.drop_last());
    }
}

/// A part of a dotted address ends at the next dot.
proof fn lemma_label_end(s: Seq<char>, i: int, end: int)
    requires
        0 <= i <= end <= s.len(),
        forall|k: int| i <= k < end ==> #[trigger] s[k] != '.',
        end < s.len() ==> s[end] == '.',
    ensures
        label_end(s, i) == end,
    decreases end - i,
{
    if i < end {
        lemma_label_end(s, i + 1, end);
    }
}

/// An address that starts with `52.`, with its second part and what follows it.
pub open spec fn starting_52(label: Seq<char>, tail: Seq<char>) -> Seq<char> {
    seq!['5', '2', '.'] + label + tail
}

/// Whether `label` is a whole part of a dotted address that `tail` follows.
pub open spec fn is_label(label: Seq<char>, tail: Seq<char>) -> bool {
    &&& forall|i: int| 0 <= i < label.len() ==> #[trigger] label[i] != '.'
    &&& tail.len() > 0 ==> tail[0] == '.'
}

/// The second part of an address that starts with `52.` decides.
proof fn lemma_starting_52(label: Seq<char>, tail: Seq<char>)
    requires
        is_label(label, tail),
    ensures
        microsoft_ip(starting_52(label, tail)) <==> is_octet(label) && {
            let octet = dec_value(unsigned_part(label));
            112 <= octet <= 115 || 122 <= octet <= 123
        },
{
    let s = starting_52(label, tail);
    reveal_strlit("52.");
    assert(s.take(3) =~= "52."@);
    assert(s[0] == '5');
    lemma_prefix_8(s);
    lemma_prefix_9(s);
    let end = 3 + label.len();
    assert forall|k: int| 3 <= k < end implies #[trigger] s[k] != '.' by {
        assert(s[k] == label[k - 3]);
    }
    if end < s.len() {
        assert(s[end as int] == tail[0]);
    }
    lemma_label_end(s, 3, end as int);
    assert(second_label(s) =~= label);
}

/// Of the IPv4 addresses in text form, those of Microsoft are `52.112.` to
/// `52.115.`, `52.122.` and `52.123.`, whatever follows.
pub proof fn microsoft_by_its_second_number(n: nat, tail: Seq<char>)
    requires
        tail.len() > 0 ==> tail[0] == '.',
    ensures
        microsoft_ip(starting_52(dec(n), tail)) <==> 112 <= n <= 115 || 122 <= n <= 123,
{
    decimals_are_written_by_digits(n);
    lemma_dec_value(n);
    let label = dec(n);
    assert forall|i: int| 0 <= i < label.len() implies #[trigger] label[i] != '.' && is_digit(
        label[i],
    ) by {
        assert('0' as int <= label[i] as int <= '9' as int);
    }
    assert(label[0] != '+');
    lemma_starting_52(label, tail);
}

/// The second number may have leading zeros, or a plus sign before its digits;
/// neither changes the number.
pub proof fn zeros_and_sign_do_not_matter(label: Seq<char>, tail: Seq<char>)
    requires
        is_label(label, tail),
        label.len() > 0,
        label[0] != '+',
    ensures
        microsoft_ip(starting_52(seq!['0'] + label, tail)) == microsoft_ip(
            starting_52(label, tail),
        ),
        microsoft_ip(starting_52(seq!['+'] + label, tail)) == microsoft_ip(
            starting_52(label, tail),
        ),
{
    let zero = seq!['0'] + label;
    let plus = seq!['+'] + label;
    lemma_leading_zero(label);
    lemma_starting_52(label, tail);
    lemma_starting_52(zero, tail);
    lemma_starting_52(plus, tail);
    assert(unsigned_part(plus) =~= label);
    assert(is_octet(plus) == is_octet(label));
    assert(is_octet(zero) == is_octet(label)) by {
        if is_octet(label) {
            assert forall|i: int| 0 <= i < zero.len() implies is_digit(#[trigger] zero[i]) by {
                if i > 0 {
                    assert(zero[i] == label[i - 1]);
                }
            }
        }
        if is_octet(zero) {
            assert forall|i: int| 0 <= i < label.len() implies is_digit(#[trigger] label[i]) by {
                assert(zero[i + 1] == label[i]);
            }
        }
    }
}

/// A second part with anything but digits behind the sign is no number, and no
/// address of Microsoft; neither is an empty one.
pub proof fn other_second_parts_are_not_microsoft(label: Seq<char>, tail: Seq<char>, i: int)
    requires
        is_label(label, tail),
        label.len() == 0 || label == seq!['+'] || (0 <= i < label.len() && !('0' as int
            <= label[i] as int <= '9' as int) && (i > 0 || label[0] != '+')),
    ensures
        !microsoft_ip(starting_52(label, tail)),
{
    lemma_starting_52(label, tail);
    if label.len() > 0 && label != seq!['+'] {
        let digits = unsigned_part(label);
        if label[0] == '+' {
            assert(digits[i - 1] == label[i]);
        } else {
            assert(digits[i] == label[i]);
        }
    }
}

/// The other addresses of Microsoft, character by character: `2603:1010`,
/// `2603:1027` to `2603:1057` in steps of ten, and `2620:1ec`.
pub proof fn microsoft_by_its_characters(ip: Seq<char>)
    requires
        !(ip.len() >= 3 && ip[0] == '5' && ip[1] == '2' && ip[2] == '.'),
    ensures
        microsoft_ip(ip) <==> {
            ||| ip.len() >= 9 && ip[0] == '2' && ip[1] == '6' && ip[2] == '0' && ip[3] == '3'
                && ip[4] == ':' && ip[5] == '1' && ip[6] == '0' && (ip[7] == '1' && ip[8] == '0' || (
            ip[7] == '2' || ip[7] == '3' || ip[7] == '4' || ip[7] == '5') && ip[8] == '7')
            ||| ip.len() >= 8 && ip[0] == '2' && ip[1] == '6' && ip[2] == '2' && ip[3] == '0'
                && ip[4] == ':' && ip[5] == '1' && ip[6] == 'e' && ip[7] == 'c'
        },
{
    lemma_prefix_8(ip);
    lemma_prefix_9(ip);
    reveal_strlit("52.");
    if has_prefix(ip, "52."@) {
        assert(ip.take(3)[0] == ip[0] && ip.take(3)[1] == ip[1] && ip.take(3)[2] == ip[2]);
    }
}

/// The client is the end that is not Microsoft's: the source, unless that is
/// Microsoft's.
pub proof fn clients_are_the_other_end(r: RecordModel)
    ensures
        !microsoft_ip(r.src_ip) ==> client_ip(r) == r.src_ip,
        microsoft_ip(r.src_ip) ==> client_ip(r) == r.dst_ip,
{
}

} // verus!
