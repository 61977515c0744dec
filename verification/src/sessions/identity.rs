//! Session identifiers.

#[allow(unused_imports)]
use crate::text::{digit_char, hex_fixed};
use crate::text::push_hex_fixed;
use std::collections::hash_map::DefaultHasher;
use std::hash::Hasher;
#[allow(unused_imports)]
use vstd::bytes::spec_u64_to_le_bytes;
use vstd::bytes::u64_to_le_bytes;
use vstd::prelude::*;
#[allow(unused_imports)]
use vstd::std_specs::hash::DefaultHasherAdditionalSpecFns;
#[allow(unused_imports)]
use vstd::utf8::encode_utf8;

verus! {

/// The identifier made from a hash: its 16 lower-case hexadecimal digits.
pub open spec fn session_id(hash: u64) -> Seq<char> {
    hex_fixed(hash as nat, 16)
}

/// The identifier made from a hash.
pub fn session_id_text(hash: u64) -> (r: String)
    ensures
        r@ == session_id(hash),
{
    let mut text = String::new();
    push_hex_fixed(&mut text, hash, 16);
    assert(text@ =~= session_id(hash));
    text
}

/// The hash of a client and the time it was first seen: the standard library's
/// default hasher over the bytes of the address, a byte that ends it, and the
/// time in little-endian byte order.
pub open spec fn id_hash(client_ip: Seq<char>, first_seen_ns: u64) -> u64 {
    DefaultHasher::spec_finish(
        seq![encode_utf8(client_ip), seq![0xffu8], spec_u64_to_le_bytes(first_seen_ns)],
    )
}

/// The identifier of the session of a client that was first seen at the given
/// time, made from a hash of the two.
pub fn new_session_id(client_ip: &str, first_seen_ns: u64) -> (r: String)
    ensures
        r@ == session_id(id_hash(client_ip@, first_seen_ns)),
{
    let end: [u8; 1] = [0xff];
    let time = u64_to_le_bytes(first_seen_ns);
    let mut hasher = DefaultHasher::new();
    hasher.write(client_ip.as_bytes());
    hasher.write(end.as_slice());
    hasher.write(time.as_slice());
    assert(end@ =~= seq![0xffu8]);
    assert(hasher@ =~= seq![
        encode_utf8(client_ip@),
        seq![0xffu8],
        spec_u64_to_le_bytes(first_seen_ns),
    ]);
    session_id_text(hasher.finish())
}

proof fn lemma_hex_fixed_len(n: nat, width: nat)
    ensures
        hex_fixed(n, width).len() == width,
    decreases width,
{
    if width > 0 {
        lemma_hex_fixed_len(n / 16, (width - 1) as nat);
    }
}

/// Digits written to a fixed width determine the number.
proof fn lemma_hex_fixed_injective(a: nat, b: nat, width: nat)
    requires
        hex_fixed(a, width) == hex_fixed(b, width),
        a < vstd::arithmetic::power::pow(16, width),
        b < vstd::arithmetic::power::pow(16, width),
    ensures
        a == b,
    decreases width,
{
    reveal(vstd::arithmetic::power::pow);
    if width > 0 {
        let less = (width - 1) as nat;
        let x = hex_fixed(a / 16, less);
        let y = hex_fixed(b / 16, less);
        assert(hex_fixed(a, width) == x.push(digit_char(a % 16)));
        assert(hex_fixed(b, width) == y.push(digit_char(b % 16)));
        lemma_hex_fixed_len(a / 16, less);
        lemma_hex_fixed_len(b / 16, less);
        assert(x =~= hex_fixed(a, width).drop_last());
        assert(y =~= hex_fixed(b, width).drop_last());
        assert(digit_char(a % 16) == digit_char(b % 16)) by {
            assert(hex_fixed(a, width)[less as int] == digit_char(a % 16));
            assert(hex_fixed(b, width)[less as int] == digit_char(b % 16));
        }
        lemma_hex_fixed_injective(a / 16, b / 16, less);
    }
}

/// Different hashes give different identifiers, and every identifier has 16
/// characters.
pub proof fn session_ids_are_distinct(a: u64, b: u64)
    ensures
        session_id(a).len() == 16,
        session_id(a) == session_id(b) ==> a == b,
{
    lemma_hex_fixed_len(a as nat, 16);
    if session_id(a) == session_id(b) {
        assert(vstd::arithmetic::power::pow(16, 16) == 0x1_0000_0000_0000_0000) by {
            reveal_with_fuel(vstd::arithmetic::power::pow, 17);
        }
        lemma_hex_fixed_injective(a as nat, b as nat, 16);
    }
}

/// What goes into the hash: the bytes of the client's address, a byte of ones that
/// ends it, and the time in eight bytes, the lowest first.
pub proof fn ids_are_made_of_client_and_time(client_ip: Seq<char>, first_seen_ns: u64)
    ensures
        ({
            let t = first_seen_ns as int;
            id_hash(client_ip, first_seen_ns) == DefaultHasher::spec_finish(
                seq![
                    encode_utf8(client_ip),
                    seq![0xffu8],
                    seq![
                        (t % 0x100) as u8,
                        (t / 0x100 % 0x100) as u8,
                        (t / 0x1_0000 % 0x100) as u8,
                        (t / 0x100_0000 % 0x100) as u8,
                        (t / 0x1_0000_0000 % 0x100) as u8,
                        (t / 0x100_0000_0000 % 0x100) as u8,
                        (t / 0x1_0000_0000_0000 % 0x100) as u8,
                        (t / 0x100_0000_0000_0000 % 0x100) as u8,
                    ],
                ],
            )
        }),
{
    let x = first_seen_ns;
    vstd::bytes::spec_u64_to_le_bytes_to_open(x);
    assert(x & 0xff == x % 0x100) by (bit_vector);
    assert((x >> 8) & 0xff == x / 0x100 % 0x100) by (bit_vector);
    assert((x >> 16) & 0xff == x / 0x1_0000 % 0x100) by (bit_vector);
    assert((x >> 24) & 0xff == x / 0x100_0000 % 0x100) by (bit_vector);
    assert((x >> 32) & 0xff == x / 0x1_0000_0000 % 0x100) by (bit_vector);
    assert((x >> 40) & 0xff == x / 0x100_0000_0000 % 0x100) by (bit_vector);
    assert((x >> 48) & 0xff == x / 0x1_0000_0000_0000 % 0x100) by (bit_vector);
    assert((x >> 56) & 0xff == x / 0x100_0000_0000_0000 % 0x100) by (bit_vector);
    let t = x as int;
    assert(spec_u64_to_le_bytes(x) =~= seq![
        (t % 0x100) as u8,
        (t / 0x100 % 0x100) as u8,
        (t / 0x1_0000 % 0x100) as u8,
        (t / 0x100_0000 % 0x100) as u8,
        (t / 0x1_0000_0000 % 0x100) as u8,
        (t / 0x100_0000_0000 % 0x100) as u8,
        (t / 0x1_0000_0000_0000 % 0x100) as u8,
        (t / 0x100_0000_0000_0000 % 0x100) as u8,
    ]);
}

/// An identifier is the hash in hexadecimal, one digit for every four bits.
pub proof fn ids_are_written_in_hexadecimal(hash: u64)
    ensures
        session_id(hash).len() == 16,
        session_id(hash) == hex_fixed(hash as nat, 16),
        hash % 16 < 10 ==> session_id(hash)[15] as int == '0' as int + hash % 16,
        hash % 16 >= 10 ==> session_id(hash)[15] as int == 'a' as int + hash % 16 - 10,
{
    crate::text::fixed_width_has_leading_zeros(hash as nat, 16);
}

} // verus!
