//! Text building blocks: decimal and hexadecimal numbers, padding, prefixes.

use vstd::prelude::*;

verus! {

/// `String::push` appends one character to the end of the string.
pub assume_specification[ String::push ](s: &mut String, c: char)
    ensures
        final(s)@ == old(s)@.push(c),
;

/// The character of a decimal or lower-case hexadecimal digit.
pub open spec fn digit_char(d: nat) -> char {
    if d < 10 {
        (48 + d) as char
    } else {
        (87 + d) as char
    }
}

/// The character of a decimal or upper-case hexadecimal digit.
pub open spec fn upper_digit_char(d: nat) -> char {
    if d < 10 {
        (48 + d) as char
    } else {
        (55 + d) as char
    }
}

/// `n` in decimal, without leading zeros.
pub open spec fn dec(n: nat) -> Seq<char>
    decreases n,
{
    if n < 10 {
        seq![digit_char(n)]
    } else {
        dec(n / 10).push(digit_char(n % 10))
    }
}

/// `n` in lower-case hexadecimal, without leading zeros.
pub open spec fn hex(n: nat) -> Seq<char>
    decreases n,
{
    if n < 16 {
        seq![digit_char(n)]
    } else {
        hex(n / 16).push(digit_char(n % 16))
    }
}

/// The last `width` lower-case hexadecimal digits of `n`, zero-padded.
pub open spec fn hex_fixed(n: nat, width: nat) -> Seq<char>
    decreases width,
{
    if width == 0 {
        Seq::empty()
    } else {
        hex_fixed(n / 16, (width - 1) as nat).push(digit_char(n % 16))
    }
}

/// The last `width` upper-case hexadecimal digits of `n`, zero-padded.
pub open spec fn upper_hex_fixed(n: nat, width: nat) -> Seq<char>
    decreases width,
{
    if width == 0 {
        Seq::empty()
    } else {
        upper_hex_fixed(n / 16, (width - 1) as nat).push(upper_digit_char(n % 16))
    }
}

/// `n` spaces.
pub open spec fn spaces(n: nat) -> Seq<char> {
    Seq::new(n, |i: int| ' ')
}

/// `s` right-aligned in a field of at least `width` characters.
pub open spec fn pad_left(s: Seq<char>, width: nat) -> Seq<char> {
    if s.len() >= width {
        s
    } else {
        spaces((width - s.len()) as nat) + s
    }
}

/// `s` left-aligned in a field of at least `width` characters.
pub open spec fn pad_right(s: Seq<char>, width: nat) -> Seq<char> {
    if s.len() >= width {
        s
    } else {
        s + spaces((width - s.len()) as nat)
    }
}

/// Whether `s` starts with `prefix`.
pub open spec fn has_prefix(s: Seq<char>, prefix: Seq<char>) -> bool {
    &&& prefix.len() <= s.len()
    &&& s.take(prefix.len() as int) == prefix
}

fn lower_digit(d: u8) -> (c: char)
    requires
        d < 16,
    ensures
        c == digit_char(d as nat),
{
    if d < 10 {
        (48 + d) as char
    } else {
        (87 + d) as char
    }
}

fn upper_digit(d: u8) -> (c: char)
    requires
        d < 16,
    ensures
        c == upper_digit_char(d as nat),
{
    if d < 10 {
        (48 + d) as char
    } else {
        (55 + d) as char
    }
}

/// Append `n` in decimal.
pub fn push_dec(out: &mut String, n: u64)
    ensures
        final(out)@ == old(out)@ + dec(n as nat),
    decreases n,
{
    if n < 10 {
        out.push(lower_digit(n as u8));
    } else {
        push_dec(out, n / 10);
        out.push(lower_digit((n % 10) as u8));
    }
}

/// Append `n` in lower-case hexadecimal without leading zeros.
pub fn push_hex(out: &mut String, n: u64)
    ensures
        final(out)@ == old(out)@ + hex(n as nat),
    decreases n,
{
    if n < 16 {
        out.push(lower_digit(n as u8));
    } else {
        push_hex(out, n / 16);
        out.push(lower_digit((n % 16) as u8));
    }
}

/// Append the last `width` lower-case hexadecimal digits of `n`.
pub fn push_hex_fixed(out: &mut String, n: u64, width: usize)
    ensures
        final(out)@ == old(out)@ + hex_fixed(n as nat, width as nat),
    decreases width,
{
    if width > 0 {
        push_hex_fixed(out, n / 16, width - 1);
        out.push(lower_digit((n % 16) as u8));
    }
}

/// Append the last `width` upper-case hexadecimal digits of `n`.
pub fn push_upper_hex_fixed(out: &mut String, n: u64, width: usize)
    ensures
        final(out)@ == old(out)@ + upper_hex_fixed(n as nat, width as nat),
    decreases width,
{
    if width > 0 {
        push_upper_hex_fixed(out, n / 16, width - 1);
        out.push(upper_digit((n % 16) as u8));
    }
}

/// Append `n` spaces.
pub fn push_spaces(out: &mut String, n: usize)
    ensures
        final(out)@ == old(out)@ + spaces(n as nat),
{
    let ghost start = out@;
    let mut i: usize = 0;
    while i < n
        invariant
            i <= n,
            out@ == start + spaces(i as nat),
        decreases n - i,
    {
        out.push(' ');
        i += 1;
        assert(out@ =~= start + spaces(i as nat));
    }
}

/// Append `n` in decimal, right-aligned in a field of `width` characters.
pub fn push_dec_right(out: &mut String, n: u64, width: usize)
    ensures
        final(out)@ == old(out)@ + pad_left(dec(n as nat), width as nat),
{
    let mut number = String::new();
    push_dec(&mut number, n);
    let len = number.as_str().unicode_len();
    if len < width {
        push_spaces(out, width - len);
    }
    out.append(number.as_str());
}

/// Append `n` in decimal, left-aligned in a field of `width` characters.
pub fn push_dec_left(out: &mut String, n: u64, width: usize)
    ensures
        final(out)@ == old(out)@ + pad_right(dec(n as nat), width as nat),
{
    let mut number = String::new();
    push_dec(&mut number, n);
    let len = number.as_str().unicode_len();
    out.append(number.as_str());
    if len < width {
        push_spaces(out, width - len);
    }
}

/// The characters of `s`.
pub fn chars_of(s: &str) -> (r: Vec<char>)
    ensures
        r@ == s@,
{
    let mut r: Vec<char> = Vec::new();
    for c in it: s.chars()
        invariant
            it.seq() == s@,
            r@ == s@.take(it.index() as int),
    {
        r.push(c);
    }
    r
}

/// Whether `s` starts with `prefix`.
pub fn starts_with(s: &Vec<char>, prefix: &str) -> (r: bool)
    ensures
        r == has_prefix(s@, prefix@),
{
    let mut i: usize = 0;
    for c in it: prefix.chars()
        invariant
            it.seq() == prefix@,
            i == it.index(),
            i <= s@.len(),
            forall|j: int| 0 <= j < i ==> s@[j] == prefix@[j],
    {
        if i >= s.len() || s[i] != c {
            return false;
        }
        i += 1;
    }
    assert(s@.take(prefix@.len() as int) =~= prefix@);
    true
}

/// Decimal numbers are written digit by digit, the last digit last, and without
/// leading zeros.
pub proof fn decimals_are_written_by_digits(n: nat)
    ensures
        dec(n).last() as int == '0' as int + n % 10,
        n < 10 ==> dec(n).len() == 1,
        n >= 10 ==> dec(n).drop_last() == dec(n / 10),
        dec(n).len() > 0,
        n > 0 ==> dec(n)[0] != '0',
        forall|i: int| 0 <= i < dec(n).len() ==> '0' as int <= #[trigger] dec(n)[i] as int <= '9' as int,
    decreases n,
{
    if n >= 10 {
        decimals_are_written_by_digits(n / 10);
        assert(dec(n).drop_last() =~= dec(n / 10));
    }
}

/// Hexadecimal numbers are written digit by digit, the last digit last, in lower
/// case and without leading zeros.
pub proof fn hexadecimals_are_written_by_digits(n: nat)
    ensures
        n % 16 < 10 ==> hex(n).last() as int == '0' as int + n % 16,
        n % 16 >= 10 ==> hex(n).last() as int == 'a' as int + n % 16 - 10,
        n < 16 ==> hex(n).len() == 1,
        n >= 16 ==> hex(n).drop_last() == hex(n / 16),
        hex(n).len() > 0,
        n > 0 ==> hex(n)[0] != '0',
    decreases n,
{
    if n >= 16 {
        hexadecimals_are_written_by_digits(n / 16);
        assert(hex(n).drop_last() =~= hex(n / 16));
    }
}

/// Numbers of a fixed width have that many digits, with leading zeros; the lower
/// digits of a number do not depend on the width.
pub proof fn fixed_width_has_leading_zeros(n: nat, width: nat)
    ensures
        hex_fixed(n, width).len() == width,
        upper_hex_fixed(n, width).len() == width,
        width > 0 ==> {
            let (low, up) = (hex_fixed(n, width), upper_hex_fixed(n, width));
            &&& n % 16 < 10 ==> low.last() as int == '0' as int + n % 16 && up.last() as int
                == '0' as int + n % 16
            &&& n % 16 >= 10 ==> low.last() as int == 'a' as int + n % 16 - 10 && up.last() as int
                == 'A' as int + n % 16 - 10
            &&& low.drop_last() == hex_fixed(n / 16, (width - 1) as nat)
            &&& up.drop_last() == upper_hex_fixed(n / 16, (width - 1) as nat)
        },
    decreases width,
{
    if width > 0 {
        fixed_width_has_leading_zeros(n / 16, (width - 1) as nat);
        assert(hex_fixed(n, width).drop_last() =~= hex_fixed(n / 16, (width - 1) as nat));
        assert(upper_hex_fixed(n, width).drop_last() =~= upper_hex_fixed(
            n / 16,
            (width - 1) as nat,
        ));
    }
}

/// Padding fills a field with spaces, in front of a text or behind it, and never
/// cuts the text.
pub proof fn padding_only_adds_spaces(s: Seq<char>, width: nat)
    ensures
        ({
            let (left, right) = (pad_left(s, width), pad_right(s, width));
            let n = if s.len() >= width {
                0
            } else {
                width - s.len()
            };
            &&& left.len() == s.len() + n
            &&& right.len() == s.len() + n
            &&& left.skip(n) == s
            &&& right.take(s.len() as int) == s
            &&& forall|i: int| 0 <= i < n ==> #[trigger] left[i] == ' '
            &&& forall|i: int| s.len() <= i < right.len() ==> #[trigger] right[i] == ' '
        }),
{
    let n = if s.len() >= width {
        0
    } else {
        width - s.len()
    };
    assert(pad_left(s, width).skip(n) =~= s);
    assert(pad_right(s, width).take(s.len() as int) =~= s);
}

/// A text starts with a prefix exactly if it is the prefix and something behind
/// it.
pub proof fn prefixes_start_a_text(s: Seq<char>, prefix: Seq<char>)
    ensures
        has_prefix(s, prefix) <==> exists|rest: Seq<char>| s == #[trigger] (prefix + rest),
{
    if has_prefix(s, prefix) {
        let rest = s.skip(prefix.len() as int);
        assert(s =~= prefix + rest);
    }
    if exists|rest: Seq<char>| s == #[trigger] (prefix + rest) {
        let rest = choose|rest: Seq<char>| s == #[trigger] (prefix + rest);
        assert(s.take(prefix.len() as int) =~= prefix);
    }
}

} // verus!
