//! Digits of a number in a base: reading one character as a digit, and
//! writing a number out in base 2, 10 or 16 the way Rust's `{:b}`, `{}` and
//! `{:X}` formats do.

use vstd::prelude::*;

verus! {

/// `b` raised to the power `e`.
pub open spec fn pow_nat(b: nat, e: nat) -> nat
    decreases e,
{
    if e == 0 {
        1
    } else {
        b * pow_nat(b, (e - 1) as nat)
    }
}

/// The value of `c` read as a digit: `0`-`9`, then `a`-`z` or `A`-`Z` for 10 to 35.
/// Characters that are not letters or decimal digits have no value.
pub open spec fn raw_digit_value(c: char) -> Option<u32> {
    if '0' <= c && c <= '9' {
        Some((c as u32 - '0' as u32) as u32)
    } else if 'a' <= c && c <= 'z' {
        Some((c as u32 - 'a' as u32 + 10) as u32)
    } else if 'A' <= c && c <= 'Z' {
        Some((c as u32 - 'A' as u32 + 10) as u32)
    } else {
        None
    }
}

/// The digit that `c` stands for in base `radix`, as `char::to_digit` gives it:
/// `None` when `c` is not a digit of that base.
pub open spec fn digit_value(c: char, radix: u32) -> Option<u32> {
    match raw_digit_value(c) {
        Some(d) => if d < radix { Some(d) } else { None },
        None => None,
    }
}

/// Reads `c` as a digit of base `radix` (2 to 36).
pub fn char_digit(c: char, radix: u32) -> (r: Option<u32>)
    requires
        2 <= radix <= 36,
    ensures
        r == digit_value(c, radix),
{
    let code: u32 = c as u32;
    let d: u32 = if '0' <= c && c <= '9' {
        code - 48
    } else if 'a' <= c && c <= 'z' {
        code - 97 + 10
    } else if 'A' <= c && c <= 'Z' {
        code - 65 + 10
    } else {
        return None;
    };
    if d < radix {
        Some(d)
    } else {
        None
    }
}

/// The upper-case character that writes the digit `d` (below 16).
pub open spec fn digit_char(d: nat) -> char {
    if d == 0 { '0' } else if d == 1 { '1' } else if d == 2 { '2' } else if d == 3 { '3' }
    else if d == 4 { '4' } else if d == 5 { '5' } else if d == 6 { '6' } else if d == 7 { '7' }
    else if d == 8 { '8' } else if d == 9 { '9' } else if d == 10 { 'A' } else if d == 11 { 'B' }
    else if d == 12 { 'C' } else if d == 13 { 'D' } else if d == 14 { 'E' } else { 'F' }
}

/// `v` written in base `radix` (2 to 16) with upper-case letters and no leading zeros;
/// zero is written `0`.
pub open spec fn radix_text(v: nat, radix: nat) -> Seq<char>
    decreases v,
{
    if radix < 2 || radix > 16 {
        Seq::empty()
    } else if v < radix {
        seq![digit_char(v)]
    } else {
        proof {
            assert(v / radix < v) by (nonlinear_arith)
                requires
                    v >= radix,
                    radix >= 2,
            ;
        }
        radix_text(v / radix, radix).push(digit_char(v % radix))
    }
}

/// `v` as `{}` writes it.
pub open spec fn dec_text(v: nat) -> Seq<char> {
    radix_text(v, 10)
}

/// `v` as `{:b}` writes it.
pub open spec fn bin_text(v: nat) -> Seq<char> {
    radix_text(v, 2)
}

/// `v` as `{:X}` writes it.
pub open spec fn hex_text(v: nat) -> Seq<char> {
    radix_text(v, 16)
}

/// `v` as `{:#X}` writes it: `0x` followed by the upper-case hexadecimal digits.
pub open spec fn hex_prefixed_text(v: nat) -> Seq<char> {
    seq!['0', 'x'] + hex_text(v)
}

/// Appends one character to a string with `String::push`, which vstd gives no
/// specification. Its documentation says that the character is appended to the
/// end of the string; the contract claims exactly that of the string's
/// characters.
#[verifier::external_body]
pub(crate) fn push_char(s: &mut String, c: char)
    ensures
        final(s)@ == old(s)@.push(c),
{
    s.push(c);
}

fn digit_char_exec(d: u64) -> (c: char)
    requires
        d < 16,
    ensures
        c == digit_char(d as nat),
{
    match d {
        0 => '0',
        1 => '1',
        2 => '2',
        3 => '3',
        4 => '4',
        5 => '5',
        6 => '6',
        7 => '7',
        8 => '8',
        9 => '9',
        10 => 'A',
        11 => 'B',
        12 => 'C',
        13 => 'D',
        14 => 'E',
        _ => 'F',
    }
}

/// Appends `v` written in base `radix` (2 to 16).
pub fn push_radix(s: &mut String, v: u64, radix: u64)
    requires
        2 <= radix <= 16,
    ensures
        final(s)@ == old(s)@ + radix_text(v as nat, radix as nat),
    decreases v,
{
    let ghost start = s@;
    if v >= radix {
        assert(v / radix < v) by (nonlinear_arith)
            requires
                v >= radix,
                radix >= 2,
        ;
        push_radix(s, v / radix, radix);
    }
    let c = digit_char_exec(v % radix);
    push_char(s, c);
    proof {
        if v >= radix {
            assert(radix_text(v as nat, radix as nat) == radix_text(
                (v / radix) as nat,
                radix as nat,
            ).push(digit_char((v % radix) as nat)));
        } else {
            vstd::arithmetic::div_mod::lemma_small_mod(v as nat, radix as nat);
        }
        assert(start + radix_text(v as nat, radix as nat) =~= s@);
    }
}

/// Appends `v` as `{}` writes it.
pub fn push_dec(s: &mut String, v: u32)
    ensures
        final(s)@ == old(s)@ + dec_text(v as nat),
{
    push_radix(s, v as u64, 10);
}

/// Appends a 64-bit `v` as `{}` writes it.
pub fn push_dec64(s: &mut String, v: u64)
    ensures
        final(s)@ == old(s)@ + dec_text(v as nat),
{
    push_radix(s, v, 10);
}

/// Appends `v` as `{:b}` writes it.
pub fn push_bin(s: &mut String, v: u32)
    ensures
        final(s)@ == old(s)@ + bin_text(v as nat),
{
    push_radix(s, v as u64, 2);
}

/// Appends `v` as `{:X}` writes it.
pub fn push_hex(s: &mut String, v: u32)
    ensures
        final(s)@ == old(s)@ + hex_text(v as nat),
{
    push_radix(s, v as u64, 16);
}

/// Appends `v` as `{:#X}` writes it.
pub fn push_hex_prefixed(s: &mut String, v: u32)
    ensures
        final(s)@ == old(s)@ + hex_prefixed_text(v as nat),
{
    push_char(s, '0');
    push_char(s, 'x');
    push_radix(s, v as u64, 16);
    proof {
        assert(s@ =~= old(s)@ + hex_prefixed_text(v as nat));
    }
}

} // verus!
