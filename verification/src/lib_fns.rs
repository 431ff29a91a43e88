//! The number tools of the tutor: reading a number written in base 2 to 36,
//! checking that a typed answer holds only digits, the number of bits that a
//! value needs, and the binary renderings (leading zeros, a row of hyphens,
//! binary in groups of four) that the worked solutions show.

use vstd::prelude::*;
use vstd::utf8::encode_utf8;
use vstd::arithmetic::power2::pow2;
use crate::random::random_in;
use crate::digits::{pow_nat, digit_value, char_digit, bin_text, push_bin, push_char};

verus! {

// ---------------------------------------------------------------------------
// Reading a number written in base `n`
// ---------------------------------------------------------------------------

/// Every character of `s` is a digit of base `n`.
pub open spec fn all_digits(s: Seq<char>, n: u32) -> bool {
    forall|k: int| 0 <= k < s.len() ==> (#[trigger] digit_value(s[k], n)) is Some
}

/// The sum over the characters of `s` of each digit times `n` raised to
/// `width - 1 - k`, where `k` is the digit's index in `s`. When `width` is the
/// number of characters this is the value that `s` writes in base `n`; the
/// conversion takes `width` to be the UTF-8 length of the whole text.
pub open spec fn weighted_digit_sum(s: Seq<char>, width: nat, n: u32) -> nat
    decreases s.len(),
{
    if s.len() == 0 {
        0
    } else {
        weighted_digit_sum(s.drop_last(), width, n) + digit_value(s.last(), n).unwrap() as nat
            * pow_nat(n as nat, (width - s.len()) as nat)
    }
}

/// The arithmetic of the conversion stays within `u32` for the digit that ends
/// the prefix `t`: the power, the digit times the power, and the running sum.
pub open spec fn digit_step_fits(t: Seq<char>, width: nat, n: u32) -> bool {
    &&& pow_nat(n as nat, (width - t.len()) as nat) <= u32::MAX
    &&& digit_value(t.last(), n).unwrap() as nat * pow_nat(n as nat, (width - t.len()) as nat)
        <= u32::MAX
    &&& weighted_digit_sum(t, width, n) <= u32::MAX
}

/// The conversion of `s` (of UTF-8 length `width`) in base `n` computes without
/// overflow: every step that is reached (every prefix made of digits only) fits.
pub open spec fn conversion_fits(s: Seq<char>, width: nat, n: u32) -> bool {
    forall|j: int|
        1 <= j <= s.len() && all_digits(#[trigger] s.take(j), n) ==> digit_step_fits(
            s.take(j),
            width,
            n,
        )
}

/// The result of converting `s` (of UTF-8 length `width`) from base `n`:
/// `None` as soon as a character is not a digit of the base.
pub open spec fn converted_value(s: Seq<char>, width: nat, n: u32) -> Option<u32> {
    if all_digits(s, n) {
        Some(weighted_digit_sum(s, width, n) as u32)
    } else {
        None
    }
}

/// What the conversion of `s` in base `n` needs: a valid base when there is a
/// character to read, a UTF-8 length that fits in `u32`, and no overflow.
pub open spec fn conversion_allowed(s: Seq<char>, n: u32) -> bool {
    &&& (s.len() > 0 ==> 2 <= n <= 36)
    &&& encode_utf8(s).len() <= u32::MAX
    &&& conversion_fits(s, encode_utf8(s).len(), n)
}

/// The UTF-8 encoding of a text is at least as long as the text.
pub proof fn lemma_utf8_len_at_least_chars(s: Seq<char>)
    ensures
        encode_utf8(s).len() >= s.len(),
    decreases s.len(),
{
    if s.len() > 0 {
        lemma_utf8_len_at_least_chars(s.drop_first());
    }
}

/// Powers of a base of at least 1 grow with the exponent.
pub proof fn lemma_pow_nat_monotone(b: nat, e1: nat, e2: nat)
    requires
        b >= 1,
        e1 <= e2,
    ensures
        pow_nat(b, e1) <= pow_nat(b, e2),
        pow_nat(b, e1) >= 1,
    decreases e2,
{
    if e2 > e1 {
        lemma_pow_nat_monotone(b, e1, (e2 - 1) as nat);
        assert(pow_nat(b, e2) == b * pow_nat(b, (e2 - 1) as nat));
        assert(b * pow_nat(b, (e2 - 1) as nat) >= pow_nat(b, (e2 - 1) as nat)) by (nonlinear_arith)
            requires
                b >= 1,
        ;
    } else if e1 > 0 {
        lemma_pow_nat_monotone(b, 0, (e1 - 1) as nat);
        assert(b * pow_nat(b, (e1 - 1) as nat) >= 1) by (nonlinear_arith)
            requires
                b >= 1,
                pow_nat(b, (e1 - 1) as nat) >= 1,
        ;
    }
}

/// `b` raised to `e`, computed by repeated multiplication; the power must fit
/// in `u32`.
pub fn pow_u32(b: u32, e: u32) -> (r: u32)
    requires
        b >= 1,
        pow_nat(b as nat, e as nat) <= u32::MAX,
    ensures
        r == pow_nat(b as nat, e as nat),
{
    let mut r: u32 = 1;
    let mut j: u32 = 0;
    while j < e
        invariant
            j <= e,
            b >= 1,
            pow_nat(b as nat, e as nat) <= u32::MAX,
            r == pow_nat(b as nat, j as nat),
        decreases e - j,
    {
        proof {
            lemma_pow_nat_monotone(b as nat, (j + 1) as nat, e as nat);
        }
        assert(pow_nat(b as nat, (j + 1) as nat) == b * pow_nat(b as nat, j as nat));
        assert(r * b == b * r) by (nonlinear_arith);
        r = r * b;
        j = j + 1;
    }
    r
}

/// `s` starts with the prefix `0x` or `0X` of a hexadecimal number written in
/// base 16.
pub open spec fn has_hex_prefix(s: Seq<char>, n: u32) -> bool {
    n == 16 && s.len() >= 2 && s[0] == '0' && (s[1] == 'x' || s[1] == 'X')
}

/// `s` without its hexadecimal prefix, if it has one in base `n`.
pub open spec fn hex_prefix_stripped(s: Seq<char>, n: u32) -> Seq<char> {
    if has_hex_prefix(s, n) {
        s.subrange(2, s.len() as int)
    } else {
        s
    }
}

/// What the conversion of `num` in base `n` needs, after its hexadecimal
/// prefix: see [`conversion_allowed`].
pub open spec fn bn_conversion_allowed(num: Seq<char>, n: u32) -> bool {
    conversion_allowed(hex_prefix_stripped(num, n), n)
}

/// The number that `num` writes in base `n`, read after its hexadecimal prefix:
/// `None` as soon as a character is not a digit of the base.
pub open spec fn bn_value(num: Seq<char>, n: u32) -> Option<u32> {
    converted_value(
        hex_prefix_stripped(num, n),
        encode_utf8(hex_prefix_stripped(num, n)).len(),
        n,
    )
}

/// `num` without its hexadecimal prefix, if it has one in base `n`.
pub fn strip_hex_prefix(num: &str, n: u32) -> (r: String)
    ensures
        r@ == hex_prefix_stripped(num@, n),
{
    let count: usize = num.unicode_len();
    let start: usize = if n == 16 && count >= 2 && num.get_char(0) == '0' && (num.get_char(1)
        == 'x' || num.get_char(1) == 'X') {
        2
    } else {
        0
    };
    let mut r = String::new();
    let mut k: usize = start;
    while k < count
        invariant
            count == num@.len(),
            start <= k <= count,
            r@ == num@.subrange(start as int, k as int),
        decreases count - k,
    {
        push_char(&mut r, num.get_char(k));
        k = k + 1;
        assert(r@ =~= num@.subrange(start as int, k as int));
    }
    assert(num@.subrange(0, count as int) =~= num@);
    r
}

/// Reads `num` as a number written in base `n` (2 to 36), most significant digit
/// first, after a hexadecimal prefix `0x` or `0X` in base 16. Upper- and
/// lower-case letters are both accepted as digits. Returns `None` as soon as a
/// character is not a digit of the base. Each digit is weighted by `n` raised
/// to the UTF-8 length of the digits minus one minus its index, which for an
/// ASCII text is its place value.
pub fn _bn_to_b10(num: &str, n: u32) -> (r: Option<u32>)
    requires
        bn_conversion_allowed(num@, n),
    ensures
        r == bn_value(num@, n),
{
    let digits = strip_hex_prefix(num, n);
    convert_digits(digits.as_str(), n)
}

fn convert_digits(num: &str, n: u32) -> (r: Option<u32>)
    requires
        conversion_allowed(num@, n),
    ensures
        r == converted_value(num@, encode_utf8(num@).len(), n),
{
    let width: usize = num.len();
    proof {
        lemma_utf8_len_at_least_chars(num@);
    }
    let ghost w: nat = width as nat;
    let mut i: u32 = width as u32;
    let mut sum: u32 = 0;
    let count: usize = num.unicode_len();
    let mut k: usize = 0;
    while k < count
        invariant
            count == num@.len(),
            w == encode_utf8(num@).len(),
            w >= count,
            w <= u32::MAX,
            k <= count,
            i == w - k,
            count > 0 ==> 2 <= n <= 36,
            conversion_fits(num@, w, n),
            all_digits(num@.take(k as int), n),
            sum == weighted_digit_sum(num@.take(k as int), w, n),
        decreases count - k,
    {
        let c: char = num.get_char(k);
        i = i - 1;
        let ghost t = num@.take(k + 1);
        assert(t.drop_last() =~= num@.take(k as int));
        assert(t.last() == c);
        match char_digit(c, n) {
            Some(x) => {
                assert(all_digits(t, n)) by {
                    assert forall|q: int| 0 <= q < t.len() implies (#[trigger] digit_value(
                        t[q],
                        n,
                    )) is Some by {
                        if q < k {
                            assert(t[q] == num@.take(k as int)[q]);
                        }
                    }
                }
                assert(digit_step_fits(t, w, n));
                assert(t.len() == k + 1);
                assert(digit_value(t.last(), n) == Some(x));
                let p: u32 = pow_u32(n, i);
                assert(p * x == x * p) by (nonlinear_arith);
                assert(weighted_digit_sum(t, w, n) == sum + x * p);
                sum = sum + p * x;
            },
            None => {
                assert(!all_digits(num@, n)) by {
                    assert(digit_value(num@[k as int], n) is None);
                }
                return None;
            },
        }
        k = k + 1;
    }
    assert(num@.take(count as int) =~= num@);
    Some(sum)
}

/// Reads the text of `num` as a number written in base `n`; the same
/// conversion as [`_bn_to_b10`].
pub fn bn_to_b10(num: &String, n: u32) -> (r: Option<u32>)
    requires
        bn_conversion_allowed(num@, n),
    ensures
        r == bn_value(num@, n),
{
    _bn_to_b10(num.as_str(), n)
}

// ---------------------------------------------------------------------------
// Checking that a typed answer holds only digits
// ---------------------------------------------------------------------------

/// Characters that the digit check passes over: the `x` of a hexadecimal
/// prefix in either case, and a line break.
pub open spec fn skipped_by_digit_check(c: char) -> bool {
    c == 'x' || c == 'X' || c == '\n'
}

/// Every character of `s` is a digit of base `radix` or one of the characters
/// that the check passes over.
pub open spec fn all_numeric(s: Seq<char>, radix: u32) -> bool {
    forall|k: int|
        0 <= k < s.len() ==> skipped_by_digit_check(#[trigger] s[k]) || digit_value(s[k], radix) is Some
}

/// What the digit check needs: a valid base as soon as one character is not
/// passed over.
pub open spec fn digit_check_allowed(s: Seq<char>, radix: u32) -> bool {
    (2 <= radix <= 36) || (forall|k: int| 0 <= k < s.len() ==> skipped_by_digit_check(#[trigger] s[k]))
}

/// Returns true when every character of `str` is a digit of base `radix`,
/// passing over `x`, `X` and line breaks.
pub fn _are_all_numeric(str: &str, radix: u32) -> (r: bool)
    requires
        digit_check_allowed(str@, radix),
    ensures
        r == all_numeric(str@, radix),
{
    let count: usize = str.unicode_len();
    let mut k: usize = 0;
    while k < count
        invariant
            count == str@.len(),
            k <= count,
            digit_check_allowed(str@, radix),
            forall|q: int|
                0 <= q < k ==> skipped_by_digit_check(#[trigger] str@[q]) || digit_value(str@[q], radix) is Some,
        decreases count - k,
    {
        let c: char = str.get_char(k);
        if c == 'x' || c == 'X' || c == '\n' {
            k = k + 1;
            continue;
        }
        assert(!skipped_by_digit_check(str@[k as int]));
        if char_digit(c, radix).is_none() {
            return false;
        }
        k = k + 1;
    }
    true
}

/// Returns true when every character of `str` is a digit of base `radix`,
/// passing over `x`, `X` and line breaks; the same check as
/// [`_are_all_numeric`].
pub fn are_all_numeric(str: &String, radix: u32) -> (r: bool)
    requires
        digit_check_allowed(str@, radix),
    ensures
        r == all_numeric(str@, radix),
{
    _are_all_numeric(str.as_str(), radix)
}

// ---------------------------------------------------------------------------
// Bits needed by a value
// ---------------------------------------------------------------------------

/// The number of binary digits that `v` takes when written out; zero takes one.
pub open spec fn bits_reqd(v: nat) -> nat
    decreases v,
{
    if v < 2 {
        1
    } else {
        1 + bits_reqd(v / 2)
    }
}

/// `b` is the number of bits of `v` exactly when `v` lies in `[2^(b-1), 2^b)`.
pub proof fn lemma_bits_reqd_bounds(v: nat)
    requires
        v >= 1,
    ensures
        bits_reqd(v) >= 1,
        pow2((bits_reqd(v) - 1) as nat) <= v < pow2(bits_reqd(v)),
    decreases v,
{
    vstd::arithmetic::power2::lemma_pow2_unfold(bits_reqd(v));
    if v < 2 {
        vstd::arithmetic::power2::lemma_pow2_unfold(1);
        assert(pow2(0) == 1) by {
            vstd::arithmetic::power2::lemma2_to64();
        }
    } else {
        lemma_bits_reqd_bounds(v / 2);
        vstd::arithmetic::power2::lemma_pow2_unfold((bits_reqd(v) - 1) as nat);
    }
}

/// The number of bits is the unique `b` with `2^(b-1) <= v < 2^b`.
pub proof fn lemma_bits_reqd_unique(v: nat, b: nat)
    requires
        v >= 1,
        b >= 1,
        pow2((b - 1) as nat) <= v < pow2(b),
    ensures
        bits_reqd(v) == b,
{
    lemma_bits_reqd_bounds(v);
    let c = bits_reqd(v);
    if c + 1 < b {
        vstd::arithmetic::power2::lemma_pow2_strictly_increases(c, (b - 1) as nat);
    } else if c > b + 1 {
        vstd::arithmetic::power2::lemma_pow2_strictly_increases(b, (c - 1) as nat);
    }
}

/// Zero and one take one bit; otherwise the number of bits is the least `i`
/// with `2^i > num`. The value must stay below 2^31.
pub fn num_bits_reqd(num: u32) -> (r: u32)
    requires
        num < 0x8000_0000,
    ensures
        r == bits_reqd(num as nat),
{
    if num < 2 {
        return 1;
    }
    let mut dummy: u32 = 1;
    let mut i: u32 = 0;
    assert(pow2(0) == 1) by {
        vstd::arithmetic::power2::lemma2_to64();
    }
    loop
        invariant
            2 <= num < 0x8000_0000,
            dummy == pow2(i as nat),
            i <= num,
            i > 0 ==> pow2((i - 1) as nat) <= num,
        decreases num - i,
    {
        if dummy > num {
            proof {
                if i == 0 {
                    vstd::arithmetic::power2::lemma2_to64();
                    assert(false);
                }
                lemma_bits_reqd_unique(num as nat, i as nat);
            }
            return i;
        }
        proof {
            vstd::arithmetic::power2::lemma_pow2_unfold((i + 1) as nat);
            vstd::arithmetic::power2::lemma_pow2_strictly_increases(i as nat, (i + 1) as nat);
            lemma_exp_below_pow2(i as nat);
        }
        dummy = dummy * 2;
        i = i + 1;
    }
}

/// An exponent is below the power of two it gives.
pub proof fn lemma_exp_below_pow2(e: nat)
    ensures
        e < pow2(e),
    decreases e,
{
    if e == 0 {
        vstd::arithmetic::power2::lemma2_to64();
    } else {
        lemma_exp_below_pow2((e - 1) as nat);
        vstd::arithmetic::power2::lemma_pow2_unfold(e);
        vstd::arithmetic::power2::lemma_pow2_pos((e - 1) as nat);
    }
}

// ---------------------------------------------------------------------------
// Binary renderings
// ---------------------------------------------------------------------------

/// `n` copies of `c`.
pub open spec fn repeat_char(c: char, n: nat) -> Seq<char> {
    Seq::new(n, |_i: int| c)
}

/// The zeros that pad the binary digits of `num` to `max_bits` characters.
pub open spec fn leading_zeros_text(num: nat, max_bits: nat) -> Seq<char> {
    repeat_char('0', (max_bits - bits_reqd(num)) as nat)
}

/// `v` in binary padded with zeros to `width` characters.
pub open spec fn padded_bin_text(v: nat, width: nat) -> Seq<char> {
    leading_zeros_text(v, width) + bin_text(v)
}

fn push_repeated(s: &mut String, c: char, n: u32)
    ensures
        final(s)@ == old(s)@ + repeat_char(c, n as nat),
{
    let mut i: u32 = 0;
    while i < n
        invariant
            i <= n,
            s@ == old(s)@ + repeat_char(c, i as nat),
        decreases n - i,
    {
        push_char(s, c);
        i = i + 1;
        assert(s@ =~= old(s)@ + repeat_char(c, i as nat));
    }
}

/// The zeros that pad the binary digits of `num` to `max_bits` characters.
pub fn print_leading_zeros(num: u32, max_bits: u32) -> (r: String)
    requires
        num < 0x8000_0000,
        bits_reqd(num as nat) <= max_bits,
    ensures
        r@ == leading_zeros_text(num as nat, max_bits as nat),
{
    let mut to_print = String::new();
    let zeros_to_print: u32 = max_bits - num_bits_reqd(num);
    push_repeated(&mut to_print, '0', zeros_to_print);
    to_print
}

/// One hyphen per bit of `num`, then a line break.
pub open spec fn hyphens_text(num: nat) -> Seq<char> {
    repeat_char('-', bits_reqd(num)).push('\n')
}

/// A row of hyphens as long as `num` is in binary, ended by a line break: the
/// underline of a binary number in the worked solutions.
pub fn print_hyphens(num: u32) -> (r: String)
    requires
        num < 0x8000_0000,
    ensures
        r@ == hyphens_text(num as nat),
{
    let h: u32 = num_bits_reqd(num);
    let mut to_print = String::new();
    push_repeated(&mut to_print, '-', h);
    push_char(&mut to_print, '\n');
    to_print
}

/// The group of four bits of `a` that starts at bit `4 * j`.
pub open spec fn bit_group(a: u32, j: nat) -> u32 {
    (a >> ((4 * j) as u32)) & 15u32
}

/// Groups `i - 1` down to `0` of `a`, each as four binary digits and a space.
pub open spec fn groups_text(a: u32, i: nat) -> Seq<char>
    decreases i,
{
    if i == 0 {
        Seq::empty()
    } else {
        padded_bin_text(bit_group(a, (i - 1) as nat) as nat, 4) + seq![' '] + groups_text(
            a,
            (i - 1) as nat,
        )
    }
}

/// The bits of `address` above the last whole group of four, when
/// `size_of_space` is not a multiple of four.
pub open spec fn high_bits(address: u32, size_of_space: u32) -> u32 {
    address >> ((4 * (size_of_space / 4)) as u32)
}

/// `address` in binary over `size_of_space` bits, in groups of four from the
/// low end: a short group first when the width is not a multiple of four, each
/// group followed by a space.
pub open spec fn readable_binary_text(address: u32, size_of_space: u32) -> Seq<char> {
    (if size_of_space % 4 != 0 {
        padded_bin_text(high_bits(address, size_of_space) as nat, (size_of_space % 4) as nat)
            + seq![' ']
    } else {
        Seq::empty()
    }) + groups_text(address, (size_of_space / 4) as nat)
}

/// What the grouped rendering needs: a width below 32 bits and, when there is a
/// short group, high bits that fit in it.
pub open spec fn readable_binary_allowed(address: u32, size_of_space: u32) -> bool {
    &&& size_of_space < 32
    &&& size_of_space % 4 != 0 ==> bits_reqd(high_bits(address, size_of_space) as nat)
        <= size_of_space % 4
}

/// `2` raised to `e` is `1 << e` for exponents below 32.
pub proof fn lemma_pow_nat_two_is_shift(e: u32)
    requires
        e < 32,
    ensures
        pow_nat(2, e as nat) == pow2(e as nat),
        pow_nat(2, e as nat) == (1u32 << e),
{
    lemma_pow_nat_two_is_pow2(e as nat);
    vstd::bits::lemma_u32_pow2_no_overflow(e as nat);
    vstd::bits::lemma_u32_shl_is_mul(1u32, e);
}

/// Powers of two agree with `pow2`.
pub proof fn lemma_pow_nat_two_is_pow2(e: nat)
    ensures
        pow_nat(2, e) == pow2(e),
    decreases e,
{
    if e == 0 {
        vstd::arithmetic::power2::lemma2_to64();
    } else {
        lemma_pow_nat_two_is_pow2((e - 1) as nat);
        vstd::arithmetic::power2::lemma_pow2_unfold(e);
    }
}

proof fn lemma_group_mask(a: u32, k: u32)
    requires
        k <= 24,
    ensures
        (a & (((1u32 << ((k + 4) as u32)) - 1) - ((1u32 << k) - 1)) as u32) >> k == (a >> k) & 15u32,
{
    assert((a & (((1u32 << ((k + 4) as u32)) - 1) - ((1u32 << k) - 1)) as u32) >> k == (a >> k)
        & 15u32) by (bit_vector)
        requires
            k <= 24,
    ;
}

/// A value below `2^w` takes at most `w` bits.
pub proof fn lemma_bits_reqd_at_most(v: nat, w: nat)
    requires
        w >= 1,
        v < pow2(w),
    ensures
        bits_reqd(v) <= w,
{
    if v >= 1 {
        lemma_bits_reqd_bounds(v);
        if bits_reqd(v) - 1 > w {
            vstd::arithmetic::power2::lemma_pow2_strictly_increases(w, (bits_reqd(v) - 1) as nat);
        }
    }
}

/// A value of at most three bits is below 8.
proof fn lemma_few_bits_small(v: nat, b: nat)
    requires
        bits_reqd(v) <= b,
        b <= 3,
    ensures
        v < 8,
{
    if v >= 1 {
        lemma_bits_reqd_bounds(v);
        if bits_reqd(v) < 3 {
            vstd::arithmetic::power2::lemma_pow2_strictly_increases(bits_reqd(v), 3);
        }
        vstd::arithmetic::power2::lemma2_to64();
    }
}

/// `address` written in binary over `size_of_space` bits, in groups of four
/// binary digits separated by spaces (a shorter leading group when the width
/// is not a multiple of four), each group padded with zeros.
pub fn print_readable_binary(address: u32, size_of_space: u32) -> (r: String)
    requires
        readable_binary_allowed(address, size_of_space),
    ensures
        r@ == readable_binary_text(address, size_of_space),
{
    let mut to_print = String::new();
    let multiple_of_4: u32 = size_of_space / 4;
    if size_of_space % 4 != 0 {
        let high: u32 = address >> (4 * multiple_of_4);
        proof {
            lemma_few_bits_small(high as nat, (size_of_space % 4) as nat);
        }
        let zeros = print_leading_zeros(high, size_of_space % 4);
        to_print.append(zeros.as_str());
        push_bin(&mut to_print, high);
        push_char(&mut to_print, ' ');
    }
    let ghost head = to_print@;
    assert(head == (if size_of_space % 4 != 0 {
        padded_bin_text(high_bits(address, size_of_space) as nat, (size_of_space % 4) as nat)
            + seq![' ']
    } else {
        Seq::<char>::empty()
    }));
    let mut i: u32 = multiple_of_4;
    while i > 0
        invariant
            i <= multiple_of_4,
            multiple_of_4 == size_of_space / 4,
            size_of_space < 32,
            to_print@ + groups_text(address, i as nat) == head + groups_text(
                address,
                multiple_of_4 as nat,
            ),
        decreases i,
    {
        let k: u32 = (i - 1) * 4;
        let top: u32 = i * 4;
        proof {
            lemma_pow_nat_two_is_shift(top);
            lemma_pow_nat_two_is_shift(k);
            lemma_group_mask(address, k);
            vstd::bits::lemma_u32_pow2_no_overflow(k as nat);
            vstd::arithmetic::power2::lemma_pow2_strictly_increases(k as nat, top as nat);
        }
        let bit_mask: u32 = (pow_u32(2, top) - 1) - (pow_u32(2, k) - 1);
        let b: u32 = (address & bit_mask) >> k;
        assert(b == bit_group(address, (i - 1) as nat));
        assert(b < 16) by (bit_vector)
            requires
                b == (address >> k) & 15u32,
        ;
        let ghost before = to_print@;
        proof {
            vstd::arithmetic::power2::lemma2_to64();
            lemma_bits_reqd_at_most(b as nat, 4);
        }
        let zeros = print_leading_zeros(b, 4);
        to_print.append(zeros.as_str());
        push_bin(&mut to_print, b);
        push_char(&mut to_print, ' ');
        assert(to_print@ =~= before + padded_bin_text(b as nat, 4) + seq![' ']);
        assert(groups_text(address, i as nat) == padded_bin_text(b as nat, 4) + seq![' '] + groups_text(address, (i - 1) as nat));
        assert(to_print@ + groups_text(address, (i - 1) as nat) =~= before + groups_text(address, i as nat));
        i = i - 1;
    }
    assert(to_print@ =~= to_print@ + groups_text(address, 0));
    to_print
}

// ---------------------------------------------------------------------------
// Random numbers for the memory layout
// ---------------------------------------------------------------------------

/// There is an even number in `[lower_bound, upper_bound)`.
pub open spec fn has_even_in(lower_bound: u32, upper_bound: u32) -> bool {
    lower_bound + lower_bound % 2 < upper_bound
}

/// A random even number in `[lower_bound, upper_bound)`, each even number of
/// the range being equally likely (as when drawing from the whole range until
/// an even number comes up).
pub fn rand_even(lower_bound: u32, upper_bound: u32) -> (r: u32)
    requires
        has_even_in(lower_bound, upper_bound),
    ensures
        r % 2 == 0,
        lower_bound <= r < upper_bound,
{
    let first: u32 = lower_bound + lower_bound % 2;
    let count: u32 = (upper_bound - 1 - first) / 2 + 1;
    let j: u32 = random_in(0, count);
    first + 2 * j
}

/// `r` is a power of two from 2 upward.
pub open spec fn is_power_of_2_from_2(r: nat) -> bool {
    exists|e: nat| e >= 1 && r == #[trigger] pow2(e)
}

/// `[lower, upper]` holds a power of two from 2 upward.
pub open spec fn has_power_of_2_in(lower: u32, upper: u32) -> bool {
    exists|e: nat| e >= 1 && lower <= #[trigger] pow2(e) <= upper
}

/// What drawing a power of two needs: a lower bound of at least 1, an upper
/// bound no larger than 2^31, and a power of two between them.
pub open spec fn power_of_2_draw_allowed(lower: u32, upper: u32) -> bool {
    &&& 1 <= lower
    &&& upper <= 0x8000_0000
    &&& has_power_of_2_in(lower, upper)
}

/// A random power of two (from 2 upward) in `[lower, upper]`, both bounds
/// included, each one equally likely (as when drawing from the whole range
/// until a power of two comes up).
pub fn rand_power_of_2(lower: u32, upper: u32) -> (r: u32)
    requires
        power_of_2_draw_allowed(lower, upper),
    ensures
        is_power_of_2_from_2(r as nat),
        lower <= r <= upper,
{
    let ghost w: nat = choose|e: nat| e >= 1 && lower <= #[trigger] pow2(e) <= upper;
    proof {
        vstd::arithmetic::power2::lemma2_to64();
    }
    // The least power of two from 2 upward that is at least `lower`.
    let mut low_pow: u32 = 2;
    let ghost mut low_exp: nat = 1;
    while low_pow < lower
        invariant
            power_of_2_draw_allowed(lower, upper),
            w >= 1,
            lower <= pow2(w) <= upper,
            low_exp >= 1,
            low_pow == pow2(low_exp),
            low_exp <= w,
            forall|e: nat| 1 <= e < low_exp ==> #[trigger] pow2(e) < lower,
        decreases w - low_exp,
    {
        proof {
            if low_exp == w {
                assert(false);
            }
            vstd::arithmetic::power2::lemma_pow2_unfold(low_exp + 1);
            vstd::arithmetic::power2::lemma_pow2_strictly_increases(low_exp, w);
        }
        low_pow = low_pow * 2;
        proof {
            low_exp = low_exp + 1;
        }
    }
    proof {
        if low_exp < w {
            vstd::arithmetic::power2::lemma_pow2_strictly_increases(low_exp, w);
        }
    }
    // The number of powers of two from `low_pow` up to `upper`.
    let mut top: u32 = low_pow;
    let mut count: u32 = 1;
    while top <= upper / 2
        invariant
            power_of_2_draw_allowed(lower, upper),
            low_exp >= 1,
            low_pow == pow2(low_exp),
            low_pow <= upper,
            top == pow2((low_exp + count - 1) as nat),
            top <= upper,
            1 <= count <= 32,
            low_exp + count - 1 <= 31,
        decreases 32 - count,
    {
        proof {
            vstd::arithmetic::power2::lemma_pow2_unfold((low_exp + count) as nat);
            if low_exp + count > 31 {
                vstd::arithmetic::power2::lemma2_to64();
                vstd::arithmetic::power2::lemma_pow2_strictly_increases(31, (low_exp + count) as nat);
                assert(false);
            }
        }
        top = top * 2;
        count = count + 1;
    }
    let j: u32 = random_in(0, count);
    let mut r: u32 = low_pow;
    let mut k: u32 = 0;
    while k < j
        invariant
            k <= j < count,
            low_exp >= 1,
            r == pow2((low_exp + k) as nat),
            low_pow == pow2(low_exp),
            lower <= low_pow,
            top == pow2((low_exp + count - 1) as nat),
            top <= upper,
            lower <= r <= top,
        decreases j - k,
    {
        proof {
            vstd::arithmetic::power2::lemma_pow2_unfold((low_exp + k + 1) as nat);
            if k + 1 < count - 1 {
                vstd::arithmetic::power2::lemma_pow2_strictly_increases(
                    (low_exp + k + 1) as nat,
                    (low_exp + count - 1) as nat,
                );
            }
        }
        r = r * 2;
        k = k + 1;
    }
    assert(pow2((low_exp + k) as nat) == r);
    r
}

} // verus!
