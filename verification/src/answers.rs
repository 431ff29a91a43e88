//! Checking the student's answer: the typed text is trimmed, stripped of any
//! `x`, checked for digits of the answer's base, read as a number and compared
//! with the physical address.

use vstd::prelude::*;
use vstd::utf8::encode_utf8;
use crate::digits::{pow_nat, digit_value, char_digit, dec_text, bin_text, hex_prefixed_text, push_dec, push_bin, push_hex_prefixed, push_char};
use crate::lib_fns::{has_hex_prefix, hex_prefix_stripped, bn_conversion_allowed, bn_value, strip_hex_prefix, all_digits, weighted_digit_sum, digit_step_fits, conversion_fits, conversion_allowed, converted_value, all_numeric, digit_check_allowed, _bn_to_b10, _are_all_numeric, lemma_utf8_len_at_least_chars, lemma_pow_nat_monotone};

verus! {

// ---------------------------------------------------------------------------
// Trimming and removing characters
// ---------------------------------------------------------------------------

/// `c` is white space in the sense of Unicode (`char::is_whitespace`).
pub open spec fn is_white_space(c: char) -> bool {
    let u = c as u32;
    ||| 9 <= u <= 13
    ||| u == 32
    ||| u == 0x85
    ||| u == 0xA0
    ||| u == 0x1680
    ||| 0x2000 <= u <= 0x200A
    ||| u == 0x2028
    ||| u == 0x2029
    ||| u == 0x202F
    ||| u == 0x205F
    ||| u == 0x3000
}

fn is_white_space_exec(c: char) -> (r: bool)
    ensures
        r == is_white_space(c),
{
    let u: u32 = c as u32;
    (9 <= u && u <= 13) || u == 32 || u == 0x85 || u == 0xA0 || u == 0x1680 || (0x2000 <= u && u
        <= 0x200A) || u == 0x2028 || u == 0x2029 || u == 0x202F || u == 0x205F || u == 0x3000
}

/// `s` without its leading white space.
pub open spec fn trim_front(s: Seq<char>) -> Seq<char>
    decreases s.len(),
{
    if s.len() > 0 && is_white_space(s[0]) {
        trim_front(s.drop_first())
    } else {
        s
    }
}

/// `s` without its trailing white space.
pub open spec fn trim_back(s: Seq<char>) -> Seq<char>
    decreases s.len(),
{
    if s.len() > 0 && is_white_space(s.last()) {
        trim_back(s.drop_last())
    } else {
        s
    }
}

/// `s` without leading and trailing white space, as `str::trim` gives it.
pub open spec fn trimmed(s: Seq<char>) -> Seq<char> {
    trim_back(trim_front(s))
}

proof fn lemma_trim_front_skip(s: Seq<char>, a: int)
    requires
        0 <= a <= s.len(),
        forall|k: int| 0 <= k < a ==> is_white_space(#[trigger] s[k]),
    ensures
        trim_front(s) == trim_front(s.subrange(a, s.len() as int)),
    decreases a,
{
    if a > 0 {
        assert(s.drop_first().subrange(a - 1, s.drop_first().len() as int) =~= s.subrange(
            a,
            s.len() as int,
        ));
        lemma_trim_front_skip(s.drop_first(), a - 1);
    } else {
        assert(s.subrange(0, s.len() as int) =~= s);
    }
}

proof fn lemma_trim_back_skip(s: Seq<char>, b: int)
    requires
        0 <= b <= s.len(),
        forall|k: int| b <= k < s.len() ==> is_white_space(#[trigger] s[k]),
    ensures
        trim_back(s) == trim_back(s.subrange(0, b)),
    decreases s.len() - b,
{
    if b < s.len() {
        assert(s.drop_last().subrange(0, b) =~= s.subrange(0, b));
        lemma_trim_back_skip(s.drop_last(), b);
    } else {
        assert(s.subrange(0, b) =~= s);
    }
}

/// `s` without leading and trailing white space (`str::trim`).
pub fn trim_text(s: &str) -> (r: String)
    ensures
        r@ == trimmed(s@),
{
    let n: usize = s.unicode_len();
    let mut a: usize = 0;
    while a < n && is_white_space_exec(s.get_char(a))
        invariant
            n == s@.len(),
            a <= n,
            forall|k: int| 0 <= k < a ==> is_white_space(#[trigger] s@[k]),
        decreases n - a,
    {
        a = a + 1;
    }
    proof {
        lemma_trim_front_skip(s@, a as int);
    }
    let ghost front = s@.subrange(a as int, n as int);
    assert(trim_front(front) == front);
    let mut b: usize = n;
    while b > a && is_white_space_exec(s.get_char(b - 1))
        invariant
            n == s@.len(),
            a <= b <= n,
            front == s@.subrange(a as int, n as int),
            forall|k: int| b - a <= k < front.len() ==> is_white_space(#[trigger] front[k]),
        decreases b,
    {
        b = b - 1;
    }
    proof {
        lemma_trim_back_skip(front, (b - a) as int);
        assert(front.subrange(0, (b - a) as int) =~= s@.subrange(a as int, b as int));
    }
    let mut r = String::new();
    let mut k: usize = a;
    while k < b
        invariant
            n == s@.len(),
            a <= k <= b <= n,
            r@ == s@.subrange(a as int, k as int),
        decreases b - k,
    {
        push_char(&mut r, s.get_char(k));
        k = k + 1;
        assert(r@ =~= s@.subrange(a as int, k as int));
    }
    r
}

/// `s` without the characters `x` and `X` (as `replace("x", "")` followed by
/// `replace("X", "")` leaves it).
pub open spec fn without_x(s: Seq<char>) -> Seq<char>
    decreases s.len(),
{
    if s.len() == 0 {
        Seq::empty()
    } else if s.last() == 'x' || s.last() == 'X' {
        without_x(s.drop_last())
    } else {
        without_x(s.drop_last()).push(s.last())
    }
}

/// No character of `without_x(s)` is an `x` or `X`, so that it never starts
/// with a hexadecimal prefix.
pub proof fn lemma_without_x_has_no_x(s: Seq<char>)
    ensures
        forall|k: int|
            0 <= k < without_x(s).len() ==> #[trigger] without_x(s)[k] != 'x' && without_x(s)[k]
                != 'X',
        !has_hex_prefix(without_x(s), 16),
    decreases s.len(),
{
    if s.len() > 0 {
        lemma_without_x_has_no_x(s.drop_last());
    }
}

/// `s` without the characters `x` and `X`.
pub fn remove_x(s: &str) -> (r: String)
    ensures
        r@ == without_x(s@),
{
    let n: usize = s.unicode_len();
    let mut r = String::new();
    let mut k: usize = 0;
    while k < n
        invariant
            n == s@.len(),
            k <= n,
            r@ == without_x(s@.take(k as int)),
        decreases n - k,
    {
        let c: char = s.get_char(k);
        assert(s@.take(k + 1).drop_last() =~= s@.take(k as int));
        if c != 'x' && c != 'X' {
            push_char(&mut r, c);
        }
        k = k + 1;
    }
    assert(s@.take(n as int) =~= s@);
    r
}

// ---------------------------------------------------------------------------
// Whether a conversion stays within `u32`
// ---------------------------------------------------------------------------

/// `n` raised to `e`, or 2^32 when that power does not fit in `u32`.
fn pow_capped(n: u32, e: u32) -> (r: u64)
    requires
        n >= 1,
    ensures
        pow_nat(n as nat, e as nat) <= u32::MAX ==> r == pow_nat(n as nat, e as nat),
        pow_nat(n as nat, e as nat) > u32::MAX ==> r == 0x1_0000_0000,
{
    let mut r: u64 = 1;
    let mut j: u32 = 0;
    while j < e
        invariant
            n >= 1,
            j <= e,
            r == pow_nat(n as nat, j as nat),
            r <= u32::MAX,
        decreases e - j,
    {
        assert(pow_nat(n as nat, (j + 1) as nat) == n * pow_nat(n as nat, j as nat));
        assert(r * n <= 0xFFFF_FFFF * 0xFFFF_FFFF) by (nonlinear_arith)
            requires
                r <= 0xFFFF_FFFF,
                n <= 0xFFFF_FFFF,
        ;
        assert(r * n == n * r) by (nonlinear_arith);
        r = r * (n as u64);
        j = j + 1;
        if r > 0xFFFF_FFFF {
            proof {
                lemma_pow_nat_monotone(n as nat, j as nat, e as nat);
            }
            return 0x1_0000_0000;
        }
    }
    r
}

/// Returns whether converting `num` from base `n` with [`_bn_to_b10`] stays
/// within `u32` (and has a valid base when there is a character to read): the
/// condition that the conversion requires.
pub fn bn_conversion_fits(num: &str, n: u32) -> (r: bool)
    ensures
        r == bn_conversion_allowed(num@, n),
{
    let digits = strip_hex_prefix(num, n);
    digits_conversion_fits(digits.as_str(), n)
}

fn digits_conversion_fits(num: &str, n: u32) -> (r: bool)
    ensures
        r == conversion_allowed(num@, n),
{
    let count: usize = num.unicode_len();
    if count > 0 && (n < 2 || n > 36) {
        return false;
    }
    let bytes: &[u8] = num.as_bytes();
    let width: usize = bytes.len();
    assert(width == encode_utf8(num@).len());
    if width > 0xFFFF_FFFF {
        return false;
    }
    proof {
        lemma_utf8_len_at_least_chars(num@);
    }
    let ghost w: nat = width as nat;
    let mut sum: u64 = 0;
    let mut k: usize = 0;
    while k < count
        invariant
            count == num@.len(),
            w == encode_utf8(num@).len(),
            width == w,
            w >= count,
            w <= u32::MAX,
            k <= count,
            count > 0 ==> 2 <= n <= 36,
            all_digits(num@.take(k as int), n),
            sum == weighted_digit_sum(num@.take(k as int), w, n),
            sum <= u32::MAX,
            forall|j: int|
                1 <= j <= k && all_digits(#[trigger] num@.take(j), n) ==> digit_step_fits(
                    num@.take(j),
                    w,
                    n,
                ),
        decreases count - k,
    {
        let c: char = num.get_char(k);
        let ghost t = num@.take(k + 1);
        assert(t.drop_last() =~= num@.take(k as int));
        assert(t.last() == c);
        match char_digit(c, n) {
            None => {
                assert forall|j: int|
                    1 <= j <= num@.len() && all_digits(#[trigger] num@.take(j), n) implies digit_step_fits(
                    num@.take(j),
                    w,
                    n,
                ) by {
                    if j > k {
                        assert(num@.take(j)[k as int] == c);
                    }
                }
                return true;
            },
            Some(d) => {
                assert(all_digits(t, n)) by {
                    assert forall|q: int| 0 <= q < t.len() implies (#[trigger] digit_value(
                        t[q],
                        n,
                    )) is Some by {
                        if q < k {
                            assert(t[q] == num@.take(k as int)[q]);
                        }
                    }
                }
                let e: u32 = (width - 1 - k) as u32;
                let p: u64 = pow_capped(n, e);
                if p > 0xFFFF_FFFF {
                    assert(!digit_step_fits(t, w, n));
                    return false;
                }
                assert(p * d <= 0xFFFF_FFFF * 36) by (nonlinear_arith)
                    requires
                        p <= 0xFFFF_FFFF,
                        d < 36,
                ;
                let prod: u64 = p * (d as u64);
                assert(prod == d * p) by (nonlinear_arith)
                    requires
                        prod == p * d,
                ;
                if prod > 0xFFFF_FFFF {
                    assert(!digit_step_fits(t, w, n));
                    return false;
                }
                if sum + prod > 0xFFFF_FFFF {
                    assert(weighted_digit_sum(t, w, n) == sum + d * p);
                    assert(!digit_step_fits(t, w, n));
                    return false;
                }
                assert(weighted_digit_sum(t, w, n) == sum + d * p);
                sum = sum + prod;
                assert(digit_step_fits(t, w, n));
            },
        }
        k = k + 1;
    }
    assert(num@.take(count as int) =~= num@);
    true
}

// ---------------------------------------------------------------------------
// The answer check
// ---------------------------------------------------------------------------

/// The typed answer as it is read: trimmed and without any `x` or `X`.
pub open spec fn cleaned_answer(input: Seq<char>) -> Seq<char> {
    without_x(trimmed(input))
}

/// The text that is converted to a number: the cleaned answer, trimmed once
/// more for a binary or decimal answer.
pub open spec fn answer_digits(aformat: i8, input: Seq<char>) -> Seq<char> {
    if aformat == 16 {
        cleaned_answer(input)
    } else {
        trimmed(cleaned_answer(input))
    }
}

/// The number that the typed answer gives in base `aformat`, if it is made of
/// digits of that base (line breaks inside it are passed over by the digit
/// check but not by the conversion).
pub open spec fn typed_value(aformat: i8, input: Seq<char>) -> Option<u32> {
    if all_numeric(cleaned_answer(input), aformat as u32) {
        converted_value(
            answer_digits(aformat, input),
            encode_utf8(answer_digits(aformat, input)).len(),
            aformat as u32,
        )
    } else {
        None
    }
}

/// A number written in an answer format: `{:#X}`, `{:b}` or `{}`.
pub open spec fn in_answer_format(v: u32, aformat: i8) -> Seq<char> {
    if aformat == 16 {
        hex_prefixed_text(v as nat)
    } else if aformat == 2 {
        bin_text(v as nat)
    } else {
        dec_text(v as nat)
    }
}

/// The unit written after an answer: ` bytes`, doubled for binary answers that
/// were read as a number.
pub open spec fn unit_text(aformat: i8) -> Seq<char> {
    if aformat == 2 {
        " bytes bytes"@
    } else {
        " bytes"@
    }
}

/// The verdict on the typed answer `input` for the physical address `pa`: a
/// blank line, then `Good.` when it reads as `pa`, or `INCORRECT.` with the
/// answer (as read, or as typed when it does not read as a number) and `pa`.
pub open spec fn verdict_text(aformat: i8, pa: u32, input: Seq<char>) -> Seq<char> {
    "\n"@ + match typed_value(aformat, input) {
        Some(k) => if k == pa {
            "Good.\n"@
        } else {
            "INCORRECT.\n\n"@ + "your answer: "@ + in_answer_format(k, aformat) + unit_text(aformat)
                + "\nactual: "@ + in_answer_format(pa, aformat) + unit_text(aformat) + "\n"@
        },
        None => "INCORRECT.\n\n"@ + "your answer: "@ + cleaned_answer(input) + " bytes\nactual: "@
            + in_answer_format(pa, aformat) + " bytes\n"@,
    }
}

/// What the answer check needs: an answer format of 16, 2 or 10, and a
/// conversion that stays within `u32` whenever the digit check passes.
pub open spec fn answer_check_allowed(aformat: i8, input: Seq<char>) -> bool {
    &&& (aformat == 16 || aformat == 2 || aformat == 10)
    &&& all_numeric(cleaned_answer(input), aformat as u32) ==> conversion_allowed(
        answer_digits(aformat, input),
        aformat as u32,
    )
}

fn push_in_answer_format(s: &mut String, v: u32, aformat: i8)
    ensures
        final(s)@ == old(s)@ + in_answer_format(v, aformat),
{
    if aformat == 16 {
        push_hex_prefixed(s, v);
    } else if aformat == 2 {
        push_bin(s, v);
    } else {
        push_dec(s, v);
    }
}

fn push_unit(s: &mut String, aformat: i8)
    ensures
        final(s)@ == old(s)@ + unit_text(aformat),
{
    if aformat == 2 {
        s.append(" bytes bytes");
    } else {
        s.append(" bytes");
    }
}

/// Returns whether the answer check can be made on `input` (see
/// [`answer_check_allowed`]).
pub fn answer_check_fits(aformat: i8, input: &str) -> (r: bool)
    ensures
        r == answer_check_allowed(aformat, input@),
{
    if aformat != 16 && aformat != 2 && aformat != 10 {
        return false;
    }
    let t = trim_text(input);
    let cleaned = remove_x(t.as_str());
    proof {
        lemma_without_x_has_no_x(t@);
    }
    if !_are_all_numeric(cleaned.as_str(), aformat as u32) {
        return true;
    }
    if aformat == 16 {
        bn_conversion_fits(cleaned.as_str(), 16)
    } else {
        let digits = trim_text(cleaned.as_str());
        bn_conversion_fits(digits.as_str(), aformat as u32)
    }
}

/// The instruction printed before the answer is typed, for an answer format of
/// 16, 2 or 10.
pub open spec fn answer_instructions_text(aformat: i8) -> Seq<char> {
    if aformat == 16 {
        "Type your answer in hexadecimal format with or without the `0x` then press enter and ctrl+d\n"@
    } else if aformat == 2 {
        "Type your answer in binary format with or without leading zeros then press enter and ctrl+d\n"@
    } else {
        "Type your answer in decimal format (base 10, no decimal points) then press enter and ctrl+d\n"@
    }
}

/// The instruction printed before the answer is typed.
pub fn answer_instructions(aformat: i8) -> (r: String)
    requires
        aformat == 16 || aformat == 2 || aformat == 10,
    ensures
        r@ == answer_instructions_text(aformat),
{
    let mut s = String::new();
    if aformat == 16 {
        s.append("Type your answer in hexadecimal format with or without the `0x` then press enter and ctrl+d\n");
    } else if aformat == 2 {
        s.append("Type your answer in binary format with or without leading zeros then press enter and ctrl+d\n");
    } else {
        s.append("Type your answer in decimal format (base 10, no decimal points) then press enter and ctrl+d\n");
    }
    s
}

/// Checks the answer typed by the student (`input`, as read) against the
/// physical address `pa` in the answer format `aformat` (16, 2 or 10): the text
/// is trimmed and stripped of `x` and `X`, checked to hold only digits of the
/// base, read as a number and compared. Returns the verdict to print.
pub fn compare_answer(aformat: i8, pa: u32, input: &str) -> (r: String)
    requires
        answer_check_allowed(aformat, input@),
    ensures
        r@ == verdict_text(aformat, pa, input@),
{
    let t = trim_text(input);
    let cleaned = remove_x(t.as_str());
    proof {
        lemma_without_x_has_no_x(t@);
    }
    let radix: u32 = aformat as u32;
    let value: Option<u32> = if _are_all_numeric(cleaned.as_str(), radix) {
        if aformat == 16 {
            _bn_to_b10(cleaned.as_str(), radix)
        } else {
            let digits = trim_text(cleaned.as_str());
            _bn_to_b10(digits.as_str(), radix)
        }
    } else {
        None
    };
    assert(value == typed_value(aformat, input@));
    let mut s = String::new();
    s.append("\n");
    match value {
        Some(k) => {
            if k == pa {
                s.append("Good.\n");
            } else {
                s.append("INCORRECT.\n\n");
                s.append("your answer: ");
                push_in_answer_format(&mut s, k, aformat);
                push_unit(&mut s, aformat);
                s.append("\nactual: ");
                push_in_answer_format(&mut s, pa, aformat);
                push_unit(&mut s, aformat);
                s.append("\n");
            }
        },
        None => {
            s.append("INCORRECT.\n\n");
            s.append("your answer: ");
            s.append(cleaned.as_str());
            s.append(" bytes\nactual: ");
            push_in_answer_format(&mut s, pa, aformat);
            s.append(" bytes\n");
        },
    }
    proof {
        assert(s@ =~= verdict_text(aformat, pa, input@));
    }
    s
}

} // verus!
