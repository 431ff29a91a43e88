//! Properties that hold across the functions of the library: a number written
//! out in a base reads back as itself, a correctly typed answer is accepted
//! (with or without a `0x` prefix or leading zeros),
//! the binary width of a number is its number of bits, the grouped binary of
//! an address is its padded binary, a virtual address splits into selector and
//! offset, and the address found for a point in the stack translates back to
//! that point.

use vstd::prelude::*;
use vstd::utf8::encode_utf8;
use vstd::arithmetic::power2::pow2;
use crate::digits::{pow_nat, raw_digit_value, digit_value, digit_char, radix_text, dec_text, bin_text, hex_text, hex_prefixed_text};
use crate::lib_fns::{
    all_digits, weighted_digit_sum, digit_step_fits, conversion_fits, conversion_allowed,
    converted_value, all_numeric, skipped_by_digit_check, bits_reqd, lemma_pow_nat_monotone,
    bn_conversion_allowed, bn_value,
    repeat_char, padded_bin_text, leading_zeros_text, hyphens_text, bit_group, groups_text,
    high_bits, readable_binary_text, readable_binary_allowed, lemma_pow_nat_two_is_pow2,
};
use crate::problems::lemma_readable_binary_allowed;
use crate::answers::{
    is_white_space, trim_front, trim_back, trimmed, without_x, cleaned_answer, answer_digits,
    typed_value, in_answer_format, verdict_text, answer_check_allowed,
};
use crate::segments::{
    SegName, layout_conflicting, layout_out_of_bounds, va_is_valid, in_segment, selected_segment,
    pair_findings, is_selector,
    Segment, as_i32, wrap_u32, answer_terms_fit, answer_value, stack_selector_bits,
    thousandths_to_u32, stack_offset_thousandths, stack_answer, selector_of,
};
use crate::solutions::{
    selected_index, translation_allowed, translation_solution_text, translation_solution_allowed,
    translation_formula_text, upward_formula_text, stack_formula_text, answer_line_text, closing_text,
};
use crate::questions::{format_specifiers, stack_answer_format, va_in_format};
use crate::menus::{decimal_digit, all_decimal, decimal_value, parsed_i8};

verus! {

// ---------------------------------------------------------------------------
// Digits and their values
// ---------------------------------------------------------------------------

/// The value of the digits `s` in base `r`, most significant first.
pub open spec fn digits_value(s: Seq<char>, r: u32) -> nat
    decreases s.len(),
{
    if s.len() == 0 {
        0
    } else {
        digits_value(s.drop_last(), r) * (r as nat) + digit_value(s.last(), r).unwrap() as nat
    }
}

/// The digit character of `d` reads back as `d` in any base above `d` up to 16.
pub proof fn lemma_digit_char_value(d: nat, r: u32)
    requires
        d < r <= 16,
    ensures
        digit_value(digit_char(d), r) == Some(d as u32),
        (digit_char(d) as u32) < 0x80,
        !skipped_by_digit_check(digit_char(d)),
{
    assert(raw_digit_value(digit_char(d)) == Some(d as u32));
}

/// `radix_text(v, r)` is made of digits of base `r` that read back as `v`, and
/// its first digit is not zero unless `v` is.
pub proof fn lemma_radix_text_digits(v: nat, r: u32)
    requires
        2 <= r <= 16,
    ensures
        radix_text(v, r as nat).len() >= 1,
        all_digits(radix_text(v, r as nat), r),
        digits_value(radix_text(v, r as nat), r) == v,
        forall|k: int|
            0 <= k < radix_text(v, r as nat).len() ==> ((#[trigger] radix_text(v, r as nat)[k]) as u32)
                < 0x80 && !skipped_by_digit_check(radix_text(v, r as nat)[k]),
        v >= 1 ==> digit_value(radix_text(v, r as nat)[0], r).unwrap() >= 1,
    decreases v,
{
    let t = radix_text(v, r as nat);
    let rn = r as nat;
    if v < rn {
        lemma_digit_char_value(v, r);
        assert(t == seq![digit_char(v)]);
        assert(t.drop_last() =~= Seq::<char>::empty());
        assert(t.last() == digit_char(v));
        assert(digits_value(t.drop_last(), r) == 0);
        assert(digits_value(t.drop_last(), r) * rn == 0) by (nonlinear_arith)
            requires
                digits_value(t.drop_last(), r) == 0,
        ;
        assert(digits_value(t, r) == digits_value(t.drop_last(), r) * rn + digit_value(t.last(), r).unwrap() as nat);
        assert(digit_value(t.last(), r).unwrap() as nat == v);
        assert(digits_value(t, r) == v);
        assert(all_digits(t, r)) by {
            assert forall|k: int| 0 <= k < t.len() implies (#[trigger] digit_value(t[k], r)) is Some by {
                assert(k == 0);
            }
        }
    } else {
        let q = v / rn;
        let m = v % rn;
        assert(q < v) by (nonlinear_arith)
            requires
                v >= rn,
                rn >= 2,
                q == v / rn,
        ;
        assert(q >= 1) by (nonlinear_arith)
            requires
                v >= rn,
                rn >= 2,
                q == v / rn,
        ;
        assert(v == q * rn + m) by (nonlinear_arith)
            requires
                rn >= 2,
                q == v / rn,
                m == v % rn,
        ;
        assert(m < rn) by (nonlinear_arith)
            requires
                rn >= 2,
                m == v % rn,
        ;
        lemma_radix_text_digits(q, r);
        let u = radix_text(q, rn);
        assert(t == u.push(digit_char(m)));
        lemma_digit_char_value(m, r);
        assert(t.drop_last() =~= u);
        assert(t.last() == digit_char(m));
        assert(all_digits(t, r)) by {
            assert forall|k: int| 0 <= k < t.len() implies (#[trigger] digit_value(t[k], r)) is Some by {
                if k < u.len() {
                    assert(t[k] == u[k]);
                }
            }
        }
        assert forall|k: int| 0 <= k < t.len() implies ((#[trigger] t[k]) as u32) < 0x80
            && !skipped_by_digit_check(t[k]) by {
            if k < u.len() {
                assert(t[k] == u[k]);
            }
        }
        assert(digits_value(t, r) == digits_value(t.drop_last(), r) * rn + digit_value(t.last(), r).unwrap() as nat);
        assert(digits_value(t, r) == q * rn + m);
        assert(digits_value(t, r) == v);
        assert(t[0] == u[0]);
    }
}

/// A text of ASCII characters is as long in UTF-8 as in characters.
pub proof fn lemma_ascii_utf8_len(s: Seq<char>)
    requires
        forall|k: int| 0 <= k < s.len() ==> ((#[trigger] s[k]) as u32) < 0x80,
    ensures
        encode_utf8(s).len() == s.len(),
    decreases s.len(),
{
    if s.len() > 0 {
        assert((s[0] as u32) < 0x80);
        assert forall|k: int| 0 <= k < s.drop_first().len() implies ((#[trigger] s.drop_first()[k]) as u32)
            < 0x80 by {
            assert(s.drop_first()[k] == s[k + 1]);
        }
        lemma_ascii_utf8_len(s.drop_first());
    }
}

/// The weighted sum of the conversion is the value of the digits scaled by the
/// places that follow them.
pub proof fn lemma_weighted_is_scaled_value(t: Seq<char>, width: nat, r: u32)
    requires
        t.len() <= width,
        all_digits(t, r),
    ensures
        weighted_digit_sum(t, width, r) == digits_value(t, r) * pow_nat(
            r as nat,
            (width - t.len()) as nat,
        ),
    decreases t.len(),
{
    if t.len() > 0 {
        let u = t.drop_last();
        assert(all_digits(u, r)) by {
            assert forall|k: int| 0 <= k < u.len() implies (#[trigger] digit_value(u[k], r)) is Some by {
                assert(u[k] == t[k]);
            }
        }
        lemma_weighted_is_scaled_value(u, width, r);
        let rn = r as nat;
        let e = (width - t.len()) as nat;
        let d = digit_value(t.last(), r).unwrap() as nat;
        let hv = digits_value(u, r);
        let pe = pow_nat(rn, e);
        assert(pow_nat(rn, e + 1) == rn * pe);
        assert((width - u.len()) as nat == e + 1);
        assert(weighted_digit_sum(u, width, r) == hv * (rn * pe));
        assert(weighted_digit_sum(t, width, r) == weighted_digit_sum(u, width, r) + d * pe);
        assert(digits_value(t, r) == hv * rn + d);
        assert(hv * (rn * pe) + d * pe == (hv * rn + d) * pe) by (nonlinear_arith);
    } else {
        assert(weighted_digit_sum(t, width, r) == 0);
        assert(digits_value(t, r) == 0);
    }
}

/// The weighted sums of the prefixes of a text grow with the prefix.
pub proof fn lemma_weighted_prefix_monotone(s: Seq<char>, j: int, width: nat, r: u32)
    requires
        0 <= j <= s.len(),
    ensures
        weighted_digit_sum(s.take(j), width, r) <= weighted_digit_sum(s, width, r),
    decreases s.len() - j,
{
    if j < s.len() {
        lemma_weighted_prefix_monotone(s, j + 1, width, r);
        assert(s.take(j + 1).drop_last() =~= s.take(j));
    } else {
        assert(s.take(j) =~= s);
    }
}

/// A text of digits whose value and leading place fit in `u32` converts
/// without overflow to its value.
pub proof fn lemma_digits_convert(s: Seq<char>, r: u32)
    requires
        2 <= r <= 36,
        s.len() >= 1,
        all_digits(s, r),
        forall|k: int| 0 <= k < s.len() ==> ((#[trigger] s[k]) as u32) < 0x80,
        digits_value(s, r) <= u32::MAX,
        pow_nat(r as nat, (s.len() - 1) as nat) <= u32::MAX,
    ensures
        conversion_allowed(s, r),
        converted_value(s, encode_utf8(s).len(), r) == Some(digits_value(s, r) as u32),
{
    lemma_ascii_utf8_len(s);
    lemma_exp_below_pow_nat(r as nat, (s.len() - 1) as nat);
    let w = s.len();
    lemma_weighted_is_scaled_value(s, w, r);
    assert(pow_nat(r as nat, 0) == 1);
    assert(digits_value(s, r) * pow_nat(r as nat, 0) == digits_value(s, r)) by (nonlinear_arith)
        requires
            pow_nat(r as nat, 0) == 1,
    ;
    assert(weighted_digit_sum(s, w, r) == digits_value(s, r));
    assert forall|j: int| 1 <= j <= s.len() && all_digits(#[trigger] s.take(j), r) implies digit_step_fits(
        s.take(j),
        w,
        r,
    ) by {
        let t = s.take(j);
        lemma_weighted_prefix_monotone(s, j, w, r);
        lemma_pow_nat_monotone(r as nat, (w - j) as nat, (w - 1) as nat);
        assert(t.drop_last() =~= s.take(j - 1));
        assert(weighted_digit_sum(t, w, r) == weighted_digit_sum(s.take(j - 1), w, r) + digit_value(
            t.last(),
            r,
        ).unwrap() as nat * pow_nat(r as nat, (w - j) as nat));
    }
}

/// An exponent is below the power of a base of at least 2 that it gives.
pub proof fn lemma_exp_below_pow_nat(b: nat, e: nat)
    requires
        b >= 2,
    ensures
        e < pow_nat(b, e),
    decreases e,
{
    if e > 0 {
        lemma_exp_below_pow_nat(b, (e - 1) as nat);
        assert(b * pow_nat(b, (e - 1) as nat) >= 2 * pow_nat(b, (e - 1) as nat)) by (nonlinear_arith)
            requires
                b >= 2,
        ;
    }
}

/// The value of digits with a zero put in front is unchanged.
pub proof fn lemma_leading_zero_value(t: Seq<char>, r: u32)
    requires
        2 <= r <= 36,
    ensures
        digits_value(seq!['0'] + t, r) == digits_value(t, r),
    decreases t.len(),
{
    let z = seq!['0'] + t;
    if t.len() == 0 {
        assert(z.drop_last() =~= Seq::<char>::empty());
        assert(raw_digit_value('0') == Some(0u32));
        assert(z.last() == '0');
        assert(digits_value(z.drop_last(), r) * (r as nat) == 0) by (nonlinear_arith)
            requires
                digits_value(z.drop_last(), r) == 0,
        ;
        assert(digits_value(z, r) == digits_value(z.drop_last(), r) * (r as nat) + digit_value(z.last(), r).unwrap() as nat);
    } else {
        lemma_leading_zero_value(t.drop_last(), r);
        assert((seq!['0'] + t).drop_last() =~= seq!['0'] + t.drop_last());
        assert((seq!['0'] + t).last() == t.last());
    }
}

// ---------------------------------------------------------------------------
// A number written out reads back as itself
// ---------------------------------------------------------------------------

/// The leading place of `radix_text(v, r)` is worth at most `v` (or 1 for 0).
pub proof fn lemma_radix_text_leading_place(v: nat, r: u32)
    requires
        2 <= r <= 16,
    ensures
        radix_text(v, r as nat).len() >= 1,
        pow_nat(r as nat, (radix_text(v, r as nat).len() - 1) as nat) <= if v == 0 {
            1
        } else {
            v
        },
{
    let s = radix_text(v, r as nat);
    lemma_radix_text_digits(v, r);
    let e = (s.len() - 1) as nat;
    if v >= 1 {
        lemma_weighted_is_scaled_value(s.take(1), s.len(), r);
        lemma_weighted_prefix_monotone(s, 1, s.len(), r);
        lemma_weighted_is_scaled_value(s, s.len(), r);
        assert(pow_nat(r as nat, 0) == 1);
        assert(s.take(1).drop_last() =~= Seq::<char>::empty());
        assert(s.take(1).last() == s[0]);
        assert(digits_value(s.take(1).drop_last(), r) * (r as nat) == 0) by (nonlinear_arith)
            requires
                digits_value(s.take(1).drop_last(), r) == 0,
        ;
        assert(all_digits(s.take(1), r)) by {
            assert(s.take(1)[0] == s[0]);
        }
        assert(digits_value(s.take(1), r) == digit_value(s[0], r).unwrap() as nat);
        assert(digit_value(s[0], r).unwrap() as nat * pow_nat(r as nat, e) >= pow_nat(r as nat, e))
            by (nonlinear_arith)
            requires
                digit_value(s[0], r).unwrap() as nat >= 1,
        ;
        assert(digits_value(s, r) * pow_nat(r as nat, 0) == digits_value(s, r)) by (nonlinear_arith)
            requires
                pow_nat(r as nat, 0) == 1,
        ;
        assert(weighted_digit_sum(s, s.len(), r) == v);
        assert(weighted_digit_sum(s.take(1), s.len(), r) == digit_value(s[0], r).unwrap() as nat
            * pow_nat(r as nat, e));
    } else {
        assert(s.len() == 1);
        assert(pow_nat(r as nat, 0) == 1);
    }
}

/// A number written in base 2, 10 or 16 (as `{:b}`, `{}` and `{:X}` write it)
/// reads back as itself with [`crate::lib_fns::_bn_to_b10`] in the same base,
/// and the conversion stays within `u32`.
pub proof fn lemma_formatted_number_reads_back(v: u32, radix: u32)
    requires
        radix == 2 || radix == 10 || radix == 16,
    ensures
        conversion_allowed(radix_text(v as nat, radix as nat), radix),
        converted_value(
            radix_text(v as nat, radix as nat),
            encode_utf8(radix_text(v as nat, radix as nat)).len(),
            radix,
        ) == Some(v),
        bn_conversion_allowed(radix_text(v as nat, radix as nat), radix),
        bn_value(radix_text(v as nat, radix as nat), radix) == Some(v),
{
    lemma_radix_text_digits(v as nat, radix);
    if radix_text(v as nat, radix as nat).len() >= 2 {
        assert(!skipped_by_digit_check(radix_text(v as nat, radix as nat)[1]));
    }
    lemma_radix_text_leading_place(v as nat, radix);
    lemma_digits_convert(radix_text(v as nat, radix as nat), radix);
}


// ---------------------------------------------------------------------------
// A correctly typed answer is accepted
// ---------------------------------------------------------------------------

/// A digit of a base is neither white space nor an `x`.
proof fn lemma_digit_is_plain(c: char, r: u32)
    requires
        r <= 16,
        digit_value(c, r) is Some,
    ensures
        !is_white_space(c),
        c != 'x',
        c != 'X',
{
}

/// A text that neither starts nor ends with white space is its own trim.
proof fn lemma_trimmed_unchanged(s: Seq<char>)
    requires
        s.len() > 0,
        !is_white_space(s[0]),
        !is_white_space(s.last()),
    ensures
        trimmed(s) == s,
{
    assert(trim_front(s) == s);
    assert(trim_back(s) == s);
}

/// Such a text followed by a line break trims to the text.
proof fn lemma_trimmed_line(s: Seq<char>)
    requires
        s.len() > 0,
        !is_white_space(s[0]),
        !is_white_space(s.last()),
    ensures
        trimmed(s + "\n"@) == s,
{
    reveal_strlit("\n");
    let l = s + "\n"@;
    assert(l[0] == s[0]);
    assert(trim_front(l) == l);
    assert(l.last() == '\n');
    assert(l.drop_last() =~= s);
    assert(trim_back(l) == trim_back(s));
    lemma_trimmed_unchanged(s);
}

/// Removing the `x`s of `p + t`, where `t` has none, removes those of `p`.
proof fn lemma_without_x_append(p: Seq<char>, t: Seq<char>)
    requires
        forall|k: int| 0 <= k < t.len() ==> #[trigger] t[k] != 'x' && t[k] != 'X',
    ensures
        without_x(p + t) == without_x(p) + t,
    decreases t.len(),
{
    if t.len() == 0 {
        assert(p + t =~= p);
        assert(without_x(p) + t =~= without_x(p));
    } else {
        let u = t.drop_last();
        assert forall|k: int| 0 <= k < u.len() implies #[trigger] u[k] != 'x' && u[k] != 'X' by {
            assert(u[k] == t[k]);
        }
        lemma_without_x_append(p, u);
        assert((p + t).drop_last() =~= p + u);
        assert((p + t).last() == t.last());
        assert(t.last() == t[t.len() - 1]);
        assert(without_x(p) + t =~= (without_x(p) + u).push(t.last()));
    }
}

/// A number below `r^k` takes at most `k` digits in base `r`.
proof fn lemma_radix_text_short(v: nat, r: u32, k: nat)
    requires
        2 <= r <= 16,
        k >= 1,
        v < pow_nat(r as nat, k),
    ensures
        radix_text(v, r as nat).len() <= k,
    decreases v,
{
    let rn = r as nat;
    if v >= rn {
        if k == 1 {
            assert(pow_nat(rn, 0) == 1);
            assert(pow_nat(rn, 1) == rn * pow_nat(rn, 0));
            assert(rn * 1 == rn) by (nonlinear_arith);
            assert(false);
        }
        let p = pow_nat(rn, (k - 1) as nat);
        assert(pow_nat(rn, k) == rn * p);
        let q = v / rn;
        assert(q < p) by (nonlinear_arith)
            requires
                v < rn * p,
                q == v / rn,
                rn >= 2,
        ;
        assert(q < v) by (nonlinear_arith)
            requires
                v >= rn,
                rn >= 2,
                q == v / rn,
        ;
        lemma_radix_text_short(q, r, (k - 1) as nat);
    }
}

/// What the answer check reads from a typed text `s` that is a run of digits
/// of base `r` put after `prefix` (empty, or `0x`), with or without a final
/// line break: the digits with the prefix's `0` kept.
proof fn lemma_typed_digits(aformat: i8, prefix: Seq<char>, t: Seq<char>, input: Seq<char>)
    requires
        aformat == 16 || aformat == 2 || aformat == 10,
        prefix == Seq::<char>::empty() || (aformat == 16 && prefix == seq!['0', 'x']),
        t.len() > 0,
        all_digits(t, aformat as u32),
        input == prefix + t || input == prefix + t + "\n"@,
    ensures
        answer_digits(aformat, input) == without_x(prefix) + t,
        all_numeric(cleaned_answer(input), aformat as u32),
        all_digits(without_x(prefix) + t, aformat as u32),
        prefix.len() == 0 ==> without_x(prefix) + t == t,
        prefix.len() > 0 ==> without_x(prefix) + t == seq!['0'] + t,
{
    let r = aformat as u32;
    let s = prefix + t;
    assert forall|k: int| 0 <= k < t.len() implies #[trigger] t[k] != 'x' && t[k] != 'X'
        && !is_white_space(t[k]) by {
        assert(digit_value(t[k], r) is Some);
        lemma_digit_is_plain(t[k], r);
    }
    assert(s.last() == t[t.len() - 1]);
    if prefix.len() == 0 {
        assert(s =~= t);
        assert(s[0] == t[0]);
    } else {
        assert(s[0] == '0');
    }
    if input == s {
        lemma_trimmed_unchanged(s);
    } else {
        lemma_trimmed_line(s);
    }
    assert(trimmed(input) == s);
    lemma_without_x_append(prefix, t);
    let c = without_x(prefix) + t;
    if prefix.len() == 0 {
        assert(without_x(prefix) =~= Seq::<char>::empty());
        assert(c =~= t);
    } else {
        let z = seq!['0'];
        assert(seq!['0', 'x'].drop_last() =~= z);
        assert(seq!['0', 'x'].last() == 'x');
        assert(z.drop_last() =~= Seq::<char>::empty());
        assert(z.last() == '0');
        assert(without_x(Seq::<char>::empty()) =~= Seq::<char>::empty());
        assert(without_x(z) == without_x(z.drop_last()).push('0'));
        assert(without_x(z) =~= z);
        assert(without_x(prefix) =~= seq!['0']);
    }
    assert(cleaned_answer(input) == c);
    assert(raw_digit_value('0') == Some(0u32));
    assert(all_digits(c, r)) by {
        assert forall|k: int| 0 <= k < c.len() implies (#[trigger] digit_value(c[k], r)) is Some by {
            if prefix.len() == 0 {
                assert(c[k] == t[k]);
            } else if k == 0 {
                assert(c[k] == '0');
            } else {
                assert(c[k] == t[k - 1]);
            }
        }
    }
    if aformat != 16 {
        assert(c =~= t);
        lemma_trimmed_unchanged(t);
    }
}

/// A student who types the physical address the way the verdict's `actual:`
/// line writes it (`0x` and upper-case hexadecimal digits, binary digits, or
/// decimal digits), whether or not the line break that ends the typing is
/// still there, is told `Good.`, and the check can be made on that input. With
/// the `0x` prefix the prefix's `0` counts as a digit, so a hexadecimal address
/// must be below 2^28 for the conversion to stay within `u32`.
pub proof fn lemma_correct_answer_accepted(aformat: i8, pa: u32, input: Seq<char>)
    requires
        aformat == 16 || aformat == 2 || aformat == 10,
        aformat == 16 ==> pa < 0x1000_0000,
        input == in_answer_format(pa, aformat) || input == in_answer_format(pa, aformat) + "\n"@,
    ensures
        answer_check_allowed(aformat, input),
        verdict_text(aformat, pa, input) == "\n"@ + "Good.\n"@,
{
    let r = aformat as u32;
    let t = radix_text(pa as nat, r as nat);
    lemma_radix_text_digits(pa as nat, r);
    if aformat == 16 {
        let prefix = seq!['0', 'x'];
        assert(in_answer_format(pa, aformat) == prefix + t);
        lemma_typed_digits(aformat, prefix, t, input);
        let d = seq!['0'] + t;
        assert(without_x(prefix) + t == d);
        lemma_leading_zero_value(t, r);
        assert(pow_nat(16, 7) == 0x1000_0000) by {
            reveal_with_fuel(pow_nat, 8);
        }
        lemma_radix_text_short(pa as nat, r, 7);
        lemma_pow_nat_monotone(16, (d.len() - 1) as nat, 7);
        assert forall|k: int| 0 <= k < d.len() implies ((#[trigger] d[k]) as u32) < 0x80 by {
            if k > 0 {
                assert(d[k] == t[k - 1]);
            }
        }
        lemma_digits_convert(d, r);
    } else {
        assert(in_answer_format(pa, aformat) == t);
        assert(Seq::<char>::empty() + t =~= t);
        lemma_typed_digits(aformat, Seq::<char>::empty(), t, input);
        assert(without_x(Seq::<char>::empty()) + t =~= t);
        lemma_formatted_number_reads_back(pa, r);
    }
    assert(typed_value(aformat, input) == Some(pa));
}

/// The verdict is `Good.` exactly when the typed answer reads, in the answer
/// format, as the physical address; any other answer is told `INCORRECT.`.
pub proof fn lemma_good_only_for_the_address(aformat: i8, pa: u32, input: Seq<char>)
    ensures
        verdict_text(aformat, pa, input) == "\n"@ + "Good.\n"@ <==> typed_value(aformat, input)
            == Some(pa),
        typed_value(aformat, input) != Some(pa) ==> verdict_text(aformat, pa, input).subrange(1, 11)
            == "INCORRECT."@,
{
    reveal_strlit("\n");
    reveal_strlit("Good.\n");
    reveal_strlit("INCORRECT.\n\n");
    reveal_strlit("INCORRECT.");
    let v = verdict_text(aformat, pa, input);
    if typed_value(aformat, input) != Some(pa) {
        assert(v.subrange(1, 11) =~= "INCORRECT."@);
        assert(v[1] == 'I');
        assert(("\n"@ + "Good.\n"@)[1] == 'G');
    }
}

/// The hexadecimal answer may also be typed without its `0x` prefix: the
/// upper-case hexadecimal digits of the physical address, with or without the
/// final line break, are told `Good.` for every address.
pub proof fn lemma_unprefixed_hex_answer_accepted(pa: u32, input: Seq<char>)
    requires
        input == hex_text(pa as nat) || input == hex_text(pa as nat) + "\n"@,
    ensures
        answer_check_allowed(16, input),
        verdict_text(16, pa, input) == "\n"@ + "Good.\n"@,
{
    let t = radix_text(pa as nat, 16);
    lemma_radix_text_digits(pa as nat, 16);
    assert(Seq::<char>::empty() + t =~= t);
    assert(Seq::<char>::empty() + t + "\n"@ =~= t + "\n"@);
    lemma_typed_digits(16, Seq::<char>::empty(), t, input);
    assert(without_x(Seq::<char>::empty()) + t =~= t);
    lemma_formatted_number_reads_back(pa, 16);
    assert(typed_value(16, input) == Some(pa));
}


// ---------------------------------------------------------------------------
// Virtual addresses: selector and offset
// ---------------------------------------------------------------------------

/// A virtual address of `power_of2` bits is its segment selector (its two top
/// bits, below 4) times the maximum segment size `2^(power_of2 - 2)`, plus its
/// offset, which is below the maximum segment size.
pub proof fn lemma_va_splits(va: u32, power_of2: u32)
    requires
        2 <= power_of2 <= 32,
        va < pow2(power_of2 as nat),
    ensures
        selector_of(va, power_of2) < 4,
        va as nat % pow2((power_of2 - 2) as nat) < pow2((power_of2 - 2) as nat),
        selector_of(va, power_of2) * pow2((power_of2 - 2) as nat) + va as nat % pow2(
            (power_of2 - 2) as nat,
        ) == va,
{
    let k: u32 = (power_of2 - 2) as u32;
    let m = pow2(k as nat);
    vstd::bits::lemma_u32_shr_is_div(va, k);
    vstd::arithmetic::power2::lemma_pow2_pos(k as nat);
    vstd::arithmetic::power2::lemma_pow2_adds(k as nat, 2);
    vstd::arithmetic::power2::lemma2_to64();
    assert(pow2(power_of2 as nat) == m * 4);
    vstd::arithmetic::div_mod::lemma_fundamental_div_mod(va as int, m as int);
    vstd::arithmetic::div_mod::lemma_mod_bound(va as int, m as int);
    let q = va as nat / m;
    assert(q < 4) by (nonlinear_arith)
        requires
            va < m * 4,
            q == va as nat / m,
            m > 0,
    ;
    assert(q * m == m * q) by (nonlinear_arith);
}

// ---------------------------------------------------------------------------
// A point in the stack translates back to that point
// ---------------------------------------------------------------------------

/// The distance in bytes, rounded up, from the base of the stack `seg` to the
/// point `percent`% of the way into it: `percent/100 * size * 1024` with the
/// size in K, that is `1024 * percent * size_tenths` thousandths of a byte.
pub open spec fn stack_point_bytes(seg: Segment, percent: u32) -> int {
    (1024 * percent * seg.size_tenths + 999) / 1000
}

/// The virtual address found for the point `percent`% of the way into a stack
/// (one that grows downward and is the third segment of the layout) lies in the
/// address space, has the stack's selector `11` and the offset found with it;
/// it can be translated, and it translates to the physical address that lies
/// [`stack_point_bytes`] below the stack's base (as a `u32`). The point must be
/// past the base and within the maximum segment size `2^(power_of2 - 2)`.
#[verifier::spinoff_prover]
pub proof fn lemma_stack_point_translates_back(
    seg: Segment,
    percent: u32,
    power_of2: u32,
    segments: Seq<Segment>,
)
    requires
        2 <= power_of2 <= 32,
        seg.grows_negative == 1,
        seg.base * 1024 <= i32::MAX,
        0 < 1024 * percent * seg.size_tenths <= 1000 * pow2((power_of2 - 2) as nat),
        segments.len() >= 3,
        segments[2] == seg,
    ensures
        stack_answer(seg, percent, pow2((power_of2 - 2) as nat) as u32, power_of2).0 < pow2(
            power_of2 as nat,
        ),
        selector_of(
            stack_answer(seg, percent, pow2((power_of2 - 2) as nat) as u32, power_of2).0,
            power_of2,
        ) == 3,
        stack_answer(seg, percent, pow2((power_of2 - 2) as nat) as u32, power_of2).0 as nat % pow2(
            (power_of2 - 2) as nat,
        ) == stack_answer(seg, percent, pow2((power_of2 - 2) as nat) as u32, power_of2).1,
        translation_allowed(
            stack_answer(seg, percent, pow2((power_of2 - 2) as nat) as u32, power_of2).0,
            power_of2,
            segments,
        ),
        answer_value(
            seg,
            pow2((power_of2 - 2) as nat) as u32,
            stack_answer(seg, percent, pow2((power_of2 - 2) as nat) as u32, power_of2).1,
        ) == wrap_u32(seg.base * 1024 - stack_point_bytes(seg, percent)),
{
    let k: u32 = (power_of2 - 2) as u32;
    let m = pow2(k as nat);
    let mss = m as u32;
    vstd::arithmetic::power2::lemma2_to64();
    vstd::arithmetic::power2::lemma_pow2_pos(k as nat);
    if k < 30 {
        vstd::arithmetic::power2::lemma_pow2_strictly_increases(k as nat, 30);
    }
    assert(m <= 0x4000_0000);
    assert(mss == m);
    vstd::bits::lemma_u32_shl_is_mul(3, k);
    let b = stack_selector_bits(power_of2);
    assert(b == 3 * m);
    let c = 1024 * percent * seg.size_tenths;
    assert(seg.size_tenths != 0) by {
        if seg.size_tenths == 0 {
            assert(1024 * percent * seg.size_tenths == 0) by (nonlinear_arith)
                requires
                    seg.size_tenths == 0,
            ;
        }
    }
    let t = stack_offset_thousandths(seg, percent, mss);
    assert(t == 1000 * m - c);
    assert(0 <= t < 1000 * m);
    let off = thousandths_to_u32(t);
    assert(off == t / 1000);
    assert(off < m);
    let vt = t + 1000 * b;
    assert(vt / 1000 == t / 1000 + b);
    let va = thousandths_to_u32(vt);
    assert(va == b + off);
    assert(stack_answer(seg, percent, mss, power_of2) == (va, off));
    vstd::arithmetic::power2::lemma_pow2_adds(k as nat, 2);
    assert(pow2(power_of2 as nat) == m * 4);
    assert(va < pow2(power_of2 as nat));
    vstd::bits::lemma_u32_shr_is_div(va, k);
    vstd::arithmetic::div_mod::lemma_fundamental_div_mod_converse(va as int, m as int, 3, off as int);
    assert(selector_of(va, power_of2) == 3);
    assert(va as nat % m == off);
    let e = stack_point_bytes(seg, percent);
    assert(m - off == e);
    assert(as_i32(seg.grows_negative) == 1);
    assert(as_i32(mss) == m);
    assert(as_i32(seg.base) == seg.base);
    assert(as_i32(off) == off);
    let g = as_i32(seg.grows_negative);
    let mi = as_i32(mss);
    assert(g == 1);
    assert(mi == m);
    assert(-g * mi == -(m as int)) by (nonlinear_arith)
        requires
            g == 1,
            mi == m,
    ;
    assert(as_i32(seg.base) * 1024 == seg.base * 1024);
    assert(off <= m - 1);
    assert(answer_terms_fit(seg, mss, off));
    assert(selected_index(selector_of(va, power_of2)) == 2);
}


// ---------------------------------------------------------------------------
// Binary widths
// ---------------------------------------------------------------------------

/// Zeros put in front of digits leave their value unchanged.
proof fn lemma_zeros_value(n: nat, t: Seq<char>, r: u32)
    requires
        2 <= r <= 36,
    ensures
        digits_value(repeat_char('0', n) + t, r) == digits_value(t, r),
    decreases n,
{
    if n == 0 {
        assert(repeat_char('0', 0) + t =~= t);
    } else {
        lemma_zeros_value((n - 1) as nat, t, r);
        lemma_leading_zero_value(repeat_char('0', (n - 1) as nat) + t, r);
        assert(repeat_char('0', n) + t =~= seq!['0'] + (repeat_char('0', (n - 1) as nat) + t));
    }
}

/// The number of bits of `v` (what `num_bits_reqd` returns) is the number of
/// digits that `{:b}` writes. Padded with the zeros of `print_leading_zeros`,
/// the binary digits take exactly `width` characters and still read as `v`;
/// the row of `print_hyphens` has one hyphen per binary digit.
pub proof fn lemma_bits_reqd_is_binary_width(v: nat, width: nat)
    requires
        bits_reqd(v) <= width,
    ensures
        bits_reqd(v) == bin_text(v).len(),
        padded_bin_text(v, width).len() == width,
        digits_value(padded_bin_text(v, width), 2) == v,
        hyphens_text(v).len() == bin_text(v).len() + 1,
{
    lemma_bits_reqd_is_length(v);
    lemma_radix_text_digits(v, 2);
    lemma_zeros_value((width - bits_reqd(v)) as nat, bin_text(v), 2);
}

proof fn lemma_bits_reqd_is_length(v: nat)
    ensures
        bits_reqd(v) == radix_text(v, 2).len(),
    decreases v,
{
    if v >= 2 {
        lemma_bits_reqd_is_length(v / 2);
    }
}


// ---------------------------------------------------------------------------
// Binary in groups of four
// ---------------------------------------------------------------------------

/// `s` without its spaces.
pub open spec fn without_spaces(s: Seq<char>) -> Seq<char>
    decreases s.len(),
{
    if s.len() == 0 {
        Seq::empty()
    } else if s.last() == ' ' {
        without_spaces(s.drop_last())
    } else {
        without_spaces(s.drop_last()).push(s.last())
    }
}

proof fn lemma_without_spaces_append(x: Seq<char>, y: Seq<char>)
    ensures
        without_spaces(x + y) == without_spaces(x) + without_spaces(y),
    decreases y.len(),
{
    if y.len() == 0 {
        assert(x + y =~= x);
        assert(without_spaces(x) + without_spaces(y) =~= without_spaces(x));
    } else {
        lemma_without_spaces_append(x, y.drop_last());
        assert((x + y).drop_last() =~= x + y.drop_last());
        assert((x + y).last() == y.last());
        if y.last() != ' ' {
            assert(without_spaces(x) + without_spaces(y) =~= (without_spaces(x) + without_spaces(
                y.drop_last(),
            )).push(y.last()));
        }
    }
}

proof fn lemma_without_spaces_space()
    ensures
        without_spaces(seq![' ']) == Seq::<char>::empty(),
{
    let sp = seq![' '];
    assert(sp.len() == 1);
    assert(sp.last() == ' ');
    assert(sp.drop_last() =~= Seq::<char>::empty());
    assert(without_spaces(Seq::<char>::empty()) == Seq::<char>::empty());
}

proof fn lemma_without_spaces_digits(s: Seq<char>)
    requires
        all_digits(s, 2),
    ensures
        without_spaces(s) == s,
    decreases s.len(),
{
    if s.len() > 0 {
        let u = s.drop_last();
        assert(all_digits(u, 2)) by {
            assert forall|k: int| 0 <= k < u.len() implies (#[trigger] digit_value(u[k], 2)) is Some by {
                assert(u[k] == s[k]);
            }
        }
        lemma_without_spaces_digits(u);
        assert(digit_value(s[s.len() - 1], 2) is Some);
        assert(s.last() != ' ');
        assert(u.push(s.last()) =~= s);
    }
}

/// The value of digits put one after the other.
proof fn lemma_digits_value_append(s: Seq<char>, t: Seq<char>, r: u32)
    ensures
        digits_value(s + t, r) == digits_value(s, r) * pow_nat(r as nat, t.len()) + digits_value(t, r),
    decreases t.len(),
{
    let rn = r as nat;
    if t.len() == 0 {
        assert(s + t =~= s);
        assert(pow_nat(rn, 0) == 1);
        assert(digits_value(s, r) * 1 == digits_value(s, r)) by (nonlinear_arith);
    } else {
        let u = t.drop_last();
        lemma_digits_value_append(s, u, r);
        assert((s + t).drop_last() =~= s + u);
        assert((s + t).last() == t.last());
        let d = digit_value(t.last(), r).unwrap() as nat;
        let a = digits_value(s, r);
        let p = pow_nat(rn, u.len());
        assert(pow_nat(rn, t.len()) == rn * p);
        assert((a * p + digits_value(u, r)) * rn + d == a * (rn * p) + (digits_value(u, r) * rn + d))
            by (nonlinear_arith);
    }
}

/// Two texts of binary digits of the same length and value are the same text.
proof fn lemma_binary_digits_unique(s: Seq<char>, t: Seq<char>)
    requires
        all_digits(s, 2),
        all_digits(t, 2),
        s.len() == t.len(),
        digits_value(s, 2) == digits_value(t, 2),
    ensures
        s == t,
    decreases s.len(),
{
    if s.len() > 0 {
        let su = s.drop_last();
        let tu = t.drop_last();
        assert(all_digits(su, 2)) by {
            assert forall|k: int| 0 <= k < su.len() implies (#[trigger] digit_value(su[k], 2)) is Some by {
                assert(su[k] == s[k]);
            }
        }
        assert(all_digits(tu, 2)) by {
            assert forall|k: int| 0 <= k < tu.len() implies (#[trigger] digit_value(tu[k], 2)) is Some by {
                assert(tu[k] == t[k]);
            }
        }
        assert(digit_value(s[s.len() - 1], 2) is Some);
        assert(digit_value(t[t.len() - 1], 2) is Some);
        let ds = digit_value(s.last(), 2).unwrap() as nat;
        let dt = digit_value(t.last(), 2).unwrap() as nat;
        assert(ds < 2 && dt < 2);
        let vs = digits_value(su, 2);
        let vt = digits_value(tu, 2);
        assert(vs * 2 + ds == vt * 2 + dt);
        assert(ds == dt && vs == vt) by (nonlinear_arith)
            requires
                vs * 2 + ds == vt * 2 + dt,
                ds < 2,
                dt < 2,
        ;
        lemma_binary_digits_unique(su, tu);
        assert(s.last() == t.last());
        assert(s =~= su.push(s.last()));
        assert(t =~= tu.push(t.last()));
    }
}

/// A number below 16 padded to four binary digits.
proof fn lemma_padded_nibble(v: nat, width: nat)
    requires
        bits_reqd(v) <= width,
    ensures
        padded_bin_text(v, width).len() == width,
        all_digits(padded_bin_text(v, width), 2),
        digits_value(padded_bin_text(v, width), 2) == v,
{
    lemma_bits_reqd_is_binary_width(v, width);
    lemma_radix_text_digits(v, 2);
    let z = repeat_char('0', (width - bits_reqd(v)) as nat);
    assert(raw_digit_value('0') == Some(0u32));
    assert forall|k: int| 0 <= k < padded_bin_text(v, width).len() implies (#[trigger] digit_value(
        padded_bin_text(v, width)[k],
        2,
    )) is Some by {
        if k < z.len() {
            assert(padded_bin_text(v, width)[k] == '0');
        } else {
            assert(padded_bin_text(v, width)[k] == bin_text(v)[k - z.len()]);
        }
    }
}

proof fn lemma_all_digits_append(s: Seq<char>, t: Seq<char>, r: u32)
    requires
        all_digits(s, r),
        all_digits(t, r),
    ensures
        all_digits(s + t, r),
{
    assert forall|k: int| 0 <= k < (s + t).len() implies (#[trigger] digit_value((s + t)[k], r)) is Some by {
        if k < s.len() {
            assert((s + t)[k] == s[k]);
        } else {
            assert((s + t)[k] == t[k - s.len()]);
        }
    }
}

/// The groups `i - 1` down to `0` of `a`, without their spaces, are the low
/// `4 * i` bits of `a` in binary.
proof fn lemma_groups_value(a: u32, i: nat)
    requires
        i <= 8,
    ensures
        without_spaces(groups_text(a, i)).len() == 4 * i,
        all_digits(without_spaces(groups_text(a, i)), 2),
        digits_value(without_spaces(groups_text(a, i)), 2) == a as nat % pow2(4 * i),
    decreases i,
{
    vstd::arithmetic::power2::lemma2_to64();
    if i == 0 {
        assert(without_spaces(groups_text(a, 0)) =~= Seq::<char>::empty());
        assert(a as nat % 1 == 0);
    } else {
        let j = (i - 1) as nat;
        lemma_groups_value(a, j);
        let k: u32 = (4 * j) as u32;
        let g = bit_group(a, j);
        vstd::bits::lemma_u32_shr_is_div(a, k);
        let sh = a >> k;
        assert(sh & 15u32 == sh % 16) by (bit_vector);
        assert(g == (a as nat / pow2(k as nat)) % 16);
        assert(g < 16);
        assert(bits_reqd(g as nat) <= 4) by {
            lemma_bits_reqd_is_length(g as nat);
            crate::lib_fns::lemma_bits_reqd_at_most(g as nat, 4);
        }
        let p = padded_bin_text(g as nat, 4);
        lemma_padded_nibble(g as nat, 4);
        let rest = groups_text(a, j);
        assert(groups_text(a, i) == p + seq![' '] + rest);
        lemma_without_spaces_append(p + seq![' '], rest);
        lemma_without_spaces_append(p, seq![' ']);
        lemma_without_spaces_space();
        lemma_without_spaces_digits(p);
        let w = without_spaces(rest);
        assert(without_spaces(groups_text(a, i)) =~= p + w);
        lemma_all_digits_append(p, w, 2);
        lemma_digits_value_append(p, w, 2);
        lemma_pow_nat_two_is_pow2(4 * j);
        let m = pow2(4 * j);
        vstd::arithmetic::power2::lemma_pow2_pos(4 * j);
        vstd::arithmetic::power2::lemma_pow2_adds(4 * j, 4);
        assert(pow2(4 * i) == m * 16);
        vstd::arithmetic::div_mod::lemma_breakdown(a as int, m as int, 16);
        assert(digits_value(p + w, 2) == g * m + a as nat % m);
        assert(g * m == m * g) by (nonlinear_arith);
    }
}

/// Taken without its spaces, the binary of an address in groups of four over
/// the `size_of_space` bits of its address space (step 1 of a worked
/// translation) is the address in binary padded with zeros to `size_of_space`
/// digits. The address must fit in those bits, of which there is at least one.
pub proof fn lemma_readable_binary_is_padded_binary(address: u32, size_of_space: u32)
    requires
        1 <= size_of_space < 32,
        address < pow2(size_of_space as nat),
    ensures
        readable_binary_allowed(address, size_of_space),
        without_spaces(readable_binary_text(address, size_of_space)) == padded_bin_text(
            address as nat,
            size_of_space as nat,
        ),
{
    lemma_readable_binary_allowed(address, size_of_space);
    let n = size_of_space as nat;
    let m = n / 4;
    let q = n % 4;
    lemma_groups_value(address, m);
    let w = without_spaces(groups_text(address, m));
    let total = without_spaces(readable_binary_text(address, size_of_space));
    vstd::arithmetic::power2::lemma_pow2_pos(4 * m);
    if q != 0 {
        let hi = high_bits(address, size_of_space);
        let head = padded_bin_text(hi as nat, q);
        lemma_padded_nibble(hi as nat, q);
        lemma_without_spaces_append(head + seq![' '], groups_text(address, m));
        lemma_without_spaces_append(head, seq![' ']);
        lemma_without_spaces_space();
        lemma_without_spaces_digits(head);
        assert(total =~= head + w);
        lemma_all_digits_append(head, w, 2);
        lemma_digits_value_append(head, w, 2);
        let k: u32 = (4 * m) as u32;
        vstd::bits::lemma_u32_shr_is_div(address, k);
        lemma_pow_nat_two_is_pow2(4 * m);
        vstd::arithmetic::div_mod::lemma_fundamental_div_mod(address as int, pow2(4 * m) as int);
        assert(hi * pow2(4 * m) == pow2(4 * m) * hi) by (nonlinear_arith);
        assert(digits_value(total, 2) == address);
    } else {
        assert(readable_binary_text(address, size_of_space) =~= groups_text(address, m));
        vstd::arithmetic::div_mod::lemma_small_mod(address as nat, pow2(n));
        assert(4 * m == n);
    }
    assert(bits_reqd(address as nat) <= n) by {
        crate::lib_fns::lemma_bits_reqd_at_most(address as nat, n);
    }
    lemma_padded_nibble(address as nat, n);
    lemma_binary_digits_unique(total, padded_bin_text(address as nat, n));
}


// ---------------------------------------------------------------------------
// A prefix `0x` or a leading zero does not change the answer
// ---------------------------------------------------------------------------

/// Removing trailing white space from a text that starts with a character
/// that is not white space keeps that character and ends on one that is not.
proof fn lemma_trim_back_keeps_first(t: Seq<char>)
    requires
        t.len() > 0,
        !is_white_space(t[0]),
    ensures
        0 < trim_back(t).len() <= t.len(),
        trim_back(t) == t.subrange(0, trim_back(t).len() as int),
        trim_back(t)[0] == t[0],
        !is_white_space(trim_back(t).last()),
    decreases t.len(),
{
    if is_white_space(t.last()) {
        assert(t.len() >= 2);
        let u = t.drop_last();
        assert(u[0] == t[0]);
        lemma_trim_back_keeps_first(u);
        assert(trim_back(t) == trim_back(u));
        let l = trim_back(u).len() as int;
        assert(u.subrange(0, l) =~= t.subrange(0, l));
    } else {
        assert(t.subrange(0, t.len() as int) =~= t);
    }
}

/// Trailing white space is removed from `p + t` as from `t`, when `t` starts
/// with a character that is not white space.
proof fn lemma_trim_back_prefix(p: Seq<char>, t: Seq<char>)
    requires
        t.len() > 0,
        !is_white_space(t[0]),
    ensures
        trim_back(p + t) == p + trim_back(t),
    decreases t.len(),
{
    if is_white_space(t.last()) {
        assert(t.len() >= 2);
        let u = t.drop_last();
        assert(u[0] == t[0]);
        lemma_trim_back_prefix(p, u);
        assert((p + t).drop_last() =~= p + u);
        assert((p + t).last() == t.last());
    } else {
        assert((p + t).last() == t.last());
    }
}

/// A text without `x` or `X` is kept whole by [`without_x`].
proof fn lemma_without_x_unchanged(u: Seq<char>)
    requires
        forall|k: int| 0 <= k < u.len() ==> #[trigger] u[k] != 'x' && u[k] != 'X',
    ensures
        without_x(u) == u,
{
    lemma_without_x_append(Seq::<char>::empty(), u);
    assert(Seq::<char>::empty() + u =~= u);
    assert(without_x(Seq::<char>::empty()) + u =~= u);
}

/// A zero put in front of a text leaves its weighted digit sum unchanged when
/// the width grows by one.
proof fn lemma_leading_zero_weighted(u: Seq<char>, w: nat, r: u32)
    requires
        2 <= r <= 36,
    ensures
        weighted_digit_sum(seq!['0'] + u, w + 1, r) == weighted_digit_sum(u, w, r),
    decreases u.len(),
{
    assert(raw_digit_value('0') == Some(0u32));
    let z = seq!['0'] + u;
    assert(z.len() == u.len() + 1);
    assert(digit_value('0', r) == Some(0u32));
    if u.len() == 0 {
        assert(z.drop_last() =~= Seq::<char>::empty());
        assert(z.last() == '0');
        let pw = pow_nat(r as nat, (w + 1 - z.len()) as nat);
        assert(0 * pw == 0) by (nonlinear_arith);
        assert(weighted_digit_sum(z, w + 1, r) == weighted_digit_sum(z.drop_last(), w + 1, r)
            + digit_value(z.last(), r).unwrap() as nat * pw);
        assert(weighted_digit_sum(u, w, r) == 0);
    } else {
        lemma_leading_zero_weighted(u.drop_last(), w, r);
        assert(z.drop_last() =~= seq!['0'] + u.drop_last());
        assert(z.last() == u.last());
        assert((w + 1 - z.len()) as nat == (w - u.len()) as nat);
        assert(weighted_digit_sum(z, w + 1, r) == weighted_digit_sum(z.drop_last(), w + 1, r)
            + digit_value(z.last(), r).unwrap() as nat * pow_nat(r as nat, (w + 1 - z.len()) as nat));
    }
}

/// A leading zero leaves the number that a text converts to unchanged.
proof fn lemma_leading_zero_converts(u: Seq<char>, r: u32)
    requires
        2 <= r <= 36,
    ensures
        all_numeric(seq!['0'] + u, r) == all_numeric(u, r),
        converted_value(seq!['0'] + u, encode_utf8(seq!['0'] + u).len(), r) == converted_value(
            u,
            encode_utf8(u).len(),
            r,
        ),
{
    let z = seq!['0'] + u;
    assert(raw_digit_value('0') == Some(0u32));
    assert(z.drop_first() =~= u);
    assert(z[0] == '0');
    assert(encode_utf8(z) == vstd::utf8::encode_scalar('0' as u32) + encode_utf8(u));
    assert(vstd::utf8::encode_scalar('0' as u32).len() == 1);
    assert(forall|k: int| 0 <= k < u.len() ==> z[k + 1] == u[k]);
    assert(all_digits(z, r) == all_digits(u, r)) by {
        if all_digits(u, r) {
            assert forall|k: int| 0 <= k < z.len() implies (#[trigger] digit_value(z[k], r)) is Some by {
                if k > 0 {
                    assert(z[k] == u[k - 1]);
                }
            }
        }
        if all_digits(z, r) {
            assert forall|k: int| 0 <= k < u.len() implies (#[trigger] digit_value(u[k], r)) is Some by {
                assert(z[k + 1] == u[k]);
            }
        }
    }
    assert(all_numeric(z, r) == all_numeric(u, r)) by {
        if all_numeric(u, r) {
            assert forall|k: int| 0 <= k < z.len() implies skipped_by_digit_check(#[trigger] z[k])
                || digit_value(z[k], r) is Some by {
                if k > 0 {
                    assert(z[k] == u[k - 1]);
                }
            }
        }
        if all_numeric(z, r) {
            assert forall|k: int| 0 <= k < u.len() implies skipped_by_digit_check(#[trigger] u[k])
                || digit_value(u[k], r) is Some by {
                assert(z[k + 1] == u[k]);
            }
        }
    }
    lemma_leading_zero_weighted(u, encode_utf8(u).len(), r);
}

/// Typing an answer with a leading zero, or a hexadecimal answer with its
/// `0x` or `0X` prefix, reads as the same number as typing it without, so the
/// verdict is `Good.` for one exactly when it is for the other. The text must
/// not start with white space (the check trims it only when nothing is in
/// front of it) and must hold no `x` or `X`.
pub proof fn lemma_prefix_keeps_the_answer(aformat: i8, pa: u32, t: Seq<char>, prefix: Seq<char>)
    requires
        aformat == 16 || aformat == 2 || aformat == 10,
        prefix == seq!['0'] || (aformat == 16 && (prefix == seq!['0', 'x'] || prefix == seq![
            '0',
            'X',
        ])),
        t.len() > 0,
        !is_white_space(t[0]),
        forall|k: int| 0 <= k < t.len() ==> #[trigger] t[k] != 'x' && t[k] != 'X',
    ensures
        typed_value(aformat, prefix + t) == typed_value(aformat, t),
        verdict_text(aformat, pa, prefix + t) == "\n"@ + "Good.\n"@ <==> verdict_text(
            aformat,
            pa,
            t,
        ) == "\n"@ + "Good.\n"@,
{
    let r = aformat as u32;
    let z = seq!['0'];
    // Trimming.
    assert(trim_front(t) == t);
    lemma_trim_back_keeps_first(t);
    let u = trim_back(t);
    assert(trimmed(t) == u);
    assert forall|k: int| 0 <= k < u.len() implies #[trigger] u[k] != 'x' && u[k] != 'X' by {
        assert(u[k] == t.subrange(0, u.len() as int)[k]);
        assert(u[k] == t[k]);
    }
    assert((prefix + t)[0] == '0');
    assert(trim_front(prefix + t) == prefix + t);
    lemma_trim_back_prefix(prefix, t);
    assert(trimmed(prefix + t) == prefix + u);
    // Removing `x`.
    lemma_without_x_unchanged(u);
    lemma_without_x_append(prefix, u);
    assert(z.drop_last() =~= Seq::<char>::empty());
    assert(z.last() == '0');
    assert(without_x(Seq::<char>::empty()) =~= Seq::<char>::empty());
    assert(without_x(z) == without_x(z.drop_last()).push('0'));
    assert(without_x(z) =~= z);
    if prefix.len() == 2 {
        assert(prefix.drop_last() =~= z);
        assert(prefix.last() == 'x' || prefix.last() == 'X');
        assert(without_x(prefix) == without_x(z));
    }
    assert(without_x(prefix) == z);
    assert(cleaned_answer(t) == u);
    assert(cleaned_answer(prefix + t) == z + u);
    // The digits that are converted.
    assert(u[0] == t[0]);
    if aformat != 16 {
        lemma_trimmed_unchanged(u);
        assert((z + u)[0] == '0');
        assert((z + u).last() == u.last());
        lemma_trimmed_unchanged(z + u);
    }
    assert(answer_digits(aformat, t) == u);
    assert(answer_digits(aformat, prefix + t) == z + u);
    lemma_leading_zero_converts(u, r);
    lemma_good_only_for_the_address(aformat, pa, prefix + t);
    lemma_good_only_for_the_address(aformat, pa, t);
}


// ---------------------------------------------------------------------------
// Segments of a kept layout do not overlap
// ---------------------------------------------------------------------------

/// In a layout where no two segments conflict (what `check_layout` reports and
/// what `are_conflicting` keeps), a segment that grows downward and does not
/// reach below address 0 covers `[base - size, base]` and shares no point with
/// the range `[base, base + size]` of any other segment; and two segments that
/// grow upward share no point of their ranges. Points `x` are in tenths of K.
pub proof fn lemma_kept_layout_has_no_overlap(segs: Seq<Segment>, a: int, b: int, x: int)
    requires
        !layout_conflicting(segs),
        0 <= a < segs.len(),
        0 <= b < segs.len(),
        a != b,
    ensures
        segs[a].grows_negative == 1 && segs[a].size_tenths <= segs[a].base * 10 ==> !(
        segs[a].base * 10 - segs[a].size_tenths <= x <= segs[a].base * 10 && segs[b].base * 10
            <= x <= segs[b].base * 10 + segs[b].size_tenths),
        segs[a].grows_negative == 0 && segs[b].grows_negative == 0 ==> !(segs[a].base * 10 <= x
            <= segs[a].base * 10 + segs[a].size_tenths && segs[b].base * 10 <= x <= segs[b].base
            * 10 + segs[b].size_tenths),
{
    assert(!pair_findings(segs[a], segs[b]).0);
}

/// In a layout where no segment reaches below address 0 (what `check_layout`
/// reports and what `are_conflicting` keeps), every segment that grows
/// downward, beside at least one other segment, is no larger than its base.
pub proof fn lemma_kept_layout_stays_above_zero(segs: Seq<Segment>, a: int, b: int)
    requires
        !layout_out_of_bounds(segs),
        0 <= a < segs.len(),
        0 <= b < segs.len(),
        a != b,
        segs[a].grows_negative == 1,
    ensures
        segs[a].size_tenths <= segs[a].base * 10,
{
    assert(!pair_findings(segs[a], segs[b]).1);
}

// ---------------------------------------------------------------------------
// An address is valid when it lies inside its segment
// ---------------------------------------------------------------------------

/// `valid_va` accepts an address with a selector 00, 01 or 11 exactly when a
/// segment of the layout named code, heap or stack accordingly holds it: for a
/// segment that grows downward, the address is at most the base in bytes and
/// at most the size below it; for one that grows upward, at least the base and
/// at most the size above it (sizes in tenths of K, so distances times 10).
pub proof fn lemma_valid_va_means_inside(num: u32, ss: u32, segs: Seq<Segment>)
    requires
        ss == 0 || ss == 1 || ss == 3,
    ensures
        va_is_valid(num, ss, segs) <==> exists|k: int|
            #![trigger segs[k]]
            0 <= k < segs.len() && segs[k].name == (if ss == 0 {
                SegName::Code
            } else if ss == 1 {
                SegName::Heap
            } else {
                SegName::Stack
            }) && if segs[k].grows_negative == 1 {
                num <= segs[k].base * 1024 && (segs[k].base * 1024 - num) * 10 <= segs[k].size_tenths
                    * 1024
            } else {
                segs[k].base * 1024 <= num && (num - segs[k].base * 1024) * 10 <= segs[k].size_tenths
                    * 1024
            },
{
    let name = if ss == 0 {
        SegName::Code
    } else if ss == 1 {
        SegName::Heap
    } else {
        SegName::Stack
    };
    assert(selected_segment(ss) == name);
    if va_is_valid(num, ss, segs) {
        let k = choose|k: int|
            0 <= k < segs.len() && in_segment(num, #[trigger] segs[k]) && segs[k].name
                == selected_segment(ss);
        assert(in_segment(num, segs[k]));
    }
    if exists|k: int|
        #![trigger segs[k]]
        0 <= k < segs.len() && segs[k].name == name && if segs[k].grows_negative == 1 {
            num <= segs[k].base * 1024 && (segs[k].base * 1024 - num) * 10 <= segs[k].size_tenths
                * 1024
        } else {
            segs[k].base * 1024 <= num && (num - segs[k].base * 1024) * 10 <= segs[k].size_tenths
                * 1024
        } {
        let k = choose|k: int|
            #![trigger segs[k]]
            0 <= k < segs.len() && segs[k].name == name && if segs[k].grows_negative == 1 {
                num <= segs[k].base * 1024 && (segs[k].base * 1024 - num) * 10
                    <= segs[k].size_tenths * 1024
            } else {
                segs[k].base * 1024 <= num && (num - segs[k].base * 1024) * 10
                    <= segs[k].size_tenths * 1024
            };
        assert(in_segment(num, segs[k]));
    }
}

// ---------------------------------------------------------------------------
// The formats follow the menus
// ---------------------------------------------------------------------------

/// Translation menu line `c` (0 to 8) reads "va in Q to pa in A", with Q the
/// base of `c / 3` and A the base of `c % 3` in the order hex, binary, decimal:
/// the question and answer formats of choice `c` are those bases (16, 2, 10).
/// Any other choice has no format (-1).
pub proof fn lemma_format_choice_follows_the_menu(c: i8)
    ensures
        0 <= c <= 8 ==> format_specifiers(c) == (
            if c / 3 == 0 {
                16i8
            } else if c / 3 == 1 {
                2i8
            } else {
                10i8
            },
            if c % 3 == 0 {
                16i8
            } else if c % 3 == 1 {
                2i8
            } else {
                10i8
            },
        ),
        !(0 <= c <= 8) ==> format_specifiers(c) == (-1i8, -1i8),
{
}

/// Stack menu line `q` (0 to 2) reads "answer in hex", "answer in binary",
/// "answer in decimal": the answer format of option `q` is 16, 2 or 10, the
/// same as the answer format of translation option `q`.
pub proof fn lemma_stack_choice_follows_the_menu(q: i8)
    requires
        0 <= q <= 2,
    ensures
        stack_answer_format(q) == (if q == 0 {
            16i8
        } else if q == 1 {
            2i8
        } else {
            10i8
        }),
        stack_answer_format(q) == format_specifiers(q).1,
{
}

// ---------------------------------------------------------------------------
// The worked translation ends with the physical address
// ---------------------------------------------------------------------------

/// `t` ends with `e`.
pub open spec fn ends_with(t: Seq<char>, e: Seq<char>) -> bool {
    t.len() >= e.len() && t.subrange(t.len() - e.len(), t.len() as int) == e
}

proof fn lemma_ends_with_extend(x: Seq<char>, e: Seq<char>, y: Seq<char>)
    requires
        ends_with(x, e),
    ensures
        ends_with(x + y, e + y),
{
    assert((x + y).subrange((x + y).len() - (e + y).len(), (x + y).len() as int) =~= e + y) by {
        assert forall|i: int| 0 <= i < (e + y).len() implies (x + y).subrange(
            (x + y).len() - (e + y).len(),
            (x + y).len() as int,
        )[i] == (e + y)[i] by {
            if i < e.len() {
                assert(x.subrange(x.len() - e.len(), x.len() as int)[i] == e[i]);
            }
        }
    }
}

proof fn lemma_ends_with_prepend(w: Seq<char>, x: Seq<char>, e: Seq<char>)
    requires
        ends_with(x, e),
    ensures
        ends_with(w + x, e),
{
    assert((w + x).subrange((w + x).len() - e.len(), (w + x).len() as int) =~= e) by {
        assert forall|i: int| 0 <= i < e.len() implies (w + x).subrange(
            (w + x).len() - e.len(),
            (w + x).len() as int,
        )[i] == e[i] by {
            assert(x.subrange(x.len() - e.len(), x.len() as int)[i] == e[i]);
        }
    }
}

proof fn lemma_ends_with_self(x: Seq<char>, e: Seq<char>)
    ensures
        ends_with(x + e, e),
{
    assert((x + e).subrange((x + e).len() - e.len(), (x + e).len() as int) =~= e);
}

/// The worked solution of a translation ends with the line `=> PA = pa bytes`
/// for the physical address `pa` of the formula (base in bytes plus offset,
/// less the maximum segment size for the stack), then that address in the
/// answer format and the closing line.
pub proof fn lemma_worked_translation_ends_with_the_address(
    seg: Segment,
    ss: u32,
    offset: u32,
    va: u32,
    pa: u32,
    power_of2: u32,
    qaformate: (i8, i8),
)
    requires
        translation_solution_allowed(seg, ss, offset, va, pa, power_of2, qaformate),
    ensures
        pa == seg.base * 1024 + offset - (if ss == 3 {
            pow2((power_of2 - 2) as nat) as int
        } else {
            0
        }),
        ends_with(
            translation_solution_text(seg, ss, offset, va, pa, power_of2, qaformate),
            "=> PA = "@ + dec_text(pa as nat) + " bytes\n"@ + answer_line_text(pa, qaformate.1)
                + closing_text(),
        ),
{
    let mss = pow2((power_of2 - 2) as nat);
    let base_bytes = (seg.base * 1024) as nat;
    let line = "=> PA = "@ + dec_text(pa as nat) + " bytes\n"@;
    let f = translation_formula_text(seg, ss, offset, power_of2);
    if ss == 3 {
        let g = stack_formula_text(seg, offset, power_of2);
        assert(pa as nat == (base_bytes + offset - mss) as nat);
        assert(g.subrange(g.len() - line.len(), g.len() as int) =~= line);
        assert(f == g);
    } else {
        let u = upward_formula_text(seg, offset, power_of2);
        assert(pa as nat == (base_bytes + offset) as nat);
        assert(u.subrange(u.len() - line.len(), u.len() as int) =~= line);
        assert(ends_with(u, line));
        let h = if ss == 0 {
            "The SS = 00 (base 2) = 0 (base 10) => SS = Code Segment => GN = 0\n"@
        } else {
            "The SS = 01 (base 2) = 1 (base 10) => SS = Heap Segment => GN = 0\n"@
        };
        lemma_ends_with_prepend(h, u, line);
        assert(f == h + u);
    }
    assert(ends_with(f, line));
    let t = translation_solution_text(seg, ss, offset, va, pa, power_of2, qaformate);
    let a = answer_line_text(pa, qaformate.1);
    let head = crate::solutions::translation_step1_text(va, qaformate.0, power_of2)
        + crate::solutions::translation_step2_text(power_of2)
        + crate::solutions::selector_offset_text(ss, offset)
        + crate::solutions::translation_step3_text(offset)
        + crate::solutions::translation_step4_text(offset, power_of2);
    assert(t == head + f + a + closing_text());
    lemma_ends_with_prepend(head, f, line);
    lemma_ends_with_extend(head + f, line, a);
    lemma_ends_with_extend(head + f + a, line + a, closing_text());
}


// ---------------------------------------------------------------------------
// The translation formula
// ---------------------------------------------------------------------------

/// The physical address of the translation formula is the segment's base in
/// bytes plus the offset, less the maximum segment size when the segment grows
/// downward, whenever that address and the base in bytes fit in `i32` and the
/// maximum segment size and the offset are below 2^31.
pub proof fn lemma_translation_formula_value(seg: Segment, mss: u32, offset: u32)
    requires
        seg.grows_negative == 0 || seg.grows_negative == 1,
        seg.base * 1024 <= i32::MAX,
        mss < 0x8000_0000,
        offset < 0x8000_0000,
        0 <= seg.base * 1024 + offset - seg.grows_negative * mss <= i32::MAX,
    ensures
        answer_terms_fit(seg, mss, offset),
        answer_value(seg, mss, offset) == seg.base * 1024 + offset - seg.grows_negative * mss,
{
    let g = as_i32(seg.grows_negative);
    let m = as_i32(mss);
    assert(g == seg.grows_negative);
    assert(m == mss);
    assert(as_i32(seg.base) == seg.base);
    assert(as_i32(offset) == offset);
    assert(-g * m == -(seg.grows_negative * mss)) by (nonlinear_arith)
        requires
            g == seg.grows_negative,
            m == mss,
    ;
    assert(seg.grows_negative * mss <= mss) by (nonlinear_arith)
        requires
            seg.grows_negative == 0 || seg.grows_negative == 1,
    ;
    assert(seg.grows_negative * mss >= 0) by (nonlinear_arith)
        requires
            seg.grows_negative == 0 || seg.grows_negative == 1,
    ;
    let v = seg.base * 1024 + offset - seg.grows_negative * mss;
    vstd::arithmetic::div_mod::lemma_small_mod(v as nat, 0x1_0000_0000);
}

// ---------------------------------------------------------------------------
// A typed menu number reads back
// ---------------------------------------------------------------------------

proof fn lemma_dec_text_reads_back(v: nat)
    ensures
        dec_text(v).len() > 0,
        all_decimal(dec_text(v)),
        decimal_value(dec_text(v)) == v,
        dec_text(v)[0] != '-' && dec_text(v)[0] != '+',
    decreases v,
{
    let t = radix_text(v, 10);
    if v < 10 {
        assert(t == seq![digit_char(v)]);
        assert(decimal_digit(digit_char(v)) == Some(v));
        assert(t.drop_last() =~= Seq::<char>::empty());
        assert(decimal_value(t.drop_last()) == 0);
    } else {
        let q = v / 10;
        let m = v % 10;
        lemma_dec_text_reads_back(q);
        let u = radix_text(q, 10);
        assert(t == u.push(digit_char(m)));
        assert(decimal_digit(digit_char(m)) == Some(m));
        assert(t.drop_last() =~= u);
        assert(t.last() == digit_char(m));
        assert forall|k: int| 0 <= k < t.len() implies (#[trigger] decimal_digit(t[k])) is Some by {
            if k < u.len() {
                assert(t[k] == u[k]);
            }
        }
        assert(t[0] == u[0]);
    }
}

/// A number from -128 to 127 typed in decimal (with a `-` when negative), as
/// `{}` writes it, is read back by `parse_i8` as that number.
pub proof fn lemma_typed_number_reads_back(v: i8)
    ensures
        parsed_i8(if v < 0 {
            seq!['-'] + dec_text((-v) as nat)
        } else {
            dec_text(v as nat)
        }) == Some(v),
{
    if v < 0 {
        let d = dec_text((-v) as nat);
        lemma_dec_text_reads_back((-v) as nat);
        let s = seq!['-'] + d;
        assert(s[0] == '-');
        assert(s.drop_first() =~= d);
    } else {
        lemma_dec_text_reads_back(v as nat);
    }
}

// ---------------------------------------------------------------------------
// Trimming keeps the core of the text
// ---------------------------------------------------------------------------

proof fn lemma_trim_front_cut(s: Seq<char>) -> (i: int)
    ensures
        0 <= i <= s.len(),
        trim_front(s) == s.subrange(i, s.len() as int),
        forall|k: int| 0 <= k < i ==> is_white_space(#[trigger] s[k]),
        i < s.len() ==> !is_white_space(s[i]),
    decreases s.len(),
{
    if s.len() > 0 && is_white_space(s[0]) {
        let j = lemma_trim_front_cut(s.drop_first());
        assert(s.drop_first().subrange(j, s.drop_first().len() as int) =~= s.subrange(
            j + 1,
            s.len() as int,
        ));
        assert forall|k: int| 0 <= k < j + 1 implies is_white_space(#[trigger] s[k]) by {
            if k > 0 {
                assert(s[k] == s.drop_first()[k - 1]);
            }
        }
        j + 1
    } else {
        assert(s.subrange(0, s.len() as int) =~= s);
        0
    }
}

proof fn lemma_trim_back_cut(s: Seq<char>) -> (j: int)
    ensures
        0 <= j <= s.len(),
        trim_back(s) == s.subrange(0, j),
        forall|k: int| j <= k < s.len() ==> is_white_space(#[trigger] s[k]),
        j > 0 ==> !is_white_space(s[j - 1]),
    decreases s.len(),
{
    if s.len() > 0 && is_white_space(s.last()) {
        let j = lemma_trim_back_cut(s.drop_last());
        assert(s.drop_last().subrange(0, j) =~= s.subrange(0, j));
        assert forall|k: int| j <= k < s.len() implies is_white_space(#[trigger] s[k]) by {
            if k < s.len() - 1 {
                assert(s[k] == s.drop_last()[k]);
            }
        }
        j
    } else {
        assert(s.subrange(0, s.len() as int) =~= s);
        s.len() as int
    }
}

/// Trimming a text (what `trim_text` does to the typed answer and menu
/// choice) keeps one unbroken piece of it, from the first character that is
/// not white space to the last one, and removes only white space around it.
pub proof fn lemma_trimmed_is_the_core(s: Seq<char>)
    ensures
        exists|i: int, j: int|
            0 <= i <= j <= s.len() && trimmed(s) == s.subrange(i, j) && (forall|k: int|
                0 <= k < i ==> is_white_space(#[trigger] s[k])) && (forall|k: int|
                j <= k < s.len() ==> is_white_space(#[trigger] s[k])),
        trimmed(s).len() > 0 ==> !is_white_space(trimmed(s)[0]) && !is_white_space(
            trimmed(s).last(),
        ),
{
    let i = lemma_trim_front_cut(s);
    let f = trim_front(s);
    let j = lemma_trim_back_cut(f);
    assert(f.subrange(0, j) =~= s.subrange(i, i + j));
    assert forall|k: int| i + j <= k < s.len() implies is_white_space(#[trigger] s[k]) by {
        assert(s[k] == f[k - i]);
    }
    if trimmed(s).len() > 0 {
        assert(trimmed(s)[0] == f[0]);
        assert(f[0] == s[i]);
        assert(trimmed(s).last() == f[j - 1]);
    }
    assert(trimmed(s) == s.subrange(i, i + j));
}


// ---------------------------------------------------------------------------
// Addresses in questions are written as answers are
// ---------------------------------------------------------------------------

/// A question shows an address in a format (16, 2 or 10) exactly as the
/// verdict writes an answer in that format, so typing the address as the
/// question shows it, in the same base, reads it back (see
/// [`lemma_correct_answer_accepted`]).
pub proof fn lemma_question_writes_as_answers_do(va: u32, format: i8)
    requires
        format == 16 || format == 2 || format == 10,
    ensures
        va_in_format(va, format) == in_answer_format(va, format),
        va_in_format(va, format) == (if format == 16 {
            seq!['0', 'x'] + radix_text(va as nat, 16)
        } else {
            radix_text(va as nat, format as nat)
        }),
{
}

/// Letters are digits without regard to case: a lower-case letter stands for
/// the same digit as its upper-case form, in every base.
pub proof fn lemma_digits_ignore_case(c: char, r: u32)
    requires
        'a' <= c <= 'z',
    ensures
        digit_value(c, r) == digit_value(((c as u32) - 32) as char, r),
        digit_value(c, r) == (if (c as u32) - ('a' as u32) + 10 < r {
            Some(((c as u32) - ('a' as u32) + 10) as u32)
        } else {
            None
        }),
{
}

} // verus!
