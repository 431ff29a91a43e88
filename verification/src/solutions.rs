//! Solving a problem and the worked solutions shown to the student: the
//! translation of a virtual address to a physical address, and the steps of
//! the translation and of the stack-percentage problem.

use vstd::prelude::*;
use vstd::arithmetic::power2::pow2;
use vstd::bits::low_bits_mask;
use crate::digits::{dec_text, bin_text, hex_prefixed_text, digit_char, push_dec, push_dec64, push_bin, push_hex_prefixed, push_char};
use crate::lib_fns::{pow_u32, lemma_pow_nat_two_is_pow2, bits_reqd, num_bits_reqd, hyphens_text, print_hyphens, readable_binary_text, readable_binary_allowed, print_readable_binary, repeat_char, leading_zeros_text, print_leading_zeros};
use crate::segments::{Segment, answer_terms_fit, answer_value, calculate_answer, selector_of, is_selector};
use crate::questions::{va_in_format};

verus! {

// ---------------------------------------------------------------------------
// Translating a virtual address
// ---------------------------------------------------------------------------

/// The segment that a selector (0, 1 or 3) picks among code, heap and stack.
pub open spec fn selected_index(ss: u32) -> int {
    if ss == 3 {
        2
    } else {
        ss as int
    }
}

/// What translating `va` needs: addresses of 2 to 33 bits, a selector that names
/// a segment, the three segments, and the signed arithmetic of the formula
/// within `i32`.
pub open spec fn translation_allowed(va: u32, power_of2: u32, segments: Seq<Segment>) -> bool {
    &&& 2 <= power_of2 <= 33
    &&& is_selector(selector_of(va, power_of2))
    &&& segments.len() >= 3
    &&& answer_terms_fit(
        segments[selected_index(selector_of(va, power_of2))],
        pow2((power_of2 - 2) as nat) as u32,
        (va as nat % pow2((power_of2 - 2) as nat)) as u32,
    )
}

/// Translates the virtual address `va` of `power_of2` bits: its two top bits
/// are the segment selector (00 code, 01 heap, 11 stack), the rest the offset;
/// the maximum segment size is `2^(power_of2 - 2)`. Returns the selector, the
/// maximum segment size, the offset and the physical address
/// `(-1) * GN * MSS + base * 1024 + offset` of the selected segment.
pub fn translate_va(va: u32, power_of2: u32, segments: &Vec<Segment>) -> (r: (u32, u32, u32, u32))
    requires
        translation_allowed(va, power_of2, segments@),
    ensures
        r.0 == selector_of(va, power_of2),
        r.1 == pow2((power_of2 - 2) as nat),
        r.2 == va as nat % pow2((power_of2 - 2) as nat),
        r.3 == answer_value(segments@[selected_index(r.0)], r.1, r.2),
{
    let k: u32 = power_of2 - 2;
    proof {
        lemma_pow_nat_two_is_pow2(k as nat);
        vstd::bits::lemma_u32_pow2_no_overflow(k as nat);
    }
    let ss: u32 = va >> k;
    let mss: u32 = pow_u32(2, k);
    let mut bit_mask: u32 = 0;
    let mut i: u32 = 0;
    proof {
        vstd::arithmetic::power2::lemma2_to64();
    }
    while i < k
        invariant
            k < 32,
            i <= k,
            bit_mask == low_bits_mask(i as nat),
        decreases k - i,
    {
        proof {
            lemma_pow_nat_two_is_pow2(i as nat);
            vstd::bits::lemma_u32_pow2_no_overflow(i as nat);
            vstd::bits::lemma_u32_pow2_no_overflow((i + 1) as nat);
            vstd::arithmetic::power2::lemma_pow2_unfold((i + 1) as nat);
        }
        bit_mask = bit_mask + pow_u32(2, i);
        i = i + 1;
    }
    proof {
        vstd::bits::lemma_u32_low_bits_mask_is_mod(va, k as nat);
    }
    let offset: u32 = va & bit_mask;
    let seg: Segment = if ss == 3 {
        segments[2]
    } else {
        segments[ss as usize]
    };
    let pa: u32 = calculate_answer(seg, mss, offset);
    (ss, mss, offset, pa)
}

// ---------------------------------------------------------------------------
// The worked solution of a translation
// ---------------------------------------------------------------------------

/// Step 1: the address in the question format, then in binary in groups of four.
pub open spec fn translation_step1_text(va: u32, qformat: i8, power_of2: u32) -> Seq<char> {
    "\nStep 1: Convert virtual address "@ + va_in_format(va, qformat) + " to binary\n"@
        + va_in_format(va, qformat) + " = "@ + readable_binary_text(va, power_of2) + "\n"@
}

/// Step 2: the width of the address space and the split of selector and offset.
pub open spec fn translation_step2_text(power_of2: u32) -> Seq<char> {
    "\nStep 2: Note the Virtual Address Space size (abbrv. VAS --measured in bits) and separate the Segment Selector (SS) from the Offset portion of the binary.\n"@
        + "Remember --if the amount of bits in the Virtual Address Space differs from the amount of bits in the binary calculated, we must either\n"@
        + "\n\ta) Pad the calculated binary number with zeros until the length of the binary equals the amount of bits in the VAS.\n"@
        + "\n\tb) Trim the top bits of the calculated binary until the length of the binary equals the amount of bits in the VAS.\n\n"@
        + "In this case, the Virtual Address Space size in bits is "@ + dec_text(power_of2 as nat)
        + ".\n"@ + "So, only the first "@ + dec_text(power_of2 as nat)
        + " bits of the calculated binary are considered.\n\n"@
        + "The SS is always either 00, 01, or 11 => SS \u{3F5} {0, 1, 3}\n"@
        + "\nDiscard the segment selector bits from the offset calculation.\n\n"@
}

/// A space padded to `width` characters, as `{:width$}` writes `" "`.
pub open spec fn padded_space(width: nat) -> Seq<char> {
    if width <= 1 {
        seq![' ']
    } else {
        repeat_char(' ', width)
    }
}

/// The selector and the offset in binary, underlined, with their labels.
pub open spec fn selector_offset_text(ss: u32, offset: u32) -> Seq<char> {
    (if ss != 3 {
        "0"@ + dec_text(ss as nat) + " "@ + bin_text(offset as nat) + "\n"@
    } else {
        bin_text(ss as nat) + " "@ + bin_text(offset as nat) + "\n"@
    }) + "-- "@ + hyphens_text(offset as nat) + "SS "@ + padded_space(
        (bits_reqd(offset as nat) / 2 / 2) as nat,
    ) + "OFFSET\n"@
}

/// Step 3: what each selector stands for, and the offset.
pub open spec fn translation_step3_text(offset: u32) -> Seq<char> {
    "\nStep 3: Note the value of the Segment Selector and Offset bits:\n"@ + "00 ===> Code\n"@
        + "01 ===> Heap\n"@ + "11 ===> Stack\n\n"@ + "Offset = "@ + bin_text(offset as nat)
        + " = "@ + dec_text(offset as nat) + " bytes\n\n"@
}

/// Step 4: the formula and the maximum segment size.
pub open spec fn translation_step4_text(offset: u32, power_of2: u32) -> Seq<char> {
    "Step 4: Note: PA = (-1)*(GN)*(MSS) + base + offset\n\n"@
        + "GN = `grows negative`. If SS = 11 => SS = Stack => GN = 1. Otherwise, GN = 0.\n"@
        + "MSS = `maximum segment size`. MSS = 2^(number of bits in the offset)\n"@
        + "Base = the base of the segment, measured in bytes. Value provided in table.\n"@
        + "The offset has already been calculated: offset = "@ + dec_text(offset as nat)
        + " bytes (base 10)\n"@ + "There are "@ + dec_text((power_of2 - 2) as nat)
        + " bits in the offset, so the MSS is 2^"@ + dec_text((power_of2 - 2) as nat) + " = "@
        + dec_text(pow2((power_of2 - 2) as nat)) + " bytes.\n"@
}

/// A line of literal text with three decimal numbers between its parts.
pub open spec fn three_numbers_line(
    a: Seq<char>,
    x: nat,
    b: Seq<char>,
    y: nat,
    c: Seq<char>,
    z: nat,
    d: Seq<char>,
) -> Seq<char> {
    a + dec_text(x) + b + dec_text(y) + c + dec_text(z) + d
}

/// The formula worked out for a stack address.
pub open spec fn stack_formula_text(seg: Segment, offset: u32, power_of2: u32) -> Seq<char> {
    let mss = pow2((power_of2 - 2) as nat);
    let base_bytes = (seg.base * 1024) as nat;
    "The SS = 11 (base 2) = 3 (base 10) => SS = Stack Segment => GN = 1\n"@
        + "PA (in bytes) = (-1)*(GN)*(MSS) + base + offset\n\n"@ + three_numbers_line(
        "=> PA = (-1)(1)(2^"@,
        (power_of2 - 2) as nat,
        ") + ("@,
        seg.base as nat,
        "K) + "@,
        offset as nat,
        " bytes\n"@,
    ) + three_numbers_line(
        "=> PA = (-1)(1)("@,
        mss,
        ") + ("@,
        seg.base as nat,
        " * 1024) + "@,
        offset as nat,
        " bytes\n"@,
    ) + three_numbers_line(
        "=> PA = (-"@,
        mss,
        ") + ("@,
        base_bytes,
        ") + "@,
        offset as nat,
        " bytes\n"@,
    ) + "=> PA = "@ + dec_text((base_bytes + offset - mss) as nat) + " bytes\n"@
}

/// The formula worked out for a code or heap address.
pub open spec fn upward_formula_text(seg: Segment, offset: u32, power_of2: u32) -> Seq<char> {
    let mss = pow2((power_of2 - 2) as nat);
    let base_bytes = (seg.base * 1024) as nat;
    "PA (in bytes) = (-1)*(GN)*(MSS) + base + offset\n\n"@ + three_numbers_line(
        "=> PA = (-1)(0)(2^"@,
        (power_of2 - 2) as nat,
        ") + ("@,
        seg.base as nat,
        "K) + "@,
        offset as nat,
        " bytes\n"@,
    ) + three_numbers_line(
        "=> PA = (-1)(0)("@,
        mss,
        ") + ("@,
        seg.base as nat,
        " * 1024) + "@,
        offset as nat,
        " bytes\n"@,
    ) + "=> PA = 0 + ("@ + dec_text(base_bytes) + ") + "@ + dec_text(offset as nat) + " bytes\n"@
        + "=> PA = "@ + dec_text((base_bytes + offset) as nat) + " bytes\n"@
}

/// The formula worked out for the selected segment.
pub open spec fn translation_formula_text(seg: Segment, ss: u32, offset: u32, power_of2: u32) -> Seq<char> {
    if ss == 3 {
        stack_formula_text(seg, offset, power_of2)
    } else {
        (if ss == 0 {
            "The SS = 00 (base 2) = 0 (base 10) => SS = Code Segment => GN = 0\n"@
        } else {
            "The SS = 01 (base 2) = 1 (base 10) => SS = Heap Segment => GN = 0\n"@
        }) + upward_formula_text(seg, offset, power_of2)
    }
}

/// The physical address in the answer format (nothing more for decimal).
pub open spec fn answer_line_text(pa: u32, aformat: i8) -> Seq<char> {
    if aformat == 16 {
        "=> PA = "@ + hex_prefixed_text(pa as nat) + " bytes\n"@
    } else if aformat == 2 {
        "=> PA = "@ + bin_text(pa as nat) + " bytes\n"@
    } else {
        Seq::empty()
    }
}

/// The closing line of every worked solution.
pub open spec fn closing_text() -> Seq<char> {
    "Check out youtube for shortcuts on converting to and from binary, decimal, and hexadecimal by hand.\n\n"@
}

/// The whole worked solution of a translation.
pub open spec fn translation_solution_text(
    seg: Segment,
    ss: u32,
    offset: u32,
    va: u32,
    pa: u32,
    power_of2: u32,
    qaformate: (i8, i8),
) -> Seq<char> {
    translation_step1_text(va, qaformate.0, power_of2) + translation_step2_text(power_of2)
        + selector_offset_text(ss, offset) + translation_step3_text(offset)
        + translation_step4_text(offset, power_of2) + translation_formula_text(
        seg,
        ss,
        offset,
        power_of2,
    ) + answer_line_text(pa, qaformate.1) + closing_text()
}

/// A format of a question or answer: 16, 2 or 10.
pub open spec fn is_format(f: i8) -> bool {
    f == 16 || f == 2 || f == 10
}

/// What the worked solution of a translation needs: known formats, a selector
/// that names a segment, an address that fits the grouped binary over the
/// width of the address space, an offset below 2^31, a base in bytes and the
/// sum with the offset within `u32`, and the physical address of the formula
/// (of which the stack's must not be negative).
pub open spec fn translation_solution_allowed(
    seg: Segment,
    ss: u32,
    offset: u32,
    va: u32,
    pa: u32,
    power_of2: u32,
    qaformate: (i8, i8),
) -> bool {
    &&& is_format(qaformate.0)
    &&& is_format(qaformate.1)
    &&& is_selector(ss)
    &&& 2 <= power_of2
    &&& readable_binary_allowed(va, power_of2)
    &&& offset < 0x8000_0000
    &&& seg.base * 1024 + offset <= u32::MAX
    &&& ss == 3 ==> seg.base * 1024 + offset >= pow2((power_of2 - 2) as nat) && pa == seg.base
        * 1024 + offset - pow2((power_of2 - 2) as nat)
    &&& ss != 3 ==> pa == seg.base * 1024 + offset
}

fn push_va_in_format(s: &mut String, v: u32, format: i8)
    ensures
        final(s)@ == old(s)@ + va_in_format(v, format),
{
    if format == 16 {
        push_hex_prefixed(s, v);
    } else if format == 2 {
        push_bin(s, v);
    } else {
        push_dec(s, v);
    }
}

fn push_translation_step1(s: &mut String, va: u32, qformat: i8, power_of2: u32)
    requires
        readable_binary_allowed(va, power_of2),
    ensures
        final(s)@ == old(s)@ + translation_step1_text(va, qformat, power_of2),
{
    s.append("\nStep 1: Convert virtual address ");
    push_va_in_format(s, va, qformat);
    s.append(" to binary\n");
    push_va_in_format(s, va, qformat);
    s.append(" = ");
    let grouped = print_readable_binary(va, power_of2);
    s.append(grouped.as_str());
    s.append("\n");
    proof {
        assert(s@ =~= old(s)@ + translation_step1_text(va, qformat, power_of2));
    }
}

fn push_translation_step2(s: &mut String, power_of2: u32)
    ensures
        final(s)@ == old(s)@ + translation_step2_text(power_of2),
{
    s.append("\nStep 2: Note the Virtual Address Space size (abbrv. VAS --measured in bits) and separate the Segment Selector (SS) from the Offset portion of the binary.\n");
    s.append("Remember --if the amount of bits in the Virtual Address Space differs from the amount of bits in the binary calculated, we must either\n");
    s.append("\n\ta) Pad the calculated binary number with zeros until the length of the binary equals the amount of bits in the VAS.\n");
    s.append("\n\tb) Trim the top bits of the calculated binary until the length of the binary equals the amount of bits in the VAS.\n\n");
    s.append("In this case, the Virtual Address Space size in bits is ");
    push_dec(s, power_of2);
    s.append(".\n");
    s.append("So, only the first ");
    push_dec(s, power_of2);
    s.append(" bits of the calculated binary are considered.\n\n");
    s.append("The SS is always either 00, 01, or 11 => SS \u{3F5} {0, 1, 3}\n");
    s.append("\nDiscard the segment selector bits from the offset calculation.\n\n");
    proof {
        assert(s@ =~= old(s)@ + translation_step2_text(power_of2));
    }
}

/// Appends `" "` padded to `width` characters.
pub fn push_padded_space(s: &mut String, width: u32)
    ensures
        final(s)@ == old(s)@ + padded_space(width as nat),
{
    push_char(s, ' ');
    let mut i: u32 = 1;
    while i < width
        invariant
            1 <= i,
            i <= width || i == 1,
            s@ == old(s)@ + repeat_char(' ', i as nat),
        decreases width - i,
    {
        push_char(s, ' ');
        i = i + 1;
        assert(s@ =~= old(s)@ + repeat_char(' ', i as nat));
    }
    proof {
        if width <= 1 {
            assert(s@ =~= old(s)@ + padded_space(width as nat));
        } else {
            assert(s@ =~= old(s)@ + padded_space(width as nat));
        }
    }
}

fn push_selector_offset(s: &mut String, ss: u32, offset: u32)
    requires
        offset < 0x8000_0000,
    ensures
        final(s)@ == old(s)@ + selector_offset_text(ss, offset),
{
    if ss != 3 {
        s.append("0");
        push_dec(s, ss);
        s.append(" ");
        push_bin(s, offset);
        s.append("\n");
    } else {
        push_bin(s, ss);
        s.append(" ");
        push_bin(s, offset);
        s.append("\n");
    }
    s.append("-- ");
    let hyphens = print_hyphens(offset);
    s.append(hyphens.as_str());
    s.append("SS ");
    let x_axis: u32 = num_bits_reqd(offset) / 2 / 2;
    push_padded_space(s, x_axis);
    s.append("OFFSET\n");
    proof {
        assert(s@ =~= old(s)@ + selector_offset_text(ss, offset));
    }
}

fn push_translation_step3(s: &mut String, offset: u32)
    ensures
        final(s)@ == old(s)@ + translation_step3_text(offset),
{
    s.append("\nStep 3: Note the value of the Segment Selector and Offset bits:\n");
    s.append("00 ===> Code\n");
    s.append("01 ===> Heap\n");
    s.append("11 ===> Stack\n\n");
    s.append("Offset = ");
    push_bin(s, offset);
    s.append(" = ");
    push_dec(s, offset);
    s.append(" bytes\n\n");
    proof {
        assert(s@ =~= old(s)@ + translation_step3_text(offset));
    }
}

fn push_translation_step4(s: &mut String, offset: u32, power_of2: u32, mss: u32)
    requires
        2 <= power_of2,
        mss == pow2((power_of2 - 2) as nat),
    ensures
        final(s)@ == old(s)@ + translation_step4_text(offset, power_of2),
{
    s.append("Step 4: Note: PA = (-1)*(GN)*(MSS) + base + offset\n\n");
    s.append("GN = `grows negative`. If SS = 11 => SS = Stack => GN = 1. Otherwise, GN = 0.\n");
    s.append("MSS = `maximum segment size`. MSS = 2^(number of bits in the offset)\n");
    s.append("Base = the base of the segment, measured in bytes. Value provided in table.\n");
    s.append("The offset has already been calculated: offset = ");
    push_dec(s, offset);
    s.append(" bytes (base 10)\n");
    s.append("There are ");
    push_dec(s, power_of2 - 2);
    s.append(" bits in the offset, so the MSS is 2^");
    push_dec(s, power_of2 - 2);
    s.append(" = ");
    push_dec(s, mss);
    s.append(" bytes.\n");
    proof {
        assert(s@ =~= old(s)@ + translation_step4_text(offset, power_of2));
    }
}

/// Appends a line of literal text with three decimal numbers between its parts.
pub fn push_three_numbers_line(
    s: &mut String,
    a: &str,
    x: u32,
    b: &str,
    y: u32,
    c: &str,
    z: u32,
    d: &str,
)
    ensures
        final(s)@ == old(s)@ + three_numbers_line(a@, x as nat, b@, y as nat, c@, z as nat, d@),
{
    s.append(a);
    push_dec(s, x);
    s.append(b);
    push_dec(s, y);
    s.append(c);
    push_dec(s, z);
    s.append(d);
    proof {
        assert(s@ =~= old(s)@ + three_numbers_line(a@, x as nat, b@, y as nat, c@, z as nat, d@));
    }
}

fn push_stack_formula(s: &mut String, seg: Segment, offset: u32, power_of2: u32, mss: u32)
    requires
        2 <= power_of2,
        mss == pow2((power_of2 - 2) as nat),
        seg.base * 1024 + offset <= u32::MAX,
        seg.base * 1024 + offset >= mss,
    ensures
        final(s)@ == old(s)@ + stack_formula_text(seg, offset, power_of2),
{
    let base_bytes: u32 = seg.base * 1024;
    s.append("The SS = 11 (base 2) = 3 (base 10) => SS = Stack Segment => GN = 1\n");
    s.append("PA (in bytes) = (-1)*(GN)*(MSS) + base + offset\n\n");
    push_three_numbers_line(s, "=> PA = (-1)(1)(2^", power_of2 - 2, ") + (", seg.base, "K) + ", offset, " bytes\n");
    push_three_numbers_line(s, "=> PA = (-1)(1)(", mss, ") + (", seg.base, " * 1024) + ", offset, " bytes\n");
    push_three_numbers_line(s, "=> PA = (-", mss, ") + (", base_bytes, ") + ", offset, " bytes\n");
    s.append("=> PA = ");
    push_dec(s, base_bytes + offset - mss);
    s.append(" bytes\n");
    proof {
        assert(s@ =~= old(s)@ + stack_formula_text(seg, offset, power_of2));
    }
}

fn push_upward_formula(s: &mut String, seg: Segment, offset: u32, power_of2: u32, mss: u32)
    requires
        2 <= power_of2,
        mss == pow2((power_of2 - 2) as nat),
        seg.base * 1024 + offset <= u32::MAX,
    ensures
        final(s)@ == old(s)@ + upward_formula_text(seg, offset, power_of2),
{
    let base_bytes: u32 = seg.base * 1024;
    s.append("PA (in bytes) = (-1)*(GN)*(MSS) + base + offset\n\n");
    push_three_numbers_line(s, "=> PA = (-1)(0)(2^", power_of2 - 2, ") + (", seg.base, "K) + ", offset, " bytes\n");
    push_three_numbers_line(s, "=> PA = (-1)(0)(", mss, ") + (", seg.base, " * 1024) + ", offset, " bytes\n");
    s.append("=> PA = 0 + (");
    push_dec(s, base_bytes);
    s.append(") + ");
    push_dec(s, offset);
    s.append(" bytes\n");
    s.append("=> PA = ");
    push_dec(s, base_bytes + offset);
    s.append(" bytes\n");
    proof {
        assert(s@ =~= old(s)@ + upward_formula_text(seg, offset, power_of2));
    }
}

fn push_translation_formula(s: &mut String, seg: Segment, ss: u32, offset: u32, power_of2: u32, mss: u32)
    requires
        2 <= power_of2,
        mss == pow2((power_of2 - 2) as nat),
        seg.base * 1024 + offset <= u32::MAX,
        ss == 3 ==> seg.base * 1024 + offset >= mss,
    ensures
        final(s)@ == old(s)@ + translation_formula_text(seg, ss, offset, power_of2),
{
    if ss == 3 {
        push_stack_formula(s, seg, offset, power_of2, mss);
    } else {
        if ss == 0 {
            s.append("The SS = 00 (base 2) = 0 (base 10) => SS = Code Segment => GN = 0\n");
        } else {
            s.append("The SS = 01 (base 2) = 1 (base 10) => SS = Heap Segment => GN = 0\n");
        }
        push_upward_formula(s, seg, offset, power_of2, mss);
    }
    proof {
        assert(s@ =~= old(s)@ + translation_formula_text(seg, ss, offset, power_of2));
    }
}

fn push_answer_line(s: &mut String, pa: u32, aformat: i8)
    ensures
        final(s)@ == old(s)@ + answer_line_text(pa, aformat),
{
    if aformat == 16 {
        s.append("=> PA = ");
        push_hex_prefixed(s, pa);
        s.append(" bytes\n");
    } else if aformat == 2 {
        s.append("=> PA = ");
        push_bin(s, pa);
        s.append(" bytes\n");
    }
    proof {
        assert(s@ =~= old(s)@ + answer_line_text(pa, aformat));
    }
}

/// The worked solution of a virtual-to-physical translation: the address in
/// binary, the split into segment selector `ss` and `offset`, the meaning of
/// the selector, and the formula `PA = (-1)*(GN)*(MSS) + base + offset` worked
/// out for `seg`, ending with the physical address `pa` in the answer format.
/// The address is given in the question format `qaformate.0` and the answer in
/// `qaformate.1` (16, 2 or 10).
pub fn show_solution_va_to_pa_hex(
    seg: Segment,
    ss: u32,
    offset: u32,
    va: u32,
    pa: u32,
    power_of2: u32,
    qaformate: (i8, i8),
) -> (r: String)
    requires
        translation_solution_allowed(seg, ss, offset, va, pa, power_of2, qaformate),
    ensures
        r@ == translation_solution_text(seg, ss, offset, va, pa, power_of2, qaformate),
{
    proof {
        lemma_pow_nat_two_is_pow2((power_of2 - 2) as nat);
        vstd::bits::lemma_u32_pow2_no_overflow((power_of2 - 2) as nat);
    }
    let mss: u32 = pow_u32(2, power_of2 - 2);
    let mut to_print = String::new();
    push_translation_step1(&mut to_print, va, qaformate.0, power_of2);
    push_translation_step2(&mut to_print, power_of2);
    push_selector_offset(&mut to_print, ss, offset);
    push_translation_step3(&mut to_print, offset);
    push_translation_step4(&mut to_print, offset, power_of2, mss);
    push_translation_formula(&mut to_print, seg, ss, offset, power_of2, mss);
    push_answer_line(&mut to_print, pa, qaformate.1);
    to_print.append("Check out youtube for shortcuts on converting to and from binary, decimal, and hexadecimal by hand.\n\n");
    proof {
        assert(to_print@ =~= translation_solution_text(seg, ss, offset, va, pa, power_of2, qaformate));
    }
    to_print
}

// ---------------------------------------------------------------------------
// The worked solution of the stack-percentage problem
// ---------------------------------------------------------------------------

/// The decimal places of a fraction given in thousandths (below 1000), without
/// trailing zeros and with no point when it is zero: `.5`, `.25`, `.125`.
pub open spec fn fraction_text(f: nat) -> Seq<char> {
    if f == 0 {
        Seq::empty()
    } else if f % 100 == 0 {
        seq!['.', digit_char(f / 100)]
    } else if f % 10 == 0 {
        seq!['.', digit_char(f / 100), digit_char((f / 10) % 10)]
    } else {
        seq!['.', digit_char(f / 100), digit_char((f / 10) % 10), digit_char(f % 10)]
    }
}

/// A quantity given in thousandths written as a decimal number with the
/// fewest digits that give it exactly: `-0.5`, `12`, `2.125`.
pub open spec fn thousandths_text(t: int) -> Seq<char> {
    let m: nat = if t < 0 {
        (-t) as nat
    } else {
        t as nat
    };
    (if t < 0 {
        seq!['-']
    } else {
        Seq::empty()
    }) + dec_text(m / 1000) + fraction_text(m % 1000)
}

fn push_digit(s: &mut String, d: u32)
    requires
        d < 10,
    ensures
        final(s)@ == old(s)@.push(digit_char(d as nat)),
{
    push_dec(s, d);
    proof {
        assert(dec_text(d as nat) == seq![digit_char(d as nat)]);
    }
}

/// Appends a quantity given in thousandths as a decimal number.
pub fn push_thousandths(s: &mut String, t: i128)
    requires
        -0xFFFF_FFFF_FFFF_FFFF_FFFF_FFFF <= t <= 0xFFFF_FFFF_FFFF_FFFF_FFFF_FFFF,
        (if t < 0 { -(t as int) } else { t as int }) / 1000 <= u64::MAX,
    ensures
        final(s)@ == old(s)@ + thousandths_text(t as int),
{
    let m: i128 = if t < 0 {
        push_char(s, '-');
        -t
    } else {
        t
    };
    let ghost after_sign = s@;
    push_dec64(s, (m / 1000) as u64);
    let f: u32 = (m % 1000) as u32;
    if f != 0 {
        push_char(s, '.');
        push_digit(s, f / 100);
        if f % 100 != 0 {
            push_digit(s, (f / 10) % 10);
            if f % 10 != 0 {
                push_digit(s, f % 10);
            }
        }
    }
    proof {
        assert(s@ =~= old(s)@ + thousandths_text(t as int));
    }
}

/// The digits of `f` written over `places` decimal places, with leading zeros.
pub open spec fn place_digits(f: nat, places: nat) -> Seq<char>
    decreases places,
{
    if places == 0 {
        Seq::empty()
    } else {
        place_digits(f / 10, (places - 1) as nat).push(digit_char(f % 10))
    }
}

/// The `places` decimal places of a fraction `f` (below `10^places`) without
/// their trailing zeros.
pub open spec fn trimmed_places(f: nat, places: nat) -> Seq<char>
    decreases places,
{
    if places == 0 {
        Seq::empty()
    } else if f % 10 == 0 {
        trimmed_places(f / 10, (places - 1) as nat)
    } else {
        place_digits(f, places)
    }
}

/// A quantity given in ten-billionths written as a decimal number with the
/// fewest digits that give it exactly: `0.0009765625`, `-3.2`, `28`.
pub open spec fn ten_billionths_text(t: int) -> Seq<char> {
    let m: nat = if t < 0 {
        (-t) as nat
    } else {
        t as nat
    };
    (if t < 0 {
        seq!['-']
    } else {
        Seq::empty()
    }) + dec_text(m / 10_000_000_000) + (if m % 10_000_000_000 == 0 {
        Seq::empty()
    } else {
        seq!['.'] + trimmed_places(m % 10_000_000_000, 10)
    })
}

fn push_place_digits(s: &mut String, f: u64, places: u32)
    ensures
        final(s)@ == old(s)@ + place_digits(f as nat, places as nat),
    decreases places,
{
    if places > 0 {
        push_place_digits(s, f / 10, places - 1);
        push_digit(s, (f % 10) as u32);
        proof {
            assert(s@ =~= old(s)@ + place_digits(f as nat, places as nat));
        }
    } else {
        assert(s@ =~= old(s)@ + place_digits(f as nat, places as nat));
    }
}

fn push_trimmed_places(s: &mut String, f: u64, places: u32)
    ensures
        final(s)@ == old(s)@ + trimmed_places(f as nat, places as nat),
    decreases places,
{
    if places == 0 {
        assert(s@ =~= old(s)@ + trimmed_places(f as nat, places as nat));
    } else if f % 10 == 0 {
        push_trimmed_places(s, f / 10, places - 1);
    } else {
        push_place_digits(s, f, places);
    }
}

/// Appends a quantity given in ten-billionths as a decimal number.
fn push_ten_billionths(s: &mut String, t: i128)
    requires
        -0xFFFF_FFFF_FFFF_FFFF_FFFF_FFFF_FFFF <= t <= 0xFFFF_FFFF_FFFF_FFFF_FFFF_FFFF_FFFF,
        (if t < 0 { -(t as int) } else { t as int }) / 10_000_000_000 <= u64::MAX,
    ensures
        final(s)@ == old(s)@ + ten_billionths_text(t as int),
{
    let m: i128 = if t < 0 {
        push_char(s, '-');
        -t
    } else {
        t
    };
    let whole: u64 = (m / 10_000_000_000) as u64;
    push_dec64(s, whole);
    let f: u64 = (m % 10_000_000_000) as u64;
    assert(f as nat == (if t < 0 { -(t as int) } else { t as int }) as nat % 10_000_000_000);
    assert(whole as nat == (if t < 0 { -(t as int) } else { t as int }) as nat / 10_000_000_000);
    if f != 0 {
        push_char(s, '.');
        push_trimmed_places(s, f, 10);
    }
    proof {
        assert(s@ =~= old(s)@ + ten_billionths_text(t as int));
    }
}

/// The line of step 1 that takes `percent`% of the stack size.
pub open spec fn stack_portion_line(seg: Segment, percent: u32) -> Seq<char> {
    dec_text(percent as nat) + "% * "@ + thousandths_text(seg.size_tenths * 100) + "K = ("@
        + thousandths_text(percent * 10) + " * "@ + thousandths_text(seg.size_tenths * 100)
        + ")K = "@ + thousandths_text(seg.size_tenths * percent) + "K\n\n"@
}

/// The notes and step 1 of the stack solution: `percent`% of the stack size.
#[verifier::opaque]
pub open spec fn stack_step1_text(seg: Segment, percent: u32) -> Seq<char> {
    "--Note that the stack base and size are parameters in Physical Memory --not Virtual Memory.\n"@
        + "The problem prompts a translation "@
        + "from PA to VA --the address corresponding to the specified portion through the stack as a virtual address\n"@
        + "Therefore, calculating the percent of the stack size and subtracting it from the stack base yields an incorrect translation.\n\n"@
        + "Drawing a picture helps to understand this non-intuitive math.\n"@
        + "\nStep 1: Calculate "@ + dec_text(percent as nat)
        + "% into the stack _size_ in K (as a multiple of 1024)\n"@ + stack_portion_line(seg, percent)
}

/// Step 2 of the stack solution: the lowest address the stack could reach.
#[verifier::opaque]
pub open spec fn stack_step2_text(seg: Segment, power_of2: u32) -> Seq<char> {
    let mss = pow2((power_of2 - 2) as nat);
    "Step 2: Calculate the maximum segment size in relation to the stack's base\n"@
        + "Remember --the stack grows downwards from its base.\n\n"@
        + "MSS = 2^(number of bits in the offset) = 2^"@ + dec_text((power_of2 - 2) as nat) + " = "@
        + dec_text(mss) + " bytes\n"@ + three_numbers_line(
        "=> If the stack segment were to use up its MSS, it would grow downwards to "@,
        seg.base as nat,
        "K - "@,
        mss / 1024,
        "K = "@,
        (seg.base - mss / 1024) as nat,
        "K\n\n"@,
    )
}

/// The first half of the offset line of step 3: the stack base less the
/// portion, less the lowest address.
pub open spec fn stack_offset_line_start(seg: Segment, percent: u32, power_of2: u32) -> Seq<char> {
    let mss = pow2((power_of2 - 2) as nat);
    let portion = seg.size_tenths * percent;
    let floor_k = (seg.base - mss / 1024) as nat;
    "("@ + dec_text(seg.base as nat) + "K - "@ + thousandths_text(portion) + "K) - "@ + dec_text(
        floor_k,
    ) + "K = "@
}

/// The second half of the offset line of step 3: the differences worked out.
/// The maximum segment size in K, `mss / 1024`, is written exactly in
/// ten-billionths (`mss * 9765625`), so that it may be a fraction of a K.
pub open spec fn stack_offset_line_end(seg: Segment, offset: u32, percent: u32, power_of2: u32) -> Seq<char> {
    let mss = pow2((power_of2 - 2) as nat);
    let portion = seg.size_tenths * percent;
    let floor_k = (seg.base - mss / 1024) as nat;
    thousandths_text(seg.base * 1000 - portion) + "K - "@ + dec_text(floor_k) + "K = "@
        + ten_billionths_text(mss * 9765625 - portion * 10_000_000) + "K = "@ + dec_text(offset as nat)
        + " bytes\n"@
}

/// The line of step 3 that works out the offset in K and gives it in bytes.
pub open spec fn stack_offset_line(seg: Segment, offset: u32, percent: u32, power_of2: u32) -> Seq<char> {
    stack_offset_line_start(seg, percent, power_of2) + stack_offset_line_end(
        seg,
        offset,
        percent,
        power_of2,
    )
}

/// Step 3 of the stack solution: the offset from the lowest address.
#[verifier::opaque]
pub open spec fn stack_step3_text(seg: Segment, offset: u32, percent: u32, power_of2: u32) -> Seq<char> {
    "Step 3: Calculate the offset\n"@
        + "Subtract the address of the maximum segment size from the stack base minus the calculated portion of the stack size in K:\n"@
        + stack_offset_line(seg, offset, percent, power_of2)
        + "This is the _offset_ portion of the binary number to be constructed for the virtual address.\n\n"@
}

/// The explanation that opens step 4 of the stack solution.
pub open spec fn stack_step4_intro_text() -> Seq<char> {
    "Step 4: Append the appropriate segment selector bits to the offset\n"@
        + "The SS = the top two bits of the virtual address. If virtual addresses use up 17 bits, then the SS goes in the place\n"@
        + "of the 15th and 16th bits, counting from zero.\n\n"@
        + "Since this translation is to a stack VA, this means the segment selector bits for that address must be 11 already.\n"@
        + "=> SS = Stack = 11\n"@
        + "Append these two SS bits on to the highest portion of the offset binary:\n"@
}

/// The sum of step 4: the selector bits, the padded offset, the line under
/// them and the virtual address in binary.
pub open spec fn stack_step4_sum_text(offset: u32, power_of2: u32) -> Seq<char> {
    let bits = (3u32 << ((power_of2 - 2) as u32));
    "  "@ + bin_text(bits as nat) + "\t--SS bits\n"@ + "+ "@ + leading_zeros_text(
        offset as nat,
        power_of2 as nat,
    ) + bin_text(offset as nat) + "\t--OFFSET\n"@ + "--"@ + hyphens_text(bits as nat) + "  "@
        + bin_text((offset + bits) as nat) + "\n"@ + padded_space(
        (bits_reqd(bits as nat) / 3) as nat,
    ) + "VA in bytes\n"@
}

/// Step 4 of the stack solution: the selector bits `11` put above the offset.
#[verifier::opaque]
pub open spec fn stack_step4_text(offset: u32, power_of2: u32) -> Seq<char> {
    stack_step4_intro_text() + stack_step4_sum_text(offset, power_of2)
}

/// The virtual address in the answer format (nothing more for binary).
pub open spec fn va_answer_line_text(va: u32, aformate: i8) -> Seq<char> {
    if aformate == 16 {
        "=> VA = "@ + hex_prefixed_text(va as nat) + " bytes\n"@
    } else if aformate == 10 {
        "=> VA = "@ + dec_text(va as nat) + " bytes\n"@
    } else {
        Seq::empty()
    }
}

/// The whole worked solution of the stack-percentage problem.
pub open spec fn stack_solution_text(
    seg: Segment,
    offset: u32,
    va: u32,
    power_of2: u32,
    percent: u32,
    aformate: i8,
) -> Seq<char> {
    stack_step1_text(seg, percent) + stack_step2_text(seg, power_of2) + stack_step3_text(
        seg,
        offset,
        percent,
        power_of2,
    ) + stack_step4_text(offset, power_of2) + va_answer_line_text(va, aformate) + closing_text()
}

/// What the worked stack solution needs: addresses of 2 to 31 bits (so that
/// the selector bits stay below 2^31), a stack base at least the whole K of the
/// maximum segment size, an offset
/// that fits in the address width and leaves room for the selector bits, and a
/// known answer format.
pub open spec fn stack_solution_allowed(seg: Segment, offset: u32, power_of2: u32, aformate: i8) -> bool {
    &&& 2 <= power_of2 <= 31
    &&& seg.base >= pow2((power_of2 - 2) as nat) / 1024
    &&& offset < 0x8000_0000
    &&& bits_reqd(offset as nat) <= power_of2
    &&& offset + (3u32 << ((power_of2 - 2) as u32)) <= u32::MAX
    &&& is_format(aformate)
}

fn push_stack_portion_line(s: &mut String, seg: Segment, percent: u32)
    ensures
        final(s)@ == old(s)@ + stack_portion_line(seg, percent),
{
    let size: i128 = (seg.size_tenths as i128) * 100;
    let pct: i128 = (percent as i128) * 10;
    let st: i128 = seg.size_tenths as i128;
    let pc: i128 = percent as i128;
    assert(st * pc <= 0xFFFF_FFFF * 0xFFFF_FFFF && st * pc >= 0) by (nonlinear_arith)
        requires
            0 <= st <= 0xFFFF_FFFF,
            0 <= pc <= 0xFFFF_FFFF,
    ;
    let portion: i128 = st * pc;
    push_dec(s, percent);
    s.append("% * ");
    push_thousandths(s, size);
    s.append("K = (");
    push_thousandths(s, pct);
    s.append(" * ");
    push_thousandths(s, size);
    s.append(")K = ");
    push_thousandths(s, portion);
    s.append("K\n\n");
    proof {
        assert(s@ =~= old(s)@ + stack_portion_line(seg, percent));
    }
}

fn push_stack_step1(s: &mut String, seg: Segment, percent: u32)
    ensures
        final(s)@ == old(s)@ + stack_step1_text(seg, percent),
{
    s.append("--Note that the stack base and size are parameters in Physical Memory --not Virtual Memory.\n");
    s.append("The problem prompts a translation ");
    s.append("from PA to VA --the address corresponding to the specified portion through the stack as a virtual address\n");
    s.append("Therefore, calculating the percent of the stack size and subtracting it from the stack base yields an incorrect translation.\n\n");
    s.append("Drawing a picture helps to understand this non-intuitive math.\n");
    s.append("\nStep 1: Calculate ");
    push_dec(s, percent);
    s.append("% into the stack _size_ in K (as a multiple of 1024)\n");
    push_stack_portion_line(s, seg, percent);
    proof {
        reveal(stack_step1_text);
        assert(s@ =~= old(s)@ + stack_step1_text(seg, percent));
    }
}

fn push_stack_step2(s: &mut String, seg: Segment, power_of2: u32, mss: u32)
    requires
        2 <= power_of2,
        mss == pow2((power_of2 - 2) as nat),
        seg.base >= mss / 1024,
    ensures
        final(s)@ == old(s)@ + stack_step2_text(seg, power_of2),
{
    s.append("Step 2: Calculate the maximum segment size in relation to the stack's base\n");
    s.append("Remember --the stack grows downwards from its base.\n\n");
    s.append("MSS = 2^(number of bits in the offset) = 2^");
    push_dec(s, power_of2 - 2);
    s.append(" = ");
    push_dec(s, mss);
    s.append(" bytes\n");
    push_three_numbers_line(
        s,
        "=> If the stack segment were to use up its MSS, it would grow downwards to ",
        seg.base,
        "K - ",
        mss / 1024,
        "K = ",
        seg.base - mss / 1024,
        "K\n\n",
    );
    proof {
        reveal(stack_step2_text);
        assert(s@ =~= old(s)@ + stack_step2_text(seg, power_of2));
    }
}

fn portion_exec(seg: Segment, percent: u32) -> (r: i128)
    ensures
        r == seg.size_tenths * percent,
        0 <= r <= 0xFFFF_FFFF * 0xFFFF_FFFF,
{
    let st: i128 = seg.size_tenths as i128;
    let pc: i128 = percent as i128;
    assert(st * pc <= 0xFFFF_FFFF * 0xFFFF_FFFF && st * pc >= 0) by (nonlinear_arith)
        requires
            0 <= st <= 0xFFFF_FFFF,
            0 <= pc <= 0xFFFF_FFFF,
    ;
    st * pc
}

fn push_stack_offset_line_start(s: &mut String, seg: Segment, percent: u32, power_of2: u32, mss: u32)
    requires
        2 <= power_of2,
        mss == pow2((power_of2 - 2) as nat),
        seg.base >= mss / 1024,
    ensures
        final(s)@ == old(s)@ + stack_offset_line_start(seg, percent, power_of2),
{
    let portion: i128 = portion_exec(seg, percent);
    s.append("(");
    push_dec(s, seg.base);
    s.append("K - ");
    push_thousandths(s, portion);
    s.append("K) - ");
    push_dec(s, seg.base - mss / 1024);
    s.append("K = ");
    proof {
        assert(s@ =~= old(s)@ + stack_offset_line_start(seg, percent, power_of2));
    }
}

fn push_stack_offset_line_end(s: &mut String, seg: Segment, offset: u32, percent: u32, power_of2: u32, mss: u32)
    requires
        2 <= power_of2,
        mss == pow2((power_of2 - 2) as nat),
        seg.base >= mss / 1024,
    ensures
        final(s)@ == old(s)@ + stack_offset_line_end(seg, offset, percent, power_of2),
{
    let portion: i128 = portion_exec(seg, percent);
    push_thousandths(s, (seg.base as i128) * 1000 - portion);
    s.append("K - ");
    push_dec(s, seg.base - mss / 1024);
    s.append("K = ");
    assert(portion * 10_000_000 <= 0xFFFF_FFFF * 0xFFFF_FFFF * 10_000_000);
    push_ten_billionths(s, (mss as i128) * 9765625 - portion * 10_000_000);
    s.append("K = ");
    push_dec(s, offset);
    s.append(" bytes\n");
    proof {
        assert(s@ =~= old(s)@ + stack_offset_line_end(seg, offset, percent, power_of2));
    }
}

fn push_stack_offset_line(s: &mut String, seg: Segment, offset: u32, percent: u32, power_of2: u32, mss: u32)
    requires
        2 <= power_of2,
        mss == pow2((power_of2 - 2) as nat),
        seg.base >= mss / 1024,
    ensures
        final(s)@ == old(s)@ + stack_offset_line(seg, offset, percent, power_of2),
{
    push_stack_offset_line_start(s, seg, percent, power_of2, mss);
    push_stack_offset_line_end(s, seg, offset, percent, power_of2, mss);
    proof {
        assert(s@ =~= old(s)@ + stack_offset_line(seg, offset, percent, power_of2));
    }
}

fn push_stack_step3(s: &mut String, seg: Segment, offset: u32, percent: u32, power_of2: u32, mss: u32)
    requires
        2 <= power_of2,
        mss == pow2((power_of2 - 2) as nat),
        seg.base >= mss / 1024,
    ensures
        final(s)@ == old(s)@ + stack_step3_text(seg, offset, percent, power_of2),
{
    s.append("Step 3: Calculate the offset\n");
    s.append("Subtract the address of the maximum segment size from the stack base minus the calculated portion of the stack size in K:\n");
    push_stack_offset_line(s, seg, offset, percent, power_of2, mss);
    s.append("This is the _offset_ portion of the binary number to be constructed for the virtual address.\n\n");
    proof {
        reveal(stack_step3_text);
        assert(s@ =~= old(s)@ + stack_step3_text(seg, offset, percent, power_of2));
    }
}

fn push_stack_step4_intro(s: &mut String)
    ensures
        final(s)@ == old(s)@ + stack_step4_intro_text(),
{
    s.append("Step 4: Append the appropriate segment selector bits to the offset\n");
    s.append("The SS = the top two bits of the virtual address. If virtual addresses use up 17 bits, then the SS goes in the place\n");
    s.append("of the 15th and 16th bits, counting from zero.\n\n");
    s.append("Since this translation is to a stack VA, this means the segment selector bits for that address must be 11 already.\n");
    s.append("=> SS = Stack = 11\n");
    s.append("Append these two SS bits on to the highest portion of the offset binary:\n");
    proof {
        assert(s@ =~= old(s)@ + stack_step4_intro_text());
    }
}

fn push_stack_step4_sum(s: &mut String, offset: u32, power_of2: u32)
    requires
        2 <= power_of2 <= 31,
        offset < 0x8000_0000,
        bits_reqd(offset as nat) <= power_of2,
        offset + (3u32 << ((power_of2 - 2) as u32)) <= u32::MAX,
    ensures
        final(s)@ == old(s)@ + stack_step4_sum_text(offset, power_of2),
{
    let k: u32 = power_of2 - 2;
    let bits: u32 = 3u32 << k;
    assert(bits < 0x8000_0000) by (bit_vector)
        requires
            bits == 3u32 << k,
            k <= 29,
    ;
    s.append("  ");
    push_bin(s, bits);
    s.append("\t--SS bits\n");
    s.append("+ ");
    let zeros = print_leading_zeros(offset, power_of2);
    s.append(zeros.as_str());
    push_bin(s, offset);
    s.append("\t--OFFSET\n");
    s.append("--");
    let hyphens = print_hyphens(bits);
    s.append(hyphens.as_str());
    s.append("  ");
    push_bin(s, offset + bits);
    s.append("\n");
    let horiz: u32 = num_bits_reqd(bits) / 3;
    push_padded_space(s, horiz);
    s.append("VA in bytes\n");
    proof {
        assert(s@ =~= old(s)@ + stack_step4_sum_text(offset, power_of2));
    }
}

fn push_stack_step4(s: &mut String, offset: u32, power_of2: u32)
    requires
        2 <= power_of2 <= 31,
        offset < 0x8000_0000,
        bits_reqd(offset as nat) <= power_of2,
        offset + (3u32 << ((power_of2 - 2) as u32)) <= u32::MAX,
    ensures
        final(s)@ == old(s)@ + stack_step4_text(offset, power_of2),
{
    push_stack_step4_intro(s);
    push_stack_step4_sum(s, offset, power_of2);
    proof {
        reveal(stack_step4_text);
        assert(s@ =~= old(s)@ + stack_step4_text(offset, power_of2));
    }
}

fn push_va_answer_line(s: &mut String, va: u32, aformate: i8)
    ensures
        final(s)@ == old(s)@ + va_answer_line_text(va, aformate),
{
    if aformate == 16 {
        s.append("=> VA = ");
        push_hex_prefixed(s, va);
        s.append(" bytes\n");
    } else if aformate == 10 {
        s.append("=> VA = ");
        push_dec(s, va);
        s.append(" bytes\n");
    }
    proof {
        assert(s@ =~= old(s)@ + va_answer_line_text(va, aformate));
    }
}

/// The worked solution of "what virtual address is `percent`% into the stack":
/// the portion of the stack size, the lowest address the stack could reach
/// (base minus the maximum segment size), the offset of the point from there,
/// and the selector bits `11` put above the offset; the virtual address `va`
/// ends it in the answer format `aformate` (16 or 10; binary shows the sum only).
/// Quantities in K are written as exact decimals.
pub fn show_solution_stack_va(
    seg: Segment,
    offset: u32,
    va: u32,
    power_of2: u32,
    percent: u32,
    aformate: i8,
) -> (r: String)
    requires
        stack_solution_allowed(seg, offset, power_of2, aformate),
    ensures
        r@ == stack_solution_text(seg, offset, va, power_of2, percent, aformate),
{
    proof {
        lemma_pow_nat_two_is_pow2((power_of2 - 2) as nat);
        vstd::bits::lemma_u32_pow2_no_overflow((power_of2 - 2) as nat);
    }
    let mss: u32 = pow_u32(2, power_of2 - 2);
    assert(seg.base >= mss / 1024);
    let mut to_print = String::new();
    push_stack_step1(&mut to_print, seg, percent);
    let ghost t1 = stack_step1_text(seg, percent);
    assert(to_print@ =~= t1);
    push_stack_step2(&mut to_print, seg, power_of2, mss);
    let ghost t2 = t1 + stack_step2_text(seg, power_of2);
    assert(to_print@ == t2);
    push_stack_step3(&mut to_print, seg, offset, percent, power_of2, mss);
    let ghost t3 = t2 + stack_step3_text(seg, offset, percent, power_of2);
    assert(to_print@ == t3);
    push_stack_step4(&mut to_print, offset, power_of2);
    let ghost t4 = t3 + stack_step4_text(offset, power_of2);
    assert(to_print@ == t4);
    push_va_answer_line(&mut to_print, va, aformate);
    let ghost t5 = t4 + va_answer_line_text(va, aformate);
    assert(to_print@ == t5);
    to_print.append("Check out youtube for shortcuts on converting to and from binary, decimal, and hexadecimal by hand.\n\n");
    assert(to_print@ =~= t5 + closing_text());
    assert(to_print@ =~= stack_solution_text(seg, offset, va, power_of2, percent, aformate));
    to_print
}

} // verus!
