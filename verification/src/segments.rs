//! The segmented memory model: the code, heap and stack segments of a layout
//! (base in K, size in tenths of K, direction of growth), the random layouts
//! that the problems are built on, the check that segments stay apart, the
//! choice of a virtual address that falls inside a segment, and the physical
//! address that a virtual address translates to.

use vstd::prelude::*;
use vstd::arithmetic::power2::pow2;
use crate::random::random_in;
use crate::lib_fns::{pow_u32, lemma_pow_nat_two_is_pow2, num_bits_reqd, bits_reqd, rand_even, rand_power_of_2, is_power_of_2_from_2, has_power_of_2_in, lemma_bits_reqd_bounds, lemma_bits_reqd_unique};

verus! {

/// The segments of a layout; the segment selector of a virtual address (its two
/// top bits) is 00 for the code, 01 for the heap and 11 for the stack.
#[derive(Clone, Copy, Debug, PartialEq, Eq, Structural)]
pub enum SegName {
    Code,
    Heap,
    Stack,
}

/// One segment of a layout. The base is in K (1024 bytes) and the size in
/// tenths of K, so that a size of 12.8K is 128. A segment with `grows_negative`
/// equal to 1 (the stack) extends downward from its base.
#[derive(Clone, Copy, Debug, PartialEq, Eq, Structural)]
pub struct Segment {
    pub name: SegName,
    pub base: u32,
    pub size_tenths: u32,
    pub grows_negative: u32,
}

/// The value of a `u32` read as an `i32` (two's complement).
pub open spec fn as_i32(x: u32) -> int {
    if x < 0x8000_0000 {
        x as int
    } else {
        x as int - 0x1_0000_0000
    }
}

/// An integer reduced to `u32` as `as u32` does on an `i32` (modulo 2^32).
pub open spec fn wrap_u32(v: int) -> int {
    v % 0x1_0000_0000
}

/// The signed intermediate values of the translation formula
/// `PA = (-1) * GN * MSS + base * 1024 + offset`, with each `u32` read as `i32`.
pub open spec fn answer_terms_fit(seg: Segment, mss: u32, offset: u32) -> bool {
    let g = as_i32(seg.grows_negative);
    let m = as_i32(mss);
    let b = as_i32(seg.base);
    let o = as_i32(offset);
    &&& i32::MIN <= -g <= i32::MAX
    &&& i32::MIN <= -g * m <= i32::MAX
    &&& i32::MIN <= b * 1024 <= i32::MAX
    &&& i32::MIN <= -g * m + b * 1024 <= i32::MAX
    &&& i32::MIN <= -g * m + b * 1024 + o <= i32::MAX
}

/// The physical address of the translation formula, as the `i32` arithmetic
/// yields it reduced to `u32`.
pub open spec fn answer_value(seg: Segment, mss: u32, offset: u32) -> int {
    wrap_u32(-as_i32(seg.grows_negative) * as_i32(mss) + as_i32(seg.base) * 1024 + as_i32(offset))
}

proof fn lemma_u32_as_i32(x: u32)
    ensures
        (x as i32) as int == as_i32(x),
{
    assert((x as i32) as int == if x < 0x8000_0000u32 {
        x as int
    } else {
        x as int - 0x1_0000_0000
    }) by (bit_vector);
}

proof fn lemma_i32_as_u32(v: i32)
    ensures
        (v as u32) as int == wrap_u32(v as int),
{
    assert((v as u32) as int == if v >= 0 {
        v as int
    } else {
        v as int + 0x1_0000_0000
    }) by (bit_vector);
}

/// The physical address that `offset` in `seg` translates to:
/// `PA = (-1) * GN * MSS + base * 1024 + offset`, where GN is 1 for a segment
/// that grows downward and MSS is the maximum segment size. The arithmetic is
/// done on `i32` and the result read back as `u32`.
pub fn calculate_answer(seg: Segment, mss: u32, offset: u32) -> (r: u32)
    requires
        answer_terms_fit(seg, mss, offset),
    ensures
        r as int == answer_value(seg, mss, offset),
{
    proof {
        lemma_u32_as_i32(seg.grows_negative);
        lemma_u32_as_i32(mss);
        lemma_u32_as_i32(seg.base);
        lemma_u32_as_i32(offset);
    }
    let g: i32 = #[verifier::truncate] (seg.grows_negative as i32);
    let m: i32 = #[verifier::truncate] (mss as i32);
    let b: i32 = #[verifier::truncate] (seg.base as i32);
    let o: i32 = #[verifier::truncate] (offset as i32);
    assert(g == as_i32(seg.grows_negative));
    assert(m == as_i32(mss));
    let ng: i32 = -g;
    assert(ng == -as_i32(seg.grows_negative));
    let gm: i32 = ng * m;
    let v: i32 = gm + (b * 1024) + o;
    proof {
        lemma_i32_as_u32(v);
    }
    #[verifier::truncate]
    (v as u32)
}

// ---------------------------------------------------------------------------
// The stack-percentage problem
// ---------------------------------------------------------------------------

/// The segment selector bits of the stack (`11`) placed above the offset:
/// `3 << (power_of2 - 2)`.
pub open spec fn stack_selector_bits(power_of2: u32) -> u32 {
    3u32 << ((power_of2 - 2) as u32)
}

/// A byte count given in thousandths of a byte, cut to a whole number toward
/// zero and held to the range of `u32` (negative values give 0), as a
/// conversion of a real number to `u32` does.
pub open spec fn thousandths_to_u32(t: int) -> u32 {
    if t <= 0 {
        0
    } else if t / 1000 > u32::MAX {
        u32::MAX
    } else {
        (t / 1000) as u32
    }
}

/// The offset, in thousandths of a byte, of the point `percent`% of the way into
/// the stack from its base, measured from the lowest address the stack could
/// reach: `mss - percent/100 * size * 1024` with the size in K.
pub open spec fn stack_offset_thousandths(seg: Segment, percent: u32, mss: u32) -> int {
    1000 * mss - 1024 * percent * seg.size_tenths
}

/// The answer to the stack-percentage problem: the virtual address of the point
/// `percent`% into the stack (selector bits and offset) and the offset alone,
/// both in bytes. An empty stack gives the selector bits and offset 0.
pub open spec fn stack_answer(seg: Segment, percent: u32, mss: u32, power_of2: u32) -> (u32, u32) {
    if seg.size_tenths == 0 {
        (stack_selector_bits(power_of2), 0)
    } else {
        (
            thousandths_to_u32(
                stack_offset_thousandths(seg, percent, mss) + 1000 * stack_selector_bits(power_of2),
            ),
            thousandths_to_u32(stack_offset_thousandths(seg, percent, mss)),
        )
    }
}

fn thousandths_to_u32_exec(t: i128) -> (r: u32)
    ensures
        r == thousandths_to_u32(t as int),
{
    if t <= 0 {
        0
    } else if t / 1000 > 0xFFFF_FFFF {
        0xFFFF_FFFF
    } else {
        (t / 1000) as u32
    }
}

/// Solves "what virtual address is `percent`% into the stack": with the stack
/// growing down from its base, the offset is the maximum segment size less
/// `percent`% of the stack size, and the address puts the stack's selector bits
/// `11` above it. Returns the address and the offset in bytes.
pub fn calculate_answer_stack_percentage(seg: Segment, percent: u32, mss: u32, power_of2: u32) -> (r: (u32, u32))
    requires
        2 <= power_of2 <= 33,
    ensures
        r == stack_answer(seg, percent, mss, power_of2),
{
    let bits: u32 = 3u32 << (power_of2 - 2);
    if seg.size_tenths == 0 {
        return (bits, 0);
    }
    let pct: i128 = percent as i128;
    let size: i128 = seg.size_tenths as i128;
    assert(pct * size <= 0xFFFF_FFFF * 0xFFFF_FFFF) by (nonlinear_arith)
        requires
            0 <= pct <= 0xFFFF_FFFF,
            0 <= size <= 0xFFFF_FFFF,
    ;
    assert(pct * size >= 0) by (nonlinear_arith)
        requires
            0 <= pct,
            0 <= size,
    ;
    let offset: i128 = 1000 * (mss as i128) - 1024 * (pct * size);
    assert(1024 * (pct * size) == 1024 * percent * seg.size_tenths) by (nonlinear_arith)
        requires
            pct == percent,
            size == seg.size_tenths,
    ;
    (thousandths_to_u32_exec(offset + 1000 * (bits as i128)), thousandths_to_u32_exec(offset))
}

// ---------------------------------------------------------------------------
// Virtual addresses inside a segment
// ---------------------------------------------------------------------------

/// The segment that a segment selector names: 00 code, 01 heap, 11 stack.
pub open spec fn selected_segment(fresh_ss: u32) -> SegName {
    if fresh_ss == 0 {
        SegName::Code
    } else if fresh_ss == 1 {
        SegName::Heap
    } else {
        SegName::Stack
    }
}

/// A segment selector that names a segment: 0, 1 or 3.
pub open spec fn is_selector(fresh_ss: u32) -> bool {
    fresh_ss == 0 || fresh_ss == 1 || fresh_ss == 3
}

/// `num` lies in the address range of `sg`: from the base down by the size for
/// a segment that grows downward, from the base up by the size otherwise.
pub open spec fn in_segment(num: u32, sg: Segment) -> bool {
    if sg.grows_negative == 1 {
        num <= sg.base * 1024 && num * 10 >= (sg.base * 10 - sg.size_tenths) * 1024
    } else {
        num * 10 <= (sg.base * 10 + sg.size_tenths) * 1024 && num >= sg.base * 1024
    }
}

/// `num` lies in a segment of `segments` that has the name the selector picks.
pub open spec fn va_is_valid(num: u32, fresh_ss: u32, segments: Seq<Segment>) -> bool {
    exists|k: int|
        0 <= k < segments.len() && in_segment(num, #[trigger] segments[k]) && segments[k].name
            == selected_segment(fresh_ss)
}

/// The test of `num` against `sg` computes `base * 1024` in `u32`, for a
/// downward segment always and otherwise once `num` is below its top.
pub open spec fn segment_test_fits(num: u32, sg: Segment) -> bool {
    (sg.grows_negative == 1 || num * 10 <= (sg.base * 10 + sg.size_tenths) * 1024) ==> sg.base
        * 1024 <= u32::MAX
}

/// The segments tested before a match keep `base * 1024` within `u32`.
pub open spec fn valid_va_allowed(num: u32, fresh_ss: u32, segments: Seq<Segment>) -> bool {
    &&& is_selector(fresh_ss)
    &&& forall|k: int|
        0 <= k < segments.len() && (forall|j: int|
            0 <= j < k ==> !(in_segment(num, #[trigger] segments[j]) && segments[j].name
                == selected_segment(fresh_ss))) ==> segment_test_fits(num, #[trigger] segments[k])
}

/// Returns true when `num` lies in the range of the segment that the selector
/// `fresh_ss` (0 code, 1 heap, 3 stack) names.
pub fn valid_va(num: u32, fresh_ss: u32, segments: Vec<Segment>) -> (r: bool)
    requires
        valid_va_allowed(num, fresh_ss, segments@),
    ensures
        r == va_is_valid(num, fresh_ss, segments@),
{
    let enum_ss: SegName = match fresh_ss {
        0 => SegName::Code,
        1 => SegName::Heap,
        _ => SegName::Stack,
    };
    let n: usize = segments.len();
    let mut k: usize = 0;
    while k < n
        invariant
            n == segments@.len(),
            k <= n,
            enum_ss == selected_segment(fresh_ss),
            valid_va_allowed(num, fresh_ss, segments@),
            forall|j: int|
                0 <= j < k ==> !(in_segment(num, #[trigger] segments@[j]) && segments@[j].name
                    == selected_segment(fresh_ss)),
        decreases n - k,
    {
        let sg: Segment = segments[k];
        assert(segment_test_fits(num, segments@[k as int]));
        let found: bool = if sg.grows_negative == 1 {
            num <= sg.base * 1024 && (num as i64) * 10 >= ((sg.base as i64) * 10 - (
            sg.size_tenths as i64)) * 1024 && sg.name == enum_ss
        } else {
            (num as u64) * 10 <= ((sg.base as u64) * 10 + (sg.size_tenths as u64)) * 1024 && num
                >= sg.base * 1024 && sg.name == enum_ss
        };
        if found {
            return true;
        }
        k = k + 1;
    }
    false
}

// ---------------------------------------------------------------------------
// Segments that overlap or leave the address space
// ---------------------------------------------------------------------------

/// A downward-growing segment whose size is larger than its base: it would
/// reach below address 0.
pub open spec fn stack_below_zero(s1: Segment) -> bool {
    s1.base * 10 < s1.size_tenths
}

/// `s2` starts or ends inside the range of the downward-growing `s1`, or ends
/// between the bottom and the base of `s1`.
pub open spec fn overlaps_downward(s1: Segment, s2: Segment) -> bool {
    let bottom = s1.base * 10 - s1.size_tenths;
    let end2 = s2.base * 10 + s2.size_tenths;
    ||| (s2.base <= s1.base && s2.base * 10 >= bottom)
    ||| (end2 >= bottom && s2.base <= s1.base)
    ||| (end2 <= s1.base * 10 && end2 >= bottom)
}

/// Two upward-growing segments, one of which starts inside the other.
pub open spec fn overlaps_upward(s1: Segment, s2: Segment) -> bool {
    ||| (s1.base >= s2.base && s1.base * 10 <= s2.base * 10 + s2.size_tenths)
    ||| (s1.base <= s2.base && s2.base * 10 <= s1.base * 10 + s1.size_tenths)
}

/// What comparing `s1` with another segment `s2` finds: whether they conflict,
/// and whether `s1` reaches below address 0.
pub open spec fn pair_findings(s1: Segment, s2: Segment) -> (bool, bool) {
    if s1.grows_negative == 1 {
        if stack_below_zero(s1) {
            (false, true)
        } else {
            (overlaps_downward(s1, s2), false)
        }
    } else if s1.grows_negative == 0 && s2.grows_negative == 0 {
        (overlaps_upward(s1, s2), false)
    } else {
        (false, false)
    }
}

/// Two different segments of the layout conflict.
pub open spec fn layout_conflicting(segs: Seq<Segment>) -> bool {
    exists|a: int, b: int|
        0 <= a < segs.len() && 0 <= b < segs.len() && a != b && (#[trigger] pair_findings(
            segs[a],
            segs[b],
        )).0
}

/// A downward-growing segment of the layout, compared with another segment,
/// reaches below address 0.
pub open spec fn layout_out_of_bounds(segs: Seq<Segment>) -> bool {
    exists|a: int, b: int|
        0 <= a < segs.len() && 0 <= b < segs.len() && a != b && (#[trigger] pair_findings(
            segs[a],
            segs[b],
        )).1
}

/// A layout that is kept: no conflict and nothing below address 0.
pub open spec fn layout_acceptable(segs: Seq<Segment>) -> bool {
    !layout_conflicting(segs) && !layout_out_of_bounds(segs)
}

fn pair_findings_exec(s1: Segment, s2: Segment) -> (r: (bool, bool))
    ensures
        r == pair_findings(s1, s2),
{
    let b1: i64 = (s1.base as i64) * 10;
    let b2: i64 = (s2.base as i64) * 10;
    let t1: i64 = s1.size_tenths as i64;
    let t2: i64 = s2.size_tenths as i64;
    if s1.grows_negative == 1 {
        if b1 - t1 < 0 {
            (false, true)
        } else {
            let bottom: i64 = b1 - t1;
            let end2: i64 = b2 + t2;
            let c: bool = (s2.base <= s1.base && b2 >= bottom) || (end2 >= bottom && s2.base
                <= s1.base) || (end2 <= b1 && end2 >= bottom);
            (c, false)
        }
    } else if s1.grows_negative == 0 && s2.grows_negative == 0 {
        let c: bool = (s1.base >= s2.base && b1 <= b2 + t2) || (s1.base <= s2.base && b2 <= b1
            + t1);
        (c, false)
    } else {
        (false, false)
    }
}

/// Compares every segment with every other one. Returns whether some pair
/// conflicts and whether some downward-growing segment reaches below address 0.
pub fn check_layout(segments: &Vec<Segment>) -> (r: (bool, bool))
    ensures
        r.0 == layout_conflicting(segments@),
        r.1 == layout_out_of_bounds(segments@),
{
    let n: usize = segments.len();
    let mut conflicting: bool = false;
    let mut out_of_bounds: bool = false;
    let ghost segs = segments@;
    let mut i: usize = 0;
    while i < n
        invariant
            n == segs.len(),
            segs == segments@,
            i <= n,
            conflicting == exists|a: int, b: int|
                0 <= a < i && 0 <= b < n && a != b && (#[trigger] pair_findings(
                    segs[a],
                    segs[b],
                )).0,
            out_of_bounds == exists|a: int, b: int|
                0 <= a < i && 0 <= b < n && a != b && (#[trigger] pair_findings(
                    segs[a],
                    segs[b],
                )).1,
        decreases n - i,
    {
        let mut j: usize = 0;
        while j < n
            invariant
                n == segs.len(),
                segs == segments@,
                i < n,
                j <= n,
                conflicting == ((exists|a: int, b: int|
                    0 <= a < i && 0 <= b < n && a != b && (#[trigger] pair_findings(
                        segs[a],
                        segs[b],
                    )).0) || (exists|b: int|
                    0 <= b < j && i != b && (#[trigger] pair_findings(segs[i as int], segs[b])).0)),
                out_of_bounds == ((exists|a: int, b: int|
                    0 <= a < i && 0 <= b < n && a != b && (#[trigger] pair_findings(
                        segs[a],
                        segs[b],
                    )).1) || (exists|b: int|
                    0 <= b < j && i != b && (#[trigger] pair_findings(segs[i as int], segs[b])).1)),
            decreases n - j,
        {
            if i != j {
                let f = pair_findings_exec(segments[i], segments[j]);
                if f.0 {
                    conflicting = true;
                }
                if f.1 {
                    out_of_bounds = true;
                }
            }
            j = j + 1;
        }
        i = i + 1;
    }
    (conflicting, out_of_bounds)
}

// ---------------------------------------------------------------------------
// Random layouts
// ---------------------------------------------------------------------------

/// The greatest number of rounds of draws that a random choice makes before it
/// gives up (each round is kept with a chance that does not depend on the
/// round, so the limit is never reached in practice).
pub const DRAW_ROUNDS: u64 = 0xFFFF_FFFF_FFFF_FFFF;

/// `2^e` in K (divided by 1024, rounded down).
pub open spec fn pow2_k(e: int) -> int {
    pow2(e as nat) as int / 1024
}

/// The base and size of `sg` lie in the ranges drawn for its kind of segment,
/// in an address space of `2^power_of2` bytes: the code below `2^(p-3)`, the
/// heap from `2^(p-2)` to `2^(p-1)`, the stack from `2^(p-1) + 2^(p-2)` to `2^p`
/// (all in K), and every size at least 1K (10 tenths).
pub open spec fn segment_drawn(power_of2: u32, sg: Segment) -> bool {
    let p = power_of2 as int;
    let stack_low = (pow2((p - 1) as nat) + pow2((p - 2) as nat)) as int / 1024;
    match sg.name {
        SegName::Code => sg.base < pow2_k(p - 3) && 10 <= sg.size_tenths < 10 * (pow2_k(p - 2)
            - pow2_k(p - 3)),
        SegName::Heap => pow2_k(p - 2) <= sg.base < pow2_k(p - 1) && 10 <= sg.size_tenths < 10 * (
        stack_low - pow2_k(p - 1)),
        SegName::Stack => stack_low <= sg.base < pow2_k(p) && 10 <= sg.size_tenths < 10 * (
        stack_low - pow2_k(p - 1)),
    }
}

/// The powers of two that the layout draws use, as multiples of `2^(p-13)`.
proof fn lemma_layout_powers(power_of2: u32)
    requires
        14 <= power_of2 <= 31,
    ensures
        pow2((power_of2 - 3) as nat) == 1024 * pow2((power_of2 - 13) as nat),
        pow2((power_of2 - 2) as nat) == 2048 * pow2((power_of2 - 13) as nat),
        pow2((power_of2 - 1) as nat) == 4096 * pow2((power_of2 - 13) as nat),
        pow2(power_of2 as nat) == 8192 * pow2((power_of2 - 13) as nat),
        pow2((power_of2 - 13) as nat) >= 2,
        pow2(power_of2 as nat) <= 0x8000_0000,
{
    let k = (power_of2 - 13) as nat;
    vstd::arithmetic::power2::lemma2_to64();
    vstd::arithmetic::power2::lemma_pow2_adds(k, 10);
    vstd::arithmetic::power2::lemma_pow2_adds(k, 11);
    vstd::arithmetic::power2::lemma_pow2_adds(k, 12);
    vstd::arithmetic::power2::lemma_pow2_adds(k, 13);
    if k > 1 {
        vstd::arithmetic::power2::lemma_pow2_strictly_increases(1, k);
    }
    if power_of2 < 31 {
        vstd::arithmetic::power2::lemma_pow2_strictly_increases(power_of2 as nat, 31);
    }
}

fn draw_segment(power_of2: u32, sg: Segment) -> (r: Segment)
    requires
        14 <= power_of2 <= 31,
    ensures
        r.name == sg.name,
        r.grows_negative == sg.grows_negative,
        segment_drawn(power_of2, r),
{
    proof {
        lemma_layout_powers(power_of2);
        lemma_pow_nat_two_is_pow2((power_of2 - 3) as nat);
        lemma_pow_nat_two_is_pow2((power_of2 - 2) as nat);
        lemma_pow_nat_two_is_pow2((power_of2 - 1) as nat);
        lemma_pow_nat_two_is_pow2(power_of2 as nat);
    }
    let p3: u32 = pow_u32(2, power_of2 - 3);
    let p2: u32 = pow_u32(2, power_of2 - 2);
    let p1: u32 = pow_u32(2, power_of2 - 1);
    let p0: u32 = pow_u32(2, power_of2);
    match sg.name {
        SegName::Code => {
            let base: u32 = random_in(0, p3 / 1024);
            let size_tenths: u32 = random_in(10, 10 * ((p2 / 1024) - (p3 / 1024)));
            Segment { name: sg.name, base, size_tenths, grows_negative: sg.grows_negative }
        },
        SegName::Heap => {
            let base: u32 = random_in(p2 / 1024, p1 / 1024);
            let size_tenths: u32 = random_in(10, 10 * ((p1 + p2) / 1024 - p1 / 1024));
            Segment { name: sg.name, base, size_tenths, grows_negative: sg.grows_negative }
        },
        SegName::Stack => {
            let base: u32 = random_in((p1 + p2) / 1024, p0 / 1024);
            let size_tenths: u32 = random_in(10, 10 * (((p1 + p2) / 1024) - (p1 / 1024)));
            Segment { name: sg.name, base, size_tenths, grows_negative: sg.grows_negative }
        },
    }
}

/// Every layout that one round of drawing can give for `segments` (the same
/// names and directions of growth, each segment drawn in the range of its kind)
/// is acceptable: then the first round is kept, whatever is drawn.
pub open spec fn every_draw_acceptable(power_of2: u32, segments: Seq<Segment>) -> bool {
    forall|segs: Seq<Segment>|
        segs.len() == segments.len() && (forall|k: int|
            0 <= k < segs.len() ==> (#[trigger] segs[k]).name == segments[k].name
                && segs[k].grows_negative == segments[k].grows_negative && segment_drawn(
                power_of2,
                segs[k],
            )) ==> #[trigger] layout_acceptable(segs)
}

/// Draws new bases and sizes for the segments, by kind, until no two segments
/// conflict and no downward-growing segment reaches below address 0; names and
/// directions of growth are kept. The address space has `2^power_of2` bytes.
/// Returns `None` only if `DRAW_ROUNDS` rounds were all rejected, so never when
/// every layout that can be drawn is acceptable.
pub fn are_conflicting(power_of2: u32, segments: Vec<Segment>) -> (r: Option<Vec<Segment>>)
    requires
        14 <= power_of2 <= 31,
    ensures
        r matches Some(segs) ==> {
            &&& segs@.len() == segments@.len()
            &&& forall|k: int|
                0 <= k < segs@.len() ==> (#[trigger] segs@[k]).name == segments@[k].name
                    && segs@[k].grows_negative == segments@[k].grows_negative && segment_drawn(
                    power_of2,
                    segs@[k],
                )
            &&& layout_acceptable(segs@)
        },
        every_draw_acceptable(power_of2, segments@) ==> r is Some,
{
    let ghost given = segments@;
    let mut drawn_segs = segments;
    let mut conflicting: bool = true;
    let mut out_of_bounds: bool = true;
    let mut rounds: u64 = 0;
    while conflicting || out_of_bounds
        invariant
            14 <= power_of2 <= 31,
            given == segments@,
            drawn_segs@.len() == given.len(),
            forall|k: int|
                0 <= k < drawn_segs@.len() ==> (#[trigger] drawn_segs@[k]).name == given[k].name
                    && drawn_segs@[k].grows_negative == given[k].grows_negative,
            rounds > 0 ==> forall|k: int|
                0 <= k < drawn_segs@.len() ==> segment_drawn(power_of2, #[trigger] drawn_segs@[k]),
            rounds > 0 ==> conflicting == layout_conflicting(drawn_segs@),
            rounds > 0 ==> out_of_bounds == layout_out_of_bounds(drawn_segs@),
            rounds == 0 ==> conflicting,
        decreases DRAW_ROUNDS - rounds,
    {
        if rounds == DRAW_ROUNDS {
            proof {
                if every_draw_acceptable(power_of2, given) {
                    assert(layout_acceptable(drawn_segs@));
                }
            }
            return None;
        }
        rounds = rounds + 1;
        let n: usize = drawn_segs.len();
        let mut seg: usize = 0;
        while seg < n
            invariant
                14 <= power_of2 <= 31,
                n == drawn_segs@.len(),
                drawn_segs@.len() == given.len(),
                seg <= n,
                forall|k: int|
                    0 <= k < drawn_segs@.len() ==> (#[trigger] drawn_segs@[k]).name == given[k].name
                        && drawn_segs@[k].grows_negative == given[k].grows_negative,
                forall|k: int| 0 <= k < seg ==> segment_drawn(power_of2, #[trigger] drawn_segs@[k]),
            decreases n - seg,
        {
            let drawn: Segment = draw_segment(power_of2, drawn_segs[seg]);
            drawn_segs[seg] = drawn;
            seg = seg + 1;
        }
        let findings = check_layout(&drawn_segs);
        conflicting = findings.0;
        out_of_bounds = findings.1;
    }
    Some(drawn_segs)
}

/// A copy of the segments.
pub fn copy_segments(segments: &Vec<Segment>) -> (r: Vec<Segment>)
    ensures
        r@ == segments@,
{
    let mut r: Vec<Segment> = Vec::new();
    let n: usize = segments.len();
    let mut k: usize = 0;
    while k < n
        invariant
            n == segments@.len(),
            k <= n,
            r@ == segments@.take(k as int),
        decreases n - k,
    {
        r.push(segments[k]);
        k = k + 1;
        assert(r@ =~= segments@.take(k as int));
    }
    assert(segments@.take(n as int) =~= segments@);
    r
}

/// The segment selector of `va`: its two top bits in an address of
/// `va_pow_2` bits.
pub open spec fn selector_of(va: u32, va_pow_2: u32) -> u32 {
    va >> ((va_pow_2 - 2) as u32)
}

/// The upper end of the heap's range in bytes, `(base + size) * 1024`, rounded
/// down and held to `u32`.
pub open spec fn heap_top(sg: Segment) -> int {
    let t = (sg.base * 10 + sg.size_tenths) * 1024 / 10;
    if t > u32::MAX {
        u32::MAX as int
    } else {
        t
    }
}

/// What choosing a random virtual address needs: an address space of 7 to 31
/// bits; for a malloc address, a heap (second segment) with room for one and a
/// base in bytes within `u32`; and the segment tests of every address that can be
/// drawn kept within `u32`.
pub open spec fn rand_va_allowed(va_pow_2: u32, segments: Seq<Segment>, malloc: bool) -> bool {
    &&& 7 <= va_pow_2 <= 31
    &&& !malloc ==> forall|r: u32|
        100 <= r < pow2(va_pow_2 as nat) && is_selector(#[trigger] selector_of(r, va_pow_2))
            ==> valid_va_allowed(r, selector_of(r, va_pow_2), segments)
    &&& malloc ==> {
        &&& segments.len() >= 2
        &&& segments[1].base * 1024 < heap_top(segments[1])
        &&& forall|r: u32|
            segments[1].base * 1024 <= r < heap_top(segments[1]) && #[trigger] selector_of(
                r,
                va_pow_2,
            ) == 1 ==> valid_va_allowed(r, 1, segments)
    }
}

/// `r` is kept as a random virtual address: its selector names a segment (is
/// 01 for a malloc address) and `r` lies in a segment of that name.
pub open spec fn va_accepted(r: u32, va_pow_2: u32, segments: Seq<Segment>, malloc: bool) -> bool {
    &&& if malloc {
        selector_of(r, va_pow_2) == 1
    } else {
        is_selector(selector_of(r, va_pow_2))
    }
    &&& va_is_valid(r, selector_of(r, va_pow_2), segments)
}

/// Every address that a redraw can give is kept: every address from 100 up to
/// `2^va_pow_2`, or for a malloc address every address of the heap's range.
pub open spec fn every_va_draw_accepted(va_pow_2: u32, segments: Seq<Segment>, malloc: bool) -> bool {
    if malloc {
        forall|r: u32|
            segments[1].base * 1024 <= r < heap_top(segments[1]) ==> #[trigger] va_accepted(
                r,
                va_pow_2,
                segments,
                malloc,
            )
    } else {
        forall|r: u32|
            100 <= r < pow2(va_pow_2 as nat) ==> #[trigger] va_accepted(r, va_pow_2, segments, malloc)
    }
}

/// A random virtual address of `va_pow_2` bits (at least 100) that lies in a
/// segment of the layout named by its selector (00 code, 01 heap, 11 stack);
/// for a malloc address, an address inside the heap with selector 01. Returns
/// `None` only if `DRAW_ROUNDS` draws were all rejected, so never when every
/// address that can be redrawn is kept.
pub fn get_rand_va(va_pow_2: u32, segments: Vec<Segment>, malloc: bool) -> (r: Option<u32>)
    requires
        rand_va_allowed(va_pow_2, segments@, malloc),
    ensures
        r matches Some(va) ==> {
            &&& !malloc ==> 100 <= va < pow2(va_pow_2 as nat) && is_selector(
                selector_of(va, va_pow_2),
            )
            &&& malloc ==> segments@[1].base * 1024 <= va < heap_top(segments@[1]) && selector_of(
                va,
                va_pow_2,
            ) == 1
            &&& va_is_valid(va, selector_of(va, va_pow_2), segments@)
        },
        every_va_draw_accepted(va_pow_2, segments@, malloc) ==> r is Some,
{
    proof {
        lemma_pow_nat_two_is_pow2(va_pow_2 as nat);
        vstd::arithmetic::power2::lemma2_to64();
        if va_pow_2 > 7 {
            vstd::arithmetic::power2::lemma_pow2_strictly_increases(7, va_pow_2 as nat);
        }
        if va_pow_2 < 31 {
            vstd::arithmetic::power2::lemma_pow2_strictly_increases(va_pow_2 as nat, 31);
        }
    }
    let top: u32 = pow_u32(2, va_pow_2);
    let mut r: u32 = random_in(100, top + 1);
    let mut fresh_ss: u32 = 19;
    let mut rounds: u64 = 0;
    if !malloc {
        loop
            invariant
                rand_va_allowed(va_pow_2, segments@, malloc),
                !malloc,
                top == pow2(va_pow_2 as nat),
                100 < top,
                fresh_ss == 19 || (100 <= r < top && fresh_ss == selector_of(r, va_pow_2)),
                rounds > 0 ==> 100 <= r < top && fresh_ss == selector_of(r, va_pow_2),
            decreases DRAW_ROUNDS - rounds,
        {
            if fresh_ss == 0 || fresh_ss == 1 || fresh_ss == 3 {
                if valid_va(r, fresh_ss, copy_segments(&segments)) {
                    return Some(r);
                }
            }
            if rounds == DRAW_ROUNDS {
                proof {
                    if every_va_draw_accepted(va_pow_2, segments@, malloc) {
                        assert(va_accepted(r, va_pow_2, segments@, malloc));
                    }
                }
                return None;
            }
            rounds = rounds + 1;
            r = random_in(100, top);
            fresh_ss = r >> (va_pow_2 - 2);
        }
    } else {
        let heap: Segment = segments[1];
        let low: u32 = heap.base * 1024;
        let t: u64 = ((heap.base as u64) * 10 + (heap.size_tenths as u64)) * 1024 / 10;
        let high: u32 = if t > 0xFFFF_FFFF {
            0xFFFF_FFFF
        } else {
            t as u32
        };
        loop
            invariant
                rand_va_allowed(va_pow_2, segments@, malloc),
                malloc,
                low == segments@[1].base * 1024,
                high == heap_top(segments@[1]),
                fresh_ss == 19 || (low <= r < high && fresh_ss == selector_of(r, va_pow_2)),
                rounds > 0 ==> low <= r < high && fresh_ss == selector_of(r, va_pow_2),
            decreases DRAW_ROUNDS - rounds,
        {
            if fresh_ss == 1 {
                if valid_va(r, fresh_ss, copy_segments(&segments)) {
                    return Some(r);
                }
            }
            if rounds == DRAW_ROUNDS {
                proof {
                    if every_va_draw_accepted(va_pow_2, segments@, malloc) {
                        assert(va_accepted(r, va_pow_2, segments@, malloc));
                    }
                }
                return None;
            }
            rounds = rounds + 1;
            r = random_in(low, high);
            fresh_ss = r >> (va_pow_2 - 2);
        }
    }
}

/// The code, heap and stack segments before their bases and sizes are drawn;
/// only the stack grows downward.
pub open spec fn initial_segments() -> Seq<Segment> {
    seq![
        Segment { name: SegName::Code, base: 0, size_tenths: 0, grows_negative: 0 },
        Segment { name: SegName::Heap, base: 0, size_tenths: 0, grows_negative: 0 },
        Segment { name: SegName::Stack, base: 0, size_tenths: 0, grows_negative: 1 },
    ]
}

/// A generated layout: the size of the virtual address space in K (a power of
/// two from 16 to 256), the number of bits of a virtual address, and the code,
/// heap and stack segments drawn in their ranges without conflict.
pub open spec fn layout_generated(vas: u32, power_of2: u32, segs: Seq<Segment>) -> bool {
    &&& is_power_of_2_from_2(vas as nat)
    &&& 16 <= vas <= 256
    &&& power_of2 == bits_reqd((vas * 1024) as nat)
    &&& 15 <= power_of2 <= 19
    &&& segs.len() == 3
    &&& forall|k: int|
        0 <= k < 3 ==> (#[trigger] segs[k]).name == initial_segments()[k].name
            && segs[k].grows_negative == initial_segments()[k].grows_negative && segment_drawn(
            power_of2,
            segs[k],
        )
    &&& layout_acceptable(segs)
}

/// Generates the memory model of a problem: a virtual address space of a
/// random power-of-two size in K (drawn between an even number from 14 to 64
/// and an even number from 66 to 256), the number of bits of its addresses,
/// and code, heap and stack segments drawn without conflict. Returns `None`
/// only if the drawing of segments gave up.
pub fn generate_segmented_memory_layout() -> (r: Option<(u32, u32, Vec<Segment>)>)
    ensures
        r matches Some(t) ==> layout_generated(t.0, t.1, t.2@),
{
    let lower: u32 = rand_even(14, 65);
    let upper: u32 = rand_even(65, 256 + 1);
    proof {
        vstd::arithmetic::power2::lemma2_to64();
        assert(lower <= pow2(6) <= upper);
        assert(has_power_of_2_in(lower, upper));
    }
    let vas: u32 = rand_power_of_2(lower, upper);
    proof {
        let e = choose|e: nat| e >= 1 && vas == #[trigger] pow2(e);
        if e < 4 {
            if e < 3 {
                vstd::arithmetic::power2::lemma_pow2_strictly_increases(e, 3);
            }
            assert(false);
        }
        if e > 8 {
            vstd::arithmetic::power2::lemma_pow2_strictly_increases(8, e);
            assert(false);
        }
        vstd::arithmetic::power2::lemma_pow2_adds(e, 10);
        lemma_bits_reqd_unique((vas * 1024) as nat, e + 11);
        vstd::arithmetic::power2::lemma_pow2_adds(e, 11);
    }
    let power_of2: u32 = num_bits_reqd(vas * 1024);
    let mut segments: Vec<Segment> = Vec::new();
    segments.push(Segment { name: SegName::Code, base: 0, size_tenths: 0, grows_negative: 0 });
    segments.push(Segment { name: SegName::Heap, base: 0, size_tenths: 0, grows_negative: 0 });
    segments.push(Segment { name: SegName::Stack, base: 0, size_tenths: 0, grows_negative: 1 });
    assert(segments@ =~= initial_segments());
    match are_conflicting(power_of2, segments) {
        Some(segs) => Some((vas, power_of2, segs)),
        None => None,
    }
}

} // verus!
