//! A whole problem as the web tutor sets it: a fresh memory model, a random
//! question of the chosen kind and format, the prompt that states it and the
//! worked solution that answers it.

use vstd::prelude::*;
use vstd::arithmetic::power2::pow2;
use crate::lib_fns::{bits_reqd, readable_binary_allowed, high_bits, lemma_bits_reqd_at_most};
use crate::random::random_in;
use crate::segments::{
    Segment, SegName, layout_generated, initial_segments, segment_drawn, pow2_k, selector_of,
    is_selector, answer_value, answer_terms_fit, va_is_valid, rand_va_allowed, valid_va_allowed,
    segment_test_fits, heap_top, stack_answer, generate_segmented_memory_layout, get_rand_va,
    copy_segments, calculate_answer_stack_percentage, as_i32, wrap_u32,
};
use crate::questions::{
    layout_text, question_va_text, question_stack_text, format_specifiers, stack_answer_format,
    print_layout, print_question_va_to_pa, print_question_stack_percentage, fetch_format_specifiers,
};
use crate::answers::{answer_instructions_text, answer_instructions};
use crate::solutions::{
    selected_index, translation_allowed, translation_solution_allowed, translation_solution_text,
    stack_solution_allowed, stack_solution_text, translate_va, show_solution_va_to_pa_hex,
    show_solution_stack_va,
};
use crate::lib_fns::{pow_u32, lemma_pow_nat_two_is_pow2};

verus! {

/// The kind of question chosen on the first page of the web tutor.
#[derive(Clone, Copy, Debug, PartialEq, Eq, Structural)]
pub enum QuestionChoice {
    /// No choice made yet.
    Init,
    /// Translate a virtual address to a physical address.
    Zero,
    /// Translate a virtual address returned by malloc (in the heap).
    One,
    /// Find the virtual address a given percentage into the stack.
    Two,
}

/// Facts about a generated layout, with `k = 2^(power_of2 - 13)` K as the unit
/// of its ranges: code below `k`, heap from `2k` to `4k`, stack from `6k` to
/// `8k`, sizes from 1K up to `k`, `2k` and `2k`.
pub proof fn lemma_layout_facts(vas: u32, power_of2: u32, segs: Seq<Segment>)
    requires
        layout_generated(vas, power_of2, segs),
    ensures
        ({
            let k = pow2((power_of2 - 13) as nat);
            &&& 4 <= k <= 64
            &&& pow2((power_of2 - 2) as nat) == 2048 * k
            &&& pow2(power_of2 as nat) == 8192 * k
            &&& segs[0].name == SegName::Code && segs[0].grows_negative == 0
            &&& segs[1].name == SegName::Heap && segs[1].grows_negative == 0
            &&& segs[2].name == SegName::Stack && segs[2].grows_negative == 1
            &&& segs[0].base < k && 10 <= segs[0].size_tenths < 10 * k
            &&& 2 * k <= segs[1].base < 4 * k && 10 <= segs[1].size_tenths < 20 * k
            &&& 6 * k <= segs[2].base < 8 * k && 10 <= segs[2].size_tenths < 20 * k
        }),
{
    let p = power_of2;
    let k = pow2((p - 13) as nat);
    vstd::arithmetic::power2::lemma2_to64();
    vstd::arithmetic::power2::lemma_pow2_adds((p - 13) as nat, 10);
    vstd::arithmetic::power2::lemma_pow2_adds((p - 13) as nat, 11);
    vstd::arithmetic::power2::lemma_pow2_adds((p - 13) as nat, 12);
    vstd::arithmetic::power2::lemma_pow2_adds((p - 13) as nat, 13);
    if p - 13 > 2 {
        vstd::arithmetic::power2::lemma_pow2_strictly_increases(2, (p - 13) as nat);
    }
    if p - 13 < 6 {
        vstd::arithmetic::power2::lemma_pow2_strictly_increases((p - 13) as nat, 6);
    }
    assert(segs[0] == segs[0] && segment_drawn(p, segs[0]));
    assert(segment_drawn(p, segs[1]));
    assert(segment_drawn(p, segs[2]));
    assert(initial_segments()[0].name == SegName::Code);
    assert(initial_segments()[1].name == SegName::Heap);
    assert(initial_segments()[2].name == SegName::Stack);
    assert(pow2_k(p - 3) == k);
    assert(pow2_k(p - 2) == 2 * k);
    assert(pow2_k(p - 1) == 4 * k);
    assert(pow2_k(p as int) == 8 * k);
    assert((pow2((p - 1) as nat) + pow2((p - 2) as nat)) as int / 1024 == 6 * k);
}

/// An address below `2^power_of2` fits the grouped binary rendering over
/// `power_of2` bits.
pub proof fn lemma_readable_binary_allowed(va: u32, power_of2: u32)
    requires
        1 <= power_of2 < 32,
        va < pow2(power_of2 as nat),
    ensures
        readable_binary_allowed(va, power_of2),
{
    let m = power_of2 / 4;
    if power_of2 % 4 != 0 {
        let shift: u32 = (4 * m) as u32;
        vstd::bits::lemma_u32_shr_is_div(va, shift);
        vstd::arithmetic::power2::lemma_pow2_adds(shift as nat, (power_of2 % 4) as nat);
        vstd::arithmetic::power2::lemma_pow2_pos(shift as nat);
        vstd::arithmetic::div_mod::lemma_multiply_divide_lt(
            va as int,
            pow2(shift as nat) as int,
            pow2((power_of2 % 4) as nat) as int,
        );
        lemma_bits_reqd_at_most(high_bits(va, power_of2) as nat, (power_of2 % 4) as nat);
    }
}

/// An address whose selector is 0, 1 or 3 lies below `2^power_of2`.
pub proof fn lemma_selector_bounds(va: u32, power_of2: u32)
    requires
        2 <= power_of2 <= 33,
        is_selector(selector_of(va, power_of2)),
    ensures
        va < 4 * pow2((power_of2 - 2) as nat),
        power_of2 <= 31 ==> va < pow2(power_of2 as nat),
{
    let k = (power_of2 - 2) as u32;
    vstd::bits::lemma_u32_shr_is_div(va, k);
    vstd::arithmetic::power2::lemma_pow2_pos(k as nat);
    vstd::arithmetic::div_mod::lemma_fundamental_div_mod(va as int, pow2(k as nat) as int);
    vstd::arithmetic::div_mod::lemma_mod_pos_bound(va as int, pow2(k as nat) as int);
    if power_of2 <= 31 {
        vstd::arithmetic::power2::lemma_pow2_adds(k as nat, 2);
        vstd::arithmetic::power2::lemma2_to64();
    }
}

/// The prompt of a translation problem: the memory model, the question, and
/// how to type the answer.
pub open spec fn va_prompt_text(
    vas: u32,
    power_of2: u32,
    segs: Seq<Segment>,
    va: u32,
    format_choice: i8,
    malloc: bool,
) -> Seq<char> {
    let f = format_specifiers(format_choice);
    layout_text(vas, (2 * vas) as u32, power_of2, segs) + question_va_text(va, f.0, f.1, malloc)
        + answer_instructions_text(f.1)
}

/// The worked solution of a translation problem, for the physical address
/// that the translation formula gives.
pub open spec fn va_solution_text(power_of2: u32, segs: Seq<Segment>, va: u32, format_choice: i8) -> Seq<char> {
    let ss = selector_of(va, power_of2);
    let mss = pow2((power_of2 - 2) as nat);
    let offset = va as nat % mss;
    let seg = segs[selected_index(ss)];
    translation_solution_text(
        seg,
        ss,
        offset as u32,
        va,
        answer_value(seg, mss as u32, offset as u32) as u32,
        power_of2,
        format_specifiers(format_choice),
    )
}

fn va_prompt(vas: u32, power_of2: u32, segments: &Vec<Segment>, va: u32, format_choice: i8, malloc: bool) -> (r: String)
    requires
        vas <= 256,
        segments@.len() == 3,
        0 <= format_choice <= 8,
    ensures
        r@ == va_prompt_text(vas, power_of2, segments@, va, format_choice, malloc),
{
    let mut prompt = print_layout(vas, vas * 2, power_of2, copy_segments(segments));
    let question = print_question_va_to_pa(va, format_choice, malloc);
    prompt.append(question.2.as_str());
    let instructions = answer_instructions(question.1);
    prompt.append(instructions.as_str());
    proof {
        assert(prompt@ =~= va_prompt_text(vas, power_of2, segments@, va, format_choice, malloc));
    }
    prompt
}

proof fn lemma_translation_in_layout(vas: u32, power_of2: u32, segs: Seq<Segment>, va: u32)
    requires
        layout_generated(vas, power_of2, segs),
        is_selector(selector_of(va, power_of2)),
    ensures
        translation_allowed(va, power_of2, segs),
        ({
            let ss = selector_of(va, power_of2);
            let mss = pow2((power_of2 - 2) as nat);
            let offset = va as nat % mss;
            let seg = segs[selected_index(ss)];
            let pa = answer_value(seg, mss as u32, offset as u32);
            &&& offset < mss
            &&& mss < 0x8000_0000
            &&& pa == seg.base * 1024 + offset - seg.grows_negative * mss
            &&& seg.grows_negative == (if ss == 3 { 1u32 } else { 0u32 })
            &&& seg.base * 1024 + offset <= u32::MAX
            &&& ss == 3 ==> seg.base * 1024 + offset >= mss
            &&& va < pow2(power_of2 as nat)
        }),
{
    lemma_layout_facts(vas, power_of2, segs);
    lemma_selector_bounds(va, power_of2);
    let ss = selector_of(va, power_of2);
    let mss = pow2((power_of2 - 2) as nat);
    let offset = va as nat % mss;
    let seg = segs[selected_index(ss)];
    vstd::arithmetic::div_mod::lemma_mod_pos_bound(va as int, mss as int);
    assert(as_i32(seg.grows_negative) == seg.grows_negative);
    assert(as_i32(mss as u32) == mss);
    assert(as_i32(seg.base) == seg.base);
    assert(as_i32(offset as u32) == offset);
    assert(seg.grows_negative == (if ss == 3 { 1u32 } else { 0u32 }));
    let g = as_i32(seg.grows_negative);
    let m = as_i32(mss as u32);
    if ss == 3 {
        assert(g == 1);
        assert(-g * m == -m) by (nonlinear_arith)
            requires
                g == 1,
        ;
    } else {
        assert(g == 0);
        assert(-g * m == 0) by (nonlinear_arith)
            requires
                g == 0,
        ;
    }
    assert(answer_terms_fit(seg, mss as u32, offset as u32));
    let v = -g * m + as_i32(seg.base) * 1024 + as_i32(offset as u32);
    assert(0 <= v < 0x1_0000_0000);
    vstd::arithmetic::div_mod::lemma_small_mod(v as nat, 0x1_0000_0000);
    assert(seg.grows_negative * mss == g * m);
}

fn va_solution(vas: u32, power_of2: u32, segments: &Vec<Segment>, va: u32, format_choice: i8) -> (r: String)
    requires
        layout_generated(vas, power_of2, segments@),
        is_selector(selector_of(va, power_of2)),
        0 <= format_choice <= 8,
    ensures
        r@ == va_solution_text(power_of2, segments@, va, format_choice),
{
    proof {
        lemma_translation_in_layout(vas, power_of2, segments@, va);
        lemma_readable_binary_allowed(va, power_of2);
    }
    let formats = fetch_format_specifiers(format_choice);
    let t = translate_va(va, power_of2, segments);
    let seg: Segment = if t.0 == 3 {
        segments[2]
    } else {
        segments[t.0 as usize]
    };
    assert(seg == segments@[selected_index(t.0)]);
    show_solution_va_to_pa_hex(seg, t.0, t.2, va, t.3, power_of2, formats)
}

/// The prompt and the worked solution of the translation of `va` in a
/// generated layout, for a format choice from 0 to 8; a malloc question says
/// that the address came from malloc.
pub fn va_problem_texts(
    vas: u32,
    power_of2: u32,
    segments: &Vec<Segment>,
    va: u32,
    format_choice: i8,
    malloc: bool,
) -> (r: (String, String))
    requires
        layout_generated(vas, power_of2, segments@),
        is_selector(selector_of(va, power_of2)),
        0 <= format_choice <= 8,
    ensures
        r.0@ == va_prompt_text(vas, power_of2, segments@, va, format_choice, malloc),
        r.1@ == va_solution_text(power_of2, segments@, va, format_choice),
{
    let prompt = va_prompt(vas, power_of2, segments, va, format_choice, malloc);
    let solution = va_solution(vas, power_of2, segments, va, format_choice);
    (prompt, solution)
}

/// The prompt of a stack-percentage problem: the memory model, the question,
/// and how to type the answer.
pub open spec fn stack_prompt_text(
    vas: u32,
    power_of2: u32,
    segs: Seq<Segment>,
    percent: u32,
    format_choice: i8,
) -> Seq<char> {
    let a = stack_answer_format(format_choice);
    layout_text(vas, (2 * vas) as u32, power_of2, segs) + question_stack_text(percent, a)
        + answer_instructions_text(a)
}

/// The worked solution of a stack-percentage problem, for the address and
/// offset that the stack calculation gives.
pub open spec fn stack_solution_of(power_of2: u32, segs: Seq<Segment>, percent: u32, format_choice: i8) -> Seq<char> {
    let ans = stack_answer(segs[2], percent, pow2((power_of2 - 2) as nat) as u32, power_of2);
    stack_solution_text(segs[2], ans.1, ans.0, power_of2, percent, format_specifiers(format_choice).1)
}

fn stack_prompt(vas: u32, power_of2: u32, segments: &Vec<Segment>, percent: u32, format_choice: i8) -> (r: String)
    requires
        vas <= 256,
        segments@.len() == 3,
        0 <= format_choice <= 2,
    ensures
        r@ == stack_prompt_text(vas, power_of2, segments@, percent, format_choice),
{
    let mut prompt = print_layout(vas, vas * 2, power_of2, copy_segments(segments));
    let question = print_question_stack_percentage(percent, format_choice);
    prompt.append(question.1.as_str());
    let instructions = answer_instructions(question.0);
    prompt.append(instructions.as_str());
    proof {
        assert(prompt@ =~= stack_prompt_text(vas, power_of2, segments@, percent, format_choice));
    }
    prompt
}

fn stack_solution(vas: u32, power_of2: u32, segments: &Vec<Segment>, percent: u32, format_choice: i8) -> (r: String)
    requires
        layout_generated(vas, power_of2, segments@),
        0 <= format_choice <= 2,
    ensures
        r@ == stack_solution_of(power_of2, segments@, percent, format_choice),
{
    proof {
        lemma_layout_facts(vas, power_of2, segments@);
        lemma_pow_nat_two_is_pow2((power_of2 - 2) as nat);
        vstd::bits::lemma_u32_pow2_no_overflow((power_of2 - 2) as nat);
    }
    let formats = fetch_format_specifiers(format_choice);
    let mss: u32 = pow_u32(2, power_of2 - 2);
    let ans = calculate_answer_stack_percentage(segments[2], percent, mss, power_of2);
    proof {
        let k: u32 = (power_of2 - 2) as u32;
        vstd::bits::lemma_u32_shl_is_mul(3, k);
        assert(ans.1 <= mss);
        vstd::arithmetic::power2::lemma_pow2_adds(k as nat, 2);
        vstd::arithmetic::power2::lemma2_to64();
        lemma_bits_reqd_at_most(ans.1 as nat, power_of2 as nat);
    }
    show_solution_stack_va(segments[2], ans.1, ans.0, power_of2, percent, formats.1)
}

/// The prompt and the worked solution of the stack-percentage problem for
/// `percent` in a generated layout, for a format choice from 0 to 2.
pub fn stack_problem_texts(
    vas: u32,
    power_of2: u32,
    segments: &Vec<Segment>,
    percent: u32,
    format_choice: i8,
) -> (r: (String, String))
    requires
        layout_generated(vas, power_of2, segments@),
        0 <= format_choice <= 2,
    ensures
        r.0@ == stack_prompt_text(vas, power_of2, segments@, percent, format_choice),
        r.1@ == stack_solution_of(power_of2, segments@, percent, format_choice),
{
    let prompt = stack_prompt(vas, power_of2, segments, percent, format_choice);
    let solution = stack_solution(vas, power_of2, segments, percent, format_choice);
    (prompt, solution)
}

/// What a problem set in the layout `(vas, power_of2, segs)` with the random
/// value `x` (the address for a translation, the percentage for the stack)
/// consists of: the address lies in the segment that its selector names (in
/// the heap for a malloc question), the percentage is a quarter, and the
/// prompt and solution are those of that problem.
pub open spec fn problem_outcome(
    question_choice: QuestionChoice,
    format_choice: i8,
    prompt: Seq<char>,
    solution: Seq<char>,
    vas: u32,
    power_of2: u32,
    segs: Seq<Segment>,
    x: u32,
) -> bool {
    &&& layout_generated(vas, power_of2, segs)
    &&& match question_choice {
        QuestionChoice::Zero => {
            &&& 100 <= x < pow2(power_of2 as nat)
            &&& is_selector(selector_of(x, power_of2))
            &&& va_is_valid(x, selector_of(x, power_of2), segs)
            &&& prompt == va_prompt_text(vas, power_of2, segs, x, format_choice, false)
            &&& solution == va_solution_text(power_of2, segs, x, format_choice)
        },
        QuestionChoice::One => {
            &&& segs[1].base * 1024 <= x < heap_top(segs[1])
            &&& selector_of(x, power_of2) == 1
            &&& va_is_valid(x, 1, segs)
            &&& prompt == va_prompt_text(vas, power_of2, segs, x, format_choice, true)
            &&& solution == va_solution_text(power_of2, segs, x, format_choice)
        },
        QuestionChoice::Two => {
            &&& (x == 100 || x == 25 || x == 75 || x == 50 || x == 0)
            &&& prompt == stack_prompt_text(vas, power_of2, segs, x, format_choice)
            &&& solution == stack_solution_of(power_of2, segs, x, format_choice)
        },
        QuestionChoice::Init => false,
    }
}

/// `prompt` and `solution` are those of a problem of the chosen kind and
/// format in some generated layout (see [`problem_outcome`]).
pub open spec fn problem_set(
    question_choice: QuestionChoice,
    format_choice: i8,
    prompt: Seq<char>,
    solution: Seq<char>,
) -> bool {
    exists|vas: u32, power_of2: u32, segs: Seq<Segment>, x: u32|
        #[trigger] problem_outcome(
            question_choice,
            format_choice,
            prompt,
            solution,
            vas,
            power_of2,
            segs,
            x,
        )
}

/// The format choices that a question choice accepts: 0 to 8 for a
/// translation, 0 to 2 for the stack; no choice for `Init`.
pub open spec fn setup_allowed(question_choice: QuestionChoice, format_choice: i8) -> bool {
    match question_choice {
        QuestionChoice::Zero | QuestionChoice::One => 0 <= format_choice <= 8,
        QuestionChoice::Two => 0 <= format_choice <= 2,
        QuestionChoice::Init => false,
    }
}

/// Sets a problem of the chosen kind in the chosen format: generates a memory
/// model, draws the address to translate (any address inside a segment, or one
/// inside the heap for the malloc question) or the percentage into the stack
/// (100, 25, 75, 50 or 0), and returns the prompt and the worked solution.
/// Returns `None` only if a random draw gave up.
pub fn setup_problem(question_choice: QuestionChoice, format_choice: i8) -> (r: Option<(String, String)>)
    requires
        setup_allowed(question_choice, format_choice),
    ensures
        r matches Some(t) ==> problem_set(question_choice, format_choice, t.0@, t.1@),
{
    let layout = match generate_segmented_memory_layout() {
        Some(l) => l,
        None => return None,
    };
    let vas: u32 = layout.0;
    let power_of2: u32 = layout.1;
    let segments: Vec<Segment> = layout.2;
    proof {
        lemma_layout_facts(vas, power_of2, segments@);
        vstd::arithmetic::power2::lemma2_to64();
    }
    match question_choice {
        QuestionChoice::Two => {
            let rando: u32 = random_in(0, 5);
            let percent: u32 = match rando {
                0 => 100,
                1 => 25,
                2 => 75,
                3 => 50,
                _ => 0,
            };
            let texts = stack_problem_texts(vas, power_of2, &segments, percent, format_choice);
            assert(problem_outcome(question_choice, format_choice, texts.0@, texts.1@, vas, power_of2, segments@, percent));
            assert(problem_set(question_choice, format_choice, texts.0@, texts.1@));
            return Some(texts);
        },
        _ => {
            let malloc: bool = question_choice == QuestionChoice::One;
            proof {
                assert(rand_va_allowed(power_of2, segments@, malloc)) by {
                    assert forall|k: int| 0 <= k < 3 implies (#[trigger] segments@[k]).base * 1024 <= u32::MAX by {
                    }
                    assert forall|r: u32, ss: u32| is_selector(ss) implies valid_va_allowed(r, ss, segments@) by {
                        assert forall|k: int| 0 <= k < segments@.len() implies segment_test_fits(r, #[trigger] segments@[k]) by {
                        }
                    }
                }
            }
            let va: u32 = match get_rand_va(power_of2, copy_segments(&segments), malloc) {
                Some(v) => v,
                None => return None,
            };
            proof {
                if malloc {
                    assert(is_selector(selector_of(va, power_of2)));
                }
            }
            let texts = va_problem_texts(vas, power_of2, &segments, va, format_choice, malloc);
            assert(problem_outcome(question_choice, format_choice, texts.0@, texts.1@, vas, power_of2, segments@, va));
            assert(problem_set(question_choice, format_choice, texts.0@, texts.1@));
            return Some(texts);
        },
    }
}

} // verus!
