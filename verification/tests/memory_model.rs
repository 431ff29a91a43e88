use address_translation::lib_fns::{num_bits_reqd, rand_even, rand_power_of_2};
use address_translation::segments::{
    are_conflicting, calculate_answer, calculate_answer_stack_percentage, check_layout, copy_segments,
    generate_segmented_memory_layout, get_rand_va, valid_va, SegName, Segment,
};
use address_translation::solutions::translate_va;

fn seg(name: SegName, base: u32, size_tenths: u32, grows_negative: u32) -> Segment {
    Segment { name, base, size_tenths, grows_negative }
}

fn example_layout() -> Vec<Segment> {
    vec![
        seg(SegName::Code, 8, 128, 0),
        seg(SegName::Heap, 90, 21, 0),
        seg(SegName::Stack, 245, 552, 1),
    ]
}

#[test]
pub fn test_stack_percentage_calculation_v1() {
    let stak_seg = Segment { name: SegName::Stack, base: 64, size_tenths: 20, grows_negative: 1 };
    assert_eq!(114688, calculate_answer_stack_percentage(stak_seg, 0, 16384, 17).0);
}

#[test]
pub fn test_stack_percentage_calculation_v2() {
    let stak_seg = Segment { name: SegName::Stack, base: 64, size_tenths: 0, grows_negative: 1 };
    assert_eq!(196608, calculate_answer_stack_percentage(stak_seg, 0, 16384, 18).0);
}

#[test]
pub fn test_va_pa_calculation_v1() {
    let heap_seg = Segment { name: SegName::Stack, base: 128, size_tenths: 120, grows_negative: 0 };
    assert_eq!(132096, calculate_answer(heap_seg, 32768, 1024));
}

#[test]
fn stack_formula_subtracts_the_maximum_segment_size() {
    let stack = seg(SegName::Stack, 245, 552, 1);
    assert_eq!(245 * 1024 - 65536 + 100, calculate_answer(stack, 65536, 100));
}

#[test]
fn stack_percentage_a_quarter_into_the_stack() {
    let stack = seg(SegName::Stack, 120, 128, 1);
    // 25% of 12.8K is 3.2K = 3276.8 bytes below the base: offset 32768 - 3276.8.
    assert_eq!((127795, 29491), calculate_answer_stack_percentage(stack, 25, 32768, 17));
}

#[test]
fn stack_percentage_whole_stack() {
    let stack = seg(SegName::Stack, 60, 20, 1);
    // 100% of 2K: offset 16384 - 2048.
    assert_eq!((98304 + 14336, 14336), calculate_answer_stack_percentage(stack, 100, 16384, 17));
}

#[test]
fn translation_of_the_heap_example() {
    let layout = example_layout();
    // 10110100000000000 in an 18-bit address space: selector 01, heap.
    assert_eq!((1, 65536, 26624, 118784), translate_va(0b10110100000000000, 18, &layout));
}

#[test]
fn translation_of_a_stack_address() {
    let layout = example_layout();
    let va: u32 = (3 << 16) + 100;
    assert_eq!((3, 65536, 100, 245 * 1024 - 65536 + 100), translate_va(va, 18, &layout));
}

#[test]
fn translation_of_a_code_address() {
    let layout = example_layout();
    assert_eq!((0, 65536, 5000, 8 * 1024 + 5000), translate_va(5000, 18, &layout));
}

#[test]
fn stack_point_translates_back_below_the_base() {
    let layout = vec![
        seg(SegName::Code, 8, 128, 0),
        seg(SegName::Heap, 40, 21, 0),
        seg(SegName::Stack, 120, 128, 1),
    ];
    let (va, offset) = calculate_answer_stack_percentage(layout[2], 25, 32768, 17);
    let (ss, _mss, off, pa) = translate_va(va, 17, &layout);
    assert_eq!(3, ss);
    assert_eq!(offset, off);
    // 3276.8 bytes rounded up to 3277 below the base.
    assert_eq!(120 * 1024 - 3277, pa);
}

#[test]
fn valid_va_finds_the_segment_of_the_selector() {
    let layout = example_layout();
    assert!(valid_va(90 * 1024, 1, layout.clone()));
    assert!(!valid_va(90 * 1024, 0, layout.clone()));
    assert!(valid_va(8 * 1024 + 10, 0, layout.clone()));
    assert!(valid_va(245 * 1024, 3, layout.clone()));
    assert!(!valid_va(245 * 1024 + 1, 3, layout.clone()));
    assert!(!valid_va(93 * 1024, 1, layout));
}

#[test]
fn layout_without_conflicts() {
    assert_eq!((false, false), check_layout(&example_layout()));
}

#[test]
fn layout_with_overlapping_code_and_heap() {
    let layout = vec![
        seg(SegName::Code, 8, 128, 0),
        seg(SegName::Heap, 10, 21, 0),
        seg(SegName::Stack, 245, 552, 1),
    ];
    assert_eq!((true, false), check_layout(&layout));
}

#[test]
fn layout_with_stack_below_zero() {
    let layout = vec![
        seg(SegName::Code, 8, 128, 0),
        seg(SegName::Heap, 90, 21, 0),
        seg(SegName::Stack, 2, 30, 1),
    ];
    assert_eq!((false, true), check_layout(&layout));
}

#[test]
fn layout_with_heap_inside_the_stack() {
    let layout = vec![
        seg(SegName::Code, 8, 128, 0),
        seg(SegName::Heap, 200, 21, 0),
        seg(SegName::Stack, 245, 552, 1),
    ];
    assert_eq!((true, false), check_layout(&layout));
}

#[test]
fn copies_keep_every_segment() {
    let layout = example_layout();
    assert_eq!(layout, copy_segments(&layout));
}

#[test]
fn number_of_bits_of_powers_of_two() {
    assert_eq!(18, num_bits_reqd(128 * 1024));
    assert_eq!(31, num_bits_reqd(0x7FFF_FFFF));
}

#[test]
fn random_even_numbers_stay_in_range() {
    for _ in 0..200 {
        let r = rand_even(14, 65);
        assert!(r % 2 == 0 && (14..65).contains(&r));
    }
    assert_eq!(4, rand_even(3, 5));
}

#[test]
fn random_powers_of_two_stay_in_range() {
    for _ in 0..200 {
        let r = rand_power_of_2(14, 256);
        assert!(r.is_power_of_two() && r >= 16 && r <= 256);
    }
    assert_eq!(64, rand_power_of_2(64, 127));
    for _ in 0..50 {
        assert_eq!(4, rand_power_of_2(3, 4));
    }
}

#[test]
fn generated_layouts_are_acceptable() {
    for _ in 0..50 {
        let (vas, power_of2, segs) = generate_segmented_memory_layout().unwrap();
        assert!(vas.is_power_of_two() && (16..=256).contains(&vas));
        assert_eq!(num_bits_reqd(vas * 1024), power_of2);
        assert_eq!(3, segs.len());
        assert_eq!(SegName::Code, segs[0].name);
        assert_eq!(SegName::Heap, segs[1].name);
        assert_eq!(SegName::Stack, segs[2].name);
        assert_eq!(1, segs[2].grows_negative);
        assert_eq!((false, false), check_layout(&segs));
    }
}

#[test]
fn redrawn_segments_keep_names_and_directions() {
    let drawn = are_conflicting(18, example_layout()).unwrap();
    assert_eq!(3, drawn.len());
    assert_eq!(SegName::Heap, drawn[1].name);
    assert_eq!(1, drawn[2].grows_negative);
    assert_eq!((false, false), check_layout(&drawn));
}

#[test]
fn random_addresses_lie_in_their_segment() {
    let layout = example_layout();
    for _ in 0..100 {
        let va = get_rand_va(18, layout.clone(), false).unwrap();
        let ss = va >> 16;
        assert!(va >= 100 && va < (1 << 18));
        assert!(ss == 0 || ss == 1 || ss == 3);
        assert!(valid_va(va, ss, layout.clone()));
    }
}

#[test]
fn random_malloc_addresses_lie_in_the_heap() {
    let layout = vec![
        seg(SegName::Code, 8, 128, 0),
        seg(SegName::Heap, 70, 21, 0),
        seg(SegName::Stack, 245, 552, 1),
    ];
    for _ in 0..100 {
        let va = get_rand_va(18, layout.clone(), true).unwrap();
        assert_eq!(1, va >> 16);
        assert!(va >= 70 * 1024 && va < (700 + 21) * 1024 / 10);
    }
}

#[test]
fn selector_and_offset_recompose_the_address() {
    let layout = example_layout();
    for va in [5000u32, 0b10110100000000000, (3 << 16) + 100, 8 * 1024 + 1] {
        let (ss, mss, offset, _pa) = translate_va(va, 18, &layout);
        assert!(offset < mss);
        assert_eq!(va, ss * mss + offset);
    }
}

#[test]
fn layouts_that_cannot_conflict_are_kept_at_once() {
    for _ in 0..50 {
        assert!(are_conflicting(18, Vec::new()).unwrap().is_empty());
        let drawn = are_conflicting(18, vec![seg(SegName::Code, 0, 0, 0), seg(SegName::Heap, 0, 0, 0)]).unwrap();
        assert_eq!((false, false), check_layout(&drawn));
    }
}
