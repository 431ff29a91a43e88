use address_translation::answers::answer_instructions;
use address_translation::digits::{char_digit, push_bin, push_dec, push_dec64, push_hex, push_hex_prefixed, push_radix};
use address_translation::files::response;
use address_translation::lib_fns::{print_hyphens, print_leading_zeros, print_readable_binary};
use address_translation::menus::{_clear_screen, choose_format_step, format_menu, parse_i8};
use address_translation::problems::{setup_problem, QuestionChoice};
use address_translation::questions::{
    fetch_format_specifiers, print_layout, print_question_stack_percentage, print_question_va_to_pa, push_size,
    seg_name_text,
};
use address_translation::segments::{calculate_answer_stack_percentage, SegName, Segment};
use address_translation::solutions::{
    push_padded_space, push_thousandths, push_three_numbers_line, show_solution_stack_va, show_solution_va_to_pa_hex,
};

const CLOSING: &str =
    "Check out youtube for shortcuts on converting to and from binary, decimal, and hexadecimal by hand.\n\n";

fn seg(name: SegName, base: u32, size_tenths: u32, grows_negative: u32) -> Segment {
    Segment { name, base, size_tenths, grows_negative }
}

// ---------------------------------------------------------------------------
// Numbers written out
// ---------------------------------------------------------------------------

#[test]
fn numbers_are_written_like_the_standard_formats() {
    for v in [0u32, 1, 9, 10, 255, 4096, 118784, u32::MAX] {
        let mut s = String::from(">");
        push_dec(&mut s, v);
        push_bin(&mut s, v);
        push_hex(&mut s, v);
        push_hex_prefixed(&mut s, v);
        assert_eq!(format!(">{}{:b}{:X}{:#X}", v, v, v, v), s);
    }
    let mut s = String::new();
    push_dec64(&mut s, u64::MAX);
    assert_eq!(u64::MAX.to_string(), s);
    let mut s = String::new();
    push_radix(&mut s, 8, 8);
    assert_eq!("10", s);
}

#[test]
fn digits_of_a_base() {
    assert_eq!(Some(15), char_digit('f', 16));
    assert_eq!(Some(15), char_digit('F', 16));
    assert_eq!(None, char_digit('2', 2));
    assert_eq!(Some(35), char_digit('Z', 36));
    assert_eq!(None, char_digit('-', 10));
}

#[test]
fn leading_zeros_pad_to_the_width() {
    assert_eq!("0000000", print_leading_zeros(5, 10));
    assert_eq!("", print_leading_zeros(1023, 10));
    assert_eq!("000", print_leading_zeros(0, 4));
}

#[test]
fn padded_binary_takes_the_whole_width() {
    for (v, w) in [(5u32, 10u32), (1023, 10), (0, 4), (92160, 18)] {
        let padded = format!("{}{:b}", print_leading_zeros(v, w), v);
        assert_eq!(w as usize, padded.len());
        assert_eq!(v, u32::from_str_radix(&padded, 2).unwrap());
        assert_eq!(format!("{:b}", v).len() + 1, print_hyphens(v).len());
    }
}

#[test]
fn hyphens_underline_the_binary_digits() {
    assert_eq!("---------------\n", print_hyphens(26624));
    assert_eq!("-\n", print_hyphens(0));
}

#[test]
fn readable_binary_in_groups_of_four() {
    assert_eq!("01 0110 1000 0000 0000 ", print_readable_binary(0b10110100000000000, 18));
    assert_eq!("0000 0000 0001 0110 ", print_readable_binary(22, 16));
    assert_eq!("1 0000 ", print_readable_binary(16, 5));
    assert_eq!("", print_readable_binary(0, 0));
}

#[test]
fn grouped_binary_without_spaces_is_padded_binary() {
    for (a, n) in [(0b10110100000000000u32, 18u32), (22, 16), (16, 5), (0, 1), (0x7FFF_FFFF, 31), (5, 7)] {
        let grouped = print_readable_binary(a, n);
        assert_eq!(format!("{:0width$b}", a, width = n as usize), grouped.replace(' ', ""));
    }
}

#[test]
fn thousandths_are_written_exactly() {
    let mut s = String::new();
    push_thousandths(&mut s, 12800);
    s.push(' ');
    push_thousandths(&mut s, 250);
    s.push(' ');
    push_thousandths(&mut s, 3200);
    s.push(' ');
    push_thousandths(&mut s, -500);
    s.push(' ');
    push_thousandths(&mut s, 2125);
    s.push(' ');
    push_thousandths(&mut s, 12000);
    assert_eq!("12.8 0.25 3.2 -0.5 2.125 12", s);
}

#[test]
fn padded_spaces_and_number_lines() {
    let mut s = String::new();
    push_padded_space(&mut s, 0);
    push_padded_space(&mut s, 3);
    assert_eq!("    ", s);
    let mut s = String::new();
    push_three_numbers_line(&mut s, "a", 1, "b", 22, "c", 333, "d");
    assert_eq!("a1b22c333d", s);
}

// ---------------------------------------------------------------------------
// Problem texts
// ---------------------------------------------------------------------------

#[test]
fn format_specifiers_of_the_choices() {
    assert_eq!((16, 16), fetch_format_specifiers(0));
    assert_eq!((16, 2), fetch_format_specifiers(1));
    assert_eq!((2, 10), fetch_format_specifiers(5));
    assert_eq!((10, 2), fetch_format_specifiers(7));
    assert_eq!((-1, -1), fetch_format_specifiers(9));
}

#[test]
fn segment_names_and_sizes() {
    assert_eq!("Stack", seg_name_text(SegName::Stack));
    let mut s = String::new();
    push_size(&mut s, 128);
    s.push(' ');
    push_size(&mut s, 120);
    assert_eq!("12.8 12", s);
}

#[test]
fn layout_table() {
    let segs = vec![
        seg(SegName::Code, 8, 128, 0),
        seg(SegName::Heap, 90, 21, 0),
        seg(SegName::Stack, 245, 552, 1),
    ];
    let expected = "\nAssume a 128KB virtual address space and a 256KB physical memory. Virtual addresses are 18 bits and segmentation is being used.\n    The segment information is:\n\t\tSegment Number\tBase\tSize\tGrowsNegative\n\t\tCode\t00\t8K\t12.8K\t0\n\t\tHeap\t01\t90K\t2.1K\t0\n\t\tStack\t11\t245K\t55.2K\t1\n";
    assert_eq!(expected, print_layout(128, 256, 18, segs));
}

#[test]
fn translation_questions() {
    assert_eq!(
        (2, 16, String::from("A call to malloc returns a virtual address of 10110100000000000. What is the physical address (in base 16) of this virtual address?\n")),
        print_question_va_to_pa(0b10110100000000000, 3, true)
    );
    assert_eq!(
        (10, 10, String::from("Virtual Address 92160 (base 10) refers to what physical address (in base 10)?\n")),
        print_question_va_to_pa(92160, 8, false)
    );
    assert_eq!(
        (16, 2, String::from("Virtual Address 0x16800 refers to what physical address (in base 2)?\n")),
        print_question_va_to_pa(92160, 1, false)
    );
}

#[test]
fn stack_questions() {
    assert_eq!(
        (16, String::from("What virtual address, in hexadecimal, is 25% into the stack??\n")),
        print_question_stack_percentage(25, 0)
    );
    assert_eq!(
        (10, String::from("What virtual address, in decimal, is 100% into the stack??\n")),
        print_question_stack_percentage(100, 2)
    );
}

#[test]
fn answer_instructions_of_each_format() {
    assert_eq!(
        "Type your answer in hexadecimal format with or without the `0x` then press enter and ctrl+d\n",
        answer_instructions(16)
    );
    assert_eq!(
        "Type your answer in binary format with or without leading zeros then press enter and ctrl+d\n",
        answer_instructions(2)
    );
}

fn step2_text(power_of2: u32) -> String {
    let mut s = String::new();
    s += "\nStep 2: Note the Virtual Address Space size (abbrv. VAS --measured in bits) and separate the Segment Selector (SS) from the Offset portion of the binary.\n";
    s += "Remember --if the amount of bits in the Virtual Address Space differs from the amount of bits in the binary calculated, we must either\n";
    s += "\n\ta\u{29} Pad the calculated binary number with zeros until the length of the binary equals the amount of bits in the VAS.\n";
    s += "\n\tb\u{29} Trim the top bits of the calculated binary until the length of the binary equals the amount of bits in the VAS.\n\n";
    s += &format!("In this case, the Virtual Address Space size in bits is {}.\n", power_of2);
    s += &format!("So, only the first {} bits of the calculated binary are considered.\n\n", power_of2);
    s += "The SS is always either 00, 01, or 11 => SS \u{3F5} \u{7B}0, 1, 3\u{7D}\n";
    s += "\nDiscard the segment selector bits from the offset calculation.\n\n";
    s
}

fn step3_4_text(offset: u32, power_of2: u32) -> String {
    let mut s = String::new();
    s += "\nStep 3: Note the value of the Segment Selector and Offset bits:\n";
    s += "00 ===> Code\n01 ===> Heap\n11 ===> Stack\n\n";
    s += &format!("Offset = {:b} = {} bytes\n\n", offset, offset);
    s += "Step 4: Note: PA = (-1)*(GN)*(MSS) + base + offset\n\n";
    s += "GN = `grows negative`. If SS = 11 => SS = Stack => GN = 1. Otherwise, GN = 0.\n";
    s += "MSS = `maximum segment size`. MSS = 2^(number of bits in the offset)\n";
    s += "Base = the base of the segment, measured in bytes. Value provided in table.\n";
    s += &format!("The offset has already been calculated: offset = {} bytes (base 10)\n", offset);
    s += &format!(
        "There are {} bits in the offset, so the MSS is 2^{} = {} bytes.\n",
        power_of2 - 2,
        power_of2 - 2,
        2u32.pow(power_of2 - 2)
    );
    s
}

#[test]
fn worked_solution_of_a_heap_translation() {
    let heap = seg(SegName::Heap, 90, 21, 0);
    let va: u32 = 0b10110100000000000;
    let offset: u32 = 26624;
    let mut expected = String::new();
    expected += &format!("\nStep 1: Convert virtual address {:b} to binary\n", va);
    expected += &format!("{:b} = 01 0110 1000 0000 0000 \n", va);
    expected += &step2_text(18);
    expected += &format!("01 {:b}\n", offset);
    expected += "-- ---------------\n";
    expected += &format!("SS {:x_axis$}OFFSET\n", " ", x_axis = 3);
    expected += &step3_4_text(offset, 18);
    expected += "The SS = 01 (base 2) = 1 (base 10) => SS = Heap Segment => GN = 0\n";
    expected += "PA (in bytes) = (-1)*(GN)*(MSS) + base + offset\n\n";
    expected += "=> PA = (-1)(0)(2^16) + (90K) + 26624 bytes\n";
    expected += "=> PA = (-1)(0)(65536) + (90 * 1024) + 26624 bytes\n";
    expected += "=> PA = 0 + (92160) + 26624 bytes\n";
    expected += "=> PA = 118784 bytes\n";
    expected += "=> PA = 0x1D000 bytes\n";
    expected += CLOSING;
    assert_eq!(expected, show_solution_va_to_pa_hex(heap, 1, offset, va, 118784, 18, (2, 16)));
}

#[test]
fn worked_solution_of_a_stack_translation() {
    let stack = seg(SegName::Stack, 245, 552, 1);
    let va: u32 = (3 << 16) + 100;
    let offset: u32 = 100;
    let pa: u32 = 245 * 1024 + 100 - 65536;
    let mut expected = String::new();
    expected += &format!("\nStep 1: Convert virtual address {} to binary\n", va);
    expected += &format!("{} = 11 0000 0000 0110 0100 \n", va);
    expected += &step2_text(18);
    expected += &format!("11 {:b}\n", offset);
    expected += "-- -------\n";
    expected += "SS  OFFSET\n";
    expected += &step3_4_text(offset, 18);
    expected += "The SS = 11 (base 2) = 3 (base 10) => SS = Stack Segment => GN = 1\n";
    expected += "PA (in bytes) = (-1)*(GN)*(MSS) + base + offset\n\n";
    expected += "=> PA = (-1)(1)(2^16) + (245K) + 100 bytes\n";
    expected += "=> PA = (-1)(1)(65536) + (245 * 1024) + 100 bytes\n";
    expected += "=> PA = (-65536) + (250880) + 100 bytes\n";
    expected += &format!("=> PA = {} bytes\n", pa);
    expected += CLOSING;
    assert_eq!(expected, show_solution_va_to_pa_hex(stack, 3, offset, va, pa, 18, (10, 10)));
}

#[test]
fn worked_solution_of_the_stack_percentage() {
    let stack = seg(SegName::Stack, 120, 128, 1);
    let offset: u32 = 29491;
    let va: u32 = 127795;
    let bits: u32 = 3 << 15;
    let mut expected = String::new();
    expected += "--Note that the stack base and size are parameters in Physical Memory --not Virtual Memory.\n";
    expected += "The problem prompts a translation ";
    expected += "from PA to VA --the address corresponding to the specified portion through the stack as a virtual address\n";
    expected += "Therefore, calculating the percent of the stack size and subtracting it from the stack base yields an incorrect translation.\n\n";
    expected += "Drawing a picture helps to understand this non-intuitive math.\n";
    expected += "\nStep 1: Calculate 25% into the stack _size_ in K (as a multiple of 1024)\n";
    expected += "25% * 12.8K = (0.25 * 12.8)K = 3.2K\n\n";
    expected += "Step 2: Calculate the maximum segment size in relation to the stack's base\n";
    expected += "Remember --the stack grows downwards from its base.\n\n";
    expected += "MSS = 2^(number of bits in the offset) = 2^15 = 32768 bytes\n";
    expected += "=> If the stack segment were to use up its MSS, it would grow downwards to 120K - 32K = 88K\n\n";
    expected += "Step 3: Calculate the offset\n";
    expected += "Subtract the address of the maximum segment size from the stack base minus the calculated portion of the stack size in K:\n";
    expected += "(120K - 3.2K) - 88K = 116.8K - 88K = 28.8K = 29491 bytes\n";
    expected += "This is the _offset_ portion of the binary number to be constructed for the virtual address.\n\n";
    expected += "Step 4: Append the appropriate segment selector bits to the offset\n";
    expected += "The SS = the top two bits of the virtual address. If virtual addresses use up 17 bits, then the SS goes in the place\n";
    expected += "of the 15th and 16th bits, counting from zero.\n\n";
    expected += "Since this translation is to a stack VA, this means the segment selector bits for that address must be 11 already.\n";
    expected += "=> SS = Stack = 11\n";
    expected += "Append these two SS bits on to the highest portion of the offset binary:\n";
    expected += &format!("  {:b}\t--SS bits\n", bits);
    expected += &format!("+ 00{:b}\t--OFFSET\n", offset);
    expected += &format!("--{}\n", "-".repeat(17));
    expected += &format!("  {:b}\n", offset + bits);
    expected += &format!("{:horiz$}VA in bytes\n", " ", horiz = 5);
    expected += "=> VA = 0x1F333 bytes\n";
    expected += CLOSING;
    assert_eq!(expected, show_solution_stack_va(stack, offset, va, 17, 25, 16));
}

// ---------------------------------------------------------------------------
// Menus and replies
// ---------------------------------------------------------------------------

#[test]
fn typed_numbers_read_as_i8() {
    assert_eq!(Some(7), parse_i8("7"));
    assert_eq!(Some(-128), parse_i8("-128"));
    assert_eq!(Some(127), parse_i8("+127"));
    assert_eq!(None, parse_i8("128"));
    assert_eq!(None, parse_i8(""));
    assert_eq!(None, parse_i8("-"));
    assert_eq!(None, parse_i8("1a"));
    assert_eq!(None, parse_i8(" 1"));
}

#[test]
fn format_menus() {
    assert!(format_menu(0).starts_with("\nChoose format of desired question\n\nOPTION\t\tPROBLEM TYPE\n\n0)\t\t--va in hex to pa in hex\n"));
    assert!(format_menu(0).ends_with("9)\t\tRandom option\n"));
    assert_eq!(
        "Choose format of desired question\n\nOPTION\t\tPROBLEM TYPE\n0)\t\t--answer in hex\n1)\t\t--answer in binary\n2)\t\t--answer in decimal\n9)\t\t--random question\n",
        format_menu(1)
    );
}

#[test]
fn format_choice_as_typed() {
    assert_eq!((Some(4), String::from("\n")), choose_format_step(0, " 4\n"));
    assert_eq!((Some(2), String::from("\n")), choose_format_step(1, "2"));
}

#[test]
fn format_choice_at_random() {
    for _ in 0..50 {
        let (c, msg) = choose_format_step(1, "9\n");
        assert_eq!("\n", msg);
        assert!(matches!(c, Some(k) if (0..3).contains(&k)));
        let (c, _) = choose_format_step(0, "9");
        assert!(matches!(c, Some(k) if (0..9).contains(&k)));
    }
}

#[test]
fn format_choice_errors() {
    assert_eq!(
        (None, String::from("Error. Invalid input --not an integer. Please try again.\n\n")),
        choose_format_step(0, "abc")
    );
    assert_eq!(
        (None, String::from("\nPlease enter one of the digits corresponding to an option on screen\n")),
        choose_format_step(0, "12")
    );
    assert_eq!((None, String::from("\n")), choose_format_step(0, "-1"));
}

#[test]
fn clearing_the_screen() {
    assert_eq!("\n".repeat(50), _clear_screen());
}

#[test]
fn search_reply() {
    assert_eq!("You typed in memory.", response("memory"));
}

#[test]
fn problems_of_every_kind_are_set() {
    for f in 0..9 {
        let (prompt, solution) = setup_problem(QuestionChoice::Zero, f).unwrap();
        assert!(prompt.starts_with("\nAssume a "));
        assert!(prompt.contains("Virtual Address "));
        assert!(solution.starts_with("\nStep 1: Convert virtual address "));
        assert!(solution.ends_with(CLOSING));
    }
    let (prompt, solution) = setup_problem(QuestionChoice::One, 4).unwrap();
    assert!(prompt.contains("A call to malloc returns a virtual address of "));
    assert!(solution.contains("The SS = 01 (base 2) = 1 (base 10) => SS = Heap Segment => GN = 0\n"));
    for f in 0..3 {
        let (prompt, solution) = setup_problem(QuestionChoice::Two, f).unwrap();
        assert!(prompt.contains("% into the stack??\n"));
        assert!(solution.starts_with("--Note that the stack base and size"));
    }
}

#[test]
fn worked_solution_of_the_stack_percentage_in_a_small_space() {
    // Ten-bit addresses: the maximum segment size is 256 bytes, a quarter of a K.
    let stack = seg(SegName::Stack, 2, 2, 1);
    let offset: u32 = 153;
    let va: u32 = 921;
    let bits: u32 = 3 << 8;
    let mut expected = String::new();
    expected += "--Note that the stack base and size are parameters in Physical Memory --not Virtual Memory.\n";
    expected += "The problem prompts a translation ";
    expected += "from PA to VA --the address corresponding to the specified portion through the stack as a virtual address\n";
    expected += "Therefore, calculating the percent of the stack size and subtracting it from the stack base yields an incorrect translation.\n\n";
    expected += "Drawing a picture helps to understand this non-intuitive math.\n";
    expected += "\nStep 1: Calculate 50% into the stack _size_ in K (as a multiple of 1024)\n";
    expected += "50% * 0.2K = (0.5 * 0.2)K = 0.1K\n\n";
    expected += "Step 2: Calculate the maximum segment size in relation to the stack's base\n";
    expected += "Remember --the stack grows downwards from its base.\n\n";
    expected += "MSS = 2^(number of bits in the offset) = 2^8 = 256 bytes\n";
    expected += "=> If the stack segment were to use up its MSS, it would grow downwards to 2K - 0K = 2K\n\n";
    expected += "Step 3: Calculate the offset\n";
    expected += "Subtract the address of the maximum segment size from the stack base minus the calculated portion of the stack size in K:\n";
    expected += "(2K - 0.1K) - 2K = 1.9K - 2K = 0.15K = 153 bytes\n";
    expected += "This is the _offset_ portion of the binary number to be constructed for the virtual address.\n\n";
    expected += "Step 4: Append the appropriate segment selector bits to the offset\n";
    expected += "The SS = the top two bits of the virtual address. If virtual addresses use up 17 bits, then the SS goes in the place\n";
    expected += "of the 15th and 16th bits, counting from zero.\n\n";
    expected += "Since this translation is to a stack VA, this means the segment selector bits for that address must be 11 already.\n";
    expected += "=> SS = Stack = 11\n";
    expected += "Append these two SS bits on to the highest portion of the offset binary:\n";
    expected += &format!("  {:b}\t--SS bits\n", bits);
    expected += &format!("+ 00{:b}\t--OFFSET\n", offset);
    expected += &format!("--{}\n", "-".repeat(10));
    expected += &format!("  {:b}\n", offset + bits);
    expected += &format!("{:horiz$}VA in bytes\n", " ", horiz = 3);
    expected += "=> VA = 921 bytes\n";
    expected += CLOSING;
    assert_eq!((va, offset), calculate_answer_stack_percentage(stack, 50, 256, 10));
    assert_eq!(expected, show_solution_stack_va(stack, offset, va, 10, 50, 10));
}

#[test]
fn worked_stack_offset_with_the_smallest_maximum_segment_size() {
    // Two-bit addresses: the maximum segment size is 1 byte, 0.0009765625 K.
    let stack = seg(SegName::Stack, 1, 0, 1);
    let text = show_solution_stack_va(stack, 1, 4, 2, 25, 2);
    assert!(text.contains("(1K - 0K) - 1K = 1K - 1K = 0.0009765625K = 1 bytes\n"));
}
