use address_translation::answers::{answer_check_fits, bn_conversion_fits, compare_answer, remove_x, trim_text};
use address_translation::lib_fns::{_are_all_numeric, _bn_to_b10, are_all_numeric, bn_to_b10, num_bits_reqd, pow_u32};

#[test]
pub fn test_16_to_10_v1() {
    assert_eq!(Some(0), _bn_to_b10("0", 16));
}

#[test]
pub fn test_16_to_10_v2() {
    assert_eq!(Some(23295), _bn_to_b10("5AFF", 16));
}

#[test]
pub fn test_16_to_10_v3() {
    assert_eq!(Some(23295), _bn_to_b10("5aFf", 16));
}

#[test]
pub fn test_16_to_10_v4() {
    assert_eq!(Some(9477896), _bn_to_b10("909F08", 16));
}

#[test]
pub fn test_16_to_10_v5() {
    assert_eq!(Some(0), _bn_to_b10("0", 2));
}

#[test]
pub fn test_16_to_10_v6() {
    assert_eq!(Some(21841), _bn_to_b10("101010101010001", 2));
}

#[test]
pub fn test_16_to_10_v7() {
    assert_eq!(Some(268), _bn_to_b10("00000100001100", 2));
}

#[test]
pub fn test_16_to_10_v8() {
    assert_eq!(Some(1), _bn_to_b10("00000000000000001", 2));
}

#[test]
pub fn test_16_to_10_v9() {
    assert_eq!(Some(0), _bn_to_b10("0", 10));
}

#[test]
pub fn test_16_to_10_v10() {
    assert_eq!(Some(2184100), _bn_to_b10("2184100", 10));
}

#[test]
pub fn test_16_to_10_v11() {
    assert_eq!(Some(100001100), _bn_to_b10("0100001100", 10));
}

#[test]
pub fn test_16_to_10_v12() {
    assert_eq!(Some(1), _bn_to_b10("0000000001", 10));
}

#[test]
pub fn test_16_to_10_v13() {
    assert_ne!(Some(2184100), _bn_to_b10("2184100", 16));
}

#[test]
pub fn test_16_to_10_v14() {
    assert_ne!(Some(100001100), _bn_to_b10("0100001100", 2));
}

#[test]
pub fn test_16_to_10_v15() {
    assert_ne!(Some(1110), _bn_to_b10("1111", 10));
}

#[test]
pub fn test_allnum_v1() {
    assert_eq!(true, _are_all_numeric("aBcDeF", 16));
}

#[test]
pub fn test_allnum_v2() {
    assert_eq!(true, _are_all_numeric("1010101", 2));
}

#[test]
pub fn test_allnum_v3() {
    assert_eq!(true, _are_all_numeric("123456666777789", 10));
}

#[test]
pub fn test_allnum_v4() {
    assert_eq!(false, _are_all_numeric("aBcDeF1h2", 16));
}

#[test]
pub fn test_allnum_v5() {
    assert_eq!(false, _are_all_numeric("1010301", 2));
}

#[test]
pub fn test_allnum_v6() {
    assert_eq!(false, _are_all_numeric("12345666d777789", 10));
}

#[test]
pub fn test_bits_reqd_v1() {
    assert_eq!(10, num_bits_reqd(1023));
}

#[test]
pub fn test_bits_reqd_v2() {
    assert_eq!(1, num_bits_reqd(0));
}

#[test]
pub fn test_bits_reqd_v3() {
    assert_eq!(1, num_bits_reqd(1));
}

#[test]
pub fn test_bits_reqd_v4() {
    assert_eq!(14, num_bits_reqd(16383));
}

#[test]
pub fn test_bits_reqd_v5() {
    assert_eq!(15, num_bits_reqd(16384));
}

#[test]
pub fn test_bits_reqd_v6() {
    assert_ne!(10, num_bits_reqd(1024));
}

// ---------------------------------------------------------------------------
// Further checks of the conversions
// ---------------------------------------------------------------------------

#[test]
fn conversion_of_empty_text_is_zero() {
    assert_eq!(Some(0), _bn_to_b10("", 16));
}

#[test]
fn conversion_stops_at_a_non_digit() {
    assert_eq!(None, _bn_to_b10("12G4", 16));
    assert_eq!(None, _bn_to_b10("102", 2));
    assert_eq!(None, _bn_to_b10("1x1F", 16));
}

#[test]
fn conversion_skips_a_hexadecimal_prefix() {
    assert_eq!(Some(23295), _bn_to_b10("0x5AFF", 16));
    assert_eq!(Some(31), _bn_to_b10("0X1f", 16));
    assert_eq!(Some(0), _bn_to_b10("0x", 16));
    assert_eq!(None, _bn_to_b10("0x0x1", 16));
    assert_eq!(Some(23295), bn_to_b10(&String::from("0x5AFF"), 16));
    // Only base 16 has the prefix: in base 36, `x` is the digit 33.
    assert_eq!(Some(33), _bn_to_b10("0x", 36));
    assert_eq!(None, _bn_to_b10("0x1", 10));
}

#[test]
fn conversion_of_base_36_letters() {
    assert_eq!(Some(35), _bn_to_b10("z", 36));
    assert_eq!(Some(36 * 10 + 35), _bn_to_b10("AZ", 36));
}

#[test]
fn conversion_of_largest_u32() {
    assert_eq!(Some(u32::MAX), _bn_to_b10("FFFFFFFF", 16));
    assert_eq!(Some(u32::MAX), _bn_to_b10("4294967295", 10));
}

#[test]
fn conversion_through_a_string() {
    let s = String::from("1F");
    assert_eq!(Some(31), bn_to_b10(&s, 16));
}

#[test]
fn conversion_fits_is_checked_before_converting() {
    assert!(bn_conversion_fits("FFFFFFFF", 16));
    assert!(!bn_conversion_fits("100000000", 16));
    assert!(!bn_conversion_fits("4294967296", 10));
    assert!(!bn_conversion_fits("010000000", 16));
    assert!(!bn_conversion_fits("1", 1));
    assert!(bn_conversion_fits("", 1));
    assert!(bn_conversion_fits("12G", 16));
    assert!(bn_conversion_fits("0xFFFFFFFF", 16));
    assert!(!bn_conversion_fits("0x100000000", 16));
}

#[test]
fn prefix_or_leading_zero_gives_the_same_verdict() {
    for (f, pa, t) in [(16i8, 0x1D000u32, "1D000"), (16, 0x1D000, "A4F"), (2, 6, "110"), (2, 6, "101"), (10, 13, "13 \n")] {
        let zero = format!("0{}", t);
        assert_eq!(compare_answer(f, pa, t) == "\nGood.\n", compare_answer(f, pa, &zero) == "\nGood.\n");
        if f == 16 {
            let prefixed = format!("0x{}", t);
            assert_eq!(compare_answer(f, pa, t) == "\nGood.\n", compare_answer(f, pa, &prefixed) == "\nGood.\n");
        }
    }
}

#[test]
fn digit_check_passes_over_x_and_line_breaks() {
    assert!(_are_all_numeric("0x1F\n", 16));
    assert!(_are_all_numeric("X10", 2));
    assert!(!_are_all_numeric("1 0", 2));
    assert!(_are_all_numeric("", 10));
    assert!(are_all_numeric(&String::from("777"), 8));
}

#[test]
fn powers_by_repeated_multiplication() {
    assert_eq!(1, pow_u32(2, 0));
    assert_eq!(1024, pow_u32(2, 10));
    assert_eq!(1000000000, pow_u32(10, 9));
    assert_eq!(2147483648, pow_u32(2, 31));
}

// ---------------------------------------------------------------------------
// Reading a typed answer
// ---------------------------------------------------------------------------

#[test]
fn trimming_removes_outer_white_space_only() {
    assert_eq!("a b", trim_text("  a b\t\n"));
    assert_eq!("", trim_text(" \n "));
    assert_eq!("x", trim_text("x"));
}

#[test]
fn removing_x_removes_both_cases() {
    assert_eq!("0AB", remove_x("0xAB"));
    assert_eq!("12", remove_x("X1x2"));
    assert_eq!("", remove_x("xX"));
}

#[test]
fn correct_hex_answer_is_good() {
    assert!(answer_check_fits(16, "0x1D000\n"));
    assert_eq!("\nGood.\n", compare_answer(16, 0x1D000, "0x1D000\n"));
    assert_eq!("\nGood.\n", compare_answer(16, 0x1D000, "1d000"));
}

#[test]
fn correct_binary_and_decimal_answers_are_good() {
    assert_eq!("\nGood.\n", compare_answer(2, 0b1011, " 1011 \n"));
    assert_eq!("\nGood.\n", compare_answer(2, 0b1011, "0001011"));
    assert_eq!("\nGood.\n", compare_answer(10, 118784, "118784\n"));
}

#[test]
fn correct_unprefixed_large_hex_answer_is_good() {
    assert!(answer_check_fits(16, "FFFFFFFF"));
    assert_eq!("\nGood.\n", compare_answer(16, 0xFFFF_FFFF, "FFFFFFFF"));
}

#[test]
fn prefixed_hex_answer_of_nine_places_cannot_be_checked() {
    assert!(!answer_check_fits(16, "0x10000000"));
    assert!(answer_check_fits(16, "0xFFFFFFF"));
}

#[test]
fn wrong_hex_answer_shows_both_values() {
    assert_eq!(
        "\nINCORRECT.\n\nyour answer: 0xA4F bytes\nactual: 0x1D000 bytes\n",
        compare_answer(16, 0x1D000, "0xa4f\n")
    );
}

#[test]
fn wrong_binary_answer_repeats_the_unit() {
    assert_eq!(
        "\nINCORRECT.\n\nyour answer: 101 bytes bytes\nactual: 110 bytes bytes\n",
        compare_answer(2, 6, "101")
    );
}

#[test]
fn wrong_decimal_answer_shows_both_values() {
    assert_eq!(
        "\nINCORRECT.\n\nyour answer: 12 bytes\nactual: 13 bytes\n",
        compare_answer(10, 13, "12\n")
    );
}

#[test]
fn non_numeric_answer_is_shown_as_typed() {
    assert_eq!(
        "\nINCORRECT.\n\nyour answer: 012g bytes\nactual: 0x10 bytes\n",
        compare_answer(16, 16, "0x12g\n")
    );
    assert_eq!(
        "\nINCORRECT.\n\nyour answer: 102 bytes\nactual: 10 bytes\n",
        compare_answer(2, 2, "102")
    );
}

#[test]
fn answer_check_needs_a_known_format() {
    assert!(!answer_check_fits(8, "17"));
    assert!(answer_check_fits(10, "17"));
    assert!(!answer_check_fits(10, "99999999999"));
}
