use results_table::text::{
    all_digits, decimal_string, digit_str, format_duration, repeat, signed_decimal_string,
};

#[test]
fn seven_microseconds_read_as_thousandths() {
    assert_eq!(format_duration(7), "0.007");
}

#[test]
fn a_thousand_microseconds_read_as_one_millisecond() {
    assert_eq!(format_duration(1000), "1.000");
}

#[test]
fn just_under_a_second_keeps_all_its_digits() {
    assert_eq!(format_duration(999999), "999.999");
}

#[test]
fn no_time_at_all_still_has_a_digit_before_the_point() {
    assert_eq!(format_duration(0), "0.000");
}

#[test]
fn durations_of_every_length_get_the_point_before_the_last_three_digits() {
    assert_eq!(format_duration(42), "0.042");
    assert_eq!(format_duration(999), "0.999");
    assert_eq!(format_duration(123456), "123.456");
    assert_eq!(format_duration(7000), "7.000");
    assert_eq!(format_duration(500000), "500.000");
    assert_eq!(format_duration(u128::MAX), "340282366920938463463374607431768211.455");
}

#[test]
fn durations_always_have_three_digits_behind_the_point() {
    for micros in (0..5000u128).chain([99_999, 100_000, 1_000_000_007]) {
        let time = format_duration(micros);
        let (whole, fraction) = time.split_once('.').unwrap();
        assert!(!whole.is_empty());
        assert_eq!(fraction.len(), 3);
        assert_eq!(whole.parse::<u128>().unwrap() * 1000 + fraction.parse::<u128>().unwrap(), micros);
        assert_eq!(time, format!("{}.{:03}", micros / 1000, micros % 1000));
    }
}

#[test]
fn digits_are_written_one_character_each() {
    let digits: Vec<&str> = (0..10u8).map(digit_str).collect();
    assert_eq!(digits, vec!["0", "1", "2", "3", "4", "5", "6", "7", "8", "9"]);
}

#[test]
fn unsigned_numbers_are_written_without_leading_zeros() {
    assert_eq!(decimal_string(0), "0");
    assert_eq!(decimal_string(9), "9");
    assert_eq!(decimal_string(10), "10");
    assert_eq!(decimal_string(1905), "1905");
    assert_eq!(decimal_string(u128::MAX), u128::MAX.to_string());
}

#[test]
fn negative_numbers_are_written_with_a_minus_sign() {
    assert_eq!(signed_decimal_string(0), "0");
    assert_eq!(signed_decimal_string(-1), "-1");
    assert_eq!(signed_decimal_string(-120), "-120");
    assert_eq!(signed_decimal_string(77), "77");
    assert_eq!(signed_decimal_string(i128::MIN), i128::MIN.to_string());
    assert_eq!(signed_decimal_string(i128::MAX), i128::MAX.to_string());
}

#[test]
fn padding_repeats_its_unit() {
    assert_eq!(repeat("═", 3), "═══");
    assert_eq!(repeat(" ", 0), "");
    assert_eq!(repeat("ab", 2), "abab");
    assert_eq!(repeat("", 5), "");
}

#[test]
fn only_ascii_digits_make_a_text_numeric() {
    assert!(all_digits("42"));
    assert!(all_digits("0012"));
    assert!(all_digits(""));
    assert!(!all_digits("Case A"));
    assert!(!all_digits("4 2"));
    assert!(!all_digits("-42"));
    assert!(!all_digits("4.2"));
    assert!(!all_digits("٣"));
    assert!(!all_digits("12é"));
}
