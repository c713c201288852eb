use results_table::runner::RowFormat;
use results_table::solver::{Result, Solution};
use std::time::Duration;

#[test]
fn every_kind_of_solution_prints_its_value() {
    assert_eq!(Solution::U8(u8::MAX).to_string(), "255");
    assert_eq!(Solution::U16(u16::MAX).to_string(), "65535");
    assert_eq!(Solution::U32(u32::MAX).to_string(), "4294967295");
    assert_eq!(Solution::U64(u64::MAX).to_string(), "18446744073709551615");
    assert_eq!(Solution::U128(u128::MAX).to_string(), u128::MAX.to_string());
    assert_eq!(Solution::USize(usize::MAX).to_string(), usize::MAX.to_string());
    assert_eq!(Solution::I8(i8::MIN).to_string(), "-128");
    assert_eq!(Solution::I16(i16::MIN).to_string(), "-32768");
    assert_eq!(Solution::I32(i32::MIN).to_string(), "-2147483648");
    assert_eq!(Solution::I64(i64::MIN).to_string(), "-9223372036854775808");
    assert_eq!(Solution::I128(i128::MIN).to_string(), i128::MIN.to_string());
    assert_eq!(Solution::ISize(isize::MIN).to_string(), isize::MIN.to_string());
    assert_eq!(Solution::I32(0).to_string(), "0");
    assert_eq!(Solution::I64(17).to_string(), "17");
    assert_eq!(Solution::String("done".to_string()).to_string(), "done");
    assert_eq!(Solution::String(String::new()).to_string(), "");
}

#[test]
fn solutions_that_print_alike_are_equal() {
    assert!(Solution::U8(5) == Solution::I64(5));
    assert!(Solution::U128(42) == Solution::String("42".to_string()));
    assert!(Solution::I8(-3) == Solution::ISize(-3));
    assert!(Solution::String("a b".to_string()) == Solution::String("a b".to_string()));
}

#[test]
fn solutions_that_print_differently_are_not_equal() {
    assert!(Solution::U8(5) != Solution::U8(6));
    assert!(Solution::U8(5) != Solution::String("05".to_string()));
    assert!(Solution::I8(-5) != Solution::U8(5));
    assert!(Solution::String("Done".to_string()) != Solution::String("done".to_string()));
}

#[test]
fn a_measurement_becomes_a_row_of_text() {
    let labels = vec!["Part 1".to_string(), "2".to_string()];
    let result = Result { solution: Solution::I32(-17), duration: Duration::from_micros(123456) };
    let row = RowFormat::new(labels.clone(), result);
    assert_eq!(row.labels(), &labels);
    assert_eq!(row.solution(), "-17");
    assert_eq!(row.time(), "123.456");
}

#[test]
fn a_duration_is_shown_in_whole_microseconds() {
    let result = Result { solution: Solution::U8(1), duration: Duration::new(1, 500) };
    assert_eq!(RowFormat::new(Vec::new(), result).time(), "1000.000");
    let result = Result { solution: Solution::U8(1), duration: Duration::from_nanos(7999) };
    assert_eq!(RowFormat::new(Vec::new(), result).time(), "0.007");
    let result = Result { solution: Solution::U8(1), duration: Duration::from_millis(7) };
    assert_eq!(RowFormat::new(Vec::new(), result).time(), "7.000");
    let result = Result { solution: Solution::U8(1), duration: Duration::ZERO };
    assert_eq!(RowFormat::new(Vec::new(), result).time(), "0.000");
}

#[test]
fn a_spacer_has_an_empty_label_for_each_column() {
    let spacer = RowFormat::spacer(3);
    assert_eq!(spacer.labels(), &vec![String::new(), String::new(), String::new()]);
    assert_eq!(spacer.solution(), "");
    assert_eq!(spacer.time(), "");
    assert!(RowFormat::spacer(0).labels().is_empty());
}
