use keck::arith::{blend, divide_up, energy_to_power, round_to_nearest, share, wide_share};
use keck::decimal::read_amount;
use keck::prom::{extract_label, read_line_amount};
use keck::table::{enter, find, get};
use keck::text::{
    chars_of, contains_text, decimal_text, lines, parse_number, search, split, starts_with, trim,
    whole_text, wide_decimal, words,
};
use keck::wide::Wide;

fn amount(s: &str) -> Option<i128> {
    read_amount(&chars_of(s))?.millionths()
}

fn texts(v: Vec<Vec<char>>) -> Vec<String> {
    v.iter().map(whole_text).collect()
}

#[test]
fn decimal_fractions() {
    assert_eq!(amount("2.5"), Some(2_500_000));
    assert_eq!(amount("-0.000001"), Some(-1));
    assert_eq!(amount("0.0000019"), Some(1));
    assert_eq!(amount("1e3"), Some(1_000_000_000));
    assert_eq!(amount("12.5E-1"), Some(1_250_000));
    assert_eq!(amount(".5"), Some(500_000));
    assert_eq!(amount("5."), Some(5_000_000));
    assert_eq!(amount("NaN"), None);
    assert_eq!(read_amount(&chars_of("NaN")).unwrap().millionths(), None);
    assert!(read_amount(&chars_of("1e-300")).unwrap().is_positive());
    assert!(!read_amount(&chars_of("-1e-300")).unwrap().is_positive());
    assert!(!read_amount(&chars_of("0.0")).unwrap().is_positive());
    assert_eq!(amount("inf"), Some(u64::MAX as i128));
    assert_eq!(amount("1e400"), Some(u64::MAX as i128));
    let tiny = read_amount(&chars_of("2e-18")).unwrap();
    assert_eq!((tiny.millionths(), tiny.attos()), (Some(0), Some(2)));
    for bad in ["", ".", "e3", "1e", "1 2", "0x1", "+-1"] {
        assert_eq!(amount(bad), None);
    }
}

#[test]
fn whole_numbers() {
    let parse = |s: &str| parse_number(&chars_of(s), u64::MAX);
    assert_eq!(parse("0042"), Some(42));
    assert_eq!(parse("+7"), Some(7));
    assert_eq!(parse("18446744073709551615"), Some(u64::MAX));
    assert_eq!(parse("18446744073709551616"), None);
    assert_eq!(parse("+"), None);
    assert_eq!(parse_number(&chars_of("256"), 255), None);
    assert_eq!(decimal_text(0), "0");
    assert_eq!(wide_decimal(u128::MAX), "340282366920938463463374607431768211455");
}

#[test]
fn pieces_of_texts() {
    assert_eq!(texts(split(&chars_of("a,,b"), ',')), vec!["a", "", "b"]);
    assert_eq!(texts(words(&chars_of(" a \t b\n"))), vec!["a", "b"]);
    assert_eq!(texts(lines(&chars_of("a\r\nb\n\nc"))), vec!["a", "b", "", "c"]);
    assert_eq!(whole_text(&trim(&chars_of("\u{a0} x y \n"))), "x y");
    assert_eq!(search(&chars_of("ababc"), "abc", 0), Some(2));
    assert!(starts_with("kube-system", "kube-") && !starts_with("kube", "kube-"));
    assert!(contains_text("abc", "") && !contains_text("abc", "abcd"));
}

#[test]
fn metric_lines() {
    let line = "m{a=\"1\",b=\"two\"} 3.25";
    assert_eq!(extract_label(line, "b").unwrap(), "two");
    assert_eq!(extract_label(line, "c"), None);
    assert_eq!(read_line_amount(&chars_of(line)).unwrap().millionths(), Some(3_250_000));
}

#[test]
fn numbers_of_any_size() {
    let a = Wide::from_wide(u128::MAX);
    let b = a.times(&a).plus(&Wide::from_wide(7));
    assert!(a.at_most(&b) && !b.at_most(&a));
    assert_eq!(b.quotient(&Wide::from_wide(7), &a.times(&Wide::from_wide(u128::MAX / 5))), 5);
    assert_eq!(a.quotient(&Wide::zero(), &Wide::from_wide(1)), u64::MAX);
    assert_eq!(a.times_digit(3).quotient(&a, &a), 2);
    assert!(Wide::zero().is_zero() && !a.is_zero());
}

#[test]
fn ratios_round_up() {
    assert_eq!(divide_up(1, 2), 500_000_000_000_000_000);
    assert_eq!(divide_up(1, 3), 333_333_333_333_333_334);
    assert_eq!(divide_up(0, 9), 0);
}

#[test]
fn shares_and_blends() {
    assert_eq!(share(100, 1, 3), 33);
    assert_eq!(share(100, 0, 0), 0);
    assert_eq!(wide_share(u128::MAX, 1, 2), u128::MAX / 2);
    assert_eq!(blend(1_000, 600, 1_000, 30, 100), 480);
    assert_eq!(blend(1_000, 0, 0, 30, 100), 120);
    assert_eq!(blend(1_000, 600, 1_000, 0, 0), 360);
    assert_eq!(energy_to_power(500, 0), 0);
    assert_eq!(energy_to_power(5_000_000, 2_000_000_000), 2_500_000);
    assert_eq!([round_to_nearest(25, 10), round_to_nearest(35, 10), round_to_nearest(36, 10)], [2, 4, 4]);
}

#[test]
fn tables_keep_each_key_once() {
    let mut t: Vec<(String, u64)> = Vec::new();
    enter(&mut t, "a".into(), 1);
    enter(&mut t, "b".into(), 2);
    enter(&mut t, "a".into(), 3);
    assert_eq!(t, vec![("a".to_string(), 3), ("b".to_string(), 2)]);
    assert_eq!(get(&t, &"b".to_string()), Some(&2));
    assert_eq!(find(&t, &"c".to_string()), None);
}
