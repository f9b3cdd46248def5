use birthcal::birthday::{parse_birthday, Birthday};
use birthcal::decimal::push_decimal;

#[test]
fn full_form_without_dashes() {
    assert_eq!(
        parse_birthday("18151210"),
        Some(Birthday::Full { year: 1815, month: 12, day: 10 })
    );
}

#[test]
fn full_form_with_dashes() {
    assert_eq!(
        parse_birthday("1912-06-23"),
        Some(Birthday::Full { year: 1912, month: 6, day: 23 })
    );
}

#[test]
fn dashes_anywhere_read_the_same() {
    let plain = parse_birthday("19120623");
    assert_eq!(plain, Some(Birthday::Full { year: 1912, month: 6, day: 23 }));
    assert_eq!(parse_birthday("1912-06-23"), plain);
    assert_eq!(parse_birthday("1912-0623"), plain);
    assert_eq!(parse_birthday("191206-23"), plain);
    assert_eq!(parse_birthday("1-9-1-2-0-6-2-3"), plain);
    assert_eq!(parse_birthday("19120623-"), plain);
    assert_eq!(
        parse_birthday("1912-06-23").map(|b| b.date_cell()),
        parse_birthday("19120623").map(|b| b.date_cell())
    );
}

#[test]
fn partial_form() {
    assert_eq!(parse_birthday("--1209"), Some(Birthday::Partial { month: 12, day: 9 }));
}

#[test]
fn partial_form_takes_no_more_dashes() {
    assert_eq!(parse_birthday("--12-09"), None);
    assert_eq!(parse_birthday("---1209"), None);
    assert_eq!(parse_birthday("-1209"), None);
}

#[test]
fn values_of_neither_form() {
    assert_eq!(parse_birthday("nope"), None);
    assert_eq!(parse_birthday(""), None);
    assert_eq!(parse_birthday("1815121"), None);
    assert_eq!(parse_birthday("181512100"), None);
    assert_eq!(parse_birthday("1815121o"), None);
    assert_eq!(parse_birthday("1815 12 10"), None);
    assert_eq!(parse_birthday("１８１５１２１０"), None);
    assert_eq!(parse_birthday("--12é9"), None);
    assert_eq!(parse_birthday("--120"), None);
    assert_eq!(parse_birthday("--"), None);
}

#[test]
fn numbers_are_taken_as_written() {
    assert_eq!(
        parse_birthday("2001-02-30"),
        Some(Birthday::Full { year: 2001, month: 2, day: 30 })
    );
    assert_eq!(
        parse_birthday("00009999"),
        Some(Birthday::Full { year: 0, month: 99, day: 99 })
    );
    assert_eq!(parse_birthday("--0000"), Some(Birthday::Partial { month: 0, day: 0 }));
}

#[test]
fn date_cell_of_a_full_birthday() {
    let b = Birthday::Full { year: 1815, month: 12, day: 10 };
    assert_eq!(b.date_cell(), "1815-12-10");
}

#[test]
fn date_cell_is_not_padded() {
    assert_eq!(Birthday::Full { year: 1912, month: 6, day: 23 }.date_cell(), "1912-6-23");
    assert_eq!(Birthday::Full { year: 33, month: 1, day: 2 }.date_cell(), "33-1-2");
    assert_eq!(Birthday::Full { year: 0, month: 0, day: 0 }.date_cell(), "0-0-0");
}

#[test]
fn date_cell_of_an_unknown_year() {
    assert_eq!(Birthday::Partial { month: 12, day: 9 }.date_cell(), "????-12-9");
}

#[test]
fn question_marks_exactly_for_the_partial_form() {
    let partial = parse_birthday("--0704").unwrap().date_cell();
    let full = parse_birthday("17760704").unwrap().date_cell();
    assert!(partial.starts_with("????-"));
    assert!(!full.starts_with("????-"));
    assert_eq!(partial, "????-7-4");
    assert_eq!(full, "1776-7-4");
}

#[test]
fn accessors_of_a_birthday() {
    let full = Birthday::Full { year: 1815, month: 12, day: 10 };
    let partial = Birthday::Partial { month: 12, day: 9 };
    assert_eq!((full.year(), full.month(), full.day()), (Some(1815), 12, 10));
    assert_eq!((partial.year(), partial.month(), partial.day()), (None, 12, 9));
}

#[test]
fn decimal_is_appended() {
    let mut out = String::from("n=");
    push_decimal(&mut out, 0);
    assert_eq!(out, "n=0");
    push_decimal(&mut out, 65535);
    assert_eq!(out, "n=065535");
    let mut out = String::new();
    push_decimal(&mut out, 1000);
    assert_eq!(out, "1000");
}
