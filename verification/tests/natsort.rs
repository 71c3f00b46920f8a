use mangalize::natsort::{leading_number, natural_cmp, trailing_number};
use std::cmp::Ordering;

#[test]
fn digits_compare_numerically() {
    assert_eq!(natural_cmp("2.jpg", "10.jpg"), Ordering::Less);
    assert_eq!(natural_cmp("01.jpg.jpeg", "02.jpg.jpeg"), Ordering::Less);
}

#[test]
fn secondary_numbers_break_ties_after_primary() {
    assert_eq!(natural_cmp("01_14.jpg.jpeg", "02_19.jpg.jpeg"), Ordering::Less);
    assert_eq!(natural_cmp("09_01.jpg.jpeg", "10_99.jpg.jpeg"), Ordering::Less);
}

#[test]
fn chapter_folders_order_past_nine() {
    let mut v = vec!["itch-the-witch-ch10", "itch-the-witch-ch2", "itch-the-witch-ch1"];
    v.sort_by(|a, b| natural_cmp(a, b));
    assert_eq!(v, ["itch-the-witch-ch1", "itch-the-witch-ch2", "itch-the-witch-ch10"]);
}

#[test]
fn leading_number_finds_first_run() {
    assert_eq!(leading_number("itch-the-witch-ch7"), Some(7));
    assert_eq!(leading_number("cover"), None);
}

#[test]
fn trailing_number_skips_numbers_in_the_series_name() {
    assert_eq!(trailing_number("itch-the-witch-ch7"), Some(7));
    assert_eq!(trailing_number("2024-ch3"), Some(3));
    assert_eq!(trailing_number("extras"), None);
}

#[test]
fn case_is_ignored_and_order_is_antisymmetric() {
    assert_eq!(natural_cmp("Page", "page"), Ordering::Equal);
    assert_eq!(natural_cmp("b", "A"), Ordering::Greater);
    assert_eq!(natural_cmp("A", "b"), Ordering::Less);
    assert_eq!(natural_cmp("x007", "x7"), Ordering::Equal);
    assert_eq!(natural_cmp("", ""), Ordering::Equal);
    assert_eq!(natural_cmp("", "a"), Ordering::Less);
}

#[test]
fn oversized_digit_runs_saturate_or_are_refused() {
    let huge = "999999999999999999999999999999999999999999";
    assert_eq!(leading_number(huge), Some(u128::MAX));
    assert_eq!(trailing_number(huge), None);
    assert_eq!(trailing_number("ch340282366920938463463374607431768211455"), Some(u128::MAX));
    assert_eq!(natural_cmp(huge, "1000000000000000000000000000000000000000000"), Ordering::Equal);
}
