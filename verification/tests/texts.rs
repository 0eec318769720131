use rcheckbook::format::FileFormat;
use rcheckbook::decimal::{
    cents_string,
    decimal_string,
    parse_cents,
    parse_digits,
    parse_u32,
    signed_cents_string,
};
use rcheckbook::text::{
    chars_of,
    contains,
    ends_with,
    eq_ignoring_case,
    find_name,
    is_text_before,
    join_tabs,
    sort_texts,
    split,
};

#[test]
fn names_compare_without_case() {
    assert!(eq_ignoring_case("Utilities", "utilities"));
    assert!(eq_ignoring_case("OPENING balance", "Opening Balance"));
    assert!(!eq_ignoring_case("Utilities", "Utility"));
    assert!(eq_ignoring_case("", ""));
}

#[test]
fn find_name_gives_the_first_match() {
    let names = vec!["Rent".to_string(), "Food".to_string(), "food".to_string()];
    assert_eq!(find_name(&names, "FOOD"), Some(1));
    assert_eq!(find_name(&names, "rent"), Some(0));
    assert_eq!(find_name(&names, "Fun"), None);
}

#[test]
fn chars_of_gives_every_character() {
    assert_eq!(chars_of("a\u{e9}z"), vec!['a', '\u{e9}', 'z']);
    assert_eq!(chars_of(""), Vec::<char>::new());
}

#[test]
fn suffixes() {
    assert!(ends_with("ledger.bcheck", ".bcheck"));
    assert!(ends_with("x", ""));
    assert!(!ends_with("ods", ".ods"));
    assert!(!ends_with("ledger.ods.bak", ".ods"));
}

#[test]
fn substrings() {
    assert!(contains("sam hill credit union", "credit"));
    assert!(contains("abc", ""));
    assert!(contains("abc", "abc"));
    assert!(!contains("abc", "abcd"));
    assert!(!contains("abc", "bd"));
    assert!(contains("aab", "ab"));
}

#[test]
fn numbers_in_decimal() {
    assert_eq!(decimal_string(0), "0");
    assert_eq!(decimal_string(7), "7");
    assert_eq!(decimal_string(1260), "1260");
    assert_eq!(decimal_string(u128::MAX), "340282366920938463463374607431768211455");
}

#[test]
fn amounts_with_two_decimals() {
    assert_eq!(cents_string(0), "0.00");
    assert_eq!(cents_string(5), "0.05");
    assert_eq!(cents_string(50), "0.50");
    assert_eq!(cents_string(123456), "1234.56");
    assert_eq!(signed_cents_string(-3000), "-30.00");
    assert_eq!(signed_cents_string(2000), "20.00");
    assert_eq!(signed_cents_string(-1), "-0.01");
    assert_eq!(signed_cents_string(0), "0.00");
}

#[test]
fn digits_are_read_as_numbers() {
    assert_eq!(parse_u32("1260"), Some(1260));
    assert_eq!(parse_u32("0"), Some(0));
    assert_eq!(parse_u32("007"), Some(7));
    assert_eq!(parse_u32("4294967295"), Some(u32::MAX));
    assert_eq!(parse_u32("4294967296"), None);
    assert_eq!(parse_u32(""), None);
    assert_eq!(parse_u32("12a"), None);
    assert_eq!(parse_u32("-1"), None);
    assert_eq!(parse_u32("+1"), None);
    let chars = chars_of("ab123cd");
    assert_eq!(parse_digits(&chars, 2, 5), Some(123));
    assert_eq!(parse_digits(&chars, 2, 2), None);
    assert_eq!(parse_digits(&chars, 1, 5), None);
    let big = chars_of("18446744073709551616");
    assert_eq!(parse_digits(&big, 0, big.len()), None);
    let max = chars_of("18446744073709551615");
    assert_eq!(parse_digits(&max, 0, max.len()), Some(u64::MAX));
}

#[test]
fn amounts_are_read_in_three_shapes() {
    assert_eq!(parse_cents("12"), Some(1200));
    assert_eq!(parse_cents("12.5"), Some(1250));
    assert_eq!(parse_cents("12.50"), Some(1250));
    assert_eq!(parse_cents("0.05"), Some(5));
    assert_eq!(parse_cents("50.00"), Some(5000));
    assert_eq!(parse_cents(""), None);
    assert_eq!(parse_cents("."), None);
    assert_eq!(parse_cents(".5"), None);
    assert_eq!(parse_cents("5."), None);
    assert_eq!(parse_cents("1.234"), None);
    assert_eq!(parse_cents("1..2"), None);
    assert_eq!(parse_cents("-1.00"), None);
    assert_eq!(parse_cents("1e3"), None);
    assert_eq!(parse_cents("92233720368547758.07"), Some(i64::MAX as u64));
    assert_eq!(parse_cents("92233720368547758.08"), None);
    assert_eq!(parse_cents("99999999999999999999999"), None);
}

#[test]
fn split_cuts_at_every_separator() {
    assert_eq!(split("a\tb\t\tc", '\t'), vec!["a", "b", "", "c"]);
    assert_eq!(split("", '\t'), vec![""]);
    assert_eq!(split("\t", '\t'), vec!["", ""]);
    assert_eq!(split("abc", '\t'), vec!["abc"]);
    assert_eq!(split("\u{e9}\tz\t", '\t'), vec!["\u{e9}", "z", ""]);
}

#[test]
fn join_puts_tabs_between() {
    assert_eq!(join_tabs(&vec!["a".to_string(), "".to_string(), "c".to_string()]), "a\t\tc");
    assert_eq!(join_tabs(&vec!["a".to_string()]), "a");
    assert_eq!(join_tabs(&Vec::new()), "");
}

#[test]
fn dictionary_order() {
    assert!(is_text_before("Food", "Rent"));
    assert!(is_text_before("Foo", "Food"));
    assert!(!is_text_before("Food", "Food"));
    assert!(!is_text_before("Rent", "Food"));
    assert!(is_text_before("", "a"));
    assert!(!is_text_before("a", ""));
    assert!(is_text_before("Zebra", "apple"));
    let sorted = sort_texts(&vec![
        "Salary".to_string(),
        "Utilities".to_string(),
        "Food".to_string(),
        "Fun".to_string(),
    ]);
    assert_eq!(sorted, vec!["Food", "Fun", "Salary", "Utilities"]);
}

#[test]
fn formats_by_file_name() {
    assert_eq!(FileFormat::of_path("ledger.bcheck"), FileFormat::Native);
    assert_eq!(FileFormat::of_path("ledger.qif"), FileFormat::Qif);
    assert_eq!(FileFormat::of_path("ledger.tsv"), FileFormat::Tsv);
    assert_eq!(FileFormat::of_path("ledger.ods"), FileFormat::Ods);
    assert_eq!(FileFormat::of_path("ledger.xlsx"), FileFormat::Xlsx);
    assert_eq!(FileFormat::of_path("ledger.txt"), FileFormat::Tsv);
    assert_eq!(FileFormat::of_path("ledger"), FileFormat::Tsv);
}
