use oshkosh_kiwanis_web_crawler::text::{contains, join_first_two_lines, parse_numeric_field, remove_all, trim};

#[test]
fn numeric_field_skips_noise_between_digits() {
    assert_eq!(parse_numeric_field("1,234 Votes"), 1234);
    assert_eq!(parse_numeric_field("  $5 6 7 raised"), 567);
}

#[test]
fn numeric_field_without_digits_is_zero() {
    assert_eq!(parse_numeric_field(""), 0);
    assert_eq!(parse_numeric_field("no votes yet"), 0);
}

#[test]
fn numeric_field_with_decimal_point_is_zero() {
    assert_eq!(parse_numeric_field("$1,234.00"), 0);
    assert_eq!(parse_numeric_field("."), 0);
}

#[test]
fn numeric_field_out_of_range_is_zero() {
    assert_eq!(parse_numeric_field("99999999999999999999999999"), 0);
    assert_eq!(parse_numeric_field("18446744073709551615"), 18446744073709551615usize);
}

#[test]
fn trim_drops_unicode_white_space() {
    assert_eq!(trim("  \t Rex \n"), "Rex");
    assert_eq!(trim("\u{a0}Rex\u{3000}"), "Rex");
    assert_eq!(trim("   "), "");
    assert_eq!(trim("a b"), "a b");
}

#[test]
fn first_two_lines_are_joined() {
    assert_eq!(join_first_two_lines("Rex\nthe Dog\nmore"), "Rexthe Dog");
    assert_eq!(join_first_two_lines("Rex"), "Rex");
    assert_eq!(join_first_two_lines("Rex\n"), "Rex");
    assert_eq!(join_first_two_lines("\n"), "");
}

#[test]
fn remove_all_removes_every_occurrence() {
    assert_eq!(remove_all("Entry Category: Neenah", "Entry Category:"), " Neenah");
    assert_eq!(remove_all("abcabcx", "abc"), "x");
    assert_eq!(remove_all("aab", "ab"), "a");
    assert_eq!(remove_all("plain", "zz"), "plain");
}

#[test]
fn contains_finds_substrings() {
    assert!(contains("misfit mutts rescue", "misfit mutt"));
    assert!(contains("abc", ""));
    assert!(!contains("neena", "neenah"));
    assert!(!contains("", "a"));
}
