use wg_easy_rs::text::{find_in_str, format_u32, parse_dec, parse_dec_strict, split_str, str_eq,
    trim_str};

#[test]
fn decimal_parsing_accepts_digits_up_to_the_bound() {
    assert_eq!(parse_dec("0", 255), Some(0));
    assert_eq!(parse_dec("255", 255), Some(255));
    assert_eq!(parse_dec("007", 255), Some(7));
    assert_eq!(parse_dec("256", 255), None);
    assert_eq!(parse_dec("", 255), None);
    assert_eq!(parse_dec("1a", 255), None);
    assert_eq!(parse_dec("-1", 255), None);
    assert_eq!(parse_dec("+1", 255), None);
    assert_eq!(parse_dec("65535", 65535), Some(65535));
    assert_eq!(parse_dec("99999999999999999999", 65535), None);
}

#[test]
fn strict_decimal_parsing_rejects_leading_zeros() {
    assert_eq!(parse_dec_strict("0", 255), Some(0));
    assert_eq!(parse_dec_strict("10", 255), Some(10));
    assert_eq!(parse_dec_strict("007", 255), None);
    assert_eq!(parse_dec_strict("00", 255), None);
}

#[test]
fn formatting_is_canonical() {
    assert_eq!(format_u32(0), "0");
    assert_eq!(format_u32(7), "7");
    assert_eq!(format_u32(255), "255");
    assert_eq!(format_u32(4294967295), "4294967295");
}

#[test]
fn splitting_keeps_empty_parts() {
    let parts = split_str("a;b;c", ';');
    assert_eq!(parts, vec!["a", "b", "c"]);
    assert_eq!(split_str("", ';'), vec![""]);
    assert_eq!(split_str(";", ';'), vec!["", ""]);
    assert_eq!(split_str("a;;c;", ';'), vec!["a", "", "c", ""]);
}

#[test]
fn trimming_removes_spaces_and_tabs() {
    assert_eq!(trim_str("  abc  "), "abc");
    assert_eq!(trim_str("\tabc"), "abc");
    assert_eq!(trim_str("abc"), "abc");
    assert_eq!(trim_str("   "), "");
    assert_eq!(trim_str(""), "");
    assert_eq!(trim_str(" a b "), "a b");
}

#[test]
fn finding_the_first_occurrence() {
    assert_eq!(find_in_str("name=value=x", '='), Some(4));
    assert_eq!(find_in_str("abc", '='), None);
    assert_eq!(find_in_str("=abc", '='), Some(0));
}

#[test]
fn string_equality_by_characters() {
    assert!(str_eq("abc", "abc"));
    assert!(!str_eq("abc", "abd"));
    assert!(!str_eq("abc", "ab"));
}
