use ibtop::text::dec_string;
use ibtop::text::find_char;
use ibtop::text::parse_u64;
use ibtop::text::str_eq;
use ibtop::text::trim;

#[test]
fn test_trim() {
    assert_eq!(trim("  a b \n"), "a b");
    assert_eq!(trim("none"), "none");
    assert_eq!(trim(""), "");
    assert_eq!(trim(" \t\r\n "), "");
    assert_eq!(trim("x "), "x");
}

#[test]
fn test_parse_u64() {
    assert_eq!(parse_u64("123"), Some(123));
    assert_eq!(parse_u64("+123"), Some(123));
    assert_eq!(parse_u64("0"), Some(0));
    assert_eq!(parse_u64(""), None);
    assert_eq!(parse_u64("+"), None);
    assert_eq!(parse_u64("12a"), None);
    assert_eq!(parse_u64("-1"), None);
    assert_eq!(parse_u64("18446744073709551615"), Some(u64::MAX));
    assert_eq!(parse_u64("18446744073709551616"), None);
}

#[test]
fn test_dec_string() {
    assert_eq!(dec_string(0), "0");
    assert_eq!(dec_string(10), "10");
    assert_eq!(dec_string(9876543210), "9876543210");
    assert_eq!(dec_string(u64::MAX), "18446744073709551615");
}

#[test]
fn test_dec_round_trip() {
    for n in [0u64, 1, 9, 10, 99, 1000, 123456789, u64::MAX] {
        assert_eq!(parse_u64(dec_string(n).as_str()), Some(n));
    }
}

#[test]
fn test_find_char() {
    assert_eq!(find_char("a:b:c", ':'), Some(1));
    assert_eq!(find_char("abc", ':'), None);
    assert_eq!(find_char("", ':'), None);
}

#[test]
fn test_str_eq() {
    assert!(str_eq("abc", "abc"));
    assert!(!str_eq("abc", "abd"));
    assert!(!str_eq("abc", "ab"));
    assert!(str_eq("", ""));
}
