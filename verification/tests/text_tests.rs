use leaderboard::text::{dec_string, parse_u32, parse_u64_digits, parse_usize, str_eq};

#[test]
fn test_dec_string() {
    assert_eq!(dec_string(0), "0");
    assert_eq!(dec_string(7), "7");
    assert_eq!(dec_string(10), "10");
    assert_eq!(dec_string(1234567890), "1234567890");
    assert_eq!(dec_string(u32::MAX), "4294967295");
}

#[test]
fn test_parse_u32_plain() {
    assert_eq!(parse_u32("0"), Some(0));
    assert_eq!(parse_u32("1"), Some(1));
    assert_eq!(parse_u32("4294967295"), Some(u32::MAX));
}

#[test]
fn test_parse_u32_plus_sign() {
    assert_eq!(parse_u32("+97"), Some(97));
    assert_eq!(parse_u32("+"), None);
}

#[test]
fn test_parse_u32_rejects() {
    assert_eq!(parse_u32(""), None);
    assert_eq!(parse_u32("-1"), None);
    assert_eq!(parse_u32("12a"), None);
    assert_eq!(parse_u32(" 12"), None);
    assert_eq!(parse_u32("4294967296"), None);
    assert_eq!(parse_u32("99999999999999999999999"), None);
}

#[test]
fn test_parse_usize() {
    assert_eq!(parse_usize("12"), Some(12));
    assert_eq!(parse_usize("many"), None);
}

#[test]
fn test_parse_u64_digits() {
    assert_eq!(parse_u64_digits("18446744073709551615"), Some(u64::MAX));
    assert_eq!(parse_u64_digits("18446744073709551616"), None);
}

#[test]
fn test_str_eq() {
    assert!(str_eq("-t", "-t"));
    assert!(!str_eq("-t", "-s"));
    assert!(!str_eq("-t", "-tt"));
    assert!(str_eq("", ""));
}
