use bittorrent::number::{parse_i32, parse_i64};

#[test]
fn parses_like_str_parse() {
    let cases: [&str; 16] = [
        "0", "-0", "+5", "007", "-12", "", "-", "+", "1a", " 1", "9223372036854775807",
        "9223372036854775808", "-9223372036854775808", "-9223372036854775809", "2147483648", "-2147483648",
    ];
    for c in cases {
        assert_eq!(parse_i64(c.as_bytes()), c.parse::<i64>().ok(), "i64 {:?}", c);
        assert_eq!(parse_i32(c.as_bytes()), c.parse::<i32>().ok(), "i32 {:?}", c);
    }
}

#[test]
fn parses_values() {
    assert_eq!(parse_i64(b"+5"), Some(5));
    assert_eq!(parse_i64(b"-9223372036854775808"), Some(i64::MIN));
    assert_eq!(parse_i64(b"99999999999999999999"), None);
    assert_eq!(parse_i32(b"2147483647"), Some(i32::MAX));
    assert_eq!(parse_i32(b"2147483648"), None);
}
