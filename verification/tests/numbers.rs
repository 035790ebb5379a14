use petit::json::parse_i64;
use petit::text::{parse_u64_chars, parse_u64_digits};

#[test]
fn i64_text_is_read_as_std_reads_it() {
    for s in ["0", "+5", "-5", "007", "-0", "9223372036854775807", "-9223372036854775808"] {
        assert_eq!(parse_i64(s), s.parse::<i64>().ok(), "{s}");
    }
    for s in ["", "-", "+", "1a", " 1", "9223372036854775808", "-9223372036854775809", "--1", "+-1", "1.0"] {
        assert_eq!(parse_i64(s), None, "{s}");
    }
}

#[test]
fn u64_digits_are_read_up_to_the_maximum() {
    assert_eq!(parse_u64_digits("18446744073709551615"), Some(u64::MAX));
    assert_eq!(parse_u64_digits("18446744073709551616"), None);
    assert_eq!(parse_u64_digits("000123"), Some(123));
    assert_eq!(parse_u64_chars(&['4', '2']), Some(42));
    assert_eq!(parse_u64_chars(&[]), Some(0));
}
