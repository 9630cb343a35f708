use mini_redis::number::format_i64;
use mini_redis::number::parse_i64;

#[test]
fn parse_accepts_what_from_str_accepts() {
    for s in ["0", "7", "-7", "+7", "007", "-0", "9223372036854775807", "-9223372036854775808", "+0"] {
        assert_eq!(parse_i64(s), s.parse::<i64>().ok(), "input {:?}", s);
    }
}

#[test]
fn parse_rejects_what_from_str_rejects() {
    for s in ["", "-", "+", "1.5", " 1", "1 ", "1_000", "abc", "9223372036854775808", "-9223372036854775809", "--1", "+-1", "٣", "99999999999999999999999"] {
        assert_eq!(parse_i64(s), None, "input {:?}", s);
        assert!(s.parse::<i64>().is_err());
    }
}

#[test]
fn format_matches_to_string() {
    for n in [0i64, 1, -1, 9, 10, -10, 42, 1234567890, i64::MAX, i64::MIN] {
        assert_eq!(format_i64(n), n.to_string());
    }
}

#[test]
fn format_then_parse_roundtrips() {
    for n in [0i64, 5, -5, 100, i64::MAX, i64::MIN, i64::MIN + 1] {
        assert_eq!(parse_i64(&format_i64(n)), Some(n));
    }
}
