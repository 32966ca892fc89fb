use time868::codec::{encode_u64, parse_u64};

#[test]
fn encode_zero() {
    assert_eq!(encode_u64(0), b"0".to_vec());
}

#[test]
fn encode_single_digit() {
    assert_eq!(encode_u64(7), b"7".to_vec());
}

#[test]
fn encode_two_digits() {
    assert_eq!(encode_u64(10), b"10".to_vec());
}

#[test]
fn encode_port_number() {
    assert_eq!(encode_u64(37000), b"37000".to_vec());
}

#[test]
fn encode_epoch_seconds() {
    assert_eq!(encode_u64(1234567890), b"1234567890".to_vec());
}

#[test]
fn encode_max() {
    assert_eq!(encode_u64(u64::MAX), b"18446744073709551615".to_vec());
}

#[test]
fn encode_has_no_leading_zero() {
    for t in [0u64, 1, 9, 10, 100, 1000000, u64::MAX] {
        let bytes = encode_u64(t);
        assert!(!bytes.is_empty());
        if bytes.len() > 1 {
            assert_ne!(bytes[0], b'0');
        }
    }
}

#[test]
fn parse_zero() {
    assert_eq!(parse_u64(b"0"), Some(0));
}

#[test]
fn parse_accepts_leading_zeros() {
    assert_eq!(parse_u64(b"007"), Some(7));
}

#[test]
fn parse_rejects_empty() {
    assert_eq!(parse_u64(b""), None);
}

#[test]
fn parse_rejects_non_digit() {
    assert_eq!(parse_u64(b"12a3"), None);
    assert_eq!(parse_u64(b"-5"), None);
    assert_eq!(parse_u64(b" 5"), None);
    assert_eq!(parse_u64(b"5 "), None);
}

#[test]
fn parse_max() {
    assert_eq!(parse_u64(b"18446744073709551615"), Some(u64::MAX));
}

#[test]
fn parse_rejects_overflow() {
    assert_eq!(parse_u64(b"18446744073709551616"), None);
    assert_eq!(parse_u64(b"99999999999999999999999"), None);
}

#[test]
fn round_trip() {
    for t in [0u64, 1, 9, 10, 99, 37000, 1234567890, 1700000000, u64::MAX] {
        assert_eq!(parse_u64(&encode_u64(t)), Some(t));
    }
}

#[test]
fn round_trip_matches_std_parse() {
    for t in [0u64, 12, 1700000000, u64::MAX] {
        let bytes = encode_u64(t);
        let text = String::from_utf8(bytes).unwrap();
        assert_eq!(text, t.to_string());
        assert_eq!(text.parse::<u64>().unwrap(), t);
    }
}
