use counter_hub::codec::{encode_u64, parse_u64};

#[test]
fn encode_small_values() {
    assert_eq!(encode_u64(0), b"0".to_vec());
    assert_eq!(encode_u64(7), b"7".to_vec());
    assert_eq!(encode_u64(10), b"10".to_vec());
    assert_eq!(encode_u64(42), b"42".to_vec());
    assert_eq!(encode_u64(100), b"100".to_vec());
}

#[test]
fn encode_large_values() {
    assert_eq!(encode_u64(1234567890), b"1234567890".to_vec());
    assert_eq!(encode_u64(u64::MAX), b"18446744073709551615".to_vec());
}

#[test]
fn parse_canonical_values() {
    assert_eq!(parse_u64(b"0"), Some(0));
    assert_eq!(parse_u64(b"3"), Some(3));
    assert_eq!(parse_u64(b"10"), Some(10));
    assert_eq!(parse_u64(b"1234567890"), Some(1234567890));
    assert_eq!(parse_u64(b"18446744073709551615"), Some(u64::MAX));
}

#[test]
fn parse_rejects_empty_and_non_digits() {
    assert_eq!(parse_u64(b""), None);
    assert_eq!(parse_u64(b"4a2"), None);
    assert_eq!(parse_u64(b"-1"), None);
    assert_eq!(parse_u64(b" 5"), None);
    assert_eq!(parse_u64(b"5 "), None);
}

#[test]
fn parse_rejects_leading_zeros() {
    assert_eq!(parse_u64(b"00"), None);
    assert_eq!(parse_u64(b"007"), None);
    assert_eq!(parse_u64(b"01"), None);
}

#[test]
fn parse_rejects_values_too_large() {
    assert_eq!(parse_u64(b"18446744073709551616"), None);
    assert_eq!(parse_u64(b"99999999999999999999999"), None);
}

#[test]
fn round_trip() {
    for n in [0u64, 1, 9, 10, 11, 99, 100, 4096, 1 << 40, u64::MAX - 1, u64::MAX] {
        assert_eq!(parse_u64(&encode_u64(n)), Some(n));
    }
}
