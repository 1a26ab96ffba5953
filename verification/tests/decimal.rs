use can::decimal::{format_u64, parse_i64, parse_magnitude, parse_u64, push_i64, push_u64};

#[test]
fn numbers_are_written_without_leading_zeros() {
    assert_eq!(format_u64(0), b"0".to_vec());
    assert_eq!(format_u64(7), b"7".to_vec());
    assert_eq!(format_u64(4096), b"4096".to_vec());
    assert_eq!(format_u64(u64::MAX), b"18446744073709551615".to_vec());
}

#[test]
fn digits_are_appended() {
    let mut out = b"n=".to_vec();
    push_u64(&mut out, 120);
    assert_eq!(out, b"n=120".to_vec());
}

#[test]
fn negative_numbers_carry_a_sign() {
    let mut out = Vec::new();
    push_i64(&mut out, -15);
    out.push(b' ');
    push_i64(&mut out, 15);
    out.push(b' ');
    push_i64(&mut out, i64::MIN);
    out.push(b' ');
    push_i64(&mut out, i64::MAX);
    assert_eq!(out, b"-15 15 -9223372036854775808 9223372036854775807".to_vec());
}

#[test]
fn unsigned_numbers_are_read() {
    assert_eq!(parse_u64(b"0"), Some(0));
    assert_eq!(parse_u64(b"4096"), Some(4096));
    assert_eq!(parse_u64(b"+12"), Some(12));
    assert_eq!(parse_u64(b"007"), Some(7));
    assert_eq!(parse_u64(b"18446744073709551615"), Some(u64::MAX));
}

#[test]
fn what_is_no_unsigned_number_is_refused() {
    assert_eq!(parse_u64(b""), None);
    assert_eq!(parse_u64(b"+"), None);
    assert_eq!(parse_u64(b"-1"), None);
    assert_eq!(parse_u64(b"-0"), None);
    assert_eq!(parse_u64(b"12a"), None);
    assert_eq!(parse_u64(b" 12"), None);
    assert_eq!(parse_u64(b"++1"), None);
    assert_eq!(parse_u64(b"18446744073709551616"), None);
    assert_eq!(parse_u64(b"99999999999999999999999"), None);
}

#[test]
fn a_magnitude_takes_no_sign() {
    assert_eq!(parse_magnitude(b"12"), Some(12));
    assert_eq!(parse_magnitude(b"+12"), None);
    assert_eq!(parse_magnitude(b""), None);
}

#[test]
fn signed_numbers_are_read() {
    assert_eq!(parse_i64(b"0"), Some(0));
    assert_eq!(parse_i64(b"-0"), Some(0));
    assert_eq!(parse_i64(b"+5"), Some(5));
    assert_eq!(parse_i64(b"-5"), Some(-5));
    assert_eq!(parse_i64(b"1700000000"), Some(1_700_000_000));
    assert_eq!(parse_i64(b"9223372036854775807"), Some(i64::MAX));
    assert_eq!(parse_i64(b"-9223372036854775808"), Some(i64::MIN));
}

#[test]
fn what_is_no_signed_number_is_refused() {
    assert_eq!(parse_i64(b""), None);
    assert_eq!(parse_i64(b"-"), None);
    assert_eq!(parse_i64(b"+"), None);
    assert_eq!(parse_i64(b"--1"), None);
    assert_eq!(parse_i64(b"-+1"), None);
    assert_eq!(parse_i64(b"1.5"), None);
    assert_eq!(parse_i64(b"9223372036854775808"), None);
    assert_eq!(parse_i64(b"-9223372036854775809"), None);
    assert_eq!(parse_i64(b"-99999999999999999999999"), None);
}

#[test]
fn reading_undoes_writing() {
    for n in [0u64, 1, 9, 10, 99, 100, 12345, u64::MAX] {
        assert_eq!(parse_u64(&format_u64(n)), Some(n));
    }
    for n in [0i64, -1, 1, i64::MIN, i64::MAX, -1234567] {
        let mut text = Vec::new();
        push_i64(&mut text, n);
        assert_eq!(parse_i64(&text), Some(n));
    }
}

#[test]
fn wide_numbers_are_written_too() {
    let mut out = Vec::new();
    can::decimal::push_u128(&mut out, u128::MAX);
    assert_eq!(out, b"340282366920938463463374607431768211455".to_vec());
}
