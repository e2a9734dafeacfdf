use todo_app::decimal::{format_i64, format_u32, parse_i64, parse_u32};

#[test]
fn parse_u32_reads_plain_digits() {
    assert_eq!(parse_u32(b"0"), Some(0));
    assert_eq!(parse_u32(b"7"), Some(7));
    assert_eq!(parse_u32(b"12"), Some(12));
    assert_eq!(parse_u32(b"1739126402"), Some(1739126402));
}

#[test]
fn parse_u32_takes_a_plus_sign_and_leading_zeros() {
    assert_eq!(parse_u32(b"+5"), Some(5));
    assert_eq!(parse_u32(b"007"), Some(7));
    assert_eq!(parse_u32(b"+000"), Some(0));
    assert_eq!(parse_u32(b"00000000004294967295"), Some(4294967295));
}

#[test]
fn parse_u32_stops_at_the_range_of_the_type() {
    assert_eq!(parse_u32(b"4294967295"), Some(u32::MAX));
    assert_eq!(parse_u32(b"4294967296"), None);
    assert_eq!(parse_u32(b"99999999999999999999999999999999999999999999"), None);
}

#[test]
fn parse_u32_refuses_what_is_not_a_number() {
    assert_eq!(parse_u32(b""), None);
    assert_eq!(parse_u32(b"+"), None);
    assert_eq!(parse_u32(b"-1"), None);
    assert_eq!(parse_u32(b"-0"), None);
    assert_eq!(parse_u32(b"++1"), None);
    assert_eq!(parse_u32(b" 5"), None);
    assert_eq!(parse_u32(b"5 "), None);
    assert_eq!(parse_u32(b"1_000"), None);
    assert_eq!(parse_u32(b"0x10"), None);
    assert_eq!(parse_u32(b"12a"), None);
    assert_eq!(parse_u32(b"1.5"), None);
    assert_eq!(parse_u32(b"/"), None);
    assert_eq!(parse_u32(b":"), None);
}

#[test]
fn parse_i64_reads_both_signs() {
    assert_eq!(parse_i64(b"0"), Some(0));
    assert_eq!(parse_i64(b"-0"), Some(0));
    assert_eq!(parse_i64(b"+0"), Some(0));
    assert_eq!(parse_i64(b"1739126402"), Some(1739126402));
    assert_eq!(parse_i64(b"-1739126402"), Some(-1739126402));
    assert_eq!(parse_i64(b"+42"), Some(42));
    assert_eq!(parse_i64(b"-007"), Some(-7));
}

#[test]
fn parse_i64_stops_at_the_range_of_the_type() {
    assert_eq!(parse_i64(b"9223372036854775807"), Some(i64::MAX));
    assert_eq!(parse_i64(b"9223372036854775808"), None);
    assert_eq!(parse_i64(b"-9223372036854775808"), Some(i64::MIN));
    assert_eq!(parse_i64(b"-9223372036854775809"), None);
    assert_eq!(parse_i64(b"+9223372036854775808"), None);
    assert_eq!(parse_i64(b"-99999999999999999999999999999999999999999999"), None);
}

#[test]
fn parse_i64_refuses_what_is_not_a_number() {
    assert_eq!(parse_i64(b""), None);
    assert_eq!(parse_i64(b"-"), None);
    assert_eq!(parse_i64(b"+"), None);
    assert_eq!(parse_i64(b"--1"), None);
    assert_eq!(parse_i64(b"-+1"), None);
    assert_eq!(parse_i64(b"+-1"), None);
    assert_eq!(parse_i64(b"1-"), None);
    assert_eq!(parse_i64(b" 1"), None);
    assert_eq!(parse_i64(b"0x1f"), None);
}

#[test]
fn format_u32_writes_digits_without_leading_zeros() {
    assert_eq!(format_u32(0), b"0".to_vec());
    assert_eq!(format_u32(9), b"9".to_vec());
    assert_eq!(format_u32(10), b"10".to_vec());
    assert_eq!(format_u32(1000), b"1000".to_vec());
    assert_eq!(format_u32(u32::MAX), b"4294967295".to_vec());
}

#[test]
fn format_i64_writes_a_minus_for_negative_numbers_only() {
    assert_eq!(format_i64(0), b"0".to_vec());
    assert_eq!(format_i64(1739126402), b"1739126402".to_vec());
    assert_eq!(format_i64(-1), b"-1".to_vec());
    assert_eq!(format_i64(-120), b"-120".to_vec());
    assert_eq!(format_i64(i64::MAX), b"9223372036854775807".to_vec());
    assert_eq!(format_i64(i64::MIN), b"-9223372036854775808".to_vec());
}

#[test]
fn written_numbers_read_back() {
    for n in [0u32, 1, 9, 10, 99, 100, 999, 1000, 65535, 4294967294, u32::MAX] {
        assert_eq!(parse_u32(&format_u32(n)), Some(n));
    }
    for n in [0i64, 1, -1, 10, -10, 1739126402, -1739126402, i64::MAX, i64::MIN, i64::MIN + 1] {
        assert_eq!(parse_i64(&format_i64(n)), Some(n));
    }
}

#[test]
fn written_numbers_are_what_the_standard_library_writes() {
    for n in [0u32, 5, 42, 1000, 123456789, u32::MAX] {
        assert_eq!(format_u32(n), n.to_string().into_bytes());
    }
    for n in [0i64, -5, 42, -1000, 1739126402, i64::MAX, i64::MIN] {
        assert_eq!(format_i64(n), n.to_string().into_bytes());
    }
}
