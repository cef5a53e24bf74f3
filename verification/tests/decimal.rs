use minikv::decimal::{parse_decimal, push_decimal};

#[test]
fn push_decimal_writes_digits() {
    let mut out = Vec::new();
    push_decimal(&mut out, 0);
    push_decimal(&mut out, 9);
    push_decimal(&mut out, 10);
    push_decimal(&mut out, 4096);
    assert_eq!(out, b"09104096".to_vec());
}

#[test]
fn push_decimal_writes_the_largest_number() {
    let mut out = Vec::new();
    push_decimal(&mut out, u64::MAX);
    assert_eq!(out, b"18446744073709551615".to_vec());
}

#[test]
fn parse_decimal_reads_what_push_decimal_wrote() {
    for n in [0u64, 1, 9, 10, 11, 99, 100, 12345, 4294967295, 4294967296, u64::MAX - 1, u64::MAX] {
        let mut out = Vec::new();
        push_decimal(&mut out, n);
        assert_eq!(parse_decimal(&out), Some(n));
        assert_eq!(out, n.to_string().into_bytes());
    }
}

#[test]
fn parse_decimal_refuses_other_spellings() {
    assert_eq!(parse_decimal(b""), None);
    assert_eq!(parse_decimal(b"00"), None);
    assert_eq!(parse_decimal(b"01"), None);
    assert_eq!(parse_decimal(b"1 "), None);
    assert_eq!(parse_decimal(b"-1"), None);
    assert_eq!(parse_decimal(b"1e3"), None);
    assert_eq!(parse_decimal(b"18446744073709551616"), None);
    assert_eq!(parse_decimal(b"184467440737095516150"), None);
}
