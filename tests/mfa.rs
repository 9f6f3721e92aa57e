use beelog::mfa::{
    counter_bytes, format_code, get_google_code, get_hotp_token, get_totp_token, time_counter, totp_code_at, truncate_digest,
    TotpError, DEFAULT_TIME_BIAS_SECS,
};

const RFC_SECRET: &str = "GEZDGNBVGY3TQOJQGEZDGNBVGY3TQOJQ";
const SHORT_SECRET: &str = "GEZDGNBVGY3TQOJQ";

#[test]
fn test_get_hotp_token() {
    let secret = "xxxx";
    let code = get_google_code(secret);
    println!("{:?}", code);
}

#[test]
fn invalid_secret_is_reported() {
    assert!(matches!(get_google_code("xxxx"), Err(TotpError::InvalidSecret)));
    assert!(matches!(totp_code_at("not base32!", 59, 0), Err(TotpError::InvalidSecret)));
}

#[test]
fn current_code_is_six_digits() {
    let code = get_google_code(SHORT_SECRET).unwrap();
    assert_eq!(code.len(), 6);
    assert!(code.chars().all(|c| c.is_ascii_digit()));
}

#[test]
fn hotp_matches_rfc4226_vectors() {
    let expected = [755224u32, 287082, 359152, 969429, 338314, 254676, 287922, 162583, 399871, 520489];
    for (c, e) in expected.iter().enumerate() {
        assert_eq!(get_hotp_token(RFC_SECRET, c as u64).unwrap(), *e);
    }
}

#[test]
fn totp_matches_rfc6238_vectors() {
    let cases = [
        (59u64, "287082"),
        (1111111109, "081804"),
        (1111111111, "050471"),
        (1234567890, "005924"),
        (2000000000, "279037"),
        (20000000000, "353130"),
    ];
    for (t, e) in cases.iter() {
        assert_eq!(totp_code_at(RFC_SECRET, *t, 0).unwrap(), *e);
    }
}

#[test]
fn totp_with_short_secret_and_default_bias() {
    let cases = [
        (59u64, "092045"),
        (1111111109, "624539"),
        (1111111111, "624539"),
        (1234567890, "919219"),
        (2000000000, "068722"),
        (20000000000, "112572"),
    ];
    for (t, e) in cases.iter() {
        assert_eq!(totp_code_at(SHORT_SECRET, *t, DEFAULT_TIME_BIAS_SECS).unwrap(), *e);
    }
    assert_eq!(totp_code_at(SHORT_SECRET, 59, 0).unwrap(), "263420");
}

#[test]
fn totp_is_deterministic() {
    let a = totp_code_at(SHORT_SECRET, 1700000000, 3).unwrap();
    let b = totp_code_at(SHORT_SECRET, 1700000000, 3).unwrap();
    assert_eq!(a, b);
    assert_eq!(a.len(), 6);
}

#[test]
fn codes_are_six_ascii_digits_over_many_seconds() {
    let mut t: u64 = 0;
    while t < 3000 {
        let code = totp_code_at(SHORT_SECRET, t * 7919, 3).unwrap();
        assert_eq!(code.len(), 6);
        assert!(code.chars().all(|c| c.is_ascii_digit()));
        t += 1;
    }
}

#[test]
fn window_before_the_epoch_wraps_to_the_top_counter() {
    assert_eq!(time_counter(0, -1), u64::MAX);
    assert_eq!(time_counter(0, -30), u64::MAX);
    assert_eq!(time_counter(0, -31), u64::MAX - 1);
    assert_eq!(totp_code_at(SHORT_SECRET, 0, -1).unwrap(), "328157");
}

#[test]
fn time_counter_is_thirty_second_windows() {
    assert_eq!(time_counter(59, 0), 1);
    assert_eq!(time_counter(57, 3), 2);
    assert_eq!(time_counter(29, 0), 0);
    assert_eq!(time_counter(u64::MAX, 0), u64::MAX / 30);
}

#[test]
fn counter_bytes_are_big_endian() {
    assert_eq!(counter_bytes(1), vec![0, 0, 0, 0, 0, 0, 0, 1]);
    assert_eq!(counter_bytes(0x0102030405060708), vec![1, 2, 3, 4, 5, 6, 7, 8]);
}

#[test]
fn truncation_matches_rfc4226_example() {
    let digest: [u8; 20] = [
        0x1f, 0x86, 0x98, 0x69, 0x0e, 0x02, 0xca, 0x16, 0x61, 0x85, 0x50, 0xef, 0x7f, 0x19, 0xda, 0x8e, 0x94, 0x5b,
        0x55, 0x5a,
    ];
    assert_eq!(truncate_digest(&digest), 872921);
}

#[test]
fn codes_are_zero_padded() {
    assert_eq!(format_code(0), "000000");
    assert_eq!(format_code(5924), "005924");
    assert_eq!(format_code(999999), "999999");
}

#[test]
fn current_token_is_below_one_million() {
    assert!(get_totp_token(SHORT_SECRET, 3).unwrap() < 1_000_000);
    assert!(matches!(get_totp_token("xxxx", 3), Err(TotpError::InvalidSecret)));
}
