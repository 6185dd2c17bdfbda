use bolt_hedger::util::decimal::{format_decimal, format_fixed8, format_i64, parse_i64, parse_units};

#[test]
fn fixed8_writing() {
    assert_eq!(format_fixed8(0), "0.00000000");
    assert_eq!(format_fixed8(1), "0.00000001");
    assert_eq!(format_fixed8(100_000_000), "1.00000000");
    assert_eq!(format_fixed8(6_543_210_000_000), "65432.10000000");
    assert_eq!(format_fixed8(u64::MAX), "184467440737.09551615");
}

#[test]
fn decimal_writing() {
    assert_eq!(format_decimal(0), "0");
    assert_eq!(format_decimal(1_700_000_000), "1700000000");
    assert_eq!(format_decimal(u64::MAX), "18446744073709551615");
    assert_eq!(format_i64(-42), "-42");
    assert_eq!(format_i64(0), "0");
    assert_eq!(format_i64(i64::MIN), "-9223372036854775808");
    assert_eq!(format_i64(i64::MAX), "9223372036854775807");
}

#[test]
fn amounts_read_as_plain_decimals() {
    assert_eq!(parse_units("65432.1"), Some(6_543_210_000_000));
    assert_eq!(parse_units("0.00000001"), Some(1));
    assert_eq!(parse_units("12"), Some(1_200_000_000));
    assert_eq!(parse_units(".5"), Some(50_000_000));
    assert_eq!(parse_units("5."), Some(500_000_000));
    assert_eq!(parse_units("184467440737.09551615"), Some(u64::MAX));
}

#[test]
fn amounts_that_do_not_read() {
    assert_eq!(parse_units(""), None);
    assert_eq!(parse_units("."), None);
    assert_eq!(parse_units("-1"), None);
    assert_eq!(parse_units("1.2.3"), None);
    assert_eq!(parse_units("184467440737.09551616"), None);
    assert_eq!(parse_units("99999999999999999999999999"), None);
    assert_eq!(parse_units("inf"), None);
    assert_eq!(parse_units("NaN"), None);
    assert_eq!(parse_units("1e"), None);
    assert_eq!(parse_units("1e+"), None);
    assert_eq!(parse_units("e5"), None);
    assert_eq!(parse_units("1e5.0"), None);
    assert_eq!(parse_units(" 1"), None);
    assert_eq!(parse_units("1e99999999999999999999999"), None);
}

#[test]
fn amounts_read_with_sign_exponent_and_rounding() {
    assert_eq!(parse_units("1e5"), Some(10_000_000_000_000));
    assert_eq!(parse_units("+1.5"), Some(150_000_000));
    assert_eq!(parse_units("1.5e-3"), Some(150_000));
    assert_eq!(parse_units("2E2"), Some(20_000_000_000));
    assert_eq!(parse_units("1.e1"), Some(1_000_000_000));
    assert_eq!(parse_units("1.123456789"), Some(112_345_679));
    assert_eq!(parse_units("1.123456784"), Some(112_345_678));
    assert_eq!(parse_units("0.000000005"), Some(1));
    assert_eq!(parse_units("0.000000004999"), Some(0));
    assert_eq!(parse_units("-0"), Some(0));
    assert_eq!(parse_units("-0.0e7"), Some(0));
    assert_eq!(parse_units("1e-99999999999999999999"), Some(0));
    assert_eq!(parse_units("0e99999999999999999999"), Some(0));
    assert_eq!(parse_units("18446744073709551615e-8"), Some(u64::MAX));
}

#[test]
fn integers_read_with_optional_sign() {
    assert_eq!(parse_i64("1700000000000"), Some(1_700_000_000_000));
    assert_eq!(parse_i64("-42"), Some(-42));
    assert_eq!(parse_i64("+7"), Some(7));
    assert_eq!(parse_i64("9223372036854775807"), Some(i64::MAX));
    assert_eq!(parse_i64("-9223372036854775808"), Some(i64::MIN));
    assert_eq!(parse_i64("9223372036854775808"), None);
    assert_eq!(parse_i64(""), None);
    assert_eq!(parse_i64("-"), None);
    assert_eq!(parse_i64("12a"), None);
}

#[test]
fn writing_then_reading_gives_the_amount_back() {
    for v in [0u64, 1, 99_999_999, 100_000_000, 6_543_210_000_000, u64::MAX] {
        assert_eq!(parse_units(&format_fixed8(v)), Some(v));
    }
    for v in [0i64, -1, 42, i64::MIN, i64::MAX] {
        assert_eq!(parse_i64(&format_i64(v)), Some(v));
    }
}
