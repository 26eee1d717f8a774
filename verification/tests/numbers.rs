use consumption_tracker::text::bytes_eq;
use consumption_tracker::text::dec_string;
use consumption_tracker::text::parse_ratio;
use consumption_tracker::text::parse_u128;
use consumption_tracker::text::parse_u64;
use consumption_tracker::text::ratio_string;
use consumption_tracker::text::str_eq;

/// Decimal rendering has no leading zeros and survives parsing.
#[test]
fn decimal_rendering_round_trips() {
    assert_eq!(dec_string(0).as_str(), "0");
    assert_eq!(dec_string(42).as_str(), "42");
    assert_eq!(dec_string(u64::MAX).as_str(), "18446744073709551615");

    assert_eq!(parse_u64(b"0"), Some(0));
    assert_eq!(parse_u64(b"18446744073709551615"), Some(u64::MAX));
    assert_eq!(parse_u64(dec_string(987_654_321).as_str().as_bytes()), Some(987_654_321));
}

/// Parsing accepts digits only and rejects out-of-range values.
#[test]
fn decimal_parsing_validates() {
    assert_eq!(parse_u64(b""), None);
    assert_eq!(parse_u64(b"+1"), None);
    assert_eq!(parse_u64(b"12a"), None);
    assert_eq!(parse_u64(b" 1"), None);
    // One past u64::MAX.
    assert_eq!(parse_u64(b"18446744073709551616"), None);
    // Leading zeros are digits, so they parse.
    assert_eq!(parse_u64(b"007"), Some(7));

    assert_eq!(parse_u128(b"340282366920938463463374607431768211455"), Some(u128::MAX));
    assert_eq!(parse_u128(b"340282366920938463463374607431768211456"), None);
}

/// Fixed-point ratios render with exactly three fraction digits and read
/// back to the same thousandths.
#[test]
fn ratio_rendering_round_trips() {
    assert_eq!(ratio_string(0).as_str(), "0.000");
    assert_eq!(ratio_string(505).as_str(), "0.505");
    assert_eq!(ratio_string(1000).as_str(), "1.000");
    assert_eq!(ratio_string(12_345).as_str(), "12.345");

    for t in [0u64, 1, 505, 999, 1000, 1001, 12_345] {
        assert_eq!(parse_ratio(ratio_string(t).as_str().as_bytes()), Some(t));
    }
}

/// Ratio parsing accepts one to three fraction digits and whole numbers.
#[test]
fn ratio_parsing_validates() {
    assert_eq!(parse_ratio(b"0.5"), Some(500));
    assert_eq!(parse_ratio(b"0.50"), Some(500));
    assert_eq!(parse_ratio(b"0.505"), Some(505));
    assert_eq!(parse_ratio(b"2"), Some(2000));
    assert_eq!(parse_ratio(b"1.5"), Some(1500));

    assert_eq!(parse_ratio(b"0.5000"), None);
    assert_eq!(parse_ratio(b"0."), None);
    assert_eq!(parse_ratio(b".5"), None);
    assert_eq!(parse_ratio(b"1.2.3"), None);
    assert_eq!(parse_ratio(b"a.5"), None);
    assert_eq!(parse_ratio(b""), None);
}

/// Byte and string comparison helpers compare content, not identity.
#[test]
fn comparison_helpers_compare_content() {
    assert!(bytes_eq(b"abc", b"abc"));
    assert!(!bytes_eq(b"abc", b"abd"));
    assert!(!bytes_eq(b"abc", b"ab"));

    assert!(str_eq("day", "day"));
    assert!(!str_eq("day", "month"));
    assert!(!str_eq("", "day"));
}
