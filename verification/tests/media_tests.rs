use masto_to_tw::media::{media_from_headers, parse_u64, MediaError};

#[test]
fn parses_plain_decimals() {
    assert_eq!(parse_u64("0"), Some(0));
    assert_eq!(parse_u64("42"), Some(42));
    assert_eq!(parse_u64("1000000"), Some(1_000_000));
    assert_eq!(parse_u64("007"), Some(7));
}

#[test]
fn parses_largest_value_and_rejects_overflow() {
    assert_eq!(parse_u64("18446744073709551615"), Some(u64::MAX));
    assert_eq!(parse_u64("18446744073709551616"), None);
    assert_eq!(parse_u64("99999999999999999999999"), None);
}

#[test]
fn accepts_leading_plus_sign() {
    assert_eq!(parse_u64("+7"), Some(7));
    assert_eq!(parse_u64("+"), None);
}

#[test]
fn rejects_malformed_numbers() {
    assert_eq!(parse_u64(""), None);
    assert_eq!(parse_u64("abc"), None);
    assert_eq!(parse_u64("1a"), None);
    assert_eq!(parse_u64("-1"), None);
    assert_eq!(parse_u64("1 2"), None);
    assert_eq!(parse_u64("1.5"), None);
}

#[test]
fn reads_metadata_from_headers() {
    let m = media_from_headers(Some("image/png".to_string()), Some("12345".to_string())).unwrap();
    assert_eq!(m.content_type, "image/png");
    assert_eq!(m.content_size, 12345);
}

#[test]
fn missing_content_type_is_reported() {
    let e = media_from_headers(None, Some("1".to_string())).unwrap_err();
    assert_eq!(e, MediaError::MissingContentType);
}

#[test]
fn missing_content_length_is_reported() {
    let e = media_from_headers(Some("image/png".to_string()), None).unwrap_err();
    assert_eq!(e, MediaError::MissingContentLength);
}

#[test]
fn malformed_content_length_is_reported() {
    let e = media_from_headers(Some("image/png".to_string()), Some("12x".to_string())).unwrap_err();
    assert_eq!(e, MediaError::InvalidContentLength);
}
