use app_version::{IntErrorKind, Version, VersionError, VersionProvider};
use std::str::FromStr;

#[test]
fn round_trip_through_text() {
    let cases = [
        (0, 0, 0),
        (1, 2, 3),
        (10, 200, 3000),
        (65535, 65535, 65535),
        (9, 10, 99),
        (100, 0, 65534),
    ];
    for (a, b, c) in cases {
        let v = Version::new(a, b, c);
        let text = v.to_string();
        assert_eq!(Version::parse(&text), Ok(v));
    }
}

#[test]
fn formats_without_leading_zeros() {
    assert_eq!(Version::new(0, 0, 0).to_string(), "0.0.0");
    assert_eq!(Version::new(65535, 10, 7).to_string(), "65535.10.7");
}

#[test]
fn two_pieces_is_invalid_format() {
    assert_eq!(Version::parse("1.2"), Err(VersionError::InvalidFormat));
}

#[test]
fn four_pieces_is_invalid_format() {
    assert_eq!(Version::parse("1.2.3.4"), Err(VersionError::InvalidFormat));
}

#[test]
fn no_dots_is_invalid_format() {
    assert_eq!(Version::parse(""), Err(VersionError::InvalidFormat));
    assert_eq!(Version::parse("123"), Err(VersionError::InvalidFormat));
}

#[test]
fn letter_is_parse_int_error() {
    assert_eq!(
        Version::parse("1.x.3"),
        Err(VersionError::ParseIntError(IntErrorKind::InvalidDigit))
    );
}

#[test]
fn empty_piece_is_parse_int_error() {
    assert_eq!(
        Version::parse("1..3"),
        Err(VersionError::ParseIntError(IntErrorKind::Empty))
    );
}

#[test]
fn too_large_piece_is_parse_int_error() {
    assert_eq!(
        Version::parse("1.65536.3"),
        Err(VersionError::ParseIntError(IntErrorKind::PosOverflow))
    );
    assert_eq!(Version::parse("65535.0.1"), Ok(Version::new(65535, 0, 1)));
}

#[test]
fn sign_space_and_suffix_are_rejected() {
    let invalid = Err(VersionError::ParseIntError(IntErrorKind::InvalidDigit));
    assert_eq!(Version::parse("+1.2.3"), invalid);
    assert_eq!(Version::parse(" 1.2.3"), invalid);
    assert_eq!(Version::parse("1.2.3-beta"), invalid);
}

#[test]
fn first_failing_piece_decides() {
    assert_eq!(
        Version::parse("x.99999."),
        Err(VersionError::ParseIntError(IntErrorKind::InvalidDigit))
    );
    assert_eq!(
        Version::parse("1.99999."),
        Err(VersionError::ParseIntError(IntErrorKind::PosOverflow))
    );
    assert_eq!(
        Version::parse("1.2."),
        Err(VersionError::ParseIntError(IntErrorKind::Empty))
    );
}

#[test]
fn leading_zeros_are_read() {
    assert_eq!(Version::parse("01.002.0003"), Ok(Version::new(1, 2, 3)));
}

#[test]
fn parse_through_from_str() {
    let v: Version = "7.8.9".parse().unwrap();
    assert_eq!(v, Version::new(7, 8, 9));
}

#[test]
fn error_messages() {
    assert_eq!(VersionError::InvalidFormat.to_string(), "Invalid version format");
    assert_eq!(
        VersionError::ParseIntError(IntErrorKind::InvalidDigit).to_string(),
        "Parse error: invalid digit found in string"
    );
    assert_eq!(
        VersionError::ParseIntError(IntErrorKind::Empty).to_string(),
        "Parse error: cannot parse integer from empty string"
    );
    assert_eq!(
        VersionError::ParseIntError(IntErrorKind::PosOverflow).to_string(),
        "Parse error: number too large to fit in target type"
    );
}

#[test]
fn error_from_kind() {
    assert_eq!(
        VersionError::from(IntErrorKind::PosOverflow),
        VersionError::ParseIntError(IntErrorKind::PosOverflow)
    );
}

#[test]
fn increments() {
    let mut v = Version::new(1, 2, 3);
    v.increment_patch();
    assert_eq!(v, Version::new(1, 2, 4));

    let mut v = Version::new(1, 2, 3);
    v.increment_minor();
    assert_eq!(v, Version::new(1, 3, 0));

    let mut v = Version::new(1, 2, 3);
    v.increment_major();
    assert_eq!(v, Version::new(2, 0, 0));
}

#[test]
fn increments_wrap_at_the_largest_value() {
    let mut v = Version::new(1, 2, 65535);
    v.increment_patch();
    assert_eq!(v, Version::new(1, 2, 0));

    let mut v = Version::new(1, 65535, 9);
    v.increment_minor();
    assert_eq!(v, Version::new(1, 0, 0));

    let mut v = Version::new(65535, 4, 9);
    v.increment_major();
    assert_eq!(v, Version::new(0, 0, 0));
}

#[test]
fn default_is_zero() {
    assert_eq!(Version::default(), Version::new(0, 0, 0));
}

#[test]
fn accessors() {
    let v = Version::new(4, 5, 6);
    assert_eq!((v.major(), v.minor(), v.patch()), (4, 5, 6));
}

#[test]
fn compatibility_ignores_minor_and_patch() {
    let x = Version::new(3, 0, 0);
    assert!(x.is_compatible(&Version::new(3, 65535, 1)));
    assert!(!x.is_compatible(&Version::new(4, 0, 0)));
    assert!(x.is_compatible(&x));
}

struct Tool;

impl VersionProvider for Tool {
    fn version() -> Version {
        Version::new(1, 0, 0)
    }
}

#[test]
fn provider_reports_its_version() {
    assert_eq!(Tool::version(), Version::new(1, 0, 0));
}

#[test]
fn digits_are_read_from_the_left() {
    assert_eq!(
        Version::parse("1.99999x.0"),
        Err(VersionError::ParseIntError(IntErrorKind::PosOverflow))
    );
    assert_eq!(
        Version::parse("1.6553x.0"),
        Err(VersionError::ParseIntError(IntErrorKind::InvalidDigit))
    );
    assert_eq!(
        Version::parse("1.2.3x99999"),
        Err(VersionError::ParseIntError(IntErrorKind::InvalidDigit))
    );
}

#[test]
fn from_str_agrees_with_parse() {
    for text in ["1.2", "1.2.3.4", "1.x.3", "+1.2.3", "1.2.3-beta", "1.2.65536", "1.2.3"] {
        assert_eq!(Version::from_str(text), Version::parse(text));
    }
    assert_eq!(Version::from_str("1.2.3"), Ok(Version::new(1, 2, 3)));
    assert_eq!(
        Version::from_str("1.2.65536"),
        Err(VersionError::ParseIntError(IntErrorKind::PosOverflow))
    );
}
