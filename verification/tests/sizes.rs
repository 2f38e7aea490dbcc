use std::num::IntErrorKind;

use noq_datagram::bench::sizes::{byte_size_parts, parse_byte_size, ByteSizeError};

#[test]
fn suffixes_are_powers_of_two() {
    assert_eq!(parse_byte_size("1"), Ok(1));
    assert_eq!(parse_byte_size("10k"), Ok(10 * 1024));
    assert_eq!(parse_byte_size("1M"), Ok(1024 * 1024));
    assert_eq!(parse_byte_size("500M"), Ok(500 * 1024 * 1024));
    assert_eq!(parse_byte_size("10G"), Ok(10 * 1024 * 1024 * 1024));
    assert_eq!(parse_byte_size("2T"), Ok(2 * 1024 * 1024 * 1024 * 1024));
    assert_eq!(byte_size_parts("7k"), Ok((7, 1024)));
    assert_eq!(byte_size_parts("7"), Ok((7, 1)));
}

#[test]
fn white_space_around_a_size_is_ignored() {
    assert_eq!(parse_byte_size("  3k\t\n"), Ok(3072));
    assert_eq!(parse_byte_size("\u{3000}5\u{a0}"), Ok(5));
    assert_eq!(parse_byte_size("3 k"), Err(ByteSizeError::InvalidDigit));
}

#[test]
fn a_size_needs_digits() {
    assert_eq!(parse_byte_size(""), Err(ByteSizeError::Empty));
    assert_eq!(parse_byte_size("  "), Err(ByteSizeError::Empty));
    assert_eq!(parse_byte_size("G"), Err(ByteSizeError::Empty));
    assert_eq!(parse_byte_size("+"), Err(ByteSizeError::InvalidDigit));
    assert_eq!(parse_byte_size("-1"), Err(ByteSizeError::InvalidDigit));
    assert_eq!(parse_byte_size("1K"), Err(ByteSizeError::InvalidDigit));
    assert_eq!(parse_byte_size("1.5M"), Err(ByteSizeError::InvalidDigit));
    assert_eq!(parse_byte_size("\u{663}"), Err(ByteSizeError::InvalidDigit));
    assert_eq!(parse_byte_size("+5"), Ok(5));
    assert_eq!(parse_byte_size("007"), Ok(7));
}

#[test]
fn a_size_is_of_64_bits() {
    assert_eq!(parse_byte_size("18446744073709551615"), Ok(u64::MAX));
    assert_eq!(parse_byte_size("18446744073709551616"), Err(ByteSizeError::PosOverflow));
    assert_eq!(parse_byte_size("99999999999999999999k"), Err(ByteSizeError::PosOverflow));
    assert_eq!(byte_size_parts("18446744073709551615T"), Ok((u64::MAX, 1 << 40)));
}

/// Sizes are read as integers are.
#[test]
fn numbers_are_read_as_the_standard_library_reads_them() {
    for text in [
        "",
        "0",
        "+0",
        "++1",
        "+-1",
        "-",
        "+",
        "12a",
        "a12",
        "18446744073709551615",
        "18446744073709551616",
        "18446744073709551620",
        "99999999999999999999999x",
        "1844674407370955161x",
        "18446744073709551615x",
        "18446744073709551616x",
        "+18446744073709551616",
        "00000000000000000000000000001",
        "1_000",
        "\u{ff11}",
    ] {
        let expected = match text.parse::<u64>() {
            Ok(n) => Ok((n, 1)),
            Err(e) => {
                let kind = match e.kind() {
                    IntErrorKind::Empty => ByteSizeError::Empty,
                    IntErrorKind::InvalidDigit => ByteSizeError::InvalidDigit,
                    IntErrorKind::PosOverflow => ByteSizeError::PosOverflow,
                    other => panic!("{other:?}"),
                };
                assert_eq!(kind.message(), e.to_string());
                Err(kind)
            }
        };
        assert_eq!(byte_size_parts(text), expected, "{text}");
    }
}

/// White space is what the standard library takes for it.
#[test]
fn every_white_space_character_is_known() {
    for c in '\0'..=char::MAX {
        if c.is_whitespace() {
            assert_eq!(byte_size_parts(&format!("{c}1{c}")), Ok((1, 1)), "{c:?}");
        } else if !c.is_ascii() {
            assert!(byte_size_parts(&format!("{c}1")).is_err(), "{c:?}");
            assert!(byte_size_parts(&format!("1{c}")).is_err(), "{c:?}");
        }
    }
}
