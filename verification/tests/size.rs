use fastgrep_rs::size::{parse_size, SizeError};

#[test]
fn parse_size_units() {
    assert_eq!(parse_size("1024").unwrap(), 1024);
    assert_eq!(parse_size("500K").unwrap(), 500 * 1024);
    assert_eq!(parse_size("10M").unwrap(), 10 * 1024 * 1024);
    assert_eq!(parse_size("2g").unwrap(), 2 * 1024 * 1024 * 1024);
    assert_eq!(parse_size("0").unwrap(), 0);
    // KB, MB and GB are accepted too.
    assert_eq!(parse_size("10MB").unwrap(), 10 * 1024 * 1024);
    assert_eq!(parse_size("2gb").unwrap(), 2 * 1024 * 1024 * 1024);
    assert!(parse_size("abc").is_err());
    assert!(parse_size("").is_err());
    // An overflow is an error and no panic.
    assert!(parse_size("99999999999999G").is_err());
}

#[test]
fn every_unit_in_every_letter_case() {
    for (unit, bytes) in [
        ("k", 1024u64),
        ("K", 1024),
        ("kb", 1024),
        ("Kb", 1024),
        ("kB", 1024),
        ("KB", 1024),
        ("m", 1024 * 1024),
        ("M", 1024 * 1024),
        ("mB", 1024 * 1024),
        ("g", 1024 * 1024 * 1024),
        ("GB", 1024 * 1024 * 1024),
        ("gB", 1024 * 1024 * 1024),
        ("", 1),
    ] {
        assert_eq!(parse_size(&format!("7{unit}")).unwrap(), 7 * bytes);
        assert_eq!(parse_size(&format!("7 {unit}")).unwrap(), 7 * bytes);
    }
}

#[test]
fn numbers_up_to_the_limit() {
    assert_eq!(parse_size("18446744073709551615").unwrap(), u64::MAX);
    assert_eq!(parse_size("007").unwrap(), 7);
    assert_eq!(parse_size("+7K").unwrap(), 7168);
    match parse_size("18446744073709551616") {
        Err(SizeError::Invalid { value, cause }) => {
            assert_eq!(value, "18446744073709551616");
            assert_eq!(cause, "number too large to fit in target type");
        }
        other => panic!("{other:?}"),
    }
    assert_eq!(parse_size("17179869183G").unwrap(), 17179869183 << 30);
    match parse_size(" 17179869184G ") {
        Err(e) => assert_eq!(e.message(), "size value is too large: 17179869184G"),
        Ok(n) => panic!("{n}"),
    }
}

#[test]
fn whitespace_is_dropped_around_text_and_number() {
    assert_eq!(parse_size(" \t10 M\r\n").unwrap(), 10 * 1024 * 1024);
    assert_eq!(parse_size("\u{3000}5\u{2003}kb\u{85}").unwrap(), 5 * 1024);
    assert!(parse_size("1 0").is_err());
    assert!(parse_size("1 K B").is_err());
    assert!(parse_size("\u{200b}1").is_err());
}

#[test]
fn only_whitespace_a_plus_or_a_digit_can_stand_before_a_number() {
    for c in '\0'..=char::MAX {
        let expected = match c {
            '+' => Some(7),
            '0'..='9' => Some(10 * (c as u64 - '0' as u64) + 7),
            _ if c.is_whitespace() => Some(7),
            _ => None,
        };
        assert_eq!(parse_size(&format!("{c}7")).ok(), expected, "{c:?}");
    }
}

#[test]
fn errors_say_what_is_wrong() {
    assert!(matches!(parse_size("  "), Err(SizeError::Empty)));
    assert_eq!(parse_size("").unwrap_err().message(), "empty size");
    assert_eq!(
        parse_size(" 12X ").unwrap_err().message(),
        "invalid size value: 12X"
    );
    match parse_size("12X") {
        Err(SizeError::Invalid { cause, .. }) => {
            assert_eq!(cause, "invalid digit found in string")
        }
        other => panic!("{other:?}"),
    }
    match parse_size("KB") {
        Err(SizeError::Invalid { value, cause }) => {
            assert_eq!(value, "KB");
            assert_eq!(cause, "cannot parse integer from empty string");
        }
        other => panic!("{other:?}"),
    }
    for text in ["B", "5B", "5TB", "-5", "+", "++5", "1.5K", "5KK", "5BK"] {
        assert!(
            matches!(parse_size(text), Err(SizeError::Invalid { .. })),
            "{text}"
        );
    }
    assert!(matches!(
        parse_size("99999999999999G"),
        Err(SizeError::TooLarge { .. })
    ));
}
