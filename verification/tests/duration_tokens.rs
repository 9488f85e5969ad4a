use et::{is_duration, Duration, EtError};

fn invalid(token: &str) -> String {
    match Duration::parse(token) {
        Err(EtError::InvalidDuration(text)) => text,
        other => panic!("{token:?} gave {other:?}"),
    }
}

fn unsupported(token: &str) -> String {
    match Duration::parse(token) {
        Err(EtError::UnsupportedUnit(text)) => text,
        other => panic!("{token:?} gave {other:?}"),
    }
}

fn overflows(token: &str) -> bool {
    matches!(Duration::parse(token), Err(EtError::Overflow))
}

#[test]
fn fixed_units_scale_the_magnitude() {
    assert_eq!(Duration::parse("1").unwrap(), Duration::Seconds(1));
    assert_eq!(Duration::parse("1s").unwrap(), Duration::Seconds(1));
    assert_eq!(Duration::parse("1m").unwrap(), Duration::Seconds(60));
    assert_eq!(Duration::parse("1h").unwrap(), Duration::Seconds(3600));
    assert_eq!(Duration::parse("1d").unwrap(), Duration::Seconds(86400));
    assert_eq!(Duration::parse("1w").unwrap(), Duration::Seconds(604800));
    assert_eq!(Duration::parse("-3w").unwrap(), Duration::Seconds(-1814400));
    assert_eq!(Duration::parse("+90m").unwrap(), Duration::Seconds(5400));
    assert_eq!(Duration::parse("0d").unwrap(), Duration::Seconds(0));
    assert_eq!(Duration::parse("-0").unwrap(), Duration::Seconds(0));
    assert_eq!(Duration::parse("007h").unwrap(), Duration::Seconds(25200));
}

#[test]
fn fixed_units_ignore_case() {
    assert_eq!(Duration::parse("2S").unwrap(), Duration::Seconds(2));
    assert_eq!(Duration::parse("2H").unwrap(), Duration::Seconds(7200));
    assert_eq!(Duration::parse("2D").unwrap(), Duration::Seconds(172800));
    assert_eq!(Duration::parse("2W").unwrap(), Duration::Seconds(1209600));
}

#[test]
fn letter_m_is_minutes_in_lower_case_and_months_in_upper_case() {
    assert_eq!(Duration::parse("3m").unwrap(), Duration::Seconds(180));
    assert_eq!(Duration::parse("3M").unwrap(), Duration::Months(3));
}

#[test]
fn calendar_words_ignore_case() {
    assert_eq!(Duration::parse("2MONTHS").unwrap(), Duration::Months(2));
    assert_eq!(Duration::parse("2Month").unwrap(), Duration::Months(2));
    assert_eq!(Duration::parse("-4Mo").unwrap(), Duration::Months(-4));
    assert_eq!(Duration::parse("1YR").unwrap(), Duration::Years(1));
    assert_eq!(Duration::parse("1Year").unwrap(), Duration::Years(1));
    assert_eq!(Duration::parse("+7YEARS").unwrap(), Duration::Years(7));
}

#[test]
fn whitespace_around_a_token_is_ignored() {
    assert_eq!(Duration::parse("  +3h\t").unwrap(), Duration::Seconds(10800));
    assert_eq!(Duration::parse("\n1Y\r\n").unwrap(), Duration::Years(1));
    assert_eq!(Duration::parse("\u{2003}5s\u{a0}").unwrap(), Duration::Seconds(5));
    assert_eq!(Duration::parse("\u{3000}12\u{85}").unwrap(), Duration::Seconds(12));
}

#[test]
fn whitespace_inside_a_token_is_not_accepted() {
    assert_eq!(unsupported("5 s"), " s");
    assert_eq!(invalid("+ 5s"), "+ 5s");
    assert_eq!(invalid("- 1Y"), "- 1Y");
}

#[test]
fn invalid_tokens_are_named() {
    assert_eq!(invalid(""), "empty");
    assert_eq!(invalid("   "), "empty");
    assert_eq!(invalid("+"), "+");
    assert_eq!(invalid(" - "), "-");
    assert_eq!(invalid("abc"), "abc");
    assert_eq!(invalid("++5s"), "++5s");
    assert_eq!(invalid("--5s"), "--5s");
    assert_eq!(invalid("h"), "h");
    assert_eq!(invalid("+M"), "+M");
    assert_eq!(invalid(".5s"), ".5s");
    assert_eq!(invalid("\u{661}s"), "\u{661}s");
}

#[test]
fn unsupported_units_are_named_in_lower_case() {
    assert_eq!(unsupported("5x"), "x");
    assert_eq!(unsupported("10FOO"), "foo");
    assert_eq!(unsupported("10Sec"), "sec");
    assert_eq!(unsupported("1.5h"), ".5h");
    assert_eq!(unsupported("3_000"), "_000");
    assert_eq!(unsupported("5s5"), "s5");
    assert_eq!(unsupported("1MM"), "mm");
    assert_eq!(unsupported("1yy"), "yy");
    assert_eq!(unsupported("2\u{c4}"), "\u{e4}");
    assert_eq!(unsupported("2\u{212a}"), "k");
}

#[test]
fn magnitude_is_an_unsigned_64_bit_number() {
    assert_eq!(
        Duration::parse("9223372036854775807").unwrap(),
        Duration::Seconds(i64::MAX)
    );
    assert_eq!(
        Duration::parse("-9223372036854775808").unwrap(),
        Duration::Seconds(i64::MIN)
    );
    assert!(overflows("9223372036854775808"));
    assert!(overflows("-9223372036854775809"));
    assert!(overflows("18446744073709551615"));
    assert_eq!(invalid("18446744073709551616"), "18446744073709551616");
    assert_eq!(invalid("-18446744073709551616s"), "-18446744073709551616s");
    assert_eq!(
        invalid("99999999999999999999999999x"),
        "99999999999999999999999999x"
    );
    assert_eq!(
        Duration::parse("000000000000000000000000000005s").unwrap(),
        Duration::Seconds(5)
    );
}

#[test]
fn fixed_units_overflow_past_64_bits() {
    assert_eq!(
        Duration::parse("153722867280912930m").unwrap(),
        Duration::Seconds(9223372036854775800)
    );
    assert!(overflows("153722867280912931m"));
    assert_eq!(
        Duration::parse("-153722867280912930m").unwrap(),
        Duration::Seconds(-9223372036854775800)
    );
    assert!(overflows("-153722867280912931m"));
    assert_eq!(
        Duration::parse("15250284452471w").unwrap(),
        Duration::Seconds(9223372036854460800)
    );
    assert!(overflows("15250284452472w"));
    assert!(overflows("9223372036854775807h"));
    assert!(overflows("18446744073709551615w"));
}

#[test]
fn calendar_counts_overflow_past_32_bits() {
    assert_eq!(
        Duration::parse("2147483647M").unwrap(),
        Duration::Months(i32::MAX)
    );
    assert_eq!(
        Duration::parse("-2147483648M").unwrap(),
        Duration::Months(i32::MIN)
    );
    assert!(overflows("2147483648M"));
    assert!(overflows("-2147483649M"));
    assert_eq!(
        Duration::parse("2147483647years").unwrap(),
        Duration::Years(i32::MAX)
    );
    assert_eq!(
        Duration::parse("-2147483648y").unwrap(),
        Duration::Years(i32::MIN)
    );
    assert!(overflows("2147483648Y"));
    assert!(overflows("18446744073709551615mo"));
}

#[test]
fn only_fixed_durations_have_seconds() {
    assert_eq!(Duration::Seconds(-300).as_seconds(), Some(-300));
    assert_eq!(Duration::Seconds(0).as_seconds(), Some(0));
    assert_eq!(Duration::Months(1).as_seconds(), None);
    assert_eq!(Duration::Years(1).as_seconds(), None);
    assert_eq!(Duration::parse("-5m").unwrap().as_seconds(), Some(-300));
    assert_eq!(Duration::parse("5M").unwrap().as_seconds(), None);
}

#[test]
fn a_sign_alone_looks_like_a_duration() {
    assert!(is_duration("+"));
    assert!(is_duration("-"));
    assert!(is_duration("-abc"));
    assert!(is_duration("  +3h  "));
    assert!(Duration::parse("-abc").is_err());
}

#[test]
fn a_digit_needs_a_unit_letter_at_the_end() {
    for token in [
        "1s", "1m", "1h", "1d", "1w", "1S", "1H", "1D", "1W", "1M", "1Y", "1y",
    ] {
        assert!(is_duration(token), "{token}");
        assert!(Duration::parse(token).is_ok(), "{token}");
    }
    assert!(is_duration(" 30s\n"));
    assert!(is_duration("2months"));
    assert!(is_duration("3years"));
    assert!(is_duration("2month"));
    assert!(is_duration("9xs"));
    assert!(!is_duration("12"));
    assert!(!is_duration(" 12 "));
    assert!(!is_duration("12x"));
    assert!(!is_duration("s"));
    assert!(!is_duration("1 "));
    assert!(!is_duration("   "));
}

#[test]
fn some_word_units_do_not_look_like_durations() {
    for token in ["1mo", "1yr", "2year"] {
        assert!(Duration::parse(token).is_ok(), "{token}");
        assert!(!is_duration(token), "{token}");
    }
}
