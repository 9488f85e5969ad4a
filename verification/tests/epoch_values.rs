use et::{
    calendar_to_epoch, epoch_to_calendar, now, parse_epoch, CalendarDate, EtError, TimeOfDay,
};

fn date(year: i32, month: u8, day: u8) -> CalendarDate {
    CalendarDate::new(year, month, day).unwrap()
}

fn clock(hour: u8, minute: u8, second: u8) -> TimeOfDay {
    TimeOfDay::new(hour, minute, second).unwrap()
}

fn invalid_epoch<T: std::fmt::Debug>(result: Result<T, EtError>) -> String {
    match result {
        Err(EtError::InvalidEpoch(text)) => text,
        other => panic!("{other:?}"),
    }
}

#[test]
fn only_seconds_of_a_day_are_times() {
    assert_eq!(
        TimeOfDay::new(23, 59, 59),
        Some(TimeOfDay { hour: 23, minute: 59, second: 59 })
    );
    assert!(TimeOfDay::new(0, 0, 0).is_some());
    assert_eq!(TimeOfDay::new(24, 0, 0), None);
    assert_eq!(TimeOfDay::new(0, 60, 0), None);
    assert_eq!(TimeOfDay::new(0, 0, 60), None);
}

#[test]
fn epoch_values_fall_on_dates() {
    assert_eq!(epoch_to_calendar(0).unwrap(), (date(1970, 1, 1), clock(0, 0, 0)));
    assert_eq!(epoch_to_calendar(-1).unwrap(), (date(1969, 12, 31), clock(23, 59, 59)));
    assert_eq!(
        epoch_to_calendar(1704912345).unwrap(),
        (date(2024, 1, 10), clock(18, 45, 45))
    );
    assert_eq!(epoch_to_calendar(951782400).unwrap(), (date(2000, 2, 29), clock(0, 0, 0)));
    assert_eq!(epoch_to_calendar(-2203891200).unwrap(), (date(1900, 3, 1), clock(0, 0, 0)));
    assert_eq!(epoch_to_calendar(-62167219200).unwrap(), (date(0, 1, 1), clock(0, 0, 0)));
    assert_eq!(
        epoch_to_calendar(-62167219201).unwrap(),
        (date(-1, 12, 31), clock(23, 59, 59))
    );
    assert_eq!(epoch_to_calendar(-63549356277).unwrap(), (date(-44, 3, 15), clock(1, 2, 3)));
}

#[test]
fn the_calendar_has_a_first_and_a_last_second() {
    assert_eq!(
        epoch_to_calendar(-377705116800).unwrap(),
        (date(-9999, 1, 1), clock(0, 0, 0))
    );
    assert_eq!(
        epoch_to_calendar(253402300799).unwrap(),
        (date(9999, 12, 31), clock(23, 59, 59))
    );
    assert_eq!(invalid_epoch(epoch_to_calendar(-377705116801)), "-377705116801");
    assert_eq!(invalid_epoch(epoch_to_calendar(253402300800)), "253402300800");
    assert_eq!(invalid_epoch(epoch_to_calendar(i64::MAX)), "9223372036854775807");
    assert_eq!(invalid_epoch(epoch_to_calendar(i64::MIN)), "-9223372036854775808");
}

#[test]
fn dates_have_epoch_values() {
    assert_eq!(calendar_to_epoch(date(1970, 1, 1), clock(0, 0, 0)), 0);
    assert_eq!(calendar_to_epoch(date(1970, 1, 1), clock(0, 0, 1)), 1);
    assert_eq!(calendar_to_epoch(date(1970, 1, 2), clock(0, 0, 0)), 86400);
    assert_eq!(calendar_to_epoch(date(1969, 12, 31), clock(23, 59, 59)), -1);
    assert_eq!(calendar_to_epoch(date(2024, 1, 10), clock(12, 0, 0)), 1704888000);
    assert_eq!(calendar_to_epoch(date(2024, 2, 29), clock(12, 0, 0)), 1709208000);
    assert_eq!(calendar_to_epoch(date(2100, 2, 28), clock(12, 0, 0)), 4107499200);
    assert_eq!(calendar_to_epoch(date(999, 12, 31), clock(23, 59, 59)), -30610224001);
    assert_eq!(calendar_to_epoch(date(0, 1, 1), clock(0, 0, 0)), -62167219200);
    assert_eq!(calendar_to_epoch(date(-9999, 1, 1), clock(0, 0, 0)), -377705116800);
    assert_eq!(calendar_to_epoch(date(-9999, 12, 31), clock(23, 59, 59)), -377673580801);
    assert_eq!(calendar_to_epoch(date(9999, 12, 31), clock(23, 59, 59)), 253402300799);
}

#[test]
fn dates_and_epoch_values_convert_both_ways() {
    let mut epoch: i64 = -377705116800;
    while epoch <= 253402300799 {
        let (day, time) = epoch_to_calendar(epoch).unwrap();
        assert!(CalendarDate::new(day.year, day.month, day.day).is_some());
        assert!(TimeOfDay::new(time.hour, time.minute, time.second).is_some());
        assert_eq!(calendar_to_epoch(day, time), epoch);
        epoch += 86400 * 365 * 7 + 3 * 3600 + 59 * 61;
    }
    for year in [-9999, -401, -1, 0, 1, 1600, 1969, 1970, 2024, 9999] {
        for month in 1..=12u8 {
            for day in [1u8, 15, 28] {
                let there = calendar_to_epoch(date(year, month, day), clock(6, 7, 8));
                assert_eq!(
                    epoch_to_calendar(there).unwrap(),
                    (date(year, month, day), clock(6, 7, 8))
                );
            }
        }
    }
}

#[test]
fn epoch_text_is_a_signed_decimal_number() {
    assert_eq!(parse_epoch("0").unwrap(), 0);
    assert_eq!(parse_epoch("-0").unwrap(), 0);
    assert_eq!(parse_epoch("+0").unwrap(), 0);
    assert_eq!(parse_epoch("+17").unwrap(), 17);
    assert_eq!(parse_epoch("-17").unwrap(), -17);
    assert_eq!(parse_epoch("0017").unwrap(), 17);
    assert_eq!(parse_epoch("\t 42\u{2009}\n").unwrap(), 42);
    assert_eq!(parse_epoch("9223372036854775807").unwrap(), i64::MAX);
    assert_eq!(parse_epoch("-9223372036854775808").unwrap(), i64::MIN);
    assert_eq!(parse_epoch("+9223372036854775807").unwrap(), i64::MAX);
    assert_eq!(
        parse_epoch("-000000000000000000000009223372036854775808").unwrap(),
        i64::MIN
    );
}

#[test]
fn epoch_text_that_is_no_number_is_named() {
    assert_eq!(invalid_epoch(parse_epoch("")), "");
    assert_eq!(invalid_epoch(parse_epoch("   ")), "");
    assert_eq!(invalid_epoch(parse_epoch("abc")), "abc");
    assert_eq!(invalid_epoch(parse_epoch(" 12.34 ")), "12.34");
    assert_eq!(invalid_epoch(parse_epoch("+")), "+");
    assert_eq!(invalid_epoch(parse_epoch("-")), "-");
    assert_eq!(invalid_epoch(parse_epoch("--1")), "--1");
    assert_eq!(invalid_epoch(parse_epoch("+-1")), "+-1");
    assert_eq!(invalid_epoch(parse_epoch("1 2")), "1 2");
    assert_eq!(invalid_epoch(parse_epoch("12s")), "12s");
    assert_eq!(invalid_epoch(parse_epoch("1_000")), "1_000");
    assert_eq!(invalid_epoch(parse_epoch("0x10")), "0x10");
    assert_eq!(invalid_epoch(parse_epoch("\u{661}")), "\u{661}");
    assert_eq!(
        invalid_epoch(parse_epoch("9223372036854775808")),
        "9223372036854775808"
    );
    assert_eq!(
        invalid_epoch(parse_epoch("-9223372036854775809")),
        "-9223372036854775809"
    );
    assert_eq!(
        invalid_epoch(parse_epoch("18446744073709551616")),
        "18446744073709551616"
    );
}

#[test]
fn epoch_text_is_read_as_the_standard_library_reads_it() {
    for text in [
        "0", "-0", "+5", "-5", "007", "", "+", "-", "1e3", " 1", "9223372036854775807",
        "9223372036854775808", "-9223372036854775808", "-9223372036854775809", "١",
    ] {
        assert_eq!(parse_epoch(text).ok(), text.trim().parse::<i64>().ok(), "{text:?}");
    }
}

#[test]
fn the_clock_gives_a_moment_of_the_calendar() {
    let moment = now();
    assert!(moment > 1_700_000_000);
    assert!(epoch_to_calendar(moment).is_ok());
}

#[test]
fn whitespace_is_what_the_standard_library_trims() {
    for code in 0..=0x10FFFFu32 {
        let Some(c) = char::from_u32(code) else {
            continue;
        };
        if c.is_ascii_digit() {
            continue;
        }
        let text = format!("{c}5{c}");
        assert_eq!(parse_epoch(&text).is_ok(), c.is_whitespace(), "{code:#x}");
        assert_eq!(parse_epoch(&text).ok(), text.trim().parse::<i64>().ok());
    }
}

#[test]
fn an_epoch_value_written_in_decimal_is_read_back() {
    for epoch in [0, 1, -1, 9, 10, -10, 1704912345, i64::MAX, i64::MIN, i64::MIN + 1] {
        assert_eq!(parse_epoch(&epoch.to_string()).unwrap(), epoch);
    }
}
