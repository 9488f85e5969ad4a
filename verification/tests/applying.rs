use et::{apply_duration, parse_iso, Duration, EtError};

#[test]
fn seconds_are_added() {
    assert_eq!(apply_duration(0, Duration::Seconds(0)).unwrap(), 0);
    assert_eq!(apply_duration(5, Duration::Seconds(-7)).unwrap(), -2);
    assert_eq!(apply_duration(i64::MAX, Duration::Seconds(0)).unwrap(), i64::MAX);
    assert_eq!(apply_duration(i64::MAX - 1, Duration::Seconds(1)).unwrap(), i64::MAX);
    assert_eq!(apply_duration(i64::MIN + 1, Duration::Seconds(-1)).unwrap(), i64::MIN);
    assert_eq!(apply_duration(i64::MIN, Duration::Seconds(i64::MAX)).unwrap(), -1);
    assert_eq!(apply_duration(i64::MAX, Duration::Seconds(i64::MIN)).unwrap(), -1);
}

#[test]
fn seconds_outside_the_calendar_are_still_added() {
    assert_eq!(
        apply_duration(253402300799, Duration::Seconds(1)).unwrap(),
        253402300800
    );
    assert_eq!(
        apply_duration(-377705116800, Duration::Seconds(-1)).unwrap(),
        -377705116801
    );
}

#[test]
fn a_sum_past_64_bits_is_an_overflow() {
    assert!(matches!(
        apply_duration(i64::MAX, Duration::Seconds(1)),
        Err(EtError::Overflow)
    ));
    assert!(matches!(
        apply_duration(i64::MIN, Duration::Seconds(-1)),
        Err(EtError::Overflow)
    ));
    assert!(matches!(
        apply_duration(1, Duration::Seconds(i64::MAX)),
        Err(EtError::Overflow)
    ));
    assert!(matches!(
        apply_duration(-1, Duration::Seconds(i64::MIN)),
        Err(EtError::Overflow)
    ));
}

#[test]
fn months_move_the_date_and_keep_the_time() {
    assert_eq!(
        apply_duration(1675166400, Duration::Months(1)).unwrap(),
        1677585600
    );
    assert_eq!(apply_duration(1705320000, Duration::Months(6)).unwrap(), 1721044800);
    assert_eq!(apply_duration(1721044800, Duration::Months(-6)).unwrap(), 1705320000);
    assert_eq!(apply_duration(1704912345, Duration::Months(0)).unwrap(), 1704912345);
    assert_eq!(apply_duration(-1, Duration::Months(1)).unwrap(), 31 * 86400 - 1);
    assert_eq!(apply_duration(0, Duration::Months(-1)).unwrap(), -31 * 86400);
}

#[test]
fn years_move_the_date_and_keep_the_time() {
    assert_eq!(apply_duration(3981355200, Duration::Years(4)).unwrap(), 4107499200);
    assert_eq!(apply_duration(0, Duration::Years(1)).unwrap(), 365 * 86400);
    assert_eq!(apply_duration(0, Duration::Years(-1)).unwrap(), -365 * 86400);
    assert_eq!(apply_duration(86399, Duration::Years(3)).unwrap(), 1096 * 86400 + 86399);
    assert_eq!(apply_duration(1704912345, Duration::Years(0)).unwrap(), 1704912345);
    assert_eq!(
        apply_duration(0, Duration::Years(-1970)).unwrap(),
        -62167219200
    );
}

#[test]
fn a_date_past_the_last_year_is_an_overflow() {
    assert_eq!(
        apply_duration(253399622400, Duration::Months(-1)).unwrap(),
        253399622400 - 30 * 86400
    );
    assert!(matches!(
        apply_duration(253399622400, Duration::Months(1)),
        Err(EtError::Overflow)
    ));
    assert!(matches!(
        apply_duration(253370764800, Duration::Years(1)),
        Err(EtError::Overflow)
    ));
    assert!(matches!(
        apply_duration(-377705116800, Duration::Months(-1)),
        Err(EtError::Overflow)
    ));
    assert!(matches!(
        apply_duration(-377705116800, Duration::Years(-1)),
        Err(EtError::Overflow)
    ));
    assert!(matches!(
        apply_duration(0, Duration::Months(i32::MAX)),
        Err(EtError::Overflow)
    ));
    assert!(matches!(
        apply_duration(0, Duration::Months(i32::MIN)),
        Err(EtError::Overflow)
    ));
    assert!(matches!(
        apply_duration(0, Duration::Years(i32::MAX)),
        Err(EtError::Overflow)
    ));
    assert!(matches!(
        apply_duration(0, Duration::Years(i32::MIN)),
        Err(EtError::Overflow)
    ));
    assert_eq!(
        apply_duration(0, Duration::Years(8029)).unwrap(),
        253370764800
    );
    assert!(matches!(
        apply_duration(0, Duration::Years(8030)),
        Err(EtError::Overflow)
    ));
}

#[test]
fn an_epoch_value_outside_the_calendar_has_no_date_to_move() {
    for (epoch, named) in [
        (253402300800, "253402300800"),
        (-377705116801, "-377705116801"),
        (i64::MAX, "9223372036854775807"),
        (i64::MIN, "-9223372036854775808"),
    ] {
        for duration in [Duration::Months(0), Duration::Years(0), Duration::Months(-1)] {
            match apply_duration(epoch, duration) {
                Err(EtError::InvalidEpoch(text)) => assert_eq!(text, named),
                other => panic!("{epoch} gave {other:?}"),
            }
        }
    }
}

#[test]
fn there_and_back_without_clamping_is_the_same_moment() {
    for day in ["01", "15", "28"] {
        for month in ["01", "02", "06", "12"] {
            let start = parse_iso(&format!("2023-{month}-{day}T08:30:45Z")).unwrap();
            for months in [1, 5, 12, 37, -1, -14, 1200] {
                let there = apply_duration(start, Duration::Months(months)).unwrap();
                let back = apply_duration(there, Duration::Months(-months)).unwrap();
                assert_eq!(back, start);
            }
            for years in [1, 4, 77, -1, -2023, -2024] {
                let there = apply_duration(start, Duration::Years(years)).unwrap();
                let back = apply_duration(there, Duration::Years(-years)).unwrap();
                assert_eq!(back, start);
            }
        }
    }
}

#[test]
fn there_and_back_after_clamping_is_an_earlier_moment() {
    let start = parse_iso("2023-01-31T12:00:00Z").unwrap();
    let there = apply_duration(start, Duration::Months(1)).unwrap();
    let back = apply_duration(there, Duration::Months(-1)).unwrap();
    assert_eq!(back, start - 3 * 86400);
}
