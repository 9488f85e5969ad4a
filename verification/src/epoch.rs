//! Epoch values: seconds counted from 1970-01-01T00:00:00Z, and the calendar date and time
//! of day that each of them falls on.

use vstd::prelude::*;
use crate::calendar::{CalendarDate, TimeOfDay, leap_year, month_length, MAX_YEAR, MIN_YEAR};
use crate::error::{EtError, Failure, outcome};
use crate::text::{
    chars_of, decimal_string, decimal_text, lemma_decimal_text, lemma_digit_run_stops,
    parse_magnitude, scan_digits, signed_decimal, trim_bounds, trimmed,
};

verus! {

/// The epoch value of the first second of the first year.
pub const MIN_EPOCH: i64 = -377_705_116_800;

/// The epoch value of the last second of the last year.
pub const MAX_EPOCH: i64 = 253_402_300_799;

/// The number of leap years from year 1 up to, and not including, `year`.
pub open spec fn leap_years_before(year: int) -> int {
    (year - 1) / 4 - (year - 1) / 100 + (year - 1) / 400
}

/// The number of days from 1 January 1970 to 1 January of `year`.
pub open spec fn days_before_year(year: int) -> int {
    365 * (year - 1970) + leap_years_before(year) - leap_years_before(1970)
}

/// The number of days of `year` that lie before the first day of month `month`.
pub open spec fn days_before_month(year: int, month: int) -> int
    recommends
        1 <= month <= 12,
{
    let common: int = if month <= 1 {
        0
    } else if month == 2 {
        31
    } else if month == 3 {
        59
    } else if month == 4 {
        90
    } else if month == 5 {
        120
    } else if month == 6 {
        151
    } else if month == 7 {
        181
    } else if month == 8 {
        212
    } else if month == 9 {
        243
    } else if month == 10 {
        273
    } else if month == 11 {
        304
    } else {
        334
    };
    if month > 2 && leap_year(year) {
        common + 1
    } else {
        common
    }
}

/// The number of days from 1 January 1970 to `date`.
pub open spec fn day_number(date: CalendarDate) -> int {
    days_before_year(date.year as int) + days_before_month(date.year as int, date.month as int)
        + (date.day - 1)
}

/// The number of seconds from midnight to `time`.
pub open spec fn second_of_day(time: TimeOfDay) -> int {
    3600 * time.hour + 60 * time.minute + time.second
}

/// The epoch value of `time` on `date`, both taken as UTC.
pub open spec fn epoch_of(date: CalendarDate, time: TimeOfDay) -> int {
    86400 * day_number(date) + second_of_day(time)
}

/// Whether `epoch` falls on a date of the calendar.
pub open spec fn representable(epoch: int) -> bool {
    MIN_EPOCH <= epoch <= MAX_EPOCH
}

/// Whether `epoch` falls on `date` at `time`.
pub open spec fn falls_on(epoch: int, date: CalendarDate, time: TimeOfDay) -> bool {
    date.wf() && time.wf() && epoch_of(date, time) == epoch
}

/// The date and the time of day that `epoch` falls on.
pub open spec fn calendar_of(epoch: int) -> (CalendarDate, TimeOfDay) {
    choose|c: (CalendarDate, TimeOfDay)| falls_on(epoch, c.0, c.1)
}

/// What a text means as an epoch value: the whitespace around it is left out, and the rest
/// is a decimal numeral, with or without a sign, of a number that fits in 64 bits.
pub open spec fn epoch_meaning(input: Seq<char>) -> Result<i64, Failure> {
    let text = trimmed(input);
    match signed_decimal(text) {
        Some(n) => if i64::MIN <= n <= i64::MAX {
            Ok(n as i64)
        } else {
            Err(Failure::InvalidEpoch(text))
        },
        None => Err(Failure::InvalidEpoch(text)),
    }
}

/// Whether `a` is an earlier day than `b`.
pub open spec fn earlier(a: CalendarDate, b: CalendarDate) -> bool {
    a.year < b.year || (a.year == b.year && (a.month < b.month || (a.month == b.month && a.day
        < b.day)))
}

/// The first day of the calendar.
pub open spec fn first_day() -> CalendarDate {
    CalendarDate { year: MIN_YEAR, month: 1, day: 1 }
}

/// The last day of the calendar.
pub open spec fn last_day() -> CalendarDate {
    CalendarDate { year: MAX_YEAR, month: 12, day: 31 }
}

/// The day after `date`.
pub open spec fn next_day(date: CalendarDate) -> CalendarDate {
    if date.day < month_length(date.year as int, date.month as int) {
        CalendarDate { year: date.year, month: date.month, day: (date.day + 1) as u8 }
    } else if date.month < 12 {
        CalendarDate { year: date.year, month: (date.month + 1) as u8, day: 1 }
    } else {
        CalendarDate { year: (date.year + 1) as i32, month: 1, day: 1 }
    }
}

/// Calls `time::OffsetDateTime::from_unix_timestamp` and reads the date and the time of day
/// off the value that it returns. Taken on trust: the call succeeds exactly on the epoch
/// values from `MIN_EPOCH` to `MAX_EPOCH`, and the fields that it gives are a date and a time
/// whose epoch value is the argument.
#[verifier::external_body]
fn utc_fields(epoch: i64) -> (r: Option<(CalendarDate, TimeOfDay)>)
    ensures
        r is Some <==> representable(epoch as int),
        r matches Some((date, time)) ==> falls_on(epoch as int, date, time),
{
    match time::OffsetDateTime::from_unix_timestamp(epoch) {
        Ok(t) => Some(
            (
                CalendarDate { year: t.year(), month: t.month() as u8, day: t.day() },
                TimeOfDay { hour: t.hour(), minute: t.minute(), second: t.second() },
            ),
        ),
        Err(_) => None,
    }
}

/// Builds the `time::OffsetDateTime` of the given date and time at offset zero and calls its
/// `unix_timestamp`. Taken on trust: the result is the number of seconds from
/// 1970-01-01T00:00:00Z to that moment.
#[verifier::external_body]
fn unix_timestamp(date: CalendarDate, time_of_day: TimeOfDay) -> (r: i64)
    requires
        date.wf(),
        time_of_day.wf(),
    ensures
        r == epoch_of(date, time_of_day),
{
    let month = time::Month::try_from(date.month).unwrap();
    let day = time::Date::from_calendar_date(date.year, month, date.day).unwrap();
    let clock = time::Time::from_hms(
        time_of_day.hour,
        time_of_day.minute,
        time_of_day.second,
    ).unwrap();
    day.with_time(clock).assume_offset(time::UtcOffset::UTC).unix_timestamp()
}

/// Calls `time::OffsetDateTime::now_utc` and `unix_timestamp` on the value that it returns:
/// the epoch value of the moment of the call, by the clock of the machine. Taken on trust:
/// that moment has a date of the calendar. Which one, nothing here says.
#[verifier::external_body]
pub fn now() -> (r: i64)
    ensures
        representable(r as int),
{
    time::OffsetDateTime::now_utc().unix_timestamp()
}

/// The date and the time of day that `epoch` falls on; an epoch value outside the calendar
/// is an error that names it.
pub fn epoch_to_calendar(epoch: i64) -> (r: Result<(CalendarDate, TimeOfDay), EtError>)
    ensures
        match r {
            Ok(c) => representable(epoch as int) && falls_on(epoch as int, c.0, c.1) && c
                == calendar_of(epoch as int),
            Err(e) => !representable(epoch as int) && e@ == Failure::InvalidEpoch(
                decimal_text(epoch as int),
            ),
        },
{
    match utc_fields(epoch) {
        Some(c) => {
            proof {
                lemma_calendar_of(epoch as int);
            }
            Ok(c)
        },
        None => Err(EtError::InvalidEpoch(decimal_string(epoch))),
    }
}

/// The epoch value of `time` on `date`, both taken as UTC.
pub fn calendar_to_epoch(date: CalendarDate, time: TimeOfDay) -> (r: i64)
    requires
        date.wf(),
        time.wf(),
    ensures
        r == epoch_of(date, time),
        representable(r as int),
        calendar_of(r as int) == (date, time),
{
    proof {
        lemma_epoch_of_bounds(date, time);
        lemma_calendar_of(epoch_of(date, time));
        assert(falls_on(epoch_of(date, time), date, time));
    }
    unix_timestamp(date, time)
}

/// Reads an epoch value written in decimal.
pub fn parse_epoch(s: &str) -> (r: Result<i64, EtError>)
    ensures
        outcome(r) == epoch_meaning(s@),
{
    let chars: Vec<char> = chars_of(s);
    let v: &[char] = chars.as_slice();
    let (start, end) = trim_bounds(v);
    let ghost text = v@.subrange(start as int, end as int);
    let signed: bool = start < end && (v[start] == '+' || v[start] == '-');
    let negative: bool = start < end && v[start] == '-';
    let digits_from: usize = if signed {
        start + 1
    } else {
        start
    };
    let ghost digits = v@.subrange(digits_from as int, end as int);
    assert(digits =~= if signed {
        text.skip(1)
    } else {
        text
    });
    let digits_to: usize = scan_digits(v, digits_from, end);
    if digits_to == digits_from || digits_to < end {
        proof {
            if digits_to < end {
                lemma_digit_run_stops(digits);
            }
        }
        return Err(EtError::InvalidEpoch(s.substring_char(start, end).to_owned()));
    }
    let magnitude: u64 = match parse_magnitude(v, digits_from, end) {
        Some(m) => m,
        None => {
            return Err(EtError::InvalidEpoch(s.substring_char(start, end).to_owned()));
        },
    };
    let value: i128 = if negative {
        -(magnitude as i128)
    } else {
        magnitude as i128
    };
    if value < i64::MIN as i128 || value > i64::MAX as i128 {
        return Err(EtError::InvalidEpoch(s.substring_char(start, end).to_owned()));
    }
    Ok(value as i64)
}

/// A year has 366 days if it is a leap year and 365 if not.
pub proof fn lemma_year_length(year: int)
    ensures
        days_before_year(year + 1) == days_before_year(year) + 365 + (if leap_year(year) {
            1int
        } else {
            0int
        }),
{
}

/// The days before a month are the days of the months before it.
pub proof fn lemma_month_step(year: int, month: int)
    requires
        1 <= month <= 12,
    ensures
        days_before_month(year, 1) == 0,
        month < 12 ==> days_before_month(year, month + 1) == days_before_month(year, month)
            + month_length(year, month),
        month == 12 ==> days_before_month(year, 12) + month_length(year, 12) == 365 + (
        if leap_year(year) {
            1int
        } else {
            0int
        }),
{
}

/// Later years begin later.
pub proof fn lemma_years_ordered(a: int, b: int)
    requires
        a <= b,
    ensures
        days_before_year(a) + 365 * (b - a) <= days_before_year(b),
    decreases b - a,
{
    if a < b {
        lemma_years_ordered(a, b - 1);
        lemma_year_length(b - 1);
    }
}

/// Earlier days have smaller day numbers.
pub proof fn lemma_days_ordered(a: CalendarDate, b: CalendarDate)
    requires
        a.wf(),
        b.wf(),
        earlier(a, b),
    ensures
        day_number(a) < day_number(b),
{
    if a.year < b.year {
        lemma_year_length(a.year as int);
        lemma_years_ordered(a.year + 1, b.year as int);
    }
}

/// Two dates with the same day number are the same date.
pub proof fn lemma_day_number_injective(a: CalendarDate, b: CalendarDate)
    requires
        a.wf(),
        b.wf(),
        day_number(a) == day_number(b),
    ensures
        a == b,
{
    if earlier(a, b) {
        lemma_days_ordered(a, b);
    }
    if earlier(b, a) {
        lemma_days_ordered(b, a);
    }
}

/// A number of seconds determines the days and the second of the day that make it up.
proof fn lemma_day_split(a: int, x: int, b: int, y: int)
    requires
        0 <= x < 86400,
        0 <= y < 86400,
        86400 * a + x == 86400 * b + y,
    ensures
        a == b,
        x == y,
{
}

/// An epoch value falls on one date and time at most.
pub proof fn lemma_epoch_injective(d1: CalendarDate, t1: TimeOfDay, d2: CalendarDate, t2: TimeOfDay)
    requires
        d1.wf(),
        t1.wf(),
        d2.wf(),
        t2.wf(),
        epoch_of(d1, t1) == epoch_of(d2, t2),
    ensures
        d1 == d2,
        t1 == t2,
{
    lemma_day_split(day_number(d1), second_of_day(t1), day_number(d2), second_of_day(t2));
    lemma_day_number_injective(d1, d2);
}

/// The calendar begins with the first representable second and ends with the last.
pub proof fn lemma_calendar_ends()
    ensures
        86400 * day_number(first_day()) == MIN_EPOCH,
        86400 * day_number(last_day()) + 86399 == MAX_EPOCH,
{
}

/// The day after a day, other than the last, is a day of the calendar and has the next day
/// number.
pub proof fn lemma_next_day(date: CalendarDate)
    requires
        date.wf(),
        date != last_day(),
    ensures
        next_day(date).wf(),
        day_number(next_day(date)) == day_number(date) + 1,
{
    lemma_month_step(date.year as int, date.month as int);
    lemma_year_length(date.year as int);
}

/// Every day number between those of the first and the last day belongs to a date.
pub proof fn lemma_day_exists(n: int) -> (date: CalendarDate)
    requires
        day_number(first_day()) <= n <= day_number(last_day()),
    ensures
        date.wf(),
        day_number(date) == n,
    decreases n - day_number(first_day()),
{
    if n == day_number(first_day()) {
        first_day()
    } else {
        let before = lemma_day_exists(n - 1);
        lemma_next_day(before);
        next_day(before)
    }
}

/// Every representable epoch value falls on a date and a time of day.
pub proof fn lemma_epoch_exists(epoch: int) -> (c: (CalendarDate, TimeOfDay))
    requires
        representable(epoch),
    ensures
        falls_on(epoch, c.0, c.1),
{
    lemma_calendar_ends();
    let date = lemma_day_exists(epoch / 86400);
    let second: int = epoch % 86400;
    let time = TimeOfDay {
        hour: (second / 3600) as u8,
        minute: (second % 3600 / 60) as u8,
        second: (second % 60) as u8,
    };
    (date, time)
}

/// The date and time that a representable epoch value falls on are those of `calendar_of`,
/// and no others.
pub proof fn lemma_calendar_of(epoch: int)
    requires
        representable(epoch),
    ensures
        falls_on(epoch, calendar_of(epoch).0, calendar_of(epoch).1),
        forall|date: CalendarDate, time: TimeOfDay| #[trigger]
            falls_on(epoch, date, time) ==> (date, time) == calendar_of(epoch),
{
    let c = lemma_epoch_exists(epoch);
    let chosen = calendar_of(epoch);
    assert forall|date: CalendarDate, time: TimeOfDay| #[trigger]
        falls_on(epoch, date, time) implies (date, time) == chosen by {
        lemma_epoch_injective(date, time, chosen.0, chosen.1);
    }
}

/// The epoch value of a date and a time of day is representable.
pub proof fn lemma_epoch_of_bounds(date: CalendarDate, time: TimeOfDay)
    requires
        date.wf(),
        time.wf(),
    ensures
        representable(epoch_of(date, time)),
{
    lemma_calendar_ends();
    if date != first_day() {
        lemma_days_ordered(first_day(), date);
    }
    if date != last_day() {
        lemma_days_ordered(date, last_day());
    }
}

/// An epoch value that falls on a date at a time is representable, and the date and time
/// of `calendar_of` are those.
pub proof fn lemma_falls_on(epoch: int, date: CalendarDate, time: TimeOfDay)
    requires
        falls_on(epoch, date, time),
    ensures
        representable(epoch),
        calendar_of(epoch) == (date, time),
{
    lemma_epoch_of_bounds(date, time);
    lemma_calendar_of(epoch);
}

/// An epoch value written in decimal is read back as it was.
pub proof fn lemma_epoch_text_round_trip(epoch: i64)
    ensures
        epoch_meaning(decimal_text(epoch as int)) == Ok::<i64, Failure>(epoch),
{
    lemma_decimal_text(epoch as int);
}

} // verus!
