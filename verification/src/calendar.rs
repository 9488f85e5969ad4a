//! Dates of the proleptic Gregorian calendar, times of day, and the offsets by months and
//! years that keep the day of the month where the target month has it.

use vstd::prelude::*;
use crate::error::{EtError, Failure};

verus! {

/// The first year that a date can lie in: the dates of the `time` crate begin with it.
pub const MIN_YEAR: i32 = -9999;

/// The last year that a date can lie in: the dates of the `time` crate end with it.
pub const MAX_YEAR: i32 = 9999;

/// Whether `year` is a leap year: divisible by 4 and, if by 100, then also by 400.
pub open spec fn leap_year(year: int) -> bool {
    year % 4 == 0 && (year % 100 != 0 || year % 400 == 0)
}

/// The number of days of month `month` (1 to 12) in `year`.
pub open spec fn month_length(year: int, month: int) -> int
    recommends
        1 <= month <= 12,
{
    if month == 2 {
        if leap_year(year) {
            29
        } else {
            28
        }
    } else if month == 4 || month == 6 || month == 9 || month == 11 {
        30
    } else {
        31
    }
}

/// A day of the calendar.
#[derive(Debug, Clone, Copy, PartialEq, Eq, Structural)]
pub struct CalendarDate {
    pub year: i32,
    pub month: u8,
    pub day: u8,
}

impl CalendarDate {
    /// Whether this is a day that exists: the year within bounds, the month from 1 to 12 and
    /// the day no later than the month's last.
    pub open spec fn wf(self) -> bool {
        &&& MIN_YEAR <= self.year <= MAX_YEAR
        &&& 1 <= self.month <= 12
        &&& 1 <= self.day <= month_length(self.year as int, self.month as int)
    }

    /// The date of the given year, month and day, if there is such a day.
    pub fn new(year: i32, month: u8, day: u8) -> (r: Option<CalendarDate>)
        ensures
            r == (if (CalendarDate { year, month, day }).wf() {
                Some(CalendarDate { year, month, day })
            } else {
                None
            }),
    {
        if MIN_YEAR <= year && year <= MAX_YEAR && 1 <= month && month <= 12 && 1 <= day && day
            <= days_in_month(year, month) {
            Some(CalendarDate { year, month, day })
        } else {
            None
        }
    }
}

/// A second of the day.
#[derive(Debug, Clone, Copy, PartialEq, Eq, Structural)]
pub struct TimeOfDay {
    pub hour: u8,
    pub minute: u8,
    pub second: u8,
}

impl TimeOfDay {
    /// Whether this is a second that a day has.
    pub open spec fn wf(self) -> bool {
        self.hour < 24 && self.minute < 60 && self.second < 60
    }

    /// The time of the given hour, minute and second, if a day has it.
    pub fn new(hour: u8, minute: u8, second: u8) -> (r: Option<TimeOfDay>)
        ensures
            r == (if (TimeOfDay { hour, minute, second }).wf() {
                Some(TimeOfDay { hour, minute, second })
            } else {
                None
            }),
    {
        if hour < 24 && minute < 60 && second < 60 {
            Some(TimeOfDay { hour, minute, second })
        } else {
            None
        }
    }
}

/// The day `day` pulled back to the last day of the given month if the month is shorter.
pub open spec fn clamped_day(year: int, month: int, day: int) -> int {
    if day <= month_length(year, month) {
        day
    } else {
        month_length(year, month)
    }
}

/// The date `n` months after `date` (before it, if `n` is negative). The months are counted
/// through the years; the day of the month stays, or becomes the last day of the target month
/// if that month is shorter. There is no such date if its year is out of bounds.
pub open spec fn months_added(date: CalendarDate, n: int) -> Option<CalendarDate> {
    let index: int = date.year * 12 + (date.month - 1) + n;
    let year: int = index / 12;
    let month: int = index % 12 + 1;
    if MIN_YEAR <= year <= MAX_YEAR {
        Some(
            CalendarDate {
                year: year as i32,
                month: month as u8,
                day: clamped_day(year, month, date.day as int) as u8,
            },
        )
    } else {
        None
    }
}

/// The date `n` years after `date` (before it, if `n` is negative). The month stays; the day
/// stays too, except that 29 February becomes 28 February in a year that is no leap year.
/// There is no such date if its year is out of bounds.
pub open spec fn years_added(date: CalendarDate, n: int) -> Option<CalendarDate> {
    let year: int = date.year + n;
    if MIN_YEAR <= year <= MAX_YEAR {
        Some(
            CalendarDate {
                year: year as i32,
                month: date.month,
                day: clamped_day(year, date.month as int, date.day as int) as u8,
            },
        )
    } else {
        None
    }
}

/// Tells whether `year` is a leap year.
pub fn is_leap_year(year: i32) -> (r: bool)
    ensures
        r == leap_year(year as int),
{
    year % 4 == 0 && (year % 100 != 0 || year % 400 == 0)
}

/// The number of days of month `month` in `year`.
pub fn days_in_month(year: i32, month: u8) -> (r: u8)
    requires
        1 <= month <= 12,
    ensures
        r == month_length(year as int, month as int),
{
    if month == 2 {
        if is_leap_year(year) {
            29
        } else {
            28
        }
    } else if month == 4 || month == 6 || month == 9 || month == 11 {
        30
    } else {
        31
    }
}

/// Moves `date` by `months` calendar months, clamping the day to the target month.
pub fn add_months_to_date(date: CalendarDate, months: i32) -> (r: Result<CalendarDate, EtError>)
    requires
        date.wf(),
    ensures
        match r {
            Ok(moved) => months_added(date, months as int) == Some(moved) && moved.wf(),
            Err(e) => months_added(date, months as int) is None && e@ == Failure::Overflow,
        },
{
    let index: i64 = (date.year as i64) * 12 + (date.month as i64 - 1) + (months as i64);
    let quotient: i64 = index / 12;
    let remainder: i64 = index % 12;
    let (year, month0): (i64, i64) = if remainder < 0 {
        (quotient - 1, remainder + 12)
    } else {
        (quotient, remainder)
    };
    if year < MIN_YEAR as i64 || year > MAX_YEAR as i64 {
        return Err(EtError::Overflow);
    }
    let new_year: i32 = year as i32;
    let new_month: u8 = (month0 + 1) as u8;
    let last: u8 = days_in_month(new_year, new_month);
    let new_day: u8 = if date.day <= last {
        date.day
    } else {
        last
    };
    Ok(CalendarDate { year: new_year, month: new_month, day: new_day })
}

/// Moves `date` by `years` calendar years, clamping the day to the target month.
pub fn add_years_to_date(date: CalendarDate, years: i32) -> (r: Result<CalendarDate, EtError>)
    requires
        date.wf(),
    ensures
        match r {
            Ok(moved) => years_added(date, years as int) == Some(moved) && moved.wf(),
            Err(e) => years_added(date, years as int) is None && e@ == Failure::Overflow,
        },
{
    let new_year: i32 = match date.year.checked_add(years) {
        Some(y) => y,
        None => {
            return Err(EtError::Overflow);
        },
    };
    if new_year < MIN_YEAR || new_year > MAX_YEAR {
        return Err(EtError::Overflow);
    }
    let last: u8 = days_in_month(new_year, date.month);
    let new_day: u8 = if date.day <= last {
        date.day
    } else {
        last
    };
    Ok(CalendarDate { year: new_year, month: date.month, day: new_day })
}

/// A date moved by months or by years is a date again, with a day that is the day it had or
/// else the last of its month.
pub proof fn lemma_added_dates(date: CalendarDate, n: int)
    requires
        date.wf(),
    ensures
        months_added(date, n) matches Some(moved) ==> moved.wf() && (moved.day == date.day || (
            moved.day < date.day && moved.day == month_length(
                moved.year as int,
                moved.month as int,
            ))),
        years_added(date, n) matches Some(moved) ==> moved.wf() && moved.month == date.month && (
            moved.day == date.day || (date.month == 2 && date.day == 29 && moved.day == 28)),
{
}

/// Moving a date by months and back by as many gives the date again, if the day of the
/// month was kept on the way.
pub proof fn lemma_months_there_and_back(date: CalendarDate, n: int)
    requires
        date.wf(),
        months_added(date, n) matches Some(moved) && moved.day == date.day,
    ensures
        months_added(months_added(date, n).unwrap(), -n) == Some(date),
{
}

/// Moving a date by years and back by as many gives the date again, if the day of the month
/// was kept on the way.
pub proof fn lemma_years_there_and_back(date: CalendarDate, n: int)
    requires
        date.wf(),
        years_added(date, n) matches Some(moved) && moved.day == date.day,
    ensures
        years_added(years_added(date, n).unwrap(), -n) == Some(date),
{
}

} // verus!
