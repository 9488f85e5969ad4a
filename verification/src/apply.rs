//! Applying a duration to an epoch value.

use vstd::prelude::*;
use crate::calendar::{
    add_months_to_date, add_years_to_date, lemma_added_dates, lemma_months_there_and_back,
    lemma_years_there_and_back, months_added, years_added, CalendarDate,
};
use crate::duration::Duration;
use crate::epoch::{
    calendar_of, calendar_to_epoch, epoch_of, epoch_to_calendar, falls_on, lemma_calendar_of,
    lemma_epoch_of_bounds, representable,
};
use crate::error::{EtError, Failure, outcome};
use crate::text::decimal_text;

verus! {

/// The date that `epoch` falls on, `n` months later.
pub open spec fn months_later(epoch: i64, n: i32) -> Option<CalendarDate> {
    months_added(calendar_of(epoch as int).0, n as int)
}

/// The date that `epoch` falls on, `n` years later.
pub open spec fn years_later(epoch: i64, n: i32) -> Option<CalendarDate> {
    years_added(calendar_of(epoch as int).0, n as int)
}

/// The epoch value that has the time of day of `epoch` on the date `target`. An `epoch`
/// outside the calendar is an error that names it, and a missing `target` is an overflow.
pub open spec fn moved_to(epoch: i64, target: Option<CalendarDate>) -> Result<i64, Failure> {
    if !representable(epoch as int) {
        Err(Failure::InvalidEpoch(decimal_text(epoch as int)))
    } else {
        match target {
            None => Err(Failure::Overflow),
            Some(date) => Ok(epoch_of(date, calendar_of(epoch as int).1) as i64),
        }
    }
}

/// The epoch value that lies `duration` after `epoch`. Seconds are added, and the sum must
/// fit in 64 bits. Months and years move the date that `epoch` falls on and keep its time of
/// day.
pub open spec fn applied(epoch: i64, duration: Duration) -> Result<i64, Failure> {
    match duration {
        Duration::Seconds(s) => if i64::MIN <= epoch + s <= i64::MAX {
            Ok((epoch + s) as i64)
        } else {
            Err(Failure::Overflow)
        },
        Duration::Months(n) => moved_to(epoch, months_later(epoch, n)),
        Duration::Years(n) => moved_to(epoch, years_later(epoch, n)),
    }
}

/// Applies a duration to an epoch value.
pub fn apply_duration(epoch: i64, duration: Duration) -> (r: Result<i64, EtError>)
    ensures
        outcome(r) == applied(epoch, duration),
{
    match duration {
        Duration::Seconds(seconds) => match epoch.checked_add(seconds) {
            Some(sum) => Ok(sum),
            None => Err(EtError::Overflow),
        },
        Duration::Months(months) => {
            let (date, time) = match epoch_to_calendar(epoch) {
                Ok(c) => c,
                Err(e) => {
                    return Err(e);
                },
            };
            match add_months_to_date(date, months) {
                Ok(moved) => Ok(calendar_to_epoch(moved, time)),
                Err(e) => Err(e),
            }
        },
        Duration::Years(years) => {
            let (date, time) = match epoch_to_calendar(epoch) {
                Ok(c) => c,
                Err(e) => {
                    return Err(e);
                },
            };
            match add_years_to_date(date, years) {
                Ok(moved) => Ok(calendar_to_epoch(moved, time)),
                Err(e) => Err(e),
            }
        },
    }
}

/// Moving an epoch value to another date gives an epoch value that falls on that date at
/// the time of day that it had.
pub proof fn lemma_moved_to(epoch: i64, target: CalendarDate)
    requires
        representable(epoch as int),
        target.wf(),
    ensures
        moved_to(epoch, Some(target)) matches Ok(later) && representable(later as int)
            && calendar_of(later as int) == (target, calendar_of(epoch as int).1),
{
    let time = calendar_of(epoch as int).1;
    lemma_calendar_of(epoch as int);
    lemma_epoch_of_bounds(target, time);
    lemma_calendar_of(epoch_of(target, time));
    assert(falls_on(epoch_of(target, time), target, time));
}

/// Adding months to an epoch value and then taking as many away gives the epoch value
/// again, if the addition did not have to pull the day of the month back.
pub proof fn lemma_months_round_trip(epoch: i64, n: i32)
    requires
        applied(epoch, Duration::Months(n)) is Ok,
        months_later(epoch, n).unwrap().day == calendar_of(epoch as int).0.day,
    ensures
        i32::MIN < n,
        applied(epoch, Duration::Months(n)) matches Ok(later) && applied(
            later,
            Duration::Months((-n) as i32),
        ) == Ok::<i64, Failure>(epoch),
{
    let date = calendar_of(epoch as int).0;
    lemma_calendar_of(epoch as int);
    lemma_added_dates(date, n as int);
    lemma_moved_to(epoch, months_later(epoch, n).unwrap());
    lemma_months_there_and_back(date, n as int);
}

/// Adding years to an epoch value and then taking as many away gives the epoch value again,
/// if the addition did not have to pull the day of the month back.
pub proof fn lemma_years_round_trip(epoch: i64, n: i32)
    requires
        applied(epoch, Duration::Years(n)) is Ok,
        years_later(epoch, n).unwrap().day == calendar_of(epoch as int).0.day,
    ensures
        i32::MIN < n,
        applied(epoch, Duration::Years(n)) matches Ok(later) && applied(
            later,
            Duration::Years((-n) as i32),
        ) == Ok::<i64, Failure>(epoch),
{
    let date = calendar_of(epoch as int).0;
    lemma_calendar_of(epoch as int);
    lemma_added_dates(date, n as int);
    lemma_moved_to(epoch, years_later(epoch, n).unwrap());
    lemma_years_there_and_back(date, n as int);
}

} // verus!
