//! ISO-8601 timestamps: the UTC text of an epoch value, and the epoch value of a timestamp
//! that says which offset from UTC it is written in.

use vstd::prelude::*;
use crate::calendar::{CalendarDate, TimeOfDay};
use crate::epoch::{
    calendar_of, day_number, epoch_of, epoch_to_calendar, lemma_calendar_of, lemma_days_ordered,
    representable, MAX_EPOCH,
};
use crate::error::{EtError, Failure, outcome};
use crate::text::{
    chars_of, decimal_string, decimal_text, digit_char, digit_value, is_digit,
    lemma_trimmed_whole, trim_bounds, trimmed,
};

verus! {

/// The epoch value of the first second of year 0, the first year that is written without
/// a sign.
pub const YEAR_ZERO_EPOCH: i64 = -62_167_219_200;

/// The text `YYYY-MM-DDTHH:MM:SSZ` of a date and a time of day: every field in decimal with
/// leading zeros, the year with four digits and a minus sign in front if it is negative.
pub open spec fn iso_text(date: CalendarDate, time: TimeOfDay) -> Seq<char> {
    let year: int = if date.year < 0 {
        -date.year
    } else {
        date.year as int
    };
    let unsigned = seq![
        digit_char(year / 1000),
        digit_char(year / 100 % 10),
        digit_char(year / 10 % 10),
        digit_char(year % 10),
        '-',
        digit_char(date.month as int / 10),
        digit_char(date.month as int % 10),
        '-',
        digit_char(date.day as int / 10),
        digit_char(date.day as int % 10),
        'T',
        digit_char(time.hour as int / 10),
        digit_char(time.hour as int % 10),
        ':',
        digit_char(time.minute as int / 10),
        digit_char(time.minute as int % 10),
        ':',
        digit_char(time.second as int / 10),
        digit_char(time.second as int % 10),
        'Z',
    ];
    if date.year < 0 {
        seq!['-'] + unsigned
    } else {
        unsigned
    }
}

/// The UTC text of `epoch`; an epoch value outside the calendar is an error that names it.
pub open spec fn formatted(epoch: i64) -> Result<Seq<char>, Failure> {
    if representable(epoch as int) {
        Ok(iso_text(calendar_of(epoch as int).0, calendar_of(epoch as int).1))
    } else {
        Err(Failure::InvalidEpoch(decimal_text(epoch as int)))
    }
}

/// Whether the character `c` at index `i` of a timestamp marks an offset.
pub open spec fn is_timezone_mark(c: char, i: int) -> bool {
    c == 'Z' || c == '+' || (c == '-' && i > 10)
}

/// Whether a timestamp says which offset it is written in: it holds a `Z` or a `+`
/// somewhere, or a `-` behind the date, that is after its eleventh character.
pub open spec fn has_timezone_mark(text: Seq<char>) -> bool {
    exists|i: int| 0 <= i < text.len() && is_timezone_mark(#[trigger] text[i], i)
}

/// The number that the four characters of `s` from `i` on denote, if they are digits.
pub open spec fn four_digits_at(s: Seq<char>, i: int) -> int {
    1000 * digit_value(s[i]) + 100 * digit_value(s[i + 1]) + 10 * digit_value(s[i + 2])
        + digit_value(s[i + 3])
}

/// The number that the two characters of `s` from `i` on denote, if they are digits.
pub open spec fn two_digits_at(s: Seq<char>, i: int) -> int {
    10 * digit_value(s[i]) + digit_value(s[i + 1])
}

/// Whether `s` starts with the shape `dddd-dd-ddTdd:dd:dd`, with a digit for every `d`.
pub open spec fn has_date_time_shape(s: Seq<char>) -> bool {
    &&& s.len() >= 19
    &&& is_digit(s[0]) && is_digit(s[1]) && is_digit(s[2]) && is_digit(s[3])
    &&& s[4] == '-'
    &&& is_digit(s[5]) && is_digit(s[6])
    &&& s[7] == '-'
    &&& is_digit(s[8]) && is_digit(s[9])
    &&& s[10] == 'T'
    &&& is_digit(s[11]) && is_digit(s[12])
    &&& s[13] == ':'
    &&& is_digit(s[14]) && is_digit(s[15])
    &&& s[16] == ':'
    &&& is_digit(s[17]) && is_digit(s[18])
}

/// The date that a text of that shape starts with, if its fields are those of a date.
pub open spec fn written_date(s: Seq<char>) -> Option<CalendarDate> {
    let date = CalendarDate {
        year: four_digits_at(s, 0) as i32,
        month: two_digits_at(s, 5) as u8,
        day: two_digits_at(s, 8) as u8,
    };
    if has_date_time_shape(s) && date.wf() {
        Some(date)
    } else {
        None
    }
}

/// The time of day that follows the date in a text of that shape, if its fields are those
/// of a time of day.
pub open spec fn written_time(s: Seq<char>) -> Option<TimeOfDay> {
    let time = TimeOfDay {
        hour: two_digits_at(s, 11) as u8,
        minute: two_digits_at(s, 14) as u8,
        second: two_digits_at(s, 17) as u8,
    };
    if has_date_time_shape(s) && time.wf() {
        Some(time)
    } else {
        None
    }
}

/// The seconds east of UTC that a text of that shape ends with: none after `Z`, and the
/// hours and minutes after `+hh:mm`, up to 23 hours and 59 minutes, negative after `-hh:mm`.
pub open spec fn written_offset(s: Seq<char>) -> Option<int> {
    if s.len() == 20 && s[19] == 'Z' {
        Some(0)
    } else if s.len() == 25 && (s[19] == '+' || s[19] == '-') && is_digit(s[20]) && is_digit(s[21])
        && s[22] == ':' && is_digit(s[23]) && is_digit(s[24]) && two_digits_at(s, 20) <= 23
        && two_digits_at(s, 23) <= 59 {
        if s[19] == '-' {
            Some(-(3600 * two_digits_at(s, 20) + 60 * two_digits_at(s, 23)))
        } else {
            Some(3600 * two_digits_at(s, 20) + 60 * two_digits_at(s, 23))
        }
    } else {
        None
    }
}

/// The epoch value of a timestamp of the shape `YYYY-MM-DDTHH:MM:SS` with `Z` or `+hh:mm` or
/// `-hh:mm` behind it: that of the date and time that it spells out, taken as UTC, less the
/// offset.
pub open spec fn plain_instant(s: Seq<char>) -> Option<int> {
    match (written_date(s), written_time(s), written_offset(s)) {
        (Some(date), Some(time), Some(offset)) => Some(epoch_of(date, time) - offset),
        _ => None,
    }
}

/// What `time::OffsetDateTime::parse` makes of `s` with the format `Iso8601::PARSING`: the
/// epoch value of the moment that `s` denotes, or nothing if it rejects `s`.
pub uninterp spec fn iso8601_parse(s: Seq<char>) -> Option<i64>;

/// The epoch value of the moment that the ISO-8601 timestamp `s` denotes, if it is one.
pub open spec fn iso_instant(s: Seq<char>) -> Option<i64> {
    match plain_instant(s) {
        Some(epoch) => Some(epoch as i64),
        None => iso8601_parse(s),
    }
}

/// What an ISO-8601 timestamp means: the whitespace around it is left out; without a
/// timezone mark it is refused as such; otherwise it is the epoch value of the moment that
/// it denotes, or refused as invalid.
pub open spec fn timestamp_meaning(input: Seq<char>) -> Result<i64, Failure> {
    let text = trimmed(input);
    if !has_timezone_mark(text) {
        Err(Failure::MissingTimezone(text))
    } else {
        match iso_instant(text) {
            Some(epoch) => Ok(epoch),
            None => Err(Failure::InvalidIso(text)),
        }
    }
}

/// The description of the UTC text in the notation of `time::format_description`.
const UTC_DESCRIPTION: &'static str =
    "[year]-[month padding:zero]-[day padding:zero]T[hour padding:zero]:[minute padding:zero]:[second padding:zero]Z";

/// Builds the `time::OffsetDateTime` of the given date and time at offset zero and calls its
/// `format` with the description that `time::format_description::parse_borrowed` makes of
/// `description`. Taken on trust: with the description above neither call fails, and the
/// text is the fields in the order of the description, each padded with zeros to its width,
/// the year of four digits after a minus sign if it is negative.
#[verifier::external_body]
fn format_utc(date: CalendarDate, time_of_day: TimeOfDay, description: &str) -> (r: Option<String>)
    requires
        date.wf(),
        time_of_day.wf(),
        description@ == UTC_DESCRIPTION@,
    ensures
        r is Some,
        r matches Some(text) ==> text@ == iso_text(date, time_of_day),
{
    let items = time::format_description::parse_borrowed::<1>(description).ok()?;
    let month = time::Month::try_from(date.month).ok()?;
    let day = time::Date::from_calendar_date(date.year, month, date.day).ok()?;
    let clock = time::Time::from_hms(time_of_day.hour, time_of_day.minute, time_of_day.second).ok()?;
    day.with_time(clock).assume_offset(time::UtcOffset::UTC).format(&items).ok()
}

/// Calls `time::OffsetDateTime::parse` with the format `Iso8601::PARSING`, and
/// `unix_timestamp` on the value that it returns. Taken on trust: a text of the shape
/// `YYYY-MM-DDTHH:MM:SS` with `Z`, `+hh:mm` or `-hh:mm` behind it, which spells out a date, a
/// time of day and an offset of less than a day, is accepted and gives the epoch value of
/// that date and time less the offset; of any other text the result is the named one.
#[verifier::external_body]
fn parse_iso8601(s: &str) -> (r: Option<i64>)
    ensures
        plain_instant(s@) matches Some(epoch) ==> r == Some(epoch as i64),
        plain_instant(s@) is None ==> r == iso8601_parse(s@),
{
    match time::OffsetDateTime::parse(s, &time::format_description::well_known::Iso8601::PARSING) {
        Ok(moment) => Some(moment.unix_timestamp()),
        Err(_) => None,
    }
}

/// Writes an epoch value as an ISO-8601 timestamp in UTC.
pub fn format_iso(epoch: i64) -> (r: Result<String, EtError>)
    ensures
        match r {
            Ok(text) => formatted(epoch) == Ok::<Seq<char>, Failure>(text@),
            Err(e) => formatted(epoch) == Err::<Seq<char>, Failure>(e@),
        },
{
    let (date, time) = match epoch_to_calendar(epoch) {
        Ok(c) => c,
        Err(e) => {
            return Err(e);
        },
    };
    match format_utc(date, time, UTC_DESCRIPTION) {
        Some(text) => Ok(text),
        None => Err(EtError::InvalidEpoch(decimal_string(epoch))),
    }
}

/// Reads an ISO-8601 timestamp and gives its epoch value.
pub fn parse_iso(s: &str) -> (r: Result<i64, EtError>)
    ensures
        outcome(r) == timestamp_meaning(s@),
{
    let chars: Vec<char> = chars_of(s);
    let (start, end) = trim_bounds(chars.as_slice());
    let text: &str = s.substring_char(start, end);
    if !holds_timezone_mark(chars.as_slice(), start, end) {
        return Err(EtError::MissingTimezone(text.to_owned()));
    }
    timestamp_from(text, parse_iso8601(text))
}

/// The result of reading the timestamp `text`, which has a timezone mark, given what the
/// ISO-8601 parser made of it: the epoch value, or the error that names `text` as invalid.
pub fn timestamp_from(text: &str, parsed: Option<i64>) -> (r: Result<i64, EtError>)
    ensures
        outcome(r) == (match parsed {
            Some(epoch) => Ok::<i64, Failure>(epoch),
            None => Err::<i64, Failure>(Failure::InvalidIso(text@)),
        }),
{
    match parsed {
        Some(epoch) => Ok(epoch),
        None => Err(EtError::InvalidIso(text.to_owned())),
    }
}

/// Tells whether `v` from `from` up to `to` holds a timezone mark.
fn holds_timezone_mark(v: &[char], from: usize, to: usize) -> (r: bool)
    requires
        from <= to <= v@.len(),
    ensures
        r == has_timezone_mark(v@.subrange(from as int, to as int)),
{
    let ghost text = v@.subrange(from as int, to as int);
    let mut k: usize = from;
    while k < to
        invariant
            from <= k <= to <= v@.len(),
            text == v@.subrange(from as int, to as int),
            forall|i: int| 0 <= i < k - from ==> !is_timezone_mark(#[trigger] text[i], i),
        decreases to - k,
    {
        let c: char = v[k];
        if c == 'Z' || c == '+' || (c == '-' && k - from > 10) {
            assert(is_timezone_mark(text[k - from], k - from));
            return true;
        }
        k += 1;
    }
    false
}

/// A digit is written with the character that stands for it.
proof fn lemma_digit_char(d: int)
    requires
        0 <= d <= 9,
    ensures
        is_digit(digit_char(d)),
        digit_value(digit_char(d)) == d,
{
}

/// A number below 100 is made up of its two decimal places.
proof fn lemma_two_places(n: int)
    requires
        0 <= n <= 99,
    ensures
        0 <= n / 10 <= 9,
        0 <= n % 10 <= 9,
        10 * (n / 10) + n % 10 == n,
{
}

/// A number below 10000 is made up of its four decimal places.
proof fn lemma_four_places(n: int)
    requires
        0 <= n <= 9999,
    ensures
        0 <= n / 1000 <= 9,
        0 <= n / 100 % 10 <= 9,
        0 <= n / 10 % 10 <= 9,
        0 <= n % 10 <= 9,
        1000 * (n / 1000) + 100 * (n / 100 % 10) + 10 * (n / 10 % 10) + n % 10 == n,
{
}

/// The two digits that are written for a number below 100 denote that number.
proof fn lemma_two_digits(s: Seq<char>, i: int, n: int)
    requires
        0 <= n <= 99,
        0 <= i,
        i + 1 < s.len(),
        s[i] == digit_char(n / 10),
        s[i + 1] == digit_char(n % 10),
    ensures
        is_digit(s[i]),
        is_digit(s[i + 1]),
        two_digits_at(s, i) == n,
{
    lemma_two_places(n);
    lemma_digit_char(n / 10);
    lemma_digit_char(n % 10);
}

/// The four digits that are written for a number below 10000 denote that number.
proof fn lemma_four_digits(s: Seq<char>, n: int)
    requires
        0 <= n <= 9999,
        4 <= s.len(),
        s[0] == digit_char(n / 1000),
        s[1] == digit_char(n / 100 % 10),
        s[2] == digit_char(n / 10 % 10),
        s[3] == digit_char(n % 10),
    ensures
        is_digit(s[0]),
        is_digit(s[1]),
        is_digit(s[2]),
        is_digit(s[3]),
        four_digits_at(s, 0) == n,
{
    lemma_four_places(n);
    lemma_digit_char(n / 1000);
    lemma_digit_char(n / 100 % 10);
    lemma_digit_char(n / 10 % 10);
    lemma_digit_char(n % 10);
}

/// The text of a date from year 0 on spells out that date and time.
pub proof fn lemma_text_spells_fields(date: CalendarDate, time: TimeOfDay)
    requires
        date.wf(),
        time.wf(),
        date.year >= 0,
    ensures
        iso_text(date, time).len() == 20,
        is_digit(iso_text(date, time)[0]),
        iso_text(date, time)[19] == 'Z',
        plain_instant(iso_text(date, time)) == Some(epoch_of(date, time)),
{
    let s = iso_text(date, time);
    lemma_four_digits(s, date.year as int);
    lemma_two_digits(s, 5, date.month as int);
    lemma_two_digits(s, 8, date.day as int);
    lemma_two_digits(s, 11, time.hour as int);
    lemma_two_digits(s, 14, time.minute as int);
    lemma_two_digits(s, 17, time.second as int);
}

/// A timestamp with an offset denotes the moment that lies as long before the moment of the
/// same date and time in UTC as the offset is long; after it, if the offset is negative.
pub proof fn lemma_offset_shifts_moment(s: Seq<char>)
    requires
        plain_instant(s) is Some,
    ensures
        plain_instant(s.take(19).push('Z')) matches Some(utc) && plain_instant(s) == Some(
            utc - written_offset(s).unwrap(),
        ),
{
    let z = s.take(19).push('Z');
    assert(forall|i: int| 0 <= i < 19 ==> z[i] == s[i]);
}

/// An epoch value from year 0 on falls on a date from year 0 on.
pub proof fn lemma_unsigned_year(epoch: i64)
    requires
        YEAR_ZERO_EPOCH <= epoch <= MAX_EPOCH,
    ensures
        calendar_of(epoch as int).0.year >= 0,
{
    lemma_calendar_of(epoch as int);
    let date = calendar_of(epoch as int).0;
    let first = CalendarDate { year: 0, month: 1, day: 1 };
    assert(86400 * day_number(first) == YEAR_ZERO_EPOCH);
    if date.year < 0 {
        lemma_days_ordered(date, first);
    }
}

/// Writing an epoch value from year 0 on as a timestamp and reading the timestamp gives the
/// epoch value again.
pub proof fn lemma_format_parse_round_trip(epoch: i64)
    requires
        YEAR_ZERO_EPOCH <= epoch <= MAX_EPOCH,
    ensures
        formatted(epoch) matches Ok(text) && timestamp_meaning(text) == Ok::<i64, Failure>(epoch),
{
    lemma_calendar_of(epoch as int);
    lemma_unsigned_year(epoch);
    let (date, time) = calendar_of(epoch as int);
    lemma_text_spells_fields(date, time);
    lemma_trimmed_whole(iso_text(date, time));
}

} // verus!
