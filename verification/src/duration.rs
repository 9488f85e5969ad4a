//! Duration tokens such as `+3h`, `-1Y` or `2months`, and the quick look that tells such a
//! token from an epoch value.

use vstd::prelude::*;
use crate::error::{EtError, Failure, outcome};
use crate::text::{
    all_digits, ascii_lower, ascii_lower_char, char_is_digit, chars_of, decimal_value,
    digit_prefix_len, is_digit, lemma_digit_prefix, lemma_digit_run, lemma_trimmed_whole,
    lowercase_text, parse_magnitude, scan_digits, spells_ignoring_case, to_lowercase, trim_bounds,
    trimmed,
};

verus! {

/// An offset that can be applied to an epoch value.
#[derive(Debug, Clone, Copy, PartialEq, Eq, Structural)]
pub enum Duration {
    /// An exact number of seconds.
    Seconds(i64),
    /// A number of calendar months.
    Months(i32),
    /// A number of calendar years.
    Years(i32),
}

/// The units that a duration token can name.
#[derive(Debug, Clone, Copy, PartialEq, Eq, Structural)]
pub enum Unit {
    /// A unit of a fixed length, given in seconds.
    Fixed(i64),
    /// The calendar month.
    Month,
    /// The calendar year.
    Year,
}

/// The unit that the suffix `u` of a token names. The calendar forms come first: `M` alone is
/// months, `Y` and `y` alone are years, and the words `mo`, `month`, `months`, `yr`, `year`,
/// `years` count in any case. Whatever is left is a fixed unit if it is empty (seconds) or one
/// of the letters `s`, `m`, `h`, `d`, `w` in either case.
pub open spec fn unit_named(u: Seq<char>) -> Option<Unit> {
    let l = ascii_lower(u);
    if u =~= seq!['M'] || l =~= seq!['m', 'o'] || l =~= seq!['m', 'o', 'n', 't', 'h']
        || l =~= seq!['m', 'o', 'n', 't', 'h', 's'] {
        Some(Unit::Month)
    } else if u =~= seq!['Y'] || u =~= seq!['y'] || l =~= seq!['y', 'r']
        || l =~= seq!['y', 'e', 'a', 'r'] || l =~= seq!['y', 'e', 'a', 'r', 's'] {
        Some(Unit::Year)
    } else if u.len() == 0 || l =~= seq!['s'] {
        Some(Unit::Fixed(1))
    } else if l =~= seq!['m'] {
        Some(Unit::Fixed(60))
    } else if l =~= seq!['h'] {
        Some(Unit::Fixed(3600))
    } else if l =~= seq!['d'] {
        Some(Unit::Fixed(86400))
    } else if l =~= seq!['w'] {
        Some(Unit::Fixed(604800))
    } else {
        None
    }
}

/// The duration of `amount` units: a 32-bit count of months or years, or the seconds of that
/// many fixed units; an overflow if the number does not fit.
pub open spec fn scaled(amount: int, unit: Unit) -> Result<Duration, Failure> {
    match unit {
        Unit::Month => if i32::MIN <= amount <= i32::MAX {
            Ok(Duration::Months(amount as i32))
        } else {
            Err(Failure::Overflow)
        },
        Unit::Year => if i32::MIN <= amount <= i32::MAX {
            Ok(Duration::Years(amount as i32))
        } else {
            Err(Failure::Overflow)
        },
        Unit::Fixed(seconds) => if i64::MIN <= amount * seconds <= i64::MAX {
            Ok(Duration::Seconds((amount * seconds) as i64))
        } else {
            Err(Failure::Overflow)
        },
    }
}

/// Whether a token starts with a sign.
pub open spec fn is_signed(token: Seq<char>) -> bool {
    token.len() > 0 && (token[0] == '+' || token[0] == '-')
}

/// What follows the sign of a token, if it has one: the digits and the suffix.
pub open spec fn body_of(token: Seq<char>) -> Seq<char> {
    if is_signed(token) {
        token.skip(1)
    } else {
        token
    }
}

/// What follows the digits of a token.
pub open spec fn suffix_of(token: Seq<char>) -> Seq<char> {
    body_of(token).skip(digit_prefix_len(body_of(token)) as int)
}

/// What a duration token means. The whitespace around it is left out. What is left is an
/// optional sign, one or more digits and a unit suffix; without digits, or with digits of a
/// number beyond 64 bits, it is invalid, and with a suffix that names no unit, unsupported.
pub open spec fn token_meaning(input: Seq<char>) -> Result<Duration, Failure> {
    let token = trimmed(input);
    let body = body_of(token);
    let width: nat = digit_prefix_len(body);
    let magnitude: nat = decimal_value(body.take(width as int));
    if token.len() == 0 {
        Err(Failure::InvalidDuration("empty"@))
    } else if width == 0 || magnitude > u64::MAX {
        Err(Failure::InvalidDuration(token))
    } else {
        match unit_named(suffix_of(token)) {
            None => Err(Failure::UnsupportedUnit(lowercase_text(suffix_of(token)))),
            Some(unit) => scaled(
                if token[0] == '-' {
                    -magnitude
                } else {
                    magnitude as int
                },
                unit,
            ),
        }
    }
}

/// Whether `c` is the last letter of a one-letter unit suffix.
pub open spec fn is_unit_letter(c: char) -> bool {
    c == 's' || c == 'm' || c == 'h' || c == 'd' || c == 'w' || c == 'S' || c == 'H' || c == 'D'
        || c == 'W' || c == 'M' || c == 'Y' || c == 'y'
}

/// Whether a token has the look of a duration: once the whitespace around it is left out, it
/// starts with a sign, or starts with a digit and ends with a unit letter.
pub open spec fn looks_like_duration(input: Seq<char>) -> bool {
    let token = trimmed(input);
    is_signed(token) || (token.len() > 0 && is_digit(token[0]) && is_unit_letter(token.last()))
}

/// Whether `c` is an ASCII letter.
pub open spec fn is_letter(c: char) -> bool {
    'a' <= c <= 'z' || 'A' <= c <= 'Z'
}

impl Duration {
    /// Reads a duration token: an optional sign, digits, and a unit suffix, with whitespace
    /// allowed around the whole. Without a suffix the digits count seconds.
    pub fn parse(s: &str) -> (r: Result<Duration, EtError>)
        ensures
            outcome(r) == token_meaning(s@),
    {
        let chars: Vec<char> = chars_of(s);
        let v: &[char] = chars.as_slice();
        let (start, end) = trim_bounds(v);
        if start == end {
            return Err(EtError::InvalidDuration("empty".to_owned()));
        }
        let ghost token = v@.subrange(start as int, end as int);
        let first: char = v[start];
        let digits_from: usize = if first == '+' || first == '-' {
            start + 1
        } else {
            start
        };
        let ghost body = v@.subrange(digits_from as int, end as int);
        assert(body =~= if first == '+' || first == '-' {
            token.skip(1)
        } else {
            token
        });
        let digits_to: usize = scan_digits(v, digits_from, end);
        let ghost width = digit_prefix_len(body);
        assert(body.take(width as int) =~= v@.subrange(digits_from as int, digits_to as int));
        assert(body.skip(width as int) =~= v@.subrange(digits_to as int, end as int));
        if digits_to == digits_from {
            return Err(EtError::InvalidDuration(s.substring_char(start, end).to_owned()));
        }
        let magnitude: u64 = match parse_magnitude(v, digits_from, digits_to) {
            Some(m) => m,
            None => {
                return Err(EtError::InvalidDuration(s.substring_char(start, end).to_owned()));
            },
        };
        let amount: i128 = if first == '-' {
            -(magnitude as i128)
        } else {
            magnitude as i128
        };
        match unit_at(v, digits_to, end) {
            None => Err(EtError::UnsupportedUnit(to_lowercase(s.substring_char(digits_to, end)))),
            Some(Unit::Month) => match calendar_count(amount) {
                Some(n) => Ok(Duration::Months(n)),
                None => Err(EtError::Overflow),
            },
            Some(Unit::Year) => match calendar_count(amount) {
                Some(n) => Ok(Duration::Years(n)),
                None => Err(EtError::Overflow),
            },
            Some(Unit::Fixed(seconds)) => match fixed_seconds(amount, seconds) {
                Some(n) => Ok(Duration::Seconds(n)),
                None => Err(EtError::Overflow),
            },
        }
    }

    /// The seconds of a fixed duration; a calendar duration has none of its own.
    pub fn as_seconds(&self) -> (r: Option<i64>)
        ensures
            r == (match *self {
                Duration::Seconds(s) => Some(s),
                _ => None,
            }),
    {
        match self {
            Duration::Seconds(s) => Some(*s),
            _ => None,
        }
    }
}

/// Tells whether a token should be read as a duration rather than as an epoch value. This
/// looks at the first and last character only, so it is no promise that the token parses.
pub fn is_duration(s: &str) -> (r: bool)
    ensures
        r == looks_like_duration(s@),
{
    let chars: Vec<char> = chars_of(s);
    let v: &[char] = chars.as_slice();
    let (start, end) = trim_bounds(v);
    if start == end {
        return false;
    }
    let ghost token = v@.subrange(start as int, end as int);
    let first: char = v[start];
    let last: char = v[end - 1];
    if first == '+' || first == '-' {
        return true;
    }
    char_is_digit(first) && (last == 's' || last == 'm' || last == 'h' || last == 'd' || last
        == 'w' || last == 'S' || last == 'H' || last == 'D' || last == 'W' || last == 'M' || last
        == 'Y' || last == 'y')
}

/// The unit that `v` names from `from` up to `to`.
fn unit_at(v: &[char], from: usize, to: usize) -> (r: Option<Unit>)
    requires
        from <= to <= v@.len(),
    ensures
        r == unit_named(v@.subrange(from as int, to as int)),
{
    let ghost u = v@.subrange(from as int, to as int);
    let single: bool = to - from == 1;
    assert(single ==> u[0] == v@[from as int]);
    if (single && v[from] == 'M') || spells_ignoring_case(v, from, to, &['m', 'o'])
        || spells_ignoring_case(v, from, to, &['m', 'o', 'n', 't', 'h'])
        || spells_ignoring_case(v, from, to, &['m', 'o', 'n', 't', 'h', 's']) {
        Some(Unit::Month)
    } else if (single && (v[from] == 'Y' || v[from] == 'y'))
        || spells_ignoring_case(v, from, to, &['y', 'r'])
        || spells_ignoring_case(v, from, to, &['y', 'e', 'a', 'r'])
        || spells_ignoring_case(v, from, to, &['y', 'e', 'a', 'r', 's']) {
        Some(Unit::Year)
    } else if from == to || spells_ignoring_case(v, from, to, &['s']) {
        Some(Unit::Fixed(1))
    } else if spells_ignoring_case(v, from, to, &['m']) {
        Some(Unit::Fixed(60))
    } else if spells_ignoring_case(v, from, to, &['h']) {
        Some(Unit::Fixed(3600))
    } else if spells_ignoring_case(v, from, to, &['d']) {
        Some(Unit::Fixed(86400))
    } else if spells_ignoring_case(v, from, to, &['w']) {
        Some(Unit::Fixed(604800))
    } else {
        None
    }
}

/// The amount of a calendar unit as a 32-bit count.
fn calendar_count(amount: i128) -> (r: Option<i32>)
    ensures
        r == (if i32::MIN <= amount <= i32::MAX {
            Some(amount as i32)
        } else {
            None
        }),
{
    if amount < i32::MIN as i128 || amount > i32::MAX as i128 {
        None
    } else {
        Some(amount as i32)
    }
}

/// The length in seconds of `amount` units of `seconds` seconds each.
fn fixed_seconds(amount: i128, seconds: i64) -> (r: Option<i64>)
    requires
        -0x1_0000_0000_0000_0000 < amount < 0x1_0000_0000_0000_0000,
        1 <= seconds <= 604800,
    ensures
        r == (if i64::MIN <= amount * seconds <= i64::MAX {
            Some((amount * seconds) as i64)
        } else {
            None
        }),
{
    assert(-0x1_0000_0000_0000_0000 * 604800 <= amount * seconds <= 0x1_0000_0000_0000_0000
        * 604800) by (nonlinear_arith)
        requires
            -0x1_0000_0000_0000_0000 < amount < 0x1_0000_0000_0000_0000,
            1 <= seconds <= 604800,
    ;
    let total: i128 = amount * (seconds as i128);
    if total < i64::MIN as i128 || total > i64::MAX as i128 {
        None
    } else {
        Some(total as i64)
    }
}

/// A suffix that names a unit is empty or starts and ends with a letter.
pub proof fn lemma_unit_letters(unit: Seq<char>)
    requires
        unit_named(unit) is Some,
    ensures
        unit.len() == 0 || (is_letter(unit.first()) && is_letter(unit.last())),
        unit.len() == 1 ==> is_unit_letter(unit[0]),
{
    if unit.len() > 0 {
        assert(ascii_lower(unit)[unit.len() - 1] == ascii_lower_char(unit[unit.len() - 1]));
    }
}

/// A sign or none, then the numeral of a number within 64 bits, then a suffix that names a
/// unit: such a token means that number of units, negative after a minus sign. For a fixed
/// unit that is the sign times the number times the seconds of the unit, or an overflow.
pub proof fn lemma_token_meaning(sign: Seq<char>, digits: Seq<char>, unit: Seq<char>)
    requires
        sign.len() == 0 || sign == seq!['+'] || sign == seq!['-'],
        digits.len() > 0,
        all_digits(digits),
        decimal_value(digits) <= u64::MAX,
        unit_named(unit) is Some,
    ensures
        token_meaning(sign + digits + unit) == scaled(
            if sign == seq!['-'] {
                -(decimal_value(digits) as int)
            } else {
                decimal_value(digits) as int
            },
            unit_named(unit).unwrap(),
        ),
{
    let token = sign + digits + unit;
    lemma_unit_letters(unit);
    lemma_trimmed_whole(token);
    assert(body_of(token) =~= digits + unit);
    lemma_digit_run(digits, unit);
}

/// A token that has a meaning, and a sign or a suffix of one letter, has the look of a
/// duration.
pub proof fn lemma_meaningful_token_looks_like_duration(input: Seq<char>)
    requires
        token_meaning(input) is Ok,
        is_signed(trimmed(input)) || suffix_of(trimmed(input)).len() == 1,
    ensures
        looks_like_duration(input),
{
    let token = trimmed(input);
    if !is_signed(token) {
        lemma_unit_letters(suffix_of(token));
        lemma_digit_prefix(token);
    }
}

/// A token of digits alone has not the look of a duration.
pub proof fn lemma_bare_number_is_no_duration(input: Seq<char>)
    requires
        all_digits(trimmed(input)),
    ensures
        !looks_like_duration(input),
{
}

} // verus!
