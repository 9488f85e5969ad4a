//! What a command line asks for, and what a line of input gives: the decisions of a front
//! end that reads arguments and lines and prints epoch values.

use vstd::prelude::*;
use crate::apply::{applied, apply_duration};
use crate::duration::{is_duration, looks_like_duration, token_meaning, Duration};
use crate::epoch::{epoch_meaning, parse_epoch};
use crate::error::{EtError, Failure, outcome};
use crate::text::{chars_of, trim_bounds, trimmed};

verus! {

/// What is to be printed.
#[derive(Debug, Clone, Copy, PartialEq, Eq)]
pub enum Plan {
    /// Every epoch value that the input holds, one to a line, moved by the duration if there
    /// is one; the current moment, moved likewise, if there is no input.
    Stream(Option<Duration>),
    /// The current moment, moved by the duration if there is one.
    Now(Option<Duration>),
    /// The given epoch value, moved by the duration if there is one.
    Epoch(i64, Option<Duration>),
}

/// The epoch value `epoch` moved by `duration`, if there is one.
pub open spec fn shifted(epoch: i64, duration: Option<Duration>) -> Result<i64, Failure> {
    match duration {
        Some(d) => applied(epoch, d),
        None => Ok(epoch),
    }
}

/// Moves an epoch value by a duration, if there is one.
pub fn shift(epoch: i64, duration: Option<Duration>) -> (r: Result<i64, EtError>)
    ensures
        outcome(r) == shifted(epoch, duration),
{
    match duration {
        Some(d) => apply_duration(epoch, d),
        None => Ok(epoch),
    }
}

/// What a line of input gives: nothing if it is blank, else the epoch value that it holds,
/// moved by `duration` if there is one.
pub open spec fn line_meaning(line: Seq<char>, duration: Option<Duration>) -> Option<
    Result<i64, Failure>,
> {
    if trimmed(line).len() == 0 {
        None
    } else {
        Some(
            match epoch_meaning(line) {
                Ok(epoch) => shifted(epoch, duration),
                Err(failure) => Err(failure),
            },
        )
    }
}

/// Reads one line of input.
pub fn process_line(line: &str, duration: Option<Duration>) -> (r: Option<Result<i64, EtError>>)
    ensures
        match r {
            Some(result) => line_meaning(line@, duration) == Some(outcome(result)),
            None => line_meaning(line@, duration) is None,
        },
{
    let chars: Vec<char> = chars_of(line);
    let (start, end) = trim_bounds(chars.as_slice());
    if start == end {
        return None;
    }
    match parse_epoch(line) {
        Ok(epoch) => Some(shift(epoch, duration)),
        Err(e) => Some(Err(e)),
    }
}

/// What the arguments of a command line ask for. None: the input. One: the current moment
/// if it is the word `now`, the input moved by it if it has the look of a duration, else the
/// epoch value that it holds. Two: the current moment or an epoch value, moved by a
/// duration. More are refused.
pub open spec fn planned(args: Seq<String>) -> Result<Plan, Failure> {
    if args.len() == 0 {
        Ok(Plan::Stream(None))
    } else if args.len() == 1 {
        if args[0]@ == "now"@ {
            Ok(Plan::Now(None))
        } else if looks_like_duration(args[0]@) {
            match token_meaning(args[0]@) {
                Ok(d) => Ok(Plan::Stream(Some(d))),
                Err(failure) => Err(failure),
            }
        } else {
            match epoch_meaning(args[0]@) {
                Ok(epoch) => Ok(Plan::Epoch(epoch, None)),
                Err(failure) => Err(failure),
            }
        }
    } else if args.len() == 2 {
        if args[0]@ == "now"@ {
            match token_meaning(args[1]@) {
                Ok(d) => Ok(Plan::Now(Some(d))),
                Err(failure) => Err(failure),
            }
        } else {
            match epoch_meaning(args[0]@) {
                Err(failure) => Err(failure),
                Ok(epoch) => match token_meaning(args[1]@) {
                    Ok(d) => Ok(Plan::Epoch(epoch, Some(d))),
                    Err(failure) => Err(failure),
                },
            }
        }
    } else {
        Err(Failure::InvalidDuration("too many arguments"@))
    }
}

/// Tells whether `s` is the word `now`.
fn is_now(s: &str) -> (r: bool)
    ensures
        r == (s@ == "now"@),
{
    proof {
        reveal_strlit("now");
    }
    let chars: Vec<char> = chars_of(s);
    let r: bool = chars.len() == 3 && chars[0] == 'n' && chars[1] == 'o' && chars[2] == 'w';
    assert(r == (s@ =~= "now"@));
    r
}

/// Decides what the arguments of a command line ask for.
pub fn plan(args: &[String]) -> (r: Result<Plan, EtError>)
    ensures
        outcome(r) == planned(args@),
{
    if args.len() == 0 {
        Ok(Plan::Stream(None))
    } else if args.len() == 1 {
        let arg: &str = args[0].as_str();
        if is_now(arg) {
            Ok(Plan::Now(None))
        } else if is_duration(arg) {
            match Duration::parse(arg) {
                Ok(d) => Ok(Plan::Stream(Some(d))),
                Err(e) => Err(e),
            }
        } else {
            match parse_epoch(arg) {
                Ok(epoch) => Ok(Plan::Epoch(epoch, None)),
                Err(e) => Err(e),
            }
        }
    } else if args.len() == 2 {
        if is_now(args[0].as_str()) {
            match Duration::parse(args[1].as_str()) {
                Ok(d) => Ok(Plan::Now(Some(d))),
                Err(e) => Err(e),
            }
        } else {
            let epoch: i64 = match parse_epoch(args[0].as_str()) {
                Ok(epoch) => epoch,
                Err(e) => {
                    return Err(e);
                },
            };
            match Duration::parse(args[1].as_str()) {
                Ok(d) => Ok(Plan::Epoch(epoch, Some(d))),
                Err(e) => Err(e),
            }
        }
    } else {
        Err(EtError::InvalidDuration("too many arguments".to_owned()))
    }
}

} // verus!
