//! The errors of the library, and what they say.

use vstd::prelude::*;

verus! {

/// Makes `std::io::Error` known as a type, so that an error can carry one. Nothing is said
/// of what such a value holds.
#[verifier::external_type_specification]
#[verifier::external_body]
pub struct ExIoError(std::io::Error);

/// Everything that can go wrong, with the offending input where there is one.
#[derive(Debug)]
pub enum EtError {
    /// A text is no epoch value, or an epoch value falls on no date of the calendar.
    InvalidEpoch(String),
    /// A duration token has no digits where they belong, or too many.
    InvalidDuration(String),
    /// A duration token has digits, followed by a suffix that names no unit.
    UnsupportedUnit(String),
    /// A timestamp has a timezone mark and is still no ISO-8601 timestamp.
    InvalidIso(String),
    /// A timestamp has no timezone mark.
    MissingTimezone(String),
    /// A number went beyond what its type holds, or a date beyond the calendar.
    Overflow,
    /// There was nothing to read.
    NoInput,
    /// Reading or writing failed.
    Io(std::io::Error),
}

/// What an [`EtError`] says: its kind, and the text that it carries.
pub enum Failure {
    InvalidEpoch(Seq<char>),
    InvalidDuration(Seq<char>),
    UnsupportedUnit(Seq<char>),
    InvalidIso(Seq<char>),
    MissingTimezone(Seq<char>),
    Overflow,
    NoInput,
    Io,
}

impl View for EtError {
    type V = Failure;

    open spec fn view(&self) -> Failure {
        match self {
            EtError::InvalidEpoch(s) => Failure::InvalidEpoch(s@),
            EtError::InvalidDuration(s) => Failure::InvalidDuration(s@),
            EtError::UnsupportedUnit(s) => Failure::UnsupportedUnit(s@),
            EtError::InvalidIso(s) => Failure::InvalidIso(s@),
            EtError::MissingTimezone(s) => Failure::MissingTimezone(s@),
            EtError::Overflow => Failure::Overflow,
            EtError::NoInput => Failure::NoInput,
            EtError::Io(_) => Failure::Io,
        }
    }
}

/// A result with the error replaced by what it says.
pub open spec fn outcome<T>(r: Result<T, EtError>) -> Result<T, Failure> {
    match r {
        Ok(v) => Ok(v),
        Err(e) => Err(e@),
    }
}

} // verus!
