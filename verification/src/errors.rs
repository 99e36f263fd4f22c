//! The single error type of the library: one kind, carrying the logical
//! cause of the failure. A human-readable message can be derived from it.
use vstd::prelude::*;

verus! {

use vstd::string::*;

/// The logical cause a parse or resolution failure falls under.
#[derive(Clone, Copy, PartialEq, Eq, Structural, Debug)]
pub enum ErrorCause {
    /// A token where a time unit was expected is not one.
    UnrecognizedUnit,
    /// Two units of a compound offset have no lattice conversion path.
    IncompatibleUnits,
    /// The offset clause holds no count/unit pair at all.
    NoTimeSpecified,
    /// A sub-grammar did not match.
    MalformedClause,
    /// A requested day of the month does not exist in that month.
    DayOutOfRange,
    /// A requested occurrence of a weekday does not exist in that month.
    NoSuchOccurrence,
    /// The resolved instant leaves the supported calendar range.
    OutOfRange,
    /// The timer form has no rendering yet.
    Unsupported,
}

pub open spec fn cause_text(c: ErrorCause) -> Seq<char> {
    match c {
        ErrorCause::UnrecognizedUnit => "unrecognized unit token"@,
        ErrorCause::IncompatibleUnits => "the units are not compatible"@,
        ErrorCause::NoTimeSpecified => "there was no time provided"@,
        ErrorCause::MalformedClause => "the clause does not match any known form"@,
        ErrorCause::DayOutOfRange => "the month has no such day"@,
        ErrorCause::NoSuchOccurrence => "the month has no such occurrence of that weekday"@,
        ErrorCause::OutOfRange => "the result lies outside the supported calendar range"@,
        ErrorCause::Unsupported => "this timer form cannot be rendered"@,
    }
}

/// A terminal parse or resolution error.
#[derive(Clone, Copy, PartialEq, Eq, Structural, Debug)]
pub struct ParseError {
    pub cause: ErrorCause,
}

impl ParseError {
    pub fn new(cause: ErrorCause) -> (r: ParseError)
        ensures
            r.cause == cause,
    {
        ParseError { cause }
    }

    /// Human-readable description of the failure.
    pub fn message(&self) -> (r: String)
        ensures
            r@ == cause_text(self.cause),
    {
        match self.cause {
            ErrorCause::UnrecognizedUnit => String::from_str("unrecognized unit token"),
            ErrorCause::IncompatibleUnits => String::from_str("the units are not compatible"),
            ErrorCause::NoTimeSpecified => String::from_str("there was no time provided"),
            ErrorCause::MalformedClause => String::from_str(
                "the clause does not match any known form",
            ),
            ErrorCause::DayOutOfRange => String::from_str("the month has no such day"),
            ErrorCause::NoSuchOccurrence => String::from_str(
                "the month has no such occurrence of that weekday",
            ),
            ErrorCause::OutOfRange => String::from_str(
                "the result lies outside the supported calendar range",
            ),
            ErrorCause::Unsupported => String::from_str("this timer form cannot be rendered"),
        }
    }
}

} // verus!
