//! The ways in which making a RUT can fail.

use vstd::prelude::*;
use crate::grouping::grouped;
use crate::range::Range;

verus! {

/// Why a text or a number is not a RUT.
#[derive(Debug, Clone, Copy, PartialEq, Eq)]
pub enum Error {
    /// The text has the shape of a RUT, but its check character `instead` is
    /// not the check character `must_be` of its number.
    InvalidDV { must_be: char, instead: char },
    /// The text does not have the shape of a RUT.
    InvalidFormat,
    /// The number lies outside of the interval.
    OutOfRange,
}

impl Error {
    /// The message of the error.
    pub open spec fn message(self) -> Seq<char> {
        match self {
            Error::InvalidFormat => "The input format is invalid"@,
            Error::InvalidDV { must_be, instead } => "Invalid DV, must be "@ + seq![must_be]
                + ", instead "@ + seq![instead] + "."@,
            Error::OutOfRange => "The input number must be between "@ + grouped(
                Range::MIN.value(),
            ) + " to "@ + grouped(Range::MAX.value()),
        }
    }

    /// The message of the error.
    pub fn to_string(&self) -> (s: String)
        ensures
            s@ == self.message(),
    {
        match self {
            Error::InvalidFormat => "The input format is invalid".to_owned(),
            Error::InvalidDV { must_be, instead } => {
                let mut s = "Invalid DV, must be ".to_owned();
                s.push(*must_be);
                s.append(", instead ");
                s.push(*instead);
                s.append(".");
                s
            },
            Error::OutOfRange => {
                let mut s = "The input number must be between ".to_owned();
                s.append(Range::MIN.to_string().as_str());
                s.append(" to ");
                s.append(Range::MAX.to_string().as_str());
                s
            },
        }
    }
}

} // verus!
