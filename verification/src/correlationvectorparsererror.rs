//! The errors that parsing a correlation vector string can report.

use vstd::prelude::*;

verus! {

/// Why a counter segment is not a valid unsigned 32-bit decimal integer.
#[derive(Debug, Clone, Copy, PartialEq, Eq, Structural)]
pub enum CounterParseError {
    /// The segment is empty.
    EmptySegment,
    /// The segment holds a character that is not a decimal digit.
    InvalidDigit,
    /// The value does not fit in 32 bits.
    Overflow,
}

/// The error type for the correlation vector parse function.
#[derive(Debug, Clone, Copy, PartialEq, Eq, Structural)]
pub enum CorrelationVectorParseError {
    /// The input is empty.
    Empty,
    /// There was no vector clock in the input.
    MissingVector,
    /// A counter in the vector clock could not be parsed as a u32.
    ParseError { source: CounterParseError },
    /// The input is too long to be a valid correlation vector.
    StringTooLongError,
}

} // verus!
