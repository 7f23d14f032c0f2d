use vstd::prelude::*;

verus! {

/// An error returned by the color constructors and parsers.
///
/// Errors are always returned as values; no operation of this library
/// aborts the process on bad input.
#[derive(Debug)]
pub enum ColorError {
    /// A two-character channel group was not valid hexadecimal.
    /// Carries the offending group.
    ParseError(String),
    /// The input text was not exactly seven characters starting with `#`.
    /// Carries a description of the expected form.
    WrongFormat(String),
    /// A raw channel handed to a constructor lay outside the unit interval.
    /// Carries a description of the accepted range.
    OutOfRange(String),
}

/// The result type used throughout the library.
pub type ColorResult<T> = Result<T, ColorError>;

} // verus!
