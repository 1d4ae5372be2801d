//! The error conditions of the editor core.
//!
//! Every condition is fatal to the current session: nothing is retried
//! internally. The embedding program maps operating-system failures onto
//! `IoError` and `ParseIntError` at the boundary; the verified core itself
//! only ever produces `UnknownWindowSize`.

use vstd::prelude::*;

verus! {

#[derive(Clone, Copy, Debug, PartialEq, Eq, Structural)]
pub enum Error {
    /// A read or write on the underlying terminal stream failed.
    IoError,
    /// A numeric field of a terminal reply did not parse.
    ParseIntError,
    /// A byte could not be read from the input stream.
    InputReadByteError,
    /// An escape sequence was expected and none was found.
    InputNotFoundEscapeError,
    /// The terminal dimensions could not be determined by any method.
    UnknownWindowSize,
}

impl Error {
    /// A human-readable description of the condition.
    pub fn message(&self) -> (r: &'static str)
        ensures
            *self is IoError ==> r@ == "input/output error"@,
            *self is ParseIntError ==> r@ == "malformed numeric field"@,
            *self is InputReadByteError ==> r@ == "input read byte error"@,
            *self is InputNotFoundEscapeError ==> r@ == "input not found escape error"@,
            *self is UnknownWindowSize ==> r@ == "Could not detect terminal window size"@,
    {
        match self {
            Error::IoError => "input/output error",
            Error::ParseIntError => "malformed numeric field",
            Error::InputReadByteError => "input read byte error",
            Error::InputNotFoundEscapeError => "input not found escape error",
            Error::UnknownWindowSize => "Could not detect terminal window size",
        }
    }
}

} // verus!
