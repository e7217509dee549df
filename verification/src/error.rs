//! Error kinds reported by the library.

use vstd::prelude::*;
use vstd::string::StringExecFns;

verus! {

/// Why a byte sequence is not a well-framed object.
#[derive(Debug, Clone, Copy, PartialEq, Eq, Structural)]
pub enum ParseError {
    /// The bytes before the first space are neither `blob` nor `tree`.
    UnknownKind,
    /// No NUL byte ends the header.
    MissingSeparator,
    /// A tree payload stops in the middle of an entry.
    TruncatedEntry,
}

/// All error kinds.
#[derive(Debug, Clone, Copy, PartialEq, Eq, Structural)]
pub enum Error {
    /// No object matches, or the query is not a usable hash prefix.
    NotFound,
    /// A prefix matches more than one object.
    Ambiguous,
    /// The filesystem failed.
    IoError,
    /// The stored bytes are not a well-framed object.
    ParseError(ParseError),
    /// The stored bytes are not valid compressed data.
    DecompressError,
}

impl Error {
    /// Text shown to the user for each kind of error. A missing object
    /// and an ambiguous prefix read the same.
    pub open spec fn spec_message(self) -> Seq<char> {
        match self {
            Error::NotFound | Error::Ambiguous => "Object not found"@,
            Error::IoError => "I/O error"@,
            Error::ParseError(_) => "Malformed object"@,
            Error::DecompressError => "Invalid compressed data"@,
        }
    }

    /// Text shown to the user for this error.
    pub fn message(&self) -> (text: String)
        ensures
            text@ == self.spec_message(),
    {
        match self {
            Error::NotFound | Error::Ambiguous => String::from_str("Object not found"),
            Error::IoError => String::from_str("I/O error"),
            Error::ParseError(_) => String::from_str("Malformed object"),
            Error::DecompressError => String::from_str("Invalid compressed data"),
        }
    }
}

} // verus!
