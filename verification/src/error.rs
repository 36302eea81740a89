//! The failures a decoder can report.

use vstd::prelude::*;

verus! {

/// Why a field could not be decoded.
#[derive(Clone, Copy, Debug, PartialEq, Eq, Structural)]
pub enum ErrorKind {
    /// The buffer ends before the field does.
    Incomplete,
    /// A constant or an exact length in the buffer is not the one the format fixes.
    Malformed,
}

/// A decoding failure.
///
/// A failure that is not `fatal` was met before the record it belongs to was
/// recognised: a caller that has an alternative may try it at the same place.
/// A `fatal` failure was met inside a recognised record and ends the decoding.
#[derive(Clone, Copy, Debug, PartialEq, Eq, Structural)]
pub struct ParseError {
    pub kind: ErrorKind,
    pub fatal: bool,
}

impl ParseError {
    /// The failure with the same kind that ends the decoding.
    pub open spec fn committed(self) -> ParseError {
        ParseError { kind: self.kind, fatal: true }
    }

    /// Marks the failure as one that ends the decoding.
    pub fn commit(self) -> (r: ParseError)
        ensures
            r == self.committed(),
    {
        ParseError { kind: self.kind, fatal: true }
    }
}

} // verus!
