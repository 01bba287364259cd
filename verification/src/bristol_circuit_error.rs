//! Errors raised by the Bristol reader and writer.

use vstd::prelude::*;

verus! {

/// What can go wrong while reading or writing a circuit.  The reader only
/// ever raises `ParsingError` (malformed text) and `Inconsistency` (text
/// disagreeing with the caller's metadata); the remaining variants mark
/// integer-conversion and stream failures surfaced by callers that drive the
/// reader from an outside source.
#[derive(Debug, PartialEq, Eq)]
pub enum BristolCircuitError {
    ParsingError { message: String },
    ParseIntError,
    IOError,
    Inconsistency { message: String },
}

/// The two failure kinds the reading algorithm itself distinguishes.
pub enum ReadErrorKind {
    Parsing,
    Inconsistency,
}

/// Whether an error value carries the given kind.
pub open spec fn error_has_kind(e: BristolCircuitError, k: ReadErrorKind) -> bool {
    match k {
        ReadErrorKind::Parsing => e is ParsingError,
        ReadErrorKind::Inconsistency => e is Inconsistency,
    }
}

} // verus!
