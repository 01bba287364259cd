//! Errors for callers working with arithmetic-circuit data; same taxonomy as
//! the Bristol codec's own error type.

use vstd::prelude::*;

verus! {

#[derive(Debug, PartialEq, Eq)]
pub enum ArithmeticCircuitError {
    ParsingError { message: String },
    ParseIntError,
    IOError,
    Inconsistency { message: String },
}

} // verus!
