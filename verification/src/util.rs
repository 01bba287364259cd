//! Supporting declarations for the earlier fixed-arity circuit form: a gate
//! with exactly two inputs and one output, and the catalog of arithmetic
//! operation names.  The codec itself treats operation labels as opaque
//! strings; these types exist for callers that work with the named catalog.

use vstd::prelude::*;

verus! {

/// A fixed-arity gate: left input, right input, and output wires.
#[derive(Debug, PartialEq, Eq)]
pub struct ArithmeticGate {
    pub op: AGateType,
    pub lh_in: u32,
    pub rh_in: u32,
    pub out: u32,
}

/// The supported arithmetic gate operations.
#[derive(Debug, Clone, Copy, PartialEq, Eq, Structural)]
pub enum AGateType {
    AAdd,
    ADiv,
    AEq,
    AGEq,
    AGt,
    ALEq,
    ALt,
    AMul,
    ANeq,
    ASub,
    AXor,
    APow,
    AIntDiv,
    AMod,
    AShiftL,
    AShiftR,
    ABoolOr,
    ABoolAnd,
    ABitOr,
    ABitAnd,
}

} // verus!
