//! A circuit held as already-rendered Bristol text beside its metadata: a
//! transport form that converts losslessly to and from the structured form.

use vstd::prelude::*;
use crate::circuit_info::{CircuitInfo, CircuitInfoView};

verus! {

#[derive(Debug, PartialEq, Eq)]
pub struct RawBristolCircuit {
    pub bristol: String,
    pub info: CircuitInfo,
}

#[verifier::ext_equal]
pub struct RawBristolCircuitView {
    pub bristol: Seq<char>,
    pub info: CircuitInfoView,
}

impl View for RawBristolCircuit {
    type V = RawBristolCircuitView;

    open spec fn view(&self) -> RawBristolCircuitView {
        RawBristolCircuitView { bristol: self.bristol@, info: self.info@ }
    }
}

} // verus!
