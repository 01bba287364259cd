//! Naming metadata for a circuit: symbolic input/output names mapped to wire
//! indices, and named constants.  The text format itself carries no names, so
//! this data travels beside it and is only cross-checked for arity.

use vstd::prelude::*;

verus! {

/// A named constant: its decimal value as text and the wire holding it.
#[derive(Debug, PartialEq, Eq)]
pub struct ConstantInfo {
    pub value: String,
    pub wire_index: usize,
}

impl Clone for ConstantInfo {
    fn clone(&self) -> (r: Self)
        ensures
            r == *self,
    {
        ConstantInfo { value: self.value.clone(), wire_index: self.wire_index }
    }
}

/// Name-to-wire metadata.  Each list maps symbolic names to wire indices;
/// names are meant to be unique within a list (`wf`), and order carries no
/// meaning for the codec.
#[derive(Debug, PartialEq, Eq)]
pub struct CircuitInfo {
    pub input_name_to_wire_index: Vec<(String, usize)>,
    pub constants: Vec<(String, ConstantInfo)>,
    pub output_name_to_wire_index: Vec<(String, usize)>,
}

#[verifier::ext_equal]
pub struct CircuitInfoView {
    pub inputs: Seq<(String, usize)>,
    pub constants: Seq<(String, ConstantInfo)>,
    pub outputs: Seq<(String, usize)>,
}

impl View for CircuitInfo {
    type V = CircuitInfoView;

    open spec fn view(&self) -> CircuitInfoView {
        CircuitInfoView {
            inputs: self.input_name_to_wire_index@,
            constants: self.constants@,
            outputs: self.output_name_to_wire_index@,
        }
    }
}

impl CircuitInfo {
    /// Names are unique within each of the three lists.
    pub open spec fn wf(&self) -> bool {
        &&& (forall|i: int, j: int|
            0 <= i < j < self@.inputs.len() ==> self@.inputs[i].0@ != self@.inputs[j].0@)
        &&& (forall|i: int, j: int|
            0 <= i < j < self@.outputs.len() ==> self@.outputs[i].0@ != self@.outputs[j].0@)
        &&& (forall|i: int, j: int|
            0 <= i < j < self@.constants.len() ==> self@.constants[i].0@ != self@.constants[j].0@)
    }
}

fn clone_name_indices(v: &Vec<(String, usize)>) -> (r: Vec<(String, usize)>)
    ensures
        r@ == v@,
{
    let mut r: Vec<(String, usize)> = Vec::new();
    let n = v.len();
    let mut i: usize = 0;
    while i < n
        invariant
            n == v@.len(),
            0 <= i <= n,
            r@ == v@.subrange(0, i as int),
        decreases n - i,
    {
        let name = v[i].0.clone();
        let idx = v[i].1;
        r.push((name, idx));
        proof {
            assert(r@ =~= v@.subrange(0, i + 1));
        }
        i = i + 1;
    }
    proof {
        assert(r@ =~= v@);
    }
    r
}

fn clone_constants(v: &Vec<(String, ConstantInfo)>) -> (r: Vec<(String, ConstantInfo)>)
    ensures
        r@ == v@,
{
    let mut r: Vec<(String, ConstantInfo)> = Vec::new();
    let n = v.len();
    let mut i: usize = 0;
    while i < n
        invariant
            n == v@.len(),
            0 <= i <= n,
            r@ == v@.subrange(0, i as int),
        decreases n - i,
    {
        let name = v[i].0.clone();
        let c = v[i].1.clone();
        r.push((name, c));
        proof {
            assert(r@ =~= v@.subrange(0, i + 1));
        }
        i = i + 1;
    }
    proof {
        assert(r@ =~= v@);
    }
    r
}

impl Clone for CircuitInfo {
    fn clone(&self) -> (r: Self)
        ensures
            r@ == self@,
    {
        CircuitInfo {
            input_name_to_wire_index: clone_name_indices(&self.input_name_to_wire_index),
            constants: clone_constants(&self.constants),
            output_name_to_wire_index: clone_name_indices(&self.output_name_to_wire_index),
        }
    }
}

} // verus!
