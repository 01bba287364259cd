//! A single circuit gate: ordered input wires, ordered output wires, and an
//! operation label, together with its one-line Bristol rendering.

use vstd::prelude::*;
use vstd::string::*;
use crate::decimal::render_usize;
use crate::text::{append_sep_token, render_rest, render_tokens, lemma_render_tokens_push, wf_token};

verus! {

/// A computation node: input wire indices, output wire indices, and a
/// free-form operation label (not interpreted by this codec).
#[derive(Debug, PartialEq, Eq)]
pub struct Gate {
    pub inputs: Vec<usize>,
    pub outputs: Vec<usize>,
    pub op: String,
}

#[verifier::ext_equal]
pub struct GateView {
    pub inputs: Seq<usize>,
    pub outputs: Seq<usize>,
    pub op: Seq<char>,
}

impl View for Gate {
    type V = GateView;

    open spec fn view(&self) -> GateView {
        GateView { inputs: self.inputs@, outputs: self.outputs@, op: self.op@ }
    }
}

impl Clone for Gate {
    fn clone(&self) -> (r: Self)
        ensures
            r@ == self@,
    {
        let mut inputs: Vec<usize> = Vec::new();
        let mut i: usize = 0;
        while i < self.inputs.len()
            invariant
                0 <= i <= self.inputs@.len(),
                inputs@ == self.inputs@.subrange(0, i as int),
            decreases self.inputs@.len() - i,
        {
            inputs.push(self.inputs[i]);
            proof {
                assert(inputs@ =~= self.inputs@.subrange(0, i + 1));
            }
            i = i + 1;
        }
        let mut outputs: Vec<usize> = Vec::new();
        let mut j: usize = 0;
        while j < self.outputs.len()
            invariant
                0 <= j <= self.outputs@.len(),
                outputs@ == self.outputs@.subrange(0, j as int),
            decreases self.outputs@.len() - j,
        {
            outputs.push(self.outputs[j]);
            proof {
                assert(outputs@ =~= self.outputs@.subrange(0, j + 1));
            }
            j = j + 1;
        }
        proof {
            assert(inputs@ =~= self.inputs@);
            assert(outputs@ =~= self.outputs@);
        }
        Gate { inputs, outputs, op: self.op.clone() }
    }
}

/// The tokens of a gate line: input arity, output arity, the input wires,
/// the output wires, and the operation label, in that fixed order.
pub open spec fn gate_tokens(g: GateView) -> Seq<Seq<char>> {
    seq![render_usize(g.inputs.len()), render_usize(g.outputs.len())] + g.inputs.map_values(
        |w: usize| render_usize(w as nat),
    ) + g.outputs.map_values(|w: usize| render_usize(w as nat)) + seq![g.op]
}

/// The one-line rendering of a gate: its tokens joined by single spaces.
pub open spec fn render_gate(g: GateView) -> Seq<char> {
    render_tokens(gate_tokens(g))
}

/// A gate that can round-trip through the text format: its label is a
/// well-formed token.
pub open spec fn gate_wf(g: GateView) -> bool {
    wf_token(g.op)
}

impl Gate {
    /// Renders this gate as one Bristol text line (without a newline).
    pub fn to_line(&self) -> (r: String)
        ensures
            r@ == render_gate(self@),
    {
        let ghost ts = gate_tokens(self@);
        let mut line = crate::decimal::usize_to_string(self.inputs.len());
        proof {
            assert(ts.subrange(0, 1) =~= seq![ts[0]]);
            assert(ts[0] == render_usize(self@.inputs.len()));
            assert(ts.subrange(0, 1).skip(1) =~= Seq::<Seq<char>>::empty());
            assert(render_rest(ts.subrange(0, 1).skip(1)) =~= Seq::<char>::empty());
            assert(render_tokens(ts.subrange(0, 1)) =~= ts[0]);
            assert(line@ =~= render_tokens(ts.subrange(0, 1)));
        }
        let t1 = crate::decimal::usize_to_string(self.outputs.len());
        append_sep_token(&mut line, t1.as_str());
        proof {
            assert(ts.subrange(0, 2) =~= ts.subrange(0, 1).push(ts[1]));
            lemma_render_tokens_push(ts.subrange(0, 1), ts[1]);
            assert(line@ =~= render_tokens(ts.subrange(0, 2)));
        }
        let mut i: usize = 0;
        while i < self.inputs.len()
            invariant
                0 <= i <= self.inputs@.len(),
                ts == gate_tokens(self@),
                line@ == render_tokens(ts.subrange(0, 2 + i as int)),
            decreases self.inputs@.len() - i,
        {
            let t = crate::decimal::usize_to_string(self.inputs[i]);
            append_sep_token(&mut line, t.as_str());
            proof {
                assert(ts[2 + i as int] == self@.inputs.map_values(
                    |w: usize| render_usize(w as nat),
                )[i as int]);
                assert(ts[2 + i as int] == render_usize(self.inputs@[i as int] as nat));
                assert(ts.subrange(0, 2 + i as int + 1) =~= ts.subrange(0, 2 + i as int).push(
                    ts[2 + i as int],
                ));
                lemma_render_tokens_push(ts.subrange(0, 2 + i as int), ts[2 + i as int]);
            }
            i = i + 1;
        }
        let ghost ni = self.inputs@.len() as int;
        let mut j: usize = 0;
        while j < self.outputs.len()
            invariant
                0 <= j <= self.outputs@.len(),
                ni == self.inputs@.len() as int,
                ts == gate_tokens(self@),
                line@ == render_tokens(ts.subrange(0, 2 + ni + j as int)),
            decreases self.outputs@.len() - j,
        {
            let t = crate::decimal::usize_to_string(self.outputs[j]);
            append_sep_token(&mut line, t.as_str());
            proof {
                assert(ts[2 + ni + j as int] == self@.outputs.map_values(
                    |w: usize| render_usize(w as nat),
                )[j as int]);
                assert(ts[2 + ni + j as int] == render_usize(self.outputs@[j as int] as nat));
                assert(ts.subrange(0, 2 + ni + j as int + 1) =~= ts.subrange(
                    0,
                    2 + ni + j as int,
                ).push(ts[2 + ni + j as int]));
                lemma_render_tokens_push(ts.subrange(0, 2 + ni + j as int), ts[2 + ni + j as int]);
            }
            j = j + 1;
        }
        append_sep_token(&mut line, self.op.as_str());
        proof {
            let no = self.outputs@.len() as int;
            assert(ts[2 + ni + no] == self@.op);
            assert(ts.subrange(0, 2 + ni + no + 1) =~= ts.subrange(0, 2 + ni + no).push(
                ts[2 + ni + no],
            ));
            lemma_render_tokens_push(ts.subrange(0, 2 + ni + no), ts[2 + ni + no]);
            assert(ts.subrange(0, 2 + ni + no + 1) =~= ts);
            assert(line@ =~= render_gate(self@));
        }
        line
    }
}

} // verus!
