//! The structured circuit and the reading and writing algorithms: the heart
//! of the codec.  `read_info_and_bristol` consumes tokenized lines against
//! caller-supplied metadata; `write_bristol` renders the circuit back to
//! text.  Both are specified against one pair of spec-level functions,
//! `parse_toklines` and `render_circuit`.

use vstd::prelude::*;
use vstd::string::*;
use crate::bristol_circuit_error::{BristolCircuitError, ReadErrorKind, error_has_kind};
use crate::bristol_line::{
    BristolLine,
    parse_sizes,
    parse_widths,
    parse_gate,
};
use crate::circuit_info::{CircuitInfo, CircuitInfoView};
use crate::decimal::{render_usize, usize_to_string};
use crate::gate::{Gate, GateView, render_gate};
use crate::raw_bristol_circuit::RawBristolCircuit;
use crate::text::{
    append_newline,
    append_sep_token,
    lemma_render_tokens_push,
    render_rest,
    render_tokens,
    spec_lines,
    split_lines,
    str_views,
    toklines,
};

verus! {

/// The structured circuit: total wire count, naming metadata, optional
/// per-port bit widths (`None` means every port is one bit wide), and the
/// ordered gate list.
#[derive(Debug, PartialEq, Eq)]
pub struct BristolCircuit {
    pub wire_count: usize,
    pub info: CircuitInfo,
    pub io_widths: Option<(Vec<usize>, Vec<usize>)>,
    pub gates: Vec<Gate>,
}

#[verifier::ext_equal]
pub struct BristolCircuitView {
    pub wire_count: usize,
    pub info: CircuitInfoView,
    pub io_widths: Option<(Seq<usize>, Seq<usize>)>,
    pub gates: Seq<GateView>,
}

impl View for BristolCircuit {
    type V = BristolCircuitView;

    open spec fn view(&self) -> BristolCircuitView {
        BristolCircuitView {
            wire_count: self.wire_count,
            info: self.info@,
            io_widths: match self.io_widths {
                Some(p) => Some((p.0@, p.1@)),
                None => None,
            },
            gates: self.gates@.map_values(|g: Gate| g@),
        }
    }
}

pub open spec fn all_ones(ws: Seq<usize>) -> bool {
    forall|i: int| 0 <= i < ws.len() ==> ws[i] == 1
}

/// An all-one width pair is stored as `None`; anything else is kept.
pub open spec fn normalize_widths(iw: Seq<usize>, ow: Seq<usize>) -> Option<(Seq<usize>, Seq<usize>)> {
    if all_ones(iw) && all_ones(ow) {
        None
    } else {
        Some((iw, ow))
    }
}

/// The input widths the text carries: the stored ones, or one per named
/// input when no widths are stored.
pub open spec fn effective_input_widths(c: BristolCircuitView) -> Seq<usize> {
    match c.io_widths {
        Some(p) => p.0,
        None => Seq::new(c.info.inputs.len(), |i: int| 1usize),
    }
}

pub open spec fn effective_output_widths(c: BristolCircuitView) -> Seq<usize> {
    match c.io_widths {
        Some(p) => p.1,
        None => Seq::new(c.info.outputs.len(), |i: int| 1usize),
    }
}

pub open spec fn sizes_tokens(c: BristolCircuitView) -> Seq<Seq<char>> {
    seq![render_usize(c.gates.len()), render_usize(c.wire_count as nat)]
}

pub open spec fn width_line_tokens(ws: Seq<usize>) -> Seq<Seq<char>> {
    seq![render_usize(ws.len())] + ws.map_values(|w: usize| render_usize(w as nat))
}

/// Gate section text: one rendered line per gate, each newline-terminated.
pub open spec fn render_gates(gs: Seq<GateView>) -> Seq<char>
    decreases gs.len(),
{
    if gs.len() == 0 {
        Seq::empty()
    } else {
        render_gates(gs.drop_last()) + render_gate(gs.last()) + seq!['\n']
    }
}

/// The full text of a circuit: sizes line, two width lines, one blank
/// separator line, then one line per gate.
pub open spec fn render_circuit(c: BristolCircuitView) -> Seq<char> {
    render_tokens(sizes_tokens(c)) + seq!['\n'] + render_tokens(
        width_line_tokens(effective_input_widths(c)),
    ) + seq!['\n'] + render_tokens(width_line_tokens(effective_output_widths(c))) + seq!['\n']
        + seq!['\n'] + render_gates(c.gates)
}

/// A circuit the writer renders so that the reader reproduces it: stored
/// widths match the metadata arities and are positive, every gate label is a
/// nonempty whitespace-free token, and every count fits the machine.
pub open spec fn circuit_wf(c: BristolCircuitView) -> bool {
    &&& c.gates.len() <= usize::MAX
    &&& (forall|i: int|
        0 <= i < c.gates.len() ==> crate::gate::gate_wf(#[trigger] c.gates[i])
            && c.gates[i].inputs.len() <= usize::MAX && c.gates[i].outputs.len() <= usize::MAX)
    &&& match c.io_widths {
        Some(p) => {
            &&& p.0.len() == c.info.inputs.len()
            &&& p.1.len() == c.info.outputs.len()
            &&& p.0.len() <= usize::MAX
            &&& p.1.len() <= usize::MAX
            &&& (forall|i: int| 0 <= i < p.0.len() ==> #[trigger] p.0[i] >= 1)
            &&& (forall|i: int| 0 <= i < p.1.len() ==> #[trigger] p.1[i] >= 1)
        },
        None => c.info.inputs.len() <= usize::MAX && c.info.outputs.len() <= usize::MAX,
    }
}

/// The circuit as the reader stores it: an all-one width pair becomes the
/// widthless form, anything else is untouched.
pub open spec fn normalize_circuit(c: BristolCircuitView) -> BristolCircuitView {
    BristolCircuitView {
        wire_count: c.wire_count,
        info: c.info,
        io_widths: match c.io_widths {
            Some(p) => normalize_widths(p.0, p.1),
            None => None,
        },
        gates: c.gates,
    }
}

/// Gate lines parsed in order; `None` as soon as one is malformed.
pub open spec fn parse_gates_lines(tls: Seq<Seq<Seq<char>>>) -> Option<Seq<GateView>>
    decreases tls.len(),
{
    if tls.len() == 0 {
        Some(Seq::empty())
    } else {
        match parse_gate(tls[0]) {
            None => None,
            Some(g) => match parse_gates_lines(tls.skip(1)) {
                None => None,
                Some(gs) => Some(seq![g] + gs),
            },
        }
    }
}

/// What reading a circuit from the given token lines yields: the algorithm
/// of the reader, step by step, over the non-blank lines of the text.
pub open spec fn parse_toklines(info: CircuitInfoView, tls: Seq<Seq<Seq<char>>>) -> Result<
    BristolCircuitView,
    ReadErrorKind,
> {
    if tls.len() < 1 {
        Err(ReadErrorKind::Parsing)
    } else {
        match parse_sizes(tls[0]) {
            None => Err(ReadErrorKind::Parsing),
            Some(sizes) => if tls.len() < 2 {
                Err(ReadErrorKind::Parsing)
            } else {
                match parse_widths(tls[1]) {
                    None => Err(ReadErrorKind::Parsing),
                    Some(iw) => if iw.len() != info.inputs.len() {
                        Err(ReadErrorKind::Inconsistency)
                    } else if tls.len() < 3 {
                        Err(ReadErrorKind::Parsing)
                    } else {
                        match parse_widths(tls[2]) {
                            None => Err(ReadErrorKind::Parsing),
                            Some(ow) => if ow.len() != info.outputs.len() {
                                Err(ReadErrorKind::Inconsistency)
                            } else if tls.len() != 3 + sizes.0 {
                                Err(ReadErrorKind::Parsing)
                            } else {
                                match parse_gates_lines(tls.skip(3)) {
                                    None => Err(ReadErrorKind::Parsing),
                                    Some(gs) => Ok(
                                        BristolCircuitView {
                                            wire_count: sizes.1,
                                            info: info,
                                            io_widths: normalize_widths(iw, ow),
                                            gates: gs,
                                        },
                                    ),
                                }
                            },
                        }
                    },
                }
            },
        }
    }
}

/// Reading from a sequence of raw lines: blank lines are invisible.
pub open spec fn parse_from_lines(info: CircuitInfoView, lines: Seq<Seq<char>>) -> Result<
    BristolCircuitView,
    ReadErrorKind,
> {
    parse_toklines(info, toklines(lines))
}

/// Reading from a whole text.
pub open spec fn parse_circuit(info: CircuitInfoView, text: Seq<char>) -> Result<
    BristolCircuitView,
    ReadErrorKind,
> {
    parse_from_lines(info, spec_lines(text))
}

/// How an executable read result corresponds to the spec-level one: the same
/// circuit on success, an error of the same kind on failure.
pub open spec fn read_result_models(
    r: Result<BristolCircuit, BristolCircuitError>,
    m: Result<BristolCircuitView, ReadErrorKind>,
) -> bool {
    match r {
        Ok(c) => m == Ok::<BristolCircuitView, ReadErrorKind>(c@),
        Err(e) => match m {
            Ok(_) => false,
            Err(k) => error_has_kind(e, k),
        },
    }
}

pub(crate) proof fn lemma_parse_gates_lines_pointwise(tls: Seq<Seq<Seq<char>>>, gs: Seq<GateView>)
    requires
        tls.len() == gs.len(),
        forall|j: int| 0 <= j < tls.len() ==> parse_gate(tls[j]) == Some(gs[j]),
    ensures
        parse_gates_lines(tls) == Some(gs),
    decreases tls.len(),
{
    if tls.len() > 0 {
        assert(forall|j: int|
            0 <= j < tls.skip(1).len() ==> parse_gate(tls.skip(1)[j]) == Some(gs.skip(1)[j]));
        lemma_parse_gates_lines_pointwise(tls.skip(1), gs.skip(1));
        assert(seq![gs[0]] + gs.skip(1) =~= gs);
    }
}

proof fn lemma_parse_gates_lines_fail(tls: Seq<Seq<Seq<char>>>, j: int)
    requires
        0 <= j < tls.len(),
        parse_gate(tls[j]) is None,
    ensures
        parse_gates_lines(tls) is None,
    decreases j,
{
    if j > 0 {
        lemma_parse_gates_lines_fail(tls.skip(1), j - 1);
    }
}

fn all_ones_vec(ws: &Vec<usize>) -> (r: bool)
    ensures
        r == all_ones(ws@),
{
    let mut i: usize = 0;
    while i < ws.len()
        invariant
            0 <= i <= ws@.len(),
            forall|j: int| 0 <= j < i ==> ws@[j] == 1,
        decreases ws@.len() - i,
    {
        if ws[i] != 1 {
            return false;
        }
        i = i + 1;
    }
    true
}

/// Builds one port-width line from explicit widths.
fn width_line(ws: &Vec<usize>) -> (r: String)
    ensures
        r@ == render_tokens(width_line_tokens(ws@)),
{
    let ghost ts = width_line_tokens(ws@);
    let mut line = usize_to_string(ws.len());
    proof {
        assert(ts[0] == render_usize(ws@.len()));
        assert(ts.subrange(0, 1) =~= seq![ts[0]]);
        assert(ts.subrange(0, 1).skip(1) =~= Seq::<Seq<char>>::empty());
        assert(render_rest(ts.subrange(0, 1).skip(1)) =~= Seq::<char>::empty());
        assert(line@ =~= render_tokens(ts.subrange(0, 1)));
    }
    let mut i: usize = 0;
    while i < ws.len()
        invariant
            0 <= i <= ws@.len(),
            ts == width_line_tokens(ws@),
            line@ == render_tokens(ts.subrange(0, 1 + i as int)),
        decreases ws@.len() - i,
    {
        let t = usize_to_string(ws[i]);
        append_sep_token(&mut line, t.as_str());
        proof {
            assert(ts[1 + i as int] == ws@.map_values(|w: usize| render_usize(w as nat))[i as int]);
            assert(ts[1 + i as int] == render_usize(ws@[i as int] as nat));
            assert(ts.subrange(0, 1 + i as int + 1) =~= ts.subrange(0, 1 + i as int).push(
                ts[1 + i as int],
            ));
            lemma_render_tokens_push(ts.subrange(0, 1 + i as int), ts[1 + i as int]);
        }
        i = i + 1;
    }
    proof {
        assert(ts.subrange(0, 1 + ws@.len() as int) =~= ts);
    }
    line
}

/// Builds one port-width line of `count` unit widths.
fn unit_width_line(count: usize) -> (r: String)
    ensures
        r@ == render_tokens(width_line_tokens(Seq::new(count as nat, |i: int| 1usize))),
{
    let ghost ws = Seq::new(count as nat, |i: int| 1usize);
    let ghost ts = width_line_tokens(ws);
    let mut line = usize_to_string(count);
    proof {
        assert(ts[0] == render_usize(ws.len()));
        assert(ts.subrange(0, 1) =~= seq![ts[0]]);
        assert(ts.subrange(0, 1).skip(1) =~= Seq::<Seq<char>>::empty());
        assert(render_rest(ts.subrange(0, 1).skip(1)) =~= Seq::<char>::empty());
        assert(line@ =~= render_tokens(ts.subrange(0, 1)));
    }
    let mut i: usize = 0;
    while i < count
        invariant
            0 <= i <= count,
            ws == Seq::new(count as nat, |i: int| 1usize),
            ts == width_line_tokens(ws),
            line@ == render_tokens(ts.subrange(0, 1 + i as int)),
        decreases count - i,
    {
        append_sep_token(&mut line, "1");
        proof {
            reveal_strlit("1");
            assert(ts[1 + i as int] == ws.map_values(|w: usize| render_usize(w as nat))[i as int]);
            assert(ts[1 + i as int] == render_usize(1));
            assert(render_usize(1) =~= seq!['1']);
            assert("1"@ =~= seq!['1']);
            assert(ts.subrange(0, 1 + i as int + 1) =~= ts.subrange(0, 1 + i as int).push(
                ts[1 + i as int],
            ));
            lemma_render_tokens_push(ts.subrange(0, 1 + i as int), ts[1 + i as int]);
        }
        i = i + 1;
    }
    proof {
        assert(ts.subrange(0, 1 + count as int) =~= ts);
    }
    line
}

fn inconsistency_error(text: &str) -> (r: BristolCircuitError)
    ensures
        r is Inconsistency,
{
    BristolCircuitError::Inconsistency { message: text.to_owned() }
}

fn trailing_error() -> (r: BristolCircuitError)
    ensures
        r is ParsingError,
{
    BristolCircuitError::ParsingError {
        message: "unexpected non-whitespace line after gates".to_owned(),
    }
}

impl BristolCircuit {
    /// Parses the structured circuit out of a raw circuit's text, using the
    /// raw circuit's own metadata.
    pub fn from_raw(raw: &RawBristolCircuit) -> (r: Result<BristolCircuit, BristolCircuitError>)
        ensures
            read_result_models(r, parse_circuit(raw@.info, raw@.bristol)),
    {
        BristolCircuit::from_info_and_bristol_string(&raw.info, raw.bristol.as_str())
    }

    /// Renders the circuit and pairs the text with a copy of its metadata.
    pub fn to_raw(&self) -> (r: Result<RawBristolCircuit, BristolCircuitError>)
        ensures
            r matches Ok(raw) && raw@.bristol == render_circuit(self@) && raw@.info == self@.info,
    {
        let bristol = match self.get_bristol_string() {
            Ok(s) => s,
            Err(e) => {
                return Err(e);
            },
        };
        Ok(RawBristolCircuit { bristol, info: self.info.clone() })
    }

    /// Renders the circuit to one string of Bristol text.
    pub fn get_bristol_string(&self) -> (r: Result<String, BristolCircuitError>)
        ensures
            r matches Ok(s) && s@ == render_circuit(self@),
    {
        let mut out = String::new();
        match self.write_bristol(&mut out) {
            Ok(u) => u,
            Err(e) => {
                return Err(e);
            },
        };
        Ok(out)
    }

    /// Parses a circuit from a string of Bristol text and the metadata that
    /// names its ports.
    pub fn from_info_and_bristol_string(info: &CircuitInfo, input: &str) -> (r: Result<
        BristolCircuit,
        BristolCircuitError,
    >)
        ensures
            read_result_models(r, parse_circuit(info@, input@)),
    {
        let lines = split_lines(input);
        BristolCircuit::read_info_and_bristol(info, &lines)
    }

    /// Appends the circuit's full Bristol text to `w`.
    #[verifier::rlimit(50)]
    pub fn write_bristol(&self, w: &mut String) -> (r: Result<(), BristolCircuitError>)
        ensures
            r is Ok,
            final(w)@ == old(w)@ + render_circuit(self@),
    {
        let ghost base = w@;
        let sizes = {
            let ghost ts = sizes_tokens(self@);
            let mut line = usize_to_string(self.gates.len());
            proof {
                assert(self@.gates.len() == self.gates@.len());
                assert(ts[0] == render_usize(self@.gates.len()));
                assert(ts.subrange(0, 1) =~= seq![ts[0]]);
                assert(ts.subrange(0, 1).skip(1) =~= Seq::<Seq<char>>::empty());
                assert(render_rest(ts.subrange(0, 1).skip(1)) =~= Seq::<char>::empty());
                assert(line@ =~= render_tokens(ts.subrange(0, 1)));
            }
            let t = usize_to_string(self.wire_count);
            append_sep_token(&mut line, t.as_str());
            proof {
                assert(ts.subrange(0, 2) =~= ts.subrange(0, 1).push(ts[1]));
                lemma_render_tokens_push(ts.subrange(0, 1), ts[1]);
                assert(ts.subrange(0, 2) =~= ts);
                assert(line@ =~= render_tokens(sizes_tokens(self@)));
            }
            line
        };
        w.append(sizes.as_str());
        append_newline(w);
        match &self.io_widths {
            Some(p) => {
                let l1 = width_line(&p.0);
                w.append(l1.as_str());
                append_newline(w);
                let l2 = width_line(&p.1);
                w.append(l2.as_str());
                append_newline(w);
                proof {
                    assert(effective_input_widths(self@) == p.0@);
                    assert(effective_output_widths(self@) == p.1@);
                }
            },
            None => {
                let l1 = unit_width_line(self.info.input_name_to_wire_index.len());
                w.append(l1.as_str());
                append_newline(w);
                let l2 = unit_width_line(self.info.output_name_to_wire_index.len());
                w.append(l2.as_str());
                append_newline(w);
                proof {
                    assert(effective_input_widths(self@) == Seq::new(
                        self@.info.inputs.len(),
                        |i: int| 1usize,
                    ));
                    assert(effective_output_widths(self@) == Seq::new(
                        self@.info.outputs.len(),
                        |i: int| 1usize,
                    ));
                }
            },
        }
        append_newline(w);
        let ghost header = base + render_tokens(sizes_tokens(self@)) + seq!['\n'] + render_tokens(
            width_line_tokens(effective_input_widths(self@)),
        ) + seq!['\n'] + render_tokens(width_line_tokens(effective_output_widths(self@)))
            + seq!['\n'] + seq!['\n'];
        proof {
            assert(w@ =~= header + render_gates(self@.gates.take(0)));
        }
        let mut k: usize = 0;
        while k < self.gates.len()
            invariant
                0 <= k <= self.gates@.len(),
                header == base + render_tokens(sizes_tokens(self@)) + seq!['\n'] + render_tokens(
                    width_line_tokens(effective_input_widths(self@)),
                ) + seq!['\n'] + render_tokens(width_line_tokens(effective_output_widths(self@)))
                    + seq!['\n'] + seq!['\n'],
                w@ == header + render_gates(self@.gates.take(k as int)),
            decreases self.gates@.len() - k,
        {
            let line = self.gates[k].to_line();
            w.append(line.as_str());
            append_newline(w);
            proof {
                let gv = self@.gates;
                assert(gv[k as int] == self.gates@[k as int]@);
                assert(gv.take(k as int + 1).drop_last() =~= gv.take(k as int));
                assert(gv.take(k as int + 1).last() == gv[k as int]);
                assert(render_gates(gv.take(k as int + 1)) == render_gates(gv.take(k as int))
                    + render_gate(gv[k as int]) + seq!['\n']);
            }
            k = k + 1;
        }
        proof {
            assert(self@.gates.take(self.gates@.len() as int) =~= self@.gates);
            assert(w@ =~= old(w)@ + render_circuit(self@));
        }
        Ok(())
    }

    /// Reads a circuit from raw text lines: the sizes line, the two port
    /// lines (cross-checked against `info`), `gate_count` gate lines, and
    /// nothing but blank lines after them.
    #[verifier::loop_isolation(false)]
    pub fn read_info_and_bristol(info: &CircuitInfo, lines: &Vec<String>) -> (r: Result<
        BristolCircuit,
        BristolCircuitError,
    >)
        ensures
            read_result_models(r, parse_from_lines(info@, str_views(lines@))),
    {
        let ghost tl = toklines(str_views(lines@));
        let mut pos: usize = 0;
        proof {
            assert(str_views(lines@).skip(0) =~= str_views(lines@));
        }
        let first = match BristolLine::read(lines, &mut pos) {
            Ok(l) => l,
            Err(e) => {
                return Err(e);
            },
        };
        let sizes = match first.circuit_sizes() {
            Ok(p) => p,
            Err(e) => {
                return Err(e);
            },
        };
        let gate_count = sizes.0;
        let wire_count = sizes.1;
        proof {
            assert(tl[0] == first@);
            assert(toklines(str_views(lines@).skip(pos as int)) == tl.skip(1));
        }
        let in_line = match BristolLine::read(lines, &mut pos) {
            Ok(l) => l,
            Err(e) => {
                proof {
                    assert(tl.skip(1).len() == 0);
                    assert(tl.len() < 2);
                }
                return Err(e);
            },
        };
        proof {
            assert(tl.skip(1)[0] == tl[1]);
            assert(tl.skip(1).skip(1) =~= tl.skip(2));
        }
        let input_widths = match in_line.io_widths() {
            Ok(ws) => ws,
            Err(e) => {
                return Err(e);
            },
        };
        if input_widths.len() != info.input_name_to_wire_index.len() {
            return Err(inconsistency_error("Input count mismatch"));
        }
        let out_line = match BristolLine::read(lines, &mut pos) {
            Ok(l) => l,
            Err(e) => {
                proof {
                    assert(tl.skip(2).len() == 0);
                    assert(tl.len() < 3);
                }
                return Err(e);
            },
        };
        proof {
            assert(tl.skip(2)[0] == tl[2]);
            assert(tl.skip(2).skip(1) =~= tl.skip(3));
        }
        let output_widths = match out_line.io_widths() {
            Ok(ws) => ws,
            Err(e) => {
                return Err(e);
            },
        };
        if output_widths.len() != info.output_name_to_wire_index.len() {
            return Err(inconsistency_error("Output count mismatch"));
        }
        let in_ones = all_ones_vec(&input_widths);
        let out_ones = all_ones_vec(&output_widths);
        let ghost iw = input_widths@;
        let ghost ow = output_widths@;
        let io_widths: Option<(Vec<usize>, Vec<usize>)> = if in_ones && out_ones {
            None
        } else {
            Some((input_widths, output_widths))
        };
        let mut gates: Vec<Gate> = Vec::new();
        let mut k: usize = 0;
        while k < gate_count
            invariant
                0 <= k <= gate_count,
                tl == toklines(str_views(lines@)),
                3 <= tl.len(),
                k <= tl.len() - 3,
                pos <= lines@.len(),
                toklines(str_views(lines@).skip(pos as int)) == tl.skip(3 + k as int),
                gates@.len() == k,
                forall|j: int| 0 <= j < k ==> parse_gate(tl[3 + j]) == Some(gates@[j]@),
            decreases gate_count - k,
        {
            let line = match BristolLine::read(lines, &mut pos) {
                Ok(l) => l,
                Err(e) => {
                    proof {
                        assert(tl.skip(3 + k as int).len() == 0);
                        assert(tl.len() == 3 + k);
                        assert(tl.len() != 3 + gate_count);
                    }
                    return Err(e);
                },
            };
            proof {
                assert(tl.skip(3 + k as int)[0] == tl[3 + k as int]);
                assert(tl.skip(3 + k as int).skip(1) =~= tl.skip(3 + k as int + 1));
            }
            let g = match line.gate() {
                Ok(g) => g,
                Err(e) => {
                    proof {
                        assert(parse_gate(tl[3 + k as int]) is None);
                        if tl.len() == 3 + gate_count {
                            lemma_parse_gates_lines_fail(tl.skip(3), k as int);
                        }
                    }
                    return Err(e);
                },
            };
            gates.push(g);
            k = k + 1;
        }
        match BristolLine::read(lines, &mut pos) {
            Ok(_) => {
                proof {
                    assert(tl.skip(3 + gate_count as int).len() > 0);
                    assert(tl.len() > 3 + gate_count);
                }
                return Err(trailing_error());
            },
            Err(_) => {
                proof {
                    assert(tl.skip(3 + gate_count as int).len() == 0);
                    assert(tl.len() == 3 + gate_count);
                }
            },
        }
        let c = BristolCircuit { wire_count, info: info.clone(), io_widths, gates };
        proof {
            let gs = c@.gates;
            assert(gs.len() == gate_count);
            assert(forall|j: int| 0 <= j < gate_count ==> gs[j] == c.gates@[j]@);
            assert(tl.skip(3).len() == gate_count);
            assert(forall|j: int| 0 <= j < gate_count ==> tl.skip(3)[j] == tl[3 + j]);
            lemma_parse_gates_lines_pointwise(tl.skip(3), gs);
            assert(c@.io_widths == normalize_widths(iw, ow));
            assert(c@.info == info@);
            assert(parse_toklines(info@, tl) == Ok::<BristolCircuitView, ReadErrorKind>(c@));
        }
        Ok(c)
    }
}

} // verus!
