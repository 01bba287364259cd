//! The laws of the codec, proved once and for all: writing a well-formed
//! circuit and reading the text back yields the same circuit (up to width
//! normalization), arity mismatches surface as inconsistency errors and
//! never as parse errors, blank lines are invisible to the reader, and
//! trailing non-blank content is rejected.

use vstd::prelude::*;
use crate::bristol_circuit::{
    circuit_wf,
    effective_input_widths,
    effective_output_widths,
    lemma_parse_gates_lines_pointwise,
    normalize_circuit,
    normalize_widths,
    parse_circuit,
    parse_from_lines,
    parse_gates_lines,
    parse_toklines,
    render_circuit,
    render_gates,
    sizes_tokens,
    width_line_tokens,
    BristolCircuitView,
};
use crate::bristol_circuit_error::ReadErrorKind;
use crate::bristol_line::{parse_gate, parse_sizes, parse_widths, token_num, token_value};
use crate::circuit_info::CircuitInfoView;
use crate::decimal::{lemma_parse_render_usize, lemma_render_usize_ok, render_usize};
use crate::gate::{gate_tokens, gate_wf, render_gate, GateView};
use crate::text::{
    blank,
    lemma_blank_no_tokens,
    lemma_blank_text_iff_blank_lines,
    lemma_lines_append,
    lemma_lines_line_prepend,
    lemma_render_tokens_no_newline,
    lemma_toklines_concat,
    lemma_toklines_empty_iff_blank,
    lemma_tokens_of_render_tokens,
    render_tokens,
    spec_lines,
    toklines,
    tokens_of,
    wf_token,
};

verus! {

/// Every token of a sizes line is well formed.
proof fn lemma_sizes_tokens_wf(c: BristolCircuitView)
    ensures
        forall|i: int| 0 <= i < sizes_tokens(c).len() ==> wf_token(#[trigger] sizes_tokens(c)[i]),
{
    let ts = sizes_tokens(c);
    assert forall|i: int| 0 <= i < ts.len() implies wf_token(#[trigger] ts[i]) by {
        if i == 0 {
            lemma_render_usize_ok(c.gates.len());
        } else {
            lemma_render_usize_ok(c.wire_count as nat);
        }
    }
}

/// Every token of a width line is well formed.
proof fn lemma_width_tokens_wf(ws: Seq<usize>)
    ensures
        forall|i: int|
            0 <= i < width_line_tokens(ws).len() ==> wf_token(#[trigger] width_line_tokens(ws)[i]),
{
    let ts = width_line_tokens(ws);
    assert forall|i: int| 0 <= i < ts.len() implies wf_token(#[trigger] ts[i]) by {
        if i == 0 {
            lemma_render_usize_ok(ws.len());
        } else {
            assert(ts[i] == ws.map_values(|w: usize| render_usize(w as nat))[i - 1]);
            lemma_render_usize_ok(ws[i - 1] as nat);
        }
    }
}

/// Every token of a gate line is well formed, given a well-formed label.
proof fn lemma_gate_tokens_wf(g: GateView)
    requires
        gate_wf(g),
    ensures
        forall|i: int| 0 <= i < gate_tokens(g).len() ==> wf_token(#[trigger] gate_tokens(g)[i]),
{
    let ts = gate_tokens(g);
    let ni = g.inputs.len() as int;
    let no = g.outputs.len() as int;
    assert forall|i: int| 0 <= i < ts.len() implies wf_token(#[trigger] ts[i]) by {
        if i == 0 {
            lemma_render_usize_ok(g.inputs.len());
        } else if i == 1 {
            lemma_render_usize_ok(g.outputs.len());
        } else if i < 2 + ni {
            assert(ts[i] == g.inputs.map_values(|w: usize| render_usize(w as nat))[i - 2]);
            lemma_render_usize_ok(g.inputs[i - 2] as nat);
        } else if i < 2 + ni + no {
            assert(ts[i] == g.outputs.map_values(|w: usize| render_usize(w as nat))[i - 2 - ni]);
            lemma_render_usize_ok(g.outputs[i - 2 - ni] as nat);
        } else {
            assert(ts[i] == g.op);
        }
    }
}

/// Lifts per-token well-formedness to the two-index form the newline lemma
/// wants.
proof fn lemma_wf_tokens_no_space(ts: Seq<Seq<char>>)
    requires
        forall|i: int| 0 <= i < ts.len() ==> wf_token(#[trigger] ts[i]),
    ensures
        forall|i: int, k: int|
            0 <= i < ts.len() && 0 <= k < ts[i].len() ==> !crate::text::is_space_char(
                #[trigger] ts[i][k],
            ),
{
    assert forall|i: int, k: int|
        0 <= i < ts.len() && 0 <= k < ts[i].len() implies !crate::text::is_space_char(
        #[trigger] ts[i][k],
    ) by {
        assert(wf_token(ts[i]));
    }
}

/// A sizes line parses back to the counts it was rendered from.
proof fn lemma_parse_sizes_tokens(c: BristolCircuitView)
    requires
        c.gates.len() <= usize::MAX,
    ensures
        parse_sizes(sizes_tokens(c)) == Some(((c.gates.len() as usize), c.wire_count)),
{
    let ts = sizes_tokens(c);
    lemma_parse_render_usize(c.gates.len() as usize);
    lemma_parse_render_usize(c.wire_count);
    assert(ts[0] == render_usize((c.gates.len() as usize) as nat));
    assert(token_value(ts, 0) == Some(c.gates.len() as usize));
    assert(token_value(ts, 1) == Some(c.wire_count));
}

/// A width line parses back to the widths it was rendered from.
proof fn lemma_parse_width_tokens(ws: Seq<usize>)
    requires
        ws.len() <= usize::MAX,
        forall|i: int| 0 <= i < ws.len() ==> #[trigger] ws[i] >= 1,
    ensures
        parse_widths(width_line_tokens(ws)) == Some(ws),
{
    let ts = width_line_tokens(ws);
    lemma_parse_render_usize(ws.len() as usize);
    assert(ts[0] == render_usize((ws.len() as usize) as nat));
    assert(token_value(ts, 0) == Some(ws.len() as usize));
    assert(ts.len() == ws.len() + 1);
    assert forall|i: int| 1 <= i < ts.len() implies token_value(ts, i) == Some(ws[i - 1]) by {
        assert(ts[i] == ws.map_values(|w: usize| render_usize(w as nat))[i - 1]);
        lemma_parse_render_usize(ws[i - 1]);
    }
    assert(forall|i: int|
        1 <= i < ts.len() ==> token_value(ts, i) is Some && token_num(ts, i) >= 1);
    assert(Seq::new((ws.len() as usize) as nat, |i: int| token_num(ts, i + 1)) =~= ws);
}

/// A gate line parses back to exactly what it was rendered from.
proof fn lemma_parse_gate_tokens(g: GateView)
    requires
        gate_wf(g),
        g.inputs.len() <= usize::MAX,
        g.outputs.len() <= usize::MAX,
    ensures
        parse_gate(gate_tokens(g)) == Some(g),
{
    let ts = gate_tokens(g);
    let ni = g.inputs.len() as int;
    let no = g.outputs.len() as int;
    lemma_parse_render_usize(g.inputs.len() as usize);
    lemma_parse_render_usize(g.outputs.len() as usize);
    assert(ts[0] == render_usize((g.inputs.len() as usize) as nat));
    assert(ts[1] == render_usize((g.outputs.len() as usize) as nat));
    assert(token_value(ts, 0) == Some(g.inputs.len() as usize));
    assert(token_value(ts, 1) == Some(g.outputs.len() as usize));
    assert(ts.len() == ni + no + 3);
    assert forall|i: int| 2 <= i < ts.len() - 1 implies token_value(ts, i) == Some(
        if i < 2 + ni {
            g.inputs[i - 2]
        } else {
            g.outputs[i - 2 - ni]
        },
    ) by {
        if i < 2 + ni {
            assert(ts[i] == g.inputs.map_values(|w: usize| render_usize(w as nat))[i - 2]);
            lemma_parse_render_usize(g.inputs[i - 2]);
        } else {
            assert(ts[i] == g.outputs.map_values(|w: usize| render_usize(w as nat))[i - 2 - ni]);
            lemma_parse_render_usize(g.outputs[i - 2 - ni]);
        }
    }
    assert(ts[ts.len() - 1] == g.op);
    let gg = GateView {
        inputs: Seq::new((g.inputs.len() as usize) as nat, |i: int| token_num(ts, 2 + i)),
        outputs: Seq::new(
            (g.outputs.len() as usize) as nat,
            |i: int| token_num(ts, 2 + (g.inputs.len() as usize) + i),
        ),
        op: ts[ts.len() - 1],
    };
    assert(parse_gate(ts) == Some(gg));
    assert(gg.inputs =~= g.inputs);
    assert(gg.outputs =~= g.outputs);
    assert(gg =~= g);
}

/// Unfolding a rendered gate section from the front.
proof fn lemma_render_gates_front(gs: Seq<GateView>)
    requires
        gs.len() > 0,
    ensures
        render_gates(gs) == render_gate(gs[0]) + seq!['\n'] + render_gates(gs.skip(1)),
    decreases gs.len(),
{
    if gs.len() == 1 {
        assert(gs.drop_last().len() == 0);
        assert(gs.skip(1) =~= Seq::<GateView>::empty());
        assert(render_gates(gs.drop_last()) =~= Seq::<char>::empty());
        assert(render_gates(gs.skip(1)) =~= Seq::<char>::empty());
        assert(gs.last() == gs[0]);
        assert(render_gates(gs) =~= render_gate(gs[0]) + seq!['\n'] + render_gates(gs.skip(1)));
    } else {
        lemma_render_gates_front(gs.drop_last());
        assert(gs.drop_last()[0] == gs[0]);
        assert(gs.drop_last().skip(1) =~= gs.skip(1).drop_last());
        assert(gs.skip(1).last() == gs.last());
        assert(render_gates(gs.skip(1)) == render_gates(gs.skip(1).drop_last()) + render_gate(
            gs.skip(1).last(),
        ) + seq!['\n']);
        assert(render_gates(gs) =~= render_gate(gs[0]) + seq!['\n'] + render_gates(gs.skip(1)));
    }
}

/// The token lines of a single raw line.
proof fn lemma_toklines_single(l: Seq<char>)
    ensures
        toklines(seq![l]) == if tokens_of(l).len() == 0 {
            Seq::<Seq<Seq<char>>>::empty()
        } else {
            seq![tokens_of(l)]
        },
{
    assert(seq![l].skip(1) =~= Seq::<Seq<char>>::empty());
    assert(toklines(seq![l].skip(1)) =~= Seq::<Seq<Seq<char>>>::empty());
    if tokens_of(l).len() != 0 {
        assert(toklines(seq![l]) =~= seq![tokens_of(l)]);
    }
}

/// The reader's view of the rendered gate section: one token line per gate.
proof fn lemma_toklines_render_gates(gs: Seq<GateView>)
    requires
        forall|i: int|
            0 <= i < gs.len() ==> gate_wf(#[trigger] gs[i]) && gs[i].inputs.len() <= usize::MAX
                && gs[i].outputs.len() <= usize::MAX,
    ensures
        toklines(spec_lines(render_gates(gs))) == gs.map_values(|g: GateView| gate_tokens(g)),
    decreases gs.len(),
{
    if gs.len() == 0 {
        assert(render_gates(gs) =~= Seq::<char>::empty());
        let ls = spec_lines(Seq::<char>::empty());
        assert(ls =~~= seq![Seq::<char>::empty()]);
        lemma_toklines_single(Seq::<char>::empty());
        crate::text::lemma_tokens_from_empty(Seq::<char>::empty(), 0);
        assert(toklines(ls) =~= gs.map_values(|g: GateView| gate_tokens(g)));
    } else {
        lemma_render_gates_front(gs);
        let g0 = gs[0];
        let line0 = render_gate(g0);
        let rest = render_gates(gs.skip(1));
        lemma_gate_tokens_wf(g0);
        lemma_wf_tokens_no_space(gate_tokens(g0));
        lemma_render_tokens_no_newline(gate_tokens(g0));
        lemma_lines_line_prepend(line0, rest);
        assert(spec_lines(render_gates(gs)) == seq![line0] + spec_lines(rest));
        lemma_toklines_concat(seq![line0], spec_lines(rest));
        lemma_tokens_of_render_tokens(gate_tokens(g0));
        assert(tokens_of(line0) == gate_tokens(g0));
        assert(gate_tokens(g0).len() > 0);
        lemma_toklines_single(line0);
        assert forall|i: int|
            0 <= i < gs.skip(1).len() implies gate_wf(#[trigger] gs.skip(1)[i]) && gs.skip(
            1,
        )[i].inputs.len() <= usize::MAX && gs.skip(1)[i].outputs.len() <= usize::MAX by {
            assert(gs.skip(1)[i] == gs[i + 1]);
        }
        lemma_toklines_render_gates(gs.skip(1));
        assert(toklines(spec_lines(render_gates(gs))) =~= gs.map_values(
            |g: GateView| gate_tokens(g),
        ));
    }
}

/// The reader's view of a whole rendered circuit: exactly the three header
/// token lines, then one token line per gate.  The writer's single blank
/// separator line and its final newline contribute nothing a reader sees:
/// the writer emits no other blank line.
pub proof fn lemma_toklines_render_circuit(c: BristolCircuitView)
    requires
        circuit_wf(c),
    ensures
        toklines(spec_lines(render_circuit(c))) == seq![
            sizes_tokens(c),
            width_line_tokens(effective_input_widths(c)),
            width_line_tokens(effective_output_widths(c)),
        ] + c.gates.map_values(|g: GateView| gate_tokens(g)),
{
    let st = sizes_tokens(c);
    let wt1 = width_line_tokens(effective_input_widths(c));
    let wt2 = width_line_tokens(effective_output_widths(c));
    let l1 = render_tokens(st);
    let l2 = render_tokens(wt1);
    let l3 = render_tokens(wt2);
    let lb = Seq::<char>::empty();
    let gtext = render_gates(c.gates);
    lemma_sizes_tokens_wf(c);
    lemma_width_tokens_wf(effective_input_widths(c));
    lemma_width_tokens_wf(effective_output_widths(c));
    lemma_wf_tokens_no_space(st);
    lemma_wf_tokens_no_space(wt1);
    lemma_wf_tokens_no_space(wt2);
    lemma_render_tokens_no_newline(st);
    lemma_render_tokens_no_newline(wt1);
    lemma_render_tokens_no_newline(wt2);
    let r4 = lb + seq!['\n'] + gtext;
    let r3 = l3 + seq!['\n'] + r4;
    let r2 = l2 + seq!['\n'] + r3;
    assert(render_circuit(c) =~= l1 + seq!['\n'] + r2);
    lemma_lines_line_prepend(l1, r2);
    lemma_lines_line_prepend(l2, r3);
    lemma_lines_line_prepend(l3, r4);
    lemma_lines_line_prepend(lb, gtext);
    assert(spec_lines(render_circuit(c)) =~= seq![l1] + (seq![l2] + (seq![l3] + (seq![lb]
        + spec_lines(gtext)))));
    lemma_toklines_concat(seq![l1], seq![l2] + (seq![l3] + (seq![lb] + spec_lines(gtext))));
    lemma_toklines_concat(seq![l2], seq![l3] + (seq![lb] + spec_lines(gtext)));
    lemma_toklines_concat(seq![l3], seq![lb] + spec_lines(gtext));
    lemma_toklines_concat(seq![lb], spec_lines(gtext));
    lemma_tokens_of_render_tokens(st);
    lemma_tokens_of_render_tokens(wt1);
    lemma_tokens_of_render_tokens(wt2);
    lemma_toklines_single(l1);
    lemma_toklines_single(l2);
    lemma_toklines_single(l3);
    lemma_toklines_single(lb);
    crate::text::lemma_tokens_from_empty(lb, 0);
    lemma_toklines_render_gates(c.gates);
    assert(toklines(spec_lines(render_circuit(c))) =~= seq![st, wt1, wt2] + c.gates.map_values(
        |g: GateView| gate_tokens(g),
    ));
}

/// Round trip: writing any well-formed circuit and reading the text back
/// with the circuit's own metadata succeeds and yields the same circuit,
/// except that an all-one width vector pair is normalized to the widthless
/// form.
pub proof fn lemma_write_read_round_trip(c: BristolCircuitView)
    requires
        circuit_wf(c),
    ensures
        parse_circuit(c.info, render_circuit(c)) == Ok::<BristolCircuitView, ReadErrorKind>(
            normalize_circuit(c),
        ),
{
    lemma_toklines_render_circuit(c);
    let gmap = c.gates.map_values(|g: GateView| gate_tokens(g));
    let tl = toklines(spec_lines(render_circuit(c)));
    let st = sizes_tokens(c);
    let wt1 = width_line_tokens(effective_input_widths(c));
    let wt2 = width_line_tokens(effective_output_widths(c));
    assert(tl == seq![st, wt1, wt2] + gmap);
    assert(tl.len() == 3 + c.gates.len());
    assert(tl[0] == st);
    assert(tl[1] == wt1);
    assert(tl[2] == wt2);
    lemma_parse_sizes_tokens(c);
    let iw = effective_input_widths(c);
    let ow = effective_output_widths(c);
    assert(iw.len() <= usize::MAX && (forall|i: int| 0 <= i < iw.len() ==> #[trigger] iw[i] >= 1));
    assert(ow.len() <= usize::MAX && (forall|i: int| 0 <= i < ow.len() ==> #[trigger] ow[i] >= 1));
    lemma_parse_width_tokens(iw);
    lemma_parse_width_tokens(ow);
    assert(iw.len() == c.info.inputs.len());
    assert(ow.len() == c.info.outputs.len());
    assert(tl.skip(3) =~= gmap);
    assert forall|j: int| 0 <= j < gmap.len() implies parse_gate(gmap[j]) == Some(c.gates[j]) by {
        assert(gmap[j] == gate_tokens(c.gates[j]));
        lemma_parse_gate_tokens(c.gates[j]);
    }
    lemma_parse_gates_lines_pointwise(gmap, c.gates);
    assert(parse_gates_lines(tl.skip(3)) == Some(c.gates));
    let result = parse_toklines(c.info, tl);
    assert(tl.len() == 3 + (c.gates.len() as usize));
    let built = BristolCircuitView {
        wire_count: c.wire_count,
        info: c.info,
        io_widths: normalize_widths(iw, ow),
        gates: c.gates,
    };
    assert(result == Ok::<BristolCircuitView, ReadErrorKind>(built));
    match c.io_widths {
        Some(p) => {
            assert(iw == p.0 && ow == p.1);
            assert(built =~= normalize_circuit(c));
        },
        None => {
            assert(crate::bristol_circuit::all_ones(iw));
            assert(crate::bristol_circuit::all_ones(ow));
            assert(normalize_widths(iw, ow) is None);
            assert(built =~= normalize_circuit(c));
        },
    }
}

/// Gate arity invariant: a gate line parses only when it holds exactly
/// `input_arity + output_arity + 3` tokens, and the parsed arities are the
/// lengths of the parsed wire lists.
pub proof fn lemma_gate_token_count(ts: Seq<Seq<char>>, g: GateView)
    requires
        parse_gate(ts) == Some(g),
    ensures
        ts.len() == g.inputs.len() + g.outputs.len() + 3,
{
}

/// Gate arity invariant, failing side: a token count that disagrees with the
/// declared arities never parses.
pub proof fn lemma_gate_wrong_token_count(ts: Seq<Seq<char>>)
    requires
        token_value(ts, 0) matches Some(ni),
        token_value(ts, 1) matches Some(no),
        ts.len() != token_num(ts, 0) + token_num(ts, 1) + 3,
    ensures
        parse_gate(ts) is None,
{
}

/// Arity cross-check: when the declared input port count disagrees with the
/// metadata, the read fails with an inconsistency error, not a parse error.
pub proof fn lemma_input_arity_mismatch(info: CircuitInfoView, tls: Seq<Seq<Seq<char>>>)
    requires
        tls.len() >= 2,
        parse_sizes(tls[0]) is Some,
        parse_widths(tls[1]) matches Some(iw) && iw.len() != info.inputs.len(),
    ensures
        parse_toklines(info, tls) == Err::<BristolCircuitView, ReadErrorKind>(
            ReadErrorKind::Inconsistency,
        ),
{
}

/// Arity cross-check, output side.
pub proof fn lemma_output_arity_mismatch(info: CircuitInfoView, tls: Seq<Seq<Seq<char>>>)
    requires
        tls.len() >= 3,
        parse_sizes(tls[0]) is Some,
        parse_widths(tls[1]) matches Some(iw) && iw.len() == info.inputs.len(),
        parse_widths(tls[2]) matches Some(ow) && ow.len() != info.outputs.len(),
    ensures
        parse_toklines(info, tls) == Err::<BristolCircuitView, ReadErrorKind>(
            ReadErrorKind::Inconsistency,
        ),
{
}

/// Blank-line skipping: a blank line inserted anywhere between the raw lines
/// changes nothing about what is read.
pub proof fn lemma_blank_line_skipped(
    info: CircuitInfoView,
    before: Seq<Seq<char>>,
    b: Seq<char>,
    after: Seq<Seq<char>>,
)
    requires
        blank(b),
    ensures
        parse_from_lines(info, before + seq![b] + after) == parse_from_lines(info, before + after),
{
    lemma_toklines_concat(before + seq![b], after);
    lemma_toklines_concat(before, seq![b]);
    lemma_toklines_concat(before, after);
    lemma_blank_no_tokens(b);
    assert(seq![b].skip(1) =~= Seq::<Seq<char>>::empty());
    assert(seq![b][0] == b);
    assert(toklines(seq![b].skip(1)) =~= Seq::<Seq<Seq<char>>>::empty());
    assert(toklines(seq![b]) =~= Seq::<Seq<Seq<char>>>::empty());
    assert(toklines(before + seq![b]) =~= toklines(before));
    assert(toklines(before + seq![b] + after) =~= toklines(before + after));
}

/// Trailing blanks: appending a newline and any blank tail to a text changes
/// nothing about what is read.
pub proof fn lemma_trailing_blank_ignored(info: CircuitInfoView, text: Seq<char>, extra: Seq<char>)
    requires
        blank(extra),
    ensures
        parse_circuit(info, text + seq!['\n'] + extra) == parse_circuit(info, text),
{
    lemma_lines_append(text, extra);
    lemma_toklines_concat(spec_lines(text), spec_lines(extra));
    lemma_blank_text_iff_blank_lines(extra);
    lemma_toklines_empty_iff_blank(spec_lines(extra));
    assert(toklines(spec_lines(extra)).len() == 0);
    assert(toklines(spec_lines(text + seq!['\n'] + extra)) =~= toklines(spec_lines(text)));
}

/// Trailing content: appending a newline and any non-blank tail to a text
/// that reads successfully makes the read fail with a parse error.
pub proof fn lemma_trailing_content_rejected(
    info: CircuitInfoView,
    text: Seq<char>,
    extra: Seq<char>,
)
    requires
        parse_circuit(info, text) is Ok,
        !blank(extra),
    ensures
        parse_circuit(info, text + seq!['\n'] + extra) == Err::<BristolCircuitView, ReadErrorKind>(
            ReadErrorKind::Parsing,
        ),
{
    lemma_lines_append(text, extra);
    lemma_toklines_concat(spec_lines(text), spec_lines(extra));
    lemma_blank_text_iff_blank_lines(extra);
    lemma_toklines_empty_iff_blank(spec_lines(extra));
    let tl = toklines(spec_lines(text));
    let ex = toklines(spec_lines(extra));
    assert(ex.len() > 0);
    let tl2 = toklines(spec_lines(text + seq!['\n'] + extra));
    assert(tl2 == tl + ex);
    assert(parse_toklines(info, tl) is Ok);
    assert(tl.len() >= 3);
    assert(tl2[0] == tl[0]);
    assert(tl2[1] == tl[1]);
    assert(tl2[2] == tl[2]);
    assert(parse_sizes(tl[0]) is Some);
    let gc = token_num(tl[0], 0);
    assert(tl.len() == 3 + gc);
    assert(tl2.len() != 3 + gc);
    assert(parse_toklines(info, tl2) == Err::<BristolCircuitView, ReadErrorKind>(
        ReadErrorKind::Parsing,
    ));
}

} // verus!
