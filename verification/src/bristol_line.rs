//! One tokenized line of Bristol text, with typed, bounds-checked access to
//! its fields, and the grammar of the three line shapes the format uses:
//! a sizes line, a port-width line, and a gate line.

use vstd::prelude::*;
use vstd::string::*;
use crate::bristol_circuit_error::BristolCircuitError;
use crate::decimal::{parse_usize_token, parse_usize};
use crate::gate::{Gate, GateView};
use crate::text::{str_views, toklines, tokens_of, split_whitespace_tokens};

verus! {

/// The whitespace-separated tokens of one non-blank line.
pub struct BristolLine(pub Vec<String>);

impl View for BristolLine {
    type V = Seq<Seq<char>>;

    open spec fn view(&self) -> Seq<Seq<char>> {
        str_views(self.0@)
    }
}

/// The value of token `i`, when there is one and it is a decimal number.
pub open spec fn token_value(ts: Seq<Seq<char>>, i: int) -> Option<usize> {
    if 0 <= i < ts.len() {
        parse_usize_token(ts[i])
    } else {
        None
    }
}

/// The number a token stands for, defaulting to zero off the grammar.
pub open spec fn token_num(ts: Seq<Seq<char>>, i: int) -> usize {
    match token_value(ts, i) {
        Some(v) => v,
        None => 0,
    }
}

/// The sizes line: gate count and wire count.
pub open spec fn parse_sizes(ts: Seq<Seq<char>>) -> Option<(usize, usize)> {
    if token_value(ts, 0) is Some && token_value(ts, 1) is Some {
        Some((token_num(ts, 0), token_num(ts, 1)))
    } else {
        None
    }
}

/// A port-width line: the port count followed by one positive width per port.
pub open spec fn parse_widths(ts: Seq<Seq<char>>) -> Option<Seq<usize>> {
    match token_value(ts, 0) {
        None => None,
        Some(count) => if ts.len() == count + 1 && (forall|i: int|
            1 <= i < ts.len() ==> token_value(ts, i) is Some && token_num(ts, i) >= 1) {
            Some(Seq::new(count as nat, |i: int| token_num(ts, i + 1)))
        } else {
            None
        },
    }
}

/// The strict unit-width reading of a port line: the port count followed by
/// the literal token `1` once per port.
pub open spec fn parse_io_count(ts: Seq<Seq<char>>) -> Option<usize> {
    match token_value(ts, 0) {
        None => None,
        Some(count) => if ts.len() == count + 1 && (forall|i: int|
            1 <= i < ts.len() ==> ts[i] == seq!['1']) {
            Some(count)
        } else {
            None
        },
    }
}

/// A gate line: input arity, output arity, that many input and output wire
/// indices, and a final operation label, exactly `arities + 3` tokens.
pub open spec fn parse_gate(ts: Seq<Seq<char>>) -> Option<GateView> {
    match (token_value(ts, 0), token_value(ts, 1)) {
        (Some(ni), Some(no)) => if ts.len() == ni + no + 3 && (forall|i: int|
            2 <= i < ts.len() - 1 ==> token_value(ts, i) is Some) {
            Some(
                GateView {
                    inputs: Seq::new(ni as nat, |i: int| token_num(ts, 2 + i)),
                    outputs: Seq::new(no as nat, |i: int| token_num(ts, 2 + ni + i)),
                    op: ts[ts.len() - 1],
                },
            )
        } else {
            None
        },
        _ => None,
    }
}

fn parse_error(text: &str) -> (r: BristolCircuitError)
    ensures
        r is ParsingError,
{
    BristolCircuitError::ParsingError { message: text.to_owned() }
}

impl BristolLine {
    /// Reads the next non-blank line from `lines`, advancing the cursor past
    /// it, and splits it into tokens.  Fails when only blank lines remain.
    pub fn read(lines: &Vec<String>, pos: &mut usize) -> (r: Result<BristolLine, BristolCircuitError>)
        requires
            *old(pos) <= lines@.len(),
        ensures
            *final(pos) <= lines@.len(),
            match r {
                Ok(line) => {
                    let before = toklines(str_views(lines@).skip(*old(pos) as int));
                    &&& before.len() > 0
                    &&& line@ == before[0]
                    &&& toklines(str_views(lines@).skip(*final(pos) as int)) == before.skip(1)
                },
                Err(e) => {
                    &&& e is ParsingError
                    &&& toklines(str_views(lines@).skip(*old(pos) as int)).len() == 0
                    &&& *final(pos) == lines@.len()
                },
            },
    {
        while *pos < lines.len()
            invariant
                *old(pos) <= *pos <= lines@.len(),
                toklines(str_views(lines@).skip(*pos as int)) == toklines(
                    str_views(lines@).skip(*old(pos) as int),
                ),
            decreases lines@.len() - *pos,
        {
            let ghost lv = str_views(lines@);
            let i = *pos;
            let toks = split_whitespace_tokens(lines[i].as_str());
            *pos = i + 1;
            proof {
                assert(lv.skip(i as int)[0] == lv[i as int]);
                assert(lv[i as int] == lines@[i as int]@);
                assert(lv.skip(i as int).skip(1) =~= lv.skip(i as int + 1));
            }
            if toks.len() > 0 {
                let line = BristolLine(toks);
                proof {
                    let suf = lv.skip(i as int);
                    assert(suf.len() > 0);
                    assert(suf[0] == lv[i as int]);
                    assert(lv[i as int] == lines@[i as int]@);
                    assert(line@ == tokens_of(lv[i as int]));
                    assert(tokens_of(suf[0]).len() > 0);
                    assert(toklines(suf) == seq![tokens_of(suf[0])] + toklines(suf.skip(1)));
                    assert(suf.skip(1) =~= lv.skip(i as int + 1));
                    let before = toklines(lv.skip(*old(pos) as int));
                    assert(toklines(suf) == before);
                    assert(before[0] == tokens_of(lv[i as int]));
                    assert(before.skip(1) =~= toklines(lv.skip(i as int + 1)));
                }
                return Ok(line);
            }
        }
        proof {
            assert(str_views(lines@).skip(lines@.len() as int) =~= Seq::<Seq<char>>::empty());
        }
        Err(parse_error("unexpected end of input"))
    }

    /// The first line of a circuit: its gate count and wire count.
    pub fn circuit_sizes(&self) -> (r: Result<(usize, usize), BristolCircuitError>)
        ensures
            match r {
                Ok(p) => parse_sizes(self@) == Some(p),
                Err(e) => e is ParsingError && parse_sizes(self@) is None,
            },
    {
        let gate_count = match self.get(0) {
            Ok(v) => v,
            Err(e) => {
                return Err(e);
            },
        };
        let wire_count = match self.get(1) {
            Ok(v) => v,
            Err(e) => {
                return Err(e);
            },
        };
        Ok((gate_count, wire_count))
    }

    /// A port line under the strict unit-width reading: the declared count,
    /// with every width required to be the literal `1`.
    pub fn io_count(&self) -> (r: Result<usize, BristolCircuitError>)
        ensures
            match r {
                Ok(c) => parse_io_count(self@) == Some(c),
                Err(e) => e is ParsingError && parse_io_count(self@) is None,
            },
    {
        let count = match self.get(0) {
            Ok(v) => v,
            Err(e) => {
                return Err(e);
            },
        };
        if count != self.0.len() - 1 {
            return Err(parse_error("wrong number of widths on a port line"));
        }
        let mut i: usize = 1;
        while i < self.0.len()
            invariant
                1 <= i <= self@.len(),
                count + 1 == self@.len(),
                token_value(self@, 0) == Some(count),
                forall|j: int| 1 <= j < i ==> self@[j] == seq!['1'],
            decreases self@.len() - i,
        {
            let t = self.0[i].as_str();
            if !(t.unicode_len() == 1) {
                proof {
                    assert(self@[i as int] == self.0@[i as int]@);
                    assert(self@[i as int] != seq!['1']);
                }
                return Err(parse_error("expected a width of one"));
            }
            if t.get_char(0) != '1' {
                proof {
                    assert(self@[i as int] == self.0@[i as int]@);
                    assert(self@[i as int] != seq!['1']);
                }
                return Err(parse_error("expected a width of one"));
            }
            proof {
                assert(self@[i as int] == self.0@[i as int]@);
                assert(self@[i as int] =~= seq!['1']);
            }
            i = i + 1;
        }
        Ok(count)
    }

    /// A port line: the declared count, then one positive width per port.
    pub fn io_widths(&self) -> (r: Result<Vec<usize>, BristolCircuitError>)
        ensures
            match r {
                Ok(ws) => parse_widths(self@) == Some(ws@),
                Err(e) => e is ParsingError && parse_widths(self@) is None,
            },
    {
        let count = match self.get(0) {
            Ok(v) => v,
            Err(e) => {
                return Err(e);
            },
        };
        if count != self.0.len() - 1 {
            return Err(parse_error("wrong number of widths on a port line"));
        }
        let mut widths: Vec<usize> = Vec::new();
        let mut i: usize = 1;
        while i < self.0.len()
            invariant
                1 <= i <= self@.len(),
                count + 1 == self@.len(),
                token_value(self@, 0) == Some(count),
                widths@.len() == i - 1,
                forall|j: int|
                    1 <= j < i ==> token_value(self@, j) is Some && token_num(self@, j) >= 1,
                forall|j: int| 0 <= j < i - 1 ==> widths@[j] == token_num(self@, j + 1),
            decreases self@.len() - i,
        {
            let w = match self.get(i) {
                Ok(v) => v,
                Err(e) => {
                    return Err(e);
                },
            };
            if w == 0 {
                proof {
                    assert(!(token_num(self@, i as int) >= 1));
                }
                return Err(parse_error("port width must be positive"));
            }
            widths.push(w);
            i = i + 1;
        }
        proof {
            assert(widths@ =~= Seq::new(count as nat, |j: int| token_num(self@, j + 1)));
        }
        Ok(widths)
    }

    /// A gate line, parsed under the fixed positional grammar.
    pub fn gate(&self) -> (r: Result<Gate, BristolCircuitError>)
        ensures
            match r {
                Ok(g) => parse_gate(self@) == Some(g@),
                Err(e) => e is ParsingError && parse_gate(self@) is None,
            },
    {
        let input_len = match self.get(0) {
            Ok(v) => v,
            Err(e) => {
                return Err(e);
            },
        };
        let output_len = match self.get(1) {
            Ok(v) => v,
            Err(e) => {
                return Err(e);
            },
        };
        if self.0.len() < 3 || input_len > self.0.len() - 3 || output_len != self.0.len() - 3
            - input_len {
            return Err(parse_error("wrong number of tokens on a gate line"));
        }
        let mut inputs: Vec<usize> = Vec::new();
        let mut i: usize = 0;
        while i < input_len
            invariant
                0 <= i <= input_len,
                input_len as int + output_len as int + 3 <= usize::MAX as int,
                self@.len() == input_len + output_len + 3,
                token_value(self@, 0) == Some(input_len),
                token_value(self@, 1) == Some(output_len),
                inputs@.len() == i,
                forall|j: int| 2 <= j < 2 + i ==> token_value(self@, j) is Some,
                forall|j: int| 0 <= j < i ==> inputs@[j] == token_num(self@, 2 + j),
            decreases input_len - i,
        {
            let v = match self.get(i + 2) {
                Ok(v) => v,
                Err(e) => {
                    proof {
                        assert(token_value(self@, i + 2) is None);
                    }
                    return Err(e);
                },
            };
            inputs.push(v);
            i = i + 1;
        }
        let mut outputs: Vec<usize> = Vec::new();
        let mut j: usize = 0;
        while j < output_len
            invariant
                0 <= j <= output_len,
                input_len as int + output_len as int + 3 <= usize::MAX as int,
                self@.len() == input_len + output_len + 3,
                token_value(self@, 0) == Some(input_len),
                token_value(self@, 1) == Some(output_len),
                inputs@.len() == input_len,
                forall|k: int| 2 <= k < 2 + input_len + j ==> token_value(self@, k) is Some,
                forall|k: int| 0 <= k < input_len ==> inputs@[k] == token_num(self@, 2 + k),
                forall|k: int| 0 <= k < j ==> outputs@[k] == token_num(self@, 2 + input_len + k),
                outputs@.len() == j,
            decreases output_len - j,
        {
            let v = match self.get(j + 2 + input_len) {
                Ok(v) => v,
                Err(e) => {
                    proof {
                        assert(token_value(self@, j + 2 + input_len) is None);
                    }
                    return Err(e);
                },
            };
            outputs.push(v);
            j = j + 1;
        }
        let op = match self.get_str(input_len + output_len + 2) {
            Ok(s) => s.to_owned(),
            Err(e) => {
                return Err(e);
            },
        };
        let g = Gate { inputs, outputs, op };
        proof {
            let ts = self@;
            let pg = parse_gate(ts);
            assert(forall|k: int| 2 <= k < ts.len() - 1 ==> token_value(ts, k) is Some);
            assert(pg is Some);
            assert(g@.inputs =~= Seq::new(input_len as nat, |i: int| token_num(ts, 2 + i)));
            assert(g@.outputs =~= Seq::new(
                output_len as nat,
                |i: int| token_num(ts, 2 + input_len + i),
            ));
            assert(g@.op == ts[ts.len() - 1]);
        }
        Ok(g)
    }

    /// The token at `index` parsed as an unsigned decimal number.
    pub fn get(&self, index: usize) -> (r: Result<usize, BristolCircuitError>)
        ensures
            match r {
                Ok(v) => token_value(self@, index as int) == Some(v),
                Err(e) => e is ParsingError && token_value(self@, index as int) is None,
            },
    {
        if index >= self.0.len() {
            return Err(parse_error("token index out of bounds"));
        }
        proof {
            assert(self@[index as int] == self.0@[index as int]@);
        }
        match parse_usize(self.0[index].as_str()) {
            Some(v) => Ok(v),
            None => Err(parse_error("token is not an unsigned number")),
        }
    }

    /// The raw token at `index`.
    pub fn get_str(&self, index: usize) -> (r: Result<&str, BristolCircuitError>)
        ensures
            match r {
                Ok(s) => index < self@.len() && s@ == self@[index as int],
                Err(e) => e is ParsingError && index >= self@.len(),
            },
    {
        if index >= self.0.len() {
            return Err(parse_error("token index out of bounds"));
        }
        proof {
            assert(self@[index as int] == self.0@[index as int]@);
        }
        Ok(self.0[index].as_str())
    }
}

} // verus!
