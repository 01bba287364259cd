//! Reader and writer for the Bristol circuit text format.
//!
//! A circuit is a list of gates over integer-indexed wires, together with
//! naming metadata supplied out of band.  The text format is line oriented:
//! a sizes line, two port-width lines, then one line per gate, with blank
//! lines skipped on read.  Reading and writing are verified to be exact
//! inverses of each other (up to normalization of all-one width vectors).

pub mod arithmetic_circuit_error;
pub mod bristol_circuit;
pub mod bristol_circuit_error;
pub mod bristol_line;
pub mod circuit_info;
pub mod decimal;
pub mod gate;
pub mod laws;
pub mod raw_bristol_circuit;
pub mod text;
pub mod util;

pub use arithmetic_circuit_error::ArithmeticCircuitError;
pub use bristol_circuit::BristolCircuit;
pub use bristol_circuit_error::BristolCircuitError;
pub use bristol_line::BristolLine;
pub use circuit_info::{CircuitInfo, ConstantInfo};
pub use gate::Gate;
pub use raw_bristol_circuit::RawBristolCircuit;
pub use text::split_lines;
pub use text::split_whitespace_tokens;
pub use util::{AGateType, ArithmeticGate};
