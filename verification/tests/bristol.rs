use bristol_circuit::{
    BristolCircuit, BristolCircuitError, BristolLine, CircuitInfo, Gate, RawBristolCircuit,
    split_lines, split_whitespace_tokens,
};

// Helper function to create a sample BristolCircuit
fn create_sample_circuit() -> BristolCircuit {
    BristolCircuit {
        // d = (a + b) * b
        // we need to use inputX and outputX to match deserialization from bristol format
        // which doesn't specify the wire names
        wire_count: 4,
        info: CircuitInfo {
            input_name_to_wire_index: [("input0".to_string(), 0), ("input1".to_string(), 1)]
                .iter()
                .cloned()
                .collect(),
            constants: Default::default(),
            output_name_to_wire_index: [("output0".to_string(), 3)].iter().cloned().collect(),
        },
        io_widths: None,
        gates: vec![
            Gate {
                inputs: vec![0, 1],
                outputs: vec![2],
                op: "AAdd".to_string(),
            },
            Gate {
                inputs: vec![2, 1],
                outputs: vec![3],
                op: "AMul".to_string(),
            },
        ],
    }
}

fn clean(src: &str) -> String {
    src.trim_start()
        .trim_end_matches(char::is_whitespace)
        .lines()
        .map(str::trim)
        .collect::<Vec<&str>>()
        .join("\n")
        + "\n"
}

#[test]
fn test_write_bristol() {
    assert_eq!(
        create_sample_circuit().get_bristol_string().unwrap(),
        clean(
            "
                2 4
                2 1 1
                1 1

                2 1 0 1 2 AAdd
                2 1 2 1 3 AMul
            ",
        ),
    );
}

#[test]
fn test_read_bristol() {
    assert_eq!(
        BristolCircuit::from_info_and_bristol_string(
            &CircuitInfo {
                input_name_to_wire_index: [
                    ("input0".to_string(), 0),
                    ("input1".to_string(), 1)
                ]
                .iter()
                .cloned()
                .collect(),
                constants: Default::default(),
                output_name_to_wire_index: [("output0".to_string(), 3)]
                    .iter()
                    .cloned()
                    .collect(),
            },
            "
                2 4
                2 1 1
                1 1

                2 1 0 1 2 AAdd
                2 1 2 1 3 AMul
            "
        )
        .unwrap(),
        create_sample_circuit()
    );
}

#[test]
fn test_bristol_line_read() {
    let input_data = "2 4\n";
    let lines = split_lines(input_data);

    let mut pos: usize = 0;
    let bristol_line = BristolLine::read(&lines, &mut pos).unwrap();
    assert_eq!(bristol_line.0, vec!["2", "4"]);
}

#[test]
fn test_bristol_line_circuit_sizes() {
    let bristol_line = BristolLine(vec!["2".to_string(), "4".to_string()]);
    let (gate_count, wire_count) = bristol_line.circuit_sizes().unwrap();
    assert_eq!(gate_count, 2);
    assert_eq!(wire_count, 4);
}

#[test]
fn test_bristol_line_io_count() {
    let bristol_line = BristolLine(vec!["2".to_string(), "1".to_string(), "1".to_string()]);
    let io_widths = bristol_line.io_widths().unwrap();
    assert_eq!(io_widths, vec![1, 1]);
}

#[test]
fn test_bristol_line_gate() {
    let bristol_line = BristolLine(vec![
        "2".to_string(),
        "1".to_string(),
        "0".to_string(),
        "1".to_string(),
        "2".to_string(),
        "AAdd".to_string(),
    ]);
    let gate = bristol_line.gate().unwrap();
    assert_eq!(gate.inputs, vec![0, 1]);
    assert_eq!(gate.outputs, vec![2]);
    assert_eq!(gate.op, "AAdd");
}

#[test]
fn test_bristol_line_get() {
    let bristol_line = BristolLine(vec!["2".to_string(), "4".to_string()]);
    let value: usize = bristol_line.get(0).unwrap();
    assert_eq!(value, 2);
}

#[test]
fn test_bristol_line_get_str() {
    let bristol_line = BristolLine(vec!["2".to_string(), "4".to_string()]);
    let value = bristol_line.get_str(1).unwrap();
    assert_eq!(value, "4");
}

#[test]
fn test_io_count_strict_unit_widths() {
    let line = BristolLine(vec!["2".to_string(), "1".to_string(), "1".to_string()]);
    assert_eq!(line.io_count().unwrap(), 2);

    let wide = BristolLine(vec!["1".to_string(), "32".to_string()]);
    assert!(matches!(
        wide.io_count(),
        Err(BristolCircuitError::ParsingError { .. })
    ));
}

#[test]
fn test_io_widths_rejects_wrong_count() {
    let line = BristolLine(vec!["3".to_string(), "1".to_string(), "1".to_string()]);
    assert!(matches!(
        line.io_widths(),
        Err(BristolCircuitError::ParsingError { .. })
    ));
}

#[test]
fn test_io_widths_rejects_zero_width() {
    let line = BristolLine(vec!["2".to_string(), "1".to_string(), "0".to_string()]);
    assert!(matches!(
        line.io_widths(),
        Err(BristolCircuitError::ParsingError { .. })
    ));
}

#[test]
fn test_gate_line_missing_op_label_fails() {
    // five tokens instead of six: the op label is missing
    let line = BristolLine(vec![
        "2".to_string(),
        "1".to_string(),
        "0".to_string(),
        "1".to_string(),
        "2".to_string(),
    ]);
    assert!(matches!(
        line.gate(),
        Err(BristolCircuitError::ParsingError { .. })
    ));
}

#[test]
fn test_get_rejects_malformed_number() {
    let line = BristolLine(vec!["x9".to_string()]);
    assert!(matches!(
        line.get(0),
        Err(BristolCircuitError::ParsingError { .. })
    ));
}

#[test]
fn test_get_rejects_huge_number() {
    let line = BristolLine(vec!["99999999999999999999999999".to_string()]);
    assert!(matches!(
        line.get(0),
        Err(BristolCircuitError::ParsingError { .. })
    ));
}

#[test]
fn test_get_out_of_bounds() {
    let line = BristolLine(vec!["2".to_string()]);
    assert!(matches!(
        line.get(1),
        Err(BristolCircuitError::ParsingError { .. })
    ));
    assert!(matches!(
        line.get_str(1),
        Err(BristolCircuitError::ParsingError { .. })
    ));
}

#[test]
fn test_gate_to_line() {
    let gate = Gate {
        inputs: vec![0, 1],
        outputs: vec![2],
        op: "AAdd".to_string(),
    };
    assert_eq!(gate.to_line(), "2 1 0 1 2 AAdd");
}

#[test]
fn test_split_whitespace_tokens() {
    assert_eq!(split_whitespace_tokens("  2 \t 4  "), vec!["2", "4"]);
    assert_eq!(split_whitespace_tokens("   "), Vec::<String>::new());
}

#[test]
fn test_split_lines() {
    assert_eq!(split_lines("a\nb\n"), vec!["a", "b", ""]);
    assert_eq!(split_lines("a"), vec!["a"]);
}

#[test]
fn test_round_trip_through_raw() {
    let circuit = create_sample_circuit();
    let raw = circuit.to_raw().unwrap();
    let back = BristolCircuit::from_raw(&raw).unwrap();
    assert_eq!(back, circuit);
}

#[test]
fn test_round_trip_zero_sizes() {
    // zero gates, zero inputs, zero outputs: the port lines are a bare "0"
    let circuit = BristolCircuit {
        wire_count: 0,
        info: CircuitInfo {
            input_name_to_wire_index: vec![],
            constants: vec![],
            output_name_to_wire_index: vec![],
        },
        io_widths: None,
        gates: vec![],
    };
    let text = circuit.get_bristol_string().unwrap();
    assert_eq!(text, "0 0\n0\n0\n\n");
    let back = BristolCircuit::from_info_and_bristol_string(&circuit.info, &text).unwrap();
    assert_eq!(back, circuit);
}

#[test]
fn test_all_one_widths_normalize_to_none() {
    let mut circuit = create_sample_circuit();
    circuit.io_widths = Some((vec![1, 1], vec![1]));
    let text = circuit.get_bristol_string().unwrap();
    let back = BristolCircuit::from_info_and_bristol_string(&circuit.info, &text).unwrap();
    assert_eq!(back.io_widths, None);
    circuit.io_widths = None;
    assert_eq!(back, circuit);
}

#[test]
fn test_wide_widths_round_trip_unchanged() {
    let mut circuit = create_sample_circuit();
    circuit.io_widths = Some((vec![32, 1], vec![16]));
    let text = circuit.get_bristol_string().unwrap();
    assert_eq!(
        text,
        "2 4\n2 32 1\n1 16\n\n2 1 0 1 2 AAdd\n2 1 2 1 3 AMul\n"
    );
    let back = BristolCircuit::from_info_and_bristol_string(&circuit.info, &text).unwrap();
    assert_eq!(back, circuit);
}

#[test]
fn test_blank_lines_are_skipped() {
    let circuit = create_sample_circuit();
    let text = "\n\n2 4\n\n2 1 1\n   \n1 1\n\n\n2 1 0 1 2 AAdd\n\n2 1 2 1 3 AMul\n\n  \n";
    let back = BristolCircuit::from_info_and_bristol_string(&circuit.info, text).unwrap();
    assert_eq!(back, circuit);
}

#[test]
fn test_trailing_content_fails() {
    let circuit = create_sample_circuit();
    let text = "2 4\n2 1 1\n1 1\n\n2 1 0 1 2 AAdd\n2 1 2 1 3 AMul\nleftover\n";
    assert!(matches!(
        BristolCircuit::from_info_and_bristol_string(&circuit.info, text),
        Err(BristolCircuitError::ParsingError { .. })
    ));
}

#[test]
fn test_input_arity_mismatch_is_inconsistency() {
    // text declares two inputs; metadata names only one
    let info = CircuitInfo {
        input_name_to_wire_index: vec![("a".to_string(), 0)],
        constants: vec![],
        output_name_to_wire_index: vec![("out".to_string(), 3)],
    };
    let text = "2 4\n2 1 1\n1 1\n\n2 1 0 1 2 AAdd\n2 1 2 1 3 AMul\n";
    assert!(matches!(
        BristolCircuit::from_info_and_bristol_string(&info, text),
        Err(BristolCircuitError::Inconsistency { .. })
    ));
}

#[test]
fn test_output_arity_mismatch_is_inconsistency() {
    let info = CircuitInfo {
        input_name_to_wire_index: vec![("a".to_string(), 0), ("b".to_string(), 1)],
        constants: vec![],
        output_name_to_wire_index: vec![],
    };
    let text = "2 4\n2 1 1\n1 1\n\n2 1 0 1 2 AAdd\n2 1 2 1 3 AMul\n";
    assert!(matches!(
        BristolCircuit::from_info_and_bristol_string(&info, text),
        Err(BristolCircuitError::Inconsistency { .. })
    ));
}

#[test]
fn test_truncated_text_fails() {
    let circuit = create_sample_circuit();
    // gate count says two gates but only one follows
    let text = "2 4\n2 1 1\n1 1\n\n2 1 0 1 2 AAdd\n";
    assert!(matches!(
        BristolCircuit::from_info_and_bristol_string(&circuit.info, text),
        Err(BristolCircuitError::ParsingError { .. })
    ));
}

#[test]
fn test_raw_circuit_fields() {
    let circuit = create_sample_circuit();
    let raw: RawBristolCircuit = circuit.to_raw().unwrap();
    assert_eq!(raw.info, circuit.info);
    assert_eq!(raw.bristol, circuit.get_bristol_string().unwrap());
}
