use logic_builder::compile::{CompileError, Compiler};
use logic_builder::external_node_descriptions::{ExternalNodeDescrption, ExternalNodeDescrptions};
use logic_builder::name_map::NameMap;
use logic_builder::runtime::{Runtime, RuntimeError};
use logic_builder::script::{CircutLangScript, GateKind, GraphDesc, PortRef, WireDesc};
use logic_builder::simulation::WireId;
use logic_builder::simulation::node::NodeKind;

fn wire(from_node: usize, from_port: usize, to_node: usize, to_port: usize) -> WireDesc {
    WireDesc {
        from: PortRef { node: from_node, port: from_port },
        to: PortRef { node: to_node, port: to_port },
    }
}

/// One input, one output: the output is the NAND of the input with itself.
fn not_graph() -> GraphDesc {
    GraphDesc {
        n_inputs: 1,
        n_outputs: 1,
        gates: vec![(2, 1, GateKind::Nand)],
        wires: vec![wire(0, 0, 2, 0), wire(0, 0, 2, 1), wire(2, 0, 1, 0)],
    }
}

fn script(entry: &str, graphs: Vec<(&str, GraphDesc)>) -> CircutLangScript {
    let mut gates = NameMap::new();
    for (name, g) in graphs {
        gates.insert(name.to_string(), g);
    }
    CircutLangScript { entry_point: entry.to_string(), gates }
}

#[test]
fn not_gate_inverts_after_one_tick() {
    let mut rt = Runtime::new_compile(script("not", vec![("not", not_graph())])).unwrap();
    assert_eq!(rt.output_values(), vec![false]);
    rt.set_inputs(Some(vec![true]));
    rt.run_one_tick(&vec![]).unwrap();
    assert_eq!(rt.output_values(), vec![false]);
    rt.set_inputs(Some(vec![false]));
    rt.run_one_tick(&vec![]).unwrap();
    assert_eq!(rt.output_values(), vec![true]);
}

#[test]
fn compiled_not_gate_layout() {
    let sim = Compiler::compile(script("not", vec![("not", not_graph())]), None).unwrap();
    assert_eq!(sim.input_wires, vec![WireId(0)]);
    assert_eq!(sim.output_wires, vec![WireId(1)]);
    assert_eq!(sim.wire_states.len(), 2);
    assert_eq!(sim.nodes.nodes.len(), 1);
}

#[test]
fn missing_entry_point() {
    match Compiler::compile(script("nowhere", vec![("not", not_graph())]), None) {
        Err(CompileError::MissingEntryPoint(m)) => assert_eq!(m, "Missing: nowhere"),
        _ => panic!("expected a missing entry point"),
    }
}

#[test]
fn self_reference_is_circular() {
    let g = GraphDesc {
        n_inputs: 1,
        n_outputs: 1,
        gates: vec![(1, 1, GateKind::SavedGate("loop".to_string()))],
        wires: vec![],
    };
    match Compiler::compile(script("loop", vec![("loop", g)]), None) {
        Err(CompileError::CircularDependency(m)) => assert_eq!(m, "loop"),
        _ => panic!("expected a circular dependency"),
    }
}

#[test]
fn external_gate_needs_an_answer() {
    let g = GraphDesc {
        n_inputs: 1,
        n_outputs: 1,
        gates: vec![(1, 1, GateKind::ExternalGate("probe".to_string()))],
        wires: vec![wire(0, 0, 2, 0), wire(2, 0, 1, 0)],
    };
    let mut descs = ExternalNodeDescrptions::default();
    descs.nodes.insert(
        "probe".to_string(),
        ExternalNodeDescrption { inputs: vec!["a".to_string()], outputs: vec!["q".to_string()] },
    );
    let sim = Compiler::compile(script("top", vec![("top", g)]), Some(descs)).unwrap();
    let mut rt = Runtime::new(sim);
    rt.set_inputs(Some(vec![true]));
    let calls = rt.external_calls();
    assert_eq!(calls.len(), 1);
    assert_eq!(calls[0].name, "probe");
    assert_eq!(calls[0].inputs, vec![true]);
    match rt.run_one_tick(&vec![]) {
        Err(RuntimeError::ExternalNodeMissing(n)) => assert_eq!(n, "probe"),
        _ => panic!("expected a missing external node"),
    }
    // the failed tick changed nothing
    assert_eq!(rt.output_values(), vec![false]);
    assert!(rt.wire_value(WireId(0)));
    rt.run_one_tick(&vec![vec![true]]).unwrap();
    assert_eq!(rt.output_values(), vec![true]);
}

/// Two inputs, one output: NAND followed by the "not" library gate.
fn and_graph() -> GraphDesc {
    GraphDesc {
        n_inputs: 2,
        n_outputs: 1,
        gates: vec![(2, 1, GateKind::Nand), (1, 1, GateKind::SavedGate("not".to_string()))],
        wires: vec![wire(0, 0, 3, 0), wire(1, 0, 3, 1), wire(3, 0, 4, 0), wire(4, 0, 2, 0)],
    }
}

#[test]
fn and_gate_from_library_settles_in_two_ticks() {
    let s = script("and", vec![("not", not_graph()), ("and", and_graph())]);
    let mut rt = Runtime::new_compile(s).unwrap();
    for (a, b) in [(false, false), (false, true), (true, false), (true, true)] {
        rt.set_inputs(Some(vec![a, b]));
        rt.run_one_tick(&vec![]).unwrap();
        rt.run_one_tick(&vec![]).unwrap();
        assert_eq!(rt.output_values(), vec![a && b]);
    }
}

#[test]
fn wire_layout_gives_each_output_port_its_own_wire() {
    // inputs take wires 0 and 1; the NAND's output wire 2; the nested gate's output wire 3
    let s = script("and", vec![("not", not_graph()), ("and", and_graph())]);
    let sim = Compiler::compile(s, None).unwrap();
    assert_eq!(sim.wire_states.len(), 4);
    assert_eq!(sim.input_wires, vec![WireId(0), WireId(1)]);
    assert_eq!(sim.output_wires, vec![WireId(3)]);
    match &sim.nodes.nodes[0].kind {
        NodeKind::Nand { input_a, input_b, output } => {
            assert_eq!((*input_a, *input_b, *output), (WireId(0), WireId(1), WireId(2)));
        },
        _ => panic!("expected a NAND"),
    }
    match &sim.nodes.nodes[1].kind {
        NodeKind::Graph { inputs, outputs, simulation } => {
            assert_eq!(inputs, &vec![WireId(2)]);
            assert_eq!(outputs, &vec![WireId(3)]);
            assert_eq!(simulation.input_wires.len(), 1);
        },
        _ => panic!("expected a nested graph"),
    }
}

#[test]
fn unconnected_input_reads_wire_zero() {
    let g = GraphDesc {
        n_inputs: 1,
        n_outputs: 2,
        gates: vec![(2, 1, GateKind::Nand)],
        // port 1 of the NAND and output 1 are left unconnected; a wire from a port
        // that does not exist is ignored
        wires: vec![wire(7, 0, 3, 0), wire(0, 0, 3, 0), wire(3, 0, 1, 0)],
    };
    let sim = Compiler::compile(script("g", vec![("g", g)]), None).unwrap();
    assert_eq!(sim.output_wires, vec![WireId(1), WireId(0)]);
    match &sim.nodes.nodes[0].kind {
        NodeKind::Nand { input_a, input_b, .. } => {
            assert_eq!((*input_a, *input_b), (WireId(0), WireId(0)));
        },
        _ => panic!("expected a NAND"),
    }
}

#[test]
fn nand_needs_two_inputs_and_one_output() {
    let g = GraphDesc { n_inputs: 1, n_outputs: 1, gates: vec![(1, 1, GateKind::Nand)], wires: vec![] };
    match Compiler::compile(script("bad", vec![("bad", g)]), None) {
        Err(CompileError::NandBadIOCount(m)) => assert_eq!(m, "Inside: bad"),
        _ => panic!("expected a bad NAND"),
    }
}

#[test]
fn library_gate_port_counts_must_match() {
    let g = GraphDesc {
        n_inputs: 2,
        n_outputs: 1,
        gates: vec![(2, 1, GateKind::SavedGate("not".to_string()))],
        wires: vec![],
    };
    match Compiler::compile(script("top", vec![("not", not_graph()), ("top", g)]), None) {
        Err(CompileError::LibraryNodeBadIOCount(m)) => assert_eq!(m, "Inside: top"),
        _ => panic!("expected a bad library gate"),
    }
}

#[test]
fn missing_library_gate_reports_the_entry_point() {
    let g = GraphDesc {
        n_inputs: 1,
        n_outputs: 1,
        gates: vec![(1, 1, GateKind::SavedGate("absent".to_string()))],
        wires: vec![],
    };
    match Compiler::compile(script("top", vec![("top", g)]), None) {
        Err(CompileError::MissingEntryPoint(m)) => assert_eq!(m, "Missing: top"),
        _ => panic!("expected a missing graph"),
    }
}

#[test]
fn external_gate_port_counts_checked_against_declaration() {
    let g = GraphDesc {
        n_inputs: 1,
        n_outputs: 1,
        gates: vec![(2, 3, GateKind::ExternalGate("probe".to_string()))],
        wires: vec![],
    };
    let mut descs = ExternalNodeDescrptions::default();
    descs.nodes.insert(
        "probe".to_string(),
        ExternalNodeDescrption { inputs: vec!["a".to_string()], outputs: vec!["q".to_string()] },
    );
    match Compiler::compile(script("top", vec![("top", g)]), Some(descs)) {
        Err(CompileError::ExternalNodeBadIOCount(m)) => assert_eq!(m, "Inside: probe"),
        _ => panic!("expected a bad external gate"),
    }
}

#[test]
fn library_gate_used_twice_compiles_once_and_is_shared() {
    let g = GraphDesc {
        n_inputs: 1,
        n_outputs: 1,
        gates: vec![
            (1, 1, GateKind::SavedGate("not".to_string())),
            (1, 1, GateKind::SavedGate("not".to_string())),
        ],
        wires: vec![wire(0, 0, 2, 0), wire(2, 0, 3, 0), wire(3, 0, 1, 0)],
    };
    let mut rt = Runtime::new_compile(script("twice", vec![("not", not_graph()), ("twice", g)])).unwrap();
    rt.set_inputs(Some(vec![true]));
    for _ in 0..3 {
        rt.run_one_tick(&vec![]).unwrap();
    }
    assert_eq!(rt.output_values(), vec![true]);
}

#[test]
fn wire_ids_in_and_out_of_range() {
    let sim = Compiler::compile(script("not", vec![("not", not_graph())]), None).unwrap();
    assert_eq!(WireId::new_from_sim(1, &sim), Some(WireId(1)));
    assert_eq!(WireId::new_from_sim(2, &sim), None);
    assert_eq!(WireId::new_unchecked(9).i(), 9);
    let rt = Runtime::new(sim);
    assert!(!rt.wire_value(WireId(1)));
    assert!(!rt.wire_value(WireId(99)));
}

fn oversized_graph() -> GraphDesc {
    // more output wires than wire ids can number
    GraphDesc { n_inputs: 0, n_outputs: 0, gates: vec![(0, usize::MAX, GateKind::Nand)], wires: vec![] }
}

#[test]
fn checked_compile_refuses_a_graph_too_large_for_wire_ids() {
    let s = script("not", vec![("not", not_graph()), ("huge", oversized_graph())]);
    assert!(!logic_builder::compile::script_fits_check(&s));
    assert!(Compiler::compile_checked(s, None).is_none());
    let s = script("not", vec![("not", not_graph())]);
    assert!(logic_builder::compile::script_fits_check(&s));
    assert!(matches!(Compiler::compile_checked(s, None), Some(Ok(_))));
    assert!(Runtime::new_compile_checked(script("huge", vec![("huge", oversized_graph())])).is_none());
}

#[test]
fn unreached_oversized_graph_does_not_stop_compilation() {
    let s = script("not", vec![("not", not_graph()), ("huge", oversized_graph())]);
    let mut rt = Runtime::new_compile(s).unwrap();
    rt.set_inputs(Some(vec![false]));
    rt.run_one_tick(&vec![]).unwrap();
    assert_eq!(rt.output_values(), vec![true]);
}

#[test]
fn checked_runtime_refuses_an_ill_formed_simulation() {
    let mut sim = Compiler::compile(script("not", vec![("not", not_graph())]), None).unwrap();
    assert!(sim.is_well_formed());
    sim.input_wires.push(WireId(5));
    assert!(!sim.is_well_formed());
    assert!(Runtime::new_checked(sim).is_none());
    let ok = Compiler::compile(script("not", vec![("not", not_graph())]), None).unwrap();
    assert!(Runtime::new_checked(ok).is_some());
}

#[test]
fn forcing_a_wire_changes_only_that_wire() {
    let mut sim = Compiler::compile(script("not", vec![("not", not_graph())]), None).unwrap();
    sim.force_set_wire(WireId(1), true);
    assert!(WireId(1).current_value(&sim.wire_states));
    assert!(!WireId(0).current_value(&sim.wire_states));
    sim.force_set_wire(WireId(1), false);
    assert!(!WireId(1).current_value(&sim.wire_states));
    sim.wire_states.set_in_current(WireId(0), true);
    assert!(WireId(0).current_value(&sim.wire_states));
    assert!(!WireId(1).current_value(&sim.wire_states));
}
