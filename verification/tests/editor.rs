use logic_builder::editor::app::App;
use logic_builder::editor::graph::{EditorGraph, EditorNode, EditorNodeKind, LibraryGate};
use logic_builder::script::{PortRef, WireDesc};

fn wire(from_node: usize, from_port: usize, to_node: usize, to_port: usize) -> WireDesc {
    WireDesc {
        from: PortRef { node: from_node, port: from_port },
        to: PortRef { node: to_node, port: to_port },
    }
}

fn labels(names: &[&str]) -> Vec<String> {
    names.iter().map(|s| s.to_string()).collect()
}

fn node(kind: EditorNodeKind, inputs: usize, outputs: usize) -> EditorNode {
    EditorNode {
        kind,
        label: "g".to_string(),
        input_count: inputs,
        output_count: outputs,
        input_labels: vec!["x".to_string(); inputs],
        output_labels: vec!["y".to_string(); outputs],
    }
}

fn graph(inputs: &[&str], outputs: &[&str], nodes: Vec<EditorNode>, wires: Vec<WireDesc>) -> EditorGraph {
    EditorGraph { inputs: labels(inputs), outputs: labels(outputs), nodes, wires }
}

fn gate(name: &str, g: EditorGraph) -> LibraryGate {
    LibraryGate { name: name.to_string(), input_count: g.inputs.len(), output_count: g.outputs.len(), graph: g }
}

#[test]
fn default_app_is_blank() {
    let app = App::default();
    assert!(app.library.is_empty());
    assert_eq!(app.graph.inputs, vec!["in".to_string()]);
    assert_eq!(app.graph.outputs, vec!["out".to_string()]);
    assert!(app.graph.nodes.is_empty());
    assert_eq!(app.input_states, vec![false]);
    assert_eq!(app.output_states, vec![false]);
}

#[test]
fn saving_a_new_name_appends() {
    let mut app = App::default();
    app.title = "and".to_string();
    app.graph = graph(&["a", "b"], &["q"], vec![node(EditorNodeKind::Nand, 2, 1)], vec![wire(0, 0, 3, 0)]);
    app.save_current_graph_to_library();
    assert_eq!(app.library.len(), 1);
    assert_eq!(app.library[0].name, "and");
    assert_eq!(app.library[0].input_count, 2);
    assert_eq!(app.library[0].output_count, 1);
    assert_eq!(app.library[0].graph.nodes.len(), 1);
    app.title = "or".to_string();
    app.save_current_graph_to_library();
    assert_eq!(app.library.len(), 2);
    assert_eq!(app.library[1].name, "or");
}

#[test]
fn saving_an_existing_name_overwrites_and_refreshes_instances() {
    let mut app = App::default();
    // Library gate 0 "inv" has 1 input, 1 output; gate 1 uses it.
    let inv = gate("inv", graph(&["a"], &["q"], vec![node(EditorNodeKind::Nand, 2, 1)], vec![]));
    let user = gate(
        "user",
        graph(
            &["a"],
            &["q"],
            vec![node(EditorNodeKind::SavedGate(0), 1, 1)],
            // into the instance's port 0, and out of its port 0
            vec![wire(0, 0, 2, 0), wire(2, 0, 1, 0)],
        ),
    );
    app.library = vec![inv, user];
    // Save a new "inv" with no input and 2 outputs.
    app.title = "inv".to_string();
    app.graph = graph(&[], &["q", "r"], vec![], vec![]);
    app.save_current_graph_to_library();
    assert_eq!(app.library.len(), 2);
    assert_eq!(app.library[0].name, "inv");
    assert_eq!(app.library[0].input_count, 0);
    assert_eq!(app.library[0].output_count, 2);
    // The instance in "user" now has no input: the wire into port 0 is dropped.
    let u = &app.library[1].graph;
    assert_eq!(u.nodes[0].label, "inv");
    assert_eq!(u.nodes[0].input_count, 0);
    assert_eq!(u.nodes[0].output_count, 2);
    assert_eq!(u.nodes[0].output_labels, labels(&["q", "r"]));
    assert_eq!(u.wires, vec![wire(2, 0, 1, 0)]);
}

#[test]
fn refreshing_instances_drops_wires_on_missing_ports() {
    let mut g = graph(
        &["a"],
        &["q"],
        vec![node(EditorNodeKind::SavedGate(3), 2, 2), node(EditorNodeKind::Nand, 2, 1)],
        vec![wire(0, 0, 2, 1), wire(2, 1, 1, 0), wire(0, 0, 3, 1), wire(2, 0, 3, 0)],
    );
    let updated = gate("half", graph(&["x"], &["y"], vec![], vec![]));
    App::update_saved_gate_instances_in_graph(&mut g, 3, &updated);
    // port 1 of the instance (node 2) no longer exists on either side
    assert_eq!(g.wires, vec![wire(0, 0, 3, 1), wire(2, 0, 3, 0)]);
    assert_eq!(g.nodes[0].label, "half");
    assert_eq!(g.nodes[0].input_labels, labels(&["x"]));
    assert_eq!(g.nodes[1].label, "g");
    assert_eq!(g.nodes[1].input_count, 2);
}

#[test]
fn deleting_a_library_gate_removes_instances_and_moves_references() {
    let mut app = App::default();
    let leaf = gate("leaf", graph(&["a"], &["q"], vec![], vec![]));
    let other = gate("other", graph(&["a"], &["q"], vec![], vec![]));
    let top = gate(
        "top",
        graph(
            &["a"],
            &["q"],
            vec![
                node(EditorNodeKind::SavedGate(0), 1, 1),
                node(EditorNodeKind::SavedGate(1), 1, 1),
                node(EditorNodeKind::SavedGate(0), 1, 1),
            ],
            // a → leaf(2); leaf(2) → other(3); other(3) → q; other(3) → leaf(4)
            vec![wire(0, 0, 2, 0), wire(2, 0, 3, 0), wire(3, 0, 1, 0), wire(3, 0, 4, 0)],
        ),
    );
    app.library = vec![leaf, other, top];
    app.graph = graph(&["a"], &["q"], vec![node(EditorNodeKind::SavedGate(2), 1, 1)], vec![]);
    app.library_rename_index = Some(1);
    app.library_rename_text = "new".to_string();
    app.delete_library_gate(0);
    assert_eq!(app.library.len(), 2);
    assert_eq!(app.library[0].name, "other");
    assert_eq!(app.library[1].name, "top");
    let t = &app.library[1].graph;
    assert_eq!(t.nodes.len(), 1);
    assert!(matches!(t.nodes[0].kind, EditorNodeKind::SavedGate(0)));
    // only the wire from "other" to the output survives, renumbered to node 2
    assert_eq!(t.wires, vec![wire(2, 0, 1, 0)]);
    assert!(matches!(app.graph.nodes[0].kind, EditorNodeKind::SavedGate(1)));
    assert_eq!(app.library_rename_index, None);
    assert_eq!(app.library_rename_text, "");
}

#[test]
fn removal_keeps_wires_attached() {
    let mut g = graph(
        &["a"],
        &[],
        vec![
            node(EditorNodeKind::Nand, 2, 1),
            node(EditorNodeKind::SavedGate(7), 1, 1),
            node(EditorNodeKind::Nand, 2, 1),
        ],
        // node 2 is the instance to delete
        vec![wire(1, 0, 3, 0), wire(0, 0, 1, 1), wire(1, 0, 2, 0)],
    );
    g.remove_all_gates_of_library_index(7);
    assert_eq!(g.nodes.len(), 2);
    assert_eq!(g.wires, vec![wire(1, 0, 2, 0), wire(0, 0, 1, 1)]);
    for w in &g.wires {
        assert!(w.from.node < 1 + g.nodes.len());
        assert!(w.to.node < 1 + g.nodes.len());
    }
}

#[test]
fn remapping_moves_only_higher_references() {
    let mut g = graph(
        &[],
        &[],
        vec![
            node(EditorNodeKind::SavedGate(0), 0, 0),
            node(EditorNodeKind::SavedGate(2), 0, 0),
            node(EditorNodeKind::SavedGate(5), 0, 0),
            node(EditorNodeKind::Nand, 2, 1),
        ],
        vec![],
    );
    g.remap_saved_gate_indices_after_library_deletion(2);
    assert!(matches!(g.nodes[0].kind, EditorNodeKind::SavedGate(0)));
    assert!(matches!(g.nodes[1].kind, EditorNodeKind::SavedGate(2)));
    assert!(matches!(g.nodes[2].kind, EditorNodeKind::SavedGate(4)));
    assert!(matches!(g.nodes[3].kind, EditorNodeKind::Nand));
}

#[test]
fn opening_a_library_gate_loads_it() {
    let mut app = App::default();
    app.library = vec![gate("mux", graph(&["a", "b", "s"], &["q"], vec![node(EditorNodeKind::Nand, 2, 1)], vec![]))];
    app.simulation_running = true;
    app.simulation_error = Some("old".to_string());
    app.open_library_gate_for_editing(0);
    assert_eq!(app.title, "mux");
    assert_eq!(app.graph.inputs, labels(&["a", "b", "s"]));
    assert_eq!(app.input_states, vec![false, false, false]);
    assert_eq!(app.output_states, vec![false]);
    assert!(!app.simulation_running);
    assert!(app.simulation_error.is_none());
    assert_eq!(app.library.len(), 1);
}

#[test]
fn clearing_the_canvas_keeps_the_library() {
    let mut app = App::default();
    app.library = vec![gate("x", graph(&["a"], &["q"], vec![], vec![]))];
    app.title = "t".to_string();
    app.graph = graph(&["a", "b"], &["q"], vec![node(EditorNodeKind::Nand, 2, 1)], vec![wire(0, 0, 3, 0)]);
    app.input_states = vec![true, true];
    app.simulation_running = true;
    app.clear_canvas();
    assert_eq!(app.graph.inputs, vec!["in".to_string()]);
    assert!(app.graph.nodes.is_empty());
    assert!(app.graph.wires.is_empty());
    assert_eq!(app.input_states, vec![false]);
    assert!(!app.simulation_running);
    assert_eq!(app.library.len(), 1);
    assert_eq!(app.title, "t");
}

#[test]
fn saving_twice_changes_nothing_more() {
    let mut app = App::default();
    let inv = gate("inv", graph(&["a"], &["q"], vec![node(EditorNodeKind::Nand, 2, 1)], vec![]));
    app.library = vec![inv];
    // An instance of gate 0 with a wire into its input 0, which the saved gate lacks.
    app.title = "inv".to_string();
    app.graph = graph(
        &[],
        &["q"],
        vec![node(EditorNodeKind::SavedGate(0), 1, 1)],
        vec![wire(0, 0, 1, 0), wire(1, 0, 0, 0)],
    );
    app.save_current_graph_to_library();
    let library_once = format!("{:?}", app.library);
    let canvas_once = format!("{:?}", app.graph);
    assert_eq!(app.graph.nodes[0].input_count, 0);
    assert_eq!(app.graph.wires, vec![wire(1, 0, 0, 0)]);
    app.save_current_graph_to_library();
    assert_eq!(format!("{:?}", app.library), library_once);
    assert_eq!(format!("{:?}", app.graph), canvas_once);

    app.title = "fresh".to_string();
    app.save_current_graph_to_library();
    let library_once = format!("{:?}", app.library);
    let canvas_once = format!("{:?}", app.graph);
    app.save_current_graph_to_library();
    assert_eq!(format!("{:?}", app.library), library_once);
    assert_eq!(format!("{:?}", app.graph), canvas_once);
}
