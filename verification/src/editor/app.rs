use std::collections::HashMap;

use vstd::prelude::*;

use super::graph::{BulkWireState, EditorGraph, LibraryGate, library_view};
use crate::runtime::Runtime;
use crate::script::PortRef;

verus! {

/// The state of the circuit editor: the canvas, the library of saved gates, and the
/// simulation of the canvas.
pub struct App {
    /// Name under which the canvas is saved to the library.
    pub title: String,
    pub graph: EditorGraph,
    pub library: Vec<LibraryGate>,
    /// Values of the canvas's inputs.
    pub input_states: Vec<bool>,
    /// Values of the canvas's outputs at the last tick.
    pub output_states: Vec<bool>,
    pub simulation: Option<Runtime>,
    pub simulation_error: Option<String>,
    pub simulation_running: bool,
    /// The port a wire being laid starts at.
    pub pending_wire_start: Option<PortRef>,
    /// Index of the canvas node being dragged.
    pub dragging_gate: Option<usize>,
    /// Values of the wires of the running simulation, by wire id.
    pub live_wire_signals: HashMap<usize, bool>,
    /// Which wire of the running simulation each port `(node, port)` sits on.
    pub port_to_wire_index: HashMap<(usize, usize), usize>,
    pub bulk_wire_state: BulkWireState,
    /// The library gate being renamed, and the name typed so far.
    pub library_rename_index: Option<usize>,
    pub library_rename_text: String,
}

/// `n` low values.
pub fn all_low(n: usize) -> (v: Vec<bool>)
    ensures
        v@ == Seq::new(n as nat, |i: int| false),
{
    let mut v: Vec<bool> = Vec::new();
    let mut i: usize = 0;
    while i < n
        invariant
            i <= n,
            v@ == Seq::new(i as nat, |j: int| false),
        decreases n - i,
    {
        v.push(false);
        i = i + 1;
        assert(v@ =~= Seq::new(i as nat, |j: int| false));
    }
    v
}

impl Default for App {
    /// A blank canvas, an empty library, nothing running.
    fn default() -> (app: Self)
        ensures
            app.title@ == Seq::<char>::empty(),
            app.graph@.inputs == seq!["in"@],
            app.graph@.outputs == seq!["out"@],
            app.graph@.nodes.len() == 0,
            app.graph@.wires.len() == 0,
            library_view(app.library@) == Seq::<super::graph::LibraryGateModel>::empty(),
            app.input_states@ == seq![false],
            app.output_states@ == seq![false],
            app.simulation is None,
            app.simulation_error is None,
            !app.simulation_running,
            app.pending_wire_start is None,
            app.dragging_gate is None,
            app.live_wire_signals@ == Map::<usize, bool>::empty(),
            app.port_to_wire_index@ == Map::<(usize, usize), usize>::empty(),
            app.bulk_wire_state is Idle,
            app.library_rename_index is None,
            app.library_rename_text@ == Seq::<char>::empty(),
    {
        let app = App {
            title: String::new(),
            graph: EditorGraph::default(),
            library: Vec::new(),
            input_states: all_low(1),
            output_states: all_low(1),
            simulation: None,
            simulation_error: None,
            simulation_running: false,
            pending_wire_start: None,
            dragging_gate: None,
            live_wire_signals: HashMap::new(),
            port_to_wire_index: HashMap::new(),
            bulk_wire_state: BulkWireState::Idle,
            library_rename_index: None,
            library_rename_text: String::new(),
        };
        assert(app.input_states@ =~= seq![false]);
        assert(app.output_states@ =~= seq![false]);
        assert(library_view(app.library@) =~= Seq::<super::graph::LibraryGateModel>::empty());
        app
    }
}

} // verus!
