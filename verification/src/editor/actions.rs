use std::collections::HashMap;

use vstd::prelude::*;

use super::app::{App, all_low};
use super::graph::{
    BulkWireState,
    EditorGraph,
    EditorGraphModel,
    EditorNodeModel,
    LibraryGate,
    LibraryGateModel,
    clone_strings,
    graph_remapped,
    graph_without_instances,
    is_instance,
    is_instance_id,
    is_instance_of,
    library_view,
};
use crate::script::WireDesc;

verus! {

// ── Refreshing the instances of a library gate ──────────────────────────────
/// `n` once it matches the library gate `gate` saved at index `idx`, if it is one of its
/// instances.
pub open spec fn updated_node(n: EditorNodeModel, idx: usize, gate: LibraryGateModel) -> EditorNodeModel {
    if is_instance(n, idx) {
        EditorNodeModel {
            kind: n.kind,
            label: gate.name,
            input_count: gate.input_count,
            output_count: gate.output_count,
            input_labels: gate.graph.inputs,
            output_labels: gate.graph.outputs,
        }
    } else {
        n
    }
}

/// Whether wire `w` of `g` ends at an input port, or starts at an output port, that an
/// instance of library gate `idx` no longer has once it matches `gate`.
pub open spec fn port_gone(g: EditorGraphModel, idx: usize, gate: LibraryGateModel, w: WireDesc) -> bool {
    ||| is_instance_id(g, idx, w.to.node as int) && w.to.port >= gate.input_count
    ||| is_instance_id(g, idx, w.from.node as int) && w.from.port >= gate.output_count
}

/// Of the first `n` wires of `g`, those whose ports remain.
pub open spec fn wires_kept(g: EditorGraphModel, idx: usize, gate: LibraryGateModel, n: int) -> Seq<
    WireDesc,
>
    decreases n,
{
    if n <= 0 {
        Seq::empty()
    } else if port_gone(g, idx, gate, g.wires[n - 1]) {
        wires_kept(g, idx, gate, n - 1)
    } else {
        wires_kept(g, idx, gate, n - 1).push(g.wires[n - 1])
    }
}

/// `g` with every instance of library gate `idx` made to match `gate`, and the wires on
/// ports that no longer exist dropped.
pub open spec fn graph_updated(g: EditorGraphModel, idx: usize, gate: LibraryGateModel) -> EditorGraphModel {
    EditorGraphModel {
        nodes: Seq::new(g.nodes.len(), |i: int| updated_node(g.nodes[i], idx, gate)),
        wires: wires_kept(g, idx, gate, g.wires.len() as int),
        ..g
    }
}

/// Node ids of `g` fit the machine.
pub open spec fn graph_fits(g: EditorGraphModel) -> bool {
    g.gate_base() + g.nodes.len() <= usize::MAX
}

/// Node ids of every graph of the library fit the machine.
pub open spec fn library_fits(lib: Seq<LibraryGateModel>) -> bool {
    forall|i: int| 0 <= i < lib.len() ==> graph_fits(#[trigger] lib[i].graph)
}

// ── Saving the canvas ───────────────────────────────────────────────────────
/// The index of the first of the first `n` library gates named `name`.
pub open spec fn first_named(lib: Seq<LibraryGateModel>, name: Seq<char>, n: int) -> Option<int>
    decreases n,
{
    if n <= 0 {
        None
    } else {
        match first_named(lib, name, n - 1) {
            Some(i) => Some(i),
            None => if lib[n - 1].name == name {
                Some(n - 1)
            } else {
                None
            },
        }
    }
}

/// The library gate that saving the canvas `graph` under `title` makes.
pub open spec fn saved_gate(title: Seq<char>, graph: EditorGraphModel) -> LibraryGateModel {
    LibraryGateModel {
        name: title,
        input_count: graph.inputs.len() as usize,
        output_count: graph.outputs.len() as usize,
        graph,
    }
}

/// The library once `gate` overwrites entry `i` and every instance of entry `i` in every
/// library graph is refreshed to match it.
pub open spec fn library_overwritten(lib: Seq<LibraryGateModel>, i: int, gate: LibraryGateModel) -> Seq<
    LibraryGateModel,
> {
    Seq::new(
        lib.len(),
        |j: int|
            {
                let base = if j == i {
                    gate
                } else {
                    lib[j]
                };
                LibraryGateModel { graph: graph_updated(base.graph, i as usize, gate), ..base }
            },
    )
}

/// The library once library gate `d` is deleted: its instances are deleted from every
/// other library graph, and their references move down past it.
pub open spec fn library_after_delete(lib: Seq<LibraryGateModel>, d: usize) -> Seq<LibraryGateModel> {
    Seq::new(
        (lib.len() - 1) as nat,
        |j: int|
            {
                let src = lib[if j < d {
                    j
                } else {
                    j + 1
                }];
                LibraryGateModel {
                    graph: graph_remapped(graph_without_instances(src.graph, d), d),
                    ..src
                }
            },
    )
}

/// The library after the canvas `graph` is saved under `title`: the new gate overwrites the
/// first entry of that name, whose instances are refreshed in every library graph, or
/// is appended when no entry has that name.
pub open spec fn saved_library(lib: Seq<LibraryGateModel>, title: Seq<char>, graph: EditorGraphModel) -> Seq<
    LibraryGateModel,
> {
    match first_named(lib, title, lib.len() as int) {
        Some(i) => library_overwritten(lib, i, saved_gate(title, graph)),
        None => lib.push(saved_gate(title, graph)),
    }
}

/// The canvas after it is saved under `title`: when it overwrites a library entry, its
/// own instances of that entry are refreshed.
pub open spec fn saved_canvas(lib: Seq<LibraryGateModel>, title: Seq<char>, graph: EditorGraphModel) -> EditorGraphModel {
    match first_named(lib, title, lib.len() as int) {
        Some(i) => graph_updated(graph, i as usize, saved_gate(title, graph)),
        None => graph,
    }
}

fn find_named(library: &Vec<LibraryGate>, name: &String) -> (r: Option<usize>)
    ensures
        match first_named(library_view(library@), name@, library@.len() as int) {
            Some(i) => r == Some(i as usize),
            None => r is None,
        },
{
    let ghost lib = library_view(library@);
    let mut i: usize = 0;
    while i < library.len()
        invariant
            lib == library_view(library@),
            i <= library@.len(),
            first_named(lib, name@, i as int) is None,
        decreases library@.len() - i,
    {
        if library[i].name == *name {
            assert(first_named(lib, name@, i + 1) == Some(i as int));
            proof {
                lemma_first_named_stays(lib, name@, i + 1, library@.len() as int);
            }
            return Some(i);
        }
        i = i + 1;
    }
    None
}

proof fn lemma_first_named_range(lib: Seq<LibraryGateModel>, name: Seq<char>, n: int)
    requires
        n <= lib.len(),
    ensures
        first_named(lib, name, n) matches Some(i) ==> 0 <= i < n && lib[i].name == name,
    decreases n,
{
    if n > 0 {
        lemma_first_named_range(lib, name, n - 1);
    }
}

proof fn lemma_first_named_stays(lib: Seq<LibraryGateModel>, name: Seq<char>, m: int, n: int)
    requires
        m <= n,
        first_named(lib, name, m) is Some,
    ensures
        first_named(lib, name, n) == first_named(lib, name, m),
    decreases n - m,
{
    if m < n {
        lemma_first_named_stays(lib, name, m, n - 1);
    }
}

impl App {
    /// Save the current canvas as a `LibraryGate`.
    ///
    /// If a gate with the same name already exists it is overwritten in place and
    /// every existing instance of that gate (in the active canvas and in all other
    /// library graphs) has its label, port counts, and port labels refreshed.
    /// If the port counts changed, wires connected to ports that no longer exist
    /// are dropped — the same contract as a port removal.
    pub fn save_current_graph_to_library(&mut self)
        requires
            graph_fits(old(self).graph@),
            library_fits(library_view(old(self).library@)),
        ensures
            library_view(final(self).library@) == saved_library(
                library_view(old(self).library@),
                old(self).title@,
                old(self).graph@,
            ),
            final(self).graph@ == saved_canvas(
                library_view(old(self).library@),
                old(self).title@,
                old(self).graph@,
            ),
            final(self).title == old(self).title,
            final(self).input_states == old(self).input_states,
            final(self).output_states == old(self).output_states,
            final(self).simulation == old(self).simulation,
            final(self).simulation_error == old(self).simulation_error,
            final(self).simulation_running == old(self).simulation_running,
            final(self).library_rename_index == old(self).library_rename_index,
            final(self).library_rename_text == old(self).library_rename_text,
            final(self).pending_wire_start == old(self).pending_wire_start,
            final(self).dragging_gate == old(self).dragging_gate,
            final(self).live_wire_signals == old(self).live_wire_signals,
            final(self).port_to_wire_index == old(self).port_to_wire_index,
            final(self).bulk_wire_state == old(self).bulk_wire_state,
    {
        let ghost lib0 = library_view(self.library@);
        let ghost g0 = self.graph@;
        let new_gate = LibraryGate {
            name: self.title.clone(),
            input_count: self.graph.inputs.len(),
            output_count: self.graph.outputs.len(),
            graph: self.graph.clone(),
        };
        let ghost gate = new_gate@;
        assert(gate == saved_gate(self.title@, g0));
        proof {
            lemma_first_named_range(lib0, gate.name, lib0.len() as int);
        }
        match find_named(&self.library, &new_gate.name) {
            Some(library_index) => {
                // Overwrite the library entry.
                self.library.set(library_index, new_gate.clone());
                assert(library_view(self.library@) =~= lib0.update(library_index as int, gate));
                // Update every existing instance of this gate across all graphs.
                Self::update_saved_gate_instances_in_graph(&mut self.graph, library_index, &new_gate);
                let mut library: Vec<LibraryGate> = Vec::new();
                std::mem::swap(&mut library, &mut self.library);
                let ghost lib1 = library_view(library@);
                let n = library.len();
                let mut j: usize = 0;
                while j < n
                    invariant
                        n == lib0.len(),
                        library@.len() == n,
                        j <= n,
                        gate == new_gate@,
                        library_index < n,
                        lib1 == lib0.update(library_index as int, gate),
                        library_fits(lib0),
                        graph_fits(gate.graph),
                        forall|k: int|
                            0 <= k < j ==> #[trigger] library_view(library@)[k]
                                == library_overwritten(lib0, library_index as int, gate)[k],
                        forall|k: int| j <= k < n ==> #[trigger] library_view(library@)[k] == lib1[k],
                    decreases n - j,
                {
                    let ghost before = library_view(library@);
                    let ghost raw = library@;
                    proof {
                        assert(before[j as int] == lib1[j as int]);
                        assert forall|k: int| 0 <= k < j implies before[k] == library_overwritten(lib0, library_index as int, gate)[k] by {
                            assert(library_view(library@)[k] == library_overwritten(lib0, library_index as int, gate)[k]);
                        }
                        assert forall|k: int| j <= k < n implies before[k] == lib1[k] by {
                            assert(library_view(library@)[k] == lib1[k]);
                        }
                        if j != library_index {
                            assert(graph_fits(lib0[j as int].graph));
                        }
                        assert(graph_fits(raw[j as int]@.graph));
                    }
                    Self::update_saved_gate_instances_in_graph(
                        &mut library[j].graph,
                        library_index,
                        &new_gate,
                    );
                    proof {
                        assert forall|k: int| 0 <= k < n && k != j implies library_view(library@)[k]
                            == before[k] by {
                            assert(library@[k] == raw[k]);
                        }
                        assert(library_view(library@)[j as int] == library_overwritten(lib0, library_index as int, gate)[j as int]);
                        assert forall|k: int| 0 <= k < j + 1 implies #[trigger] library_view(library@)[k]
                            == library_overwritten(lib0, library_index as int, gate)[k] by {
                            if k < j {
                                assert(library_view(library@)[k] == before[k]);
                            }
                        }
                        assert forall|k: int| j + 1 <= k < n implies #[trigger] library_view(library@)[k] == lib1[k] by {
                            assert(library_view(library@)[k] == before[k]);
                        }
                    }
                    j = j + 1;
                }
                proof {
                    assert(library_view(library@) =~= library_overwritten(lib0, library_index as int, gate));
                }
                self.library = library;
            },
            None => {
                self.library.push(new_gate);
                assert(library_view(self.library@) =~= lib0.push(gate));
            },
        }
    }

    /// Refresh every `SavedGate(library_index)` node inside `graph` to match
    /// the current `updated_library_gate` definition.
    ///
    /// - The node's `label`, `input_count`, `output_count`, `input_labels`, and
    ///   `output_labels` are updated.
    /// - Any wire connected to a port that no longer exists is dropped (same
    ///   semantics as removing those ports one by one, but done in bulk here for
    ///   efficiency without the intermediate node-id renumbering).
    pub fn update_saved_gate_instances_in_graph(
        graph: &mut EditorGraph,
        library_index: usize,
        updated_library_gate: &LibraryGate,
    )
        requires
            graph_fits(old(graph)@),
        ensures
            final(graph)@ == graph_updated(old(graph)@, library_index, updated_library_gate@),
    {
        let ghost g = graph@;
        let ghost gate = updated_library_gate@;
        let new_input_count = updated_library_gate.input_count;
        let new_output_count = updated_library_gate.output_count;
        let gate_base = graph.inputs.len() + graph.outputs.len();
        let n = graph.nodes.len();

        // Drop wires connected to ports that no longer exist.
        let mut wires: Vec<WireDesc> = Vec::new();
        let mut w: usize = 0;
        while w < graph.wires.len()
            invariant
                g == graph@,
                gate == updated_library_gate@,
                new_input_count == gate.input_count,
                new_output_count == gate.output_count,
                n == g.nodes.len(),
                gate_base == g.gate_base(),
                w <= g.wires.len(),
                wires@ == wires_kept(g, library_index, gate, w as int),
            decreases g.wires.len() - w,
        {
            let wire = graph.wires[w];
            let to_gone = wire.to.node >= gate_base && wire.to.node - gate_base < n
                && is_instance_of(&graph.nodes[wire.to.node - gate_base], library_index)
                && wire.to.port >= new_input_count;
            let from_gone = wire.from.node >= gate_base && wire.from.node - gate_base < n
                && is_instance_of(&graph.nodes[wire.from.node - gate_base], library_index)
                && wire.from.port >= new_output_count;
            proof {
                assert(g.wires[w as int] == wire);
                if wire.to.node >= gate_base && wire.to.node - gate_base < n {
                    assert(g.nodes[wire.to.node - gate_base] == graph.nodes@[wire.to.node - gate_base]@);
                }
                if wire.from.node >= gate_base && wire.from.node - gate_base < n {
                    assert(g.nodes[wire.from.node - gate_base] == graph.nodes@[wire.from.node - gate_base]@);
                }
                assert(gate.input_count == new_input_count);
                assert(g.gate_base() == gate_base);
                assert(is_instance_id(g, library_index, wire.to.node as int) == (wire.to.node >= gate_base && wire.to.node - gate_base < n
                    && is_instance(graph.nodes@[wire.to.node - gate_base]@, library_index)));
                assert((is_instance_id(g, library_index, wire.to.node as int) && wire.to.port >= gate.input_count) == to_gone);
                assert((is_instance_id(g, library_index, wire.from.node as int) && wire.from.port >= gate.output_count) == from_gone);
                assert(port_gone(g, library_index, gate, wire) == (to_gone || from_gone));
            }
            if !to_gone && !from_gone {
                wires.push(wire);
            }
            w = w + 1;
        }
        graph.wires = wires;

        // Update node metadata.
        let mut i: usize = 0;
        while i < n
            invariant
                gate == updated_library_gate@,
                new_input_count == gate.input_count,
                new_output_count == gate.output_count,
                n == g.nodes.len(),
                i <= n,
                graph.nodes@.len() == n,
                graph@.inputs == g.inputs,
                graph@.outputs == g.outputs,
                graph@.wires == wires_kept(g, library_index, gate, g.wires.len() as int),
                forall|j: int| 0 <= j < i ==> #[trigger] graph@.nodes[j] == updated_node(g.nodes[j], library_index, gate),
                forall|j: int| i <= j < n ==> #[trigger] graph@.nodes[j] == g.nodes[j],
            decreases n - i,
        {
            let ghost before = graph.nodes@;
            let ghost before_v = graph@.nodes;
            proof {
                assert(before_v[i as int] == g.nodes[i as int]);
                assert(before[i as int]@ == g.nodes[i as int]);
            }
            if is_instance_of(&graph.nodes[i], library_index) {
                let label = updated_library_gate.name.clone();
                let input_labels = clone_strings(&updated_library_gate.graph.inputs);
                let output_labels = clone_strings(&updated_library_gate.graph.outputs);
                let node = &mut graph.nodes[i];
                node.label = label;
                node.input_count = new_input_count;
                node.output_count = new_output_count;
                node.input_labels = input_labels;
                node.output_labels = output_labels;
            }
            proof {
                assert(graph@.nodes[i as int] == updated_node(g.nodes[i as int], library_index, gate));
                assert forall|j: int| 0 <= j < n && j != i implies graph@.nodes[j] == before_v[j] by {
                    assert(graph.nodes@[j] == before[j]);
                }
                assert forall|j: int| 0 <= j < i + 1 implies #[trigger] graph@.nodes[j] == updated_node(g.nodes[j], library_index, gate) by {
                    if j < i {
                        assert(graph@.nodes[j] == before_v[j]);
                    }
                }
                assert forall|j: int| i + 1 <= j < n implies #[trigger] graph@.nodes[j] == g.nodes[j] by {
                    assert(graph@.nodes[j] == before_v[j]);
                }
            }
            i = i + 1;
        }
        proof {
            assert(graph@.nodes =~= graph_updated(g, library_index, gate).nodes);
            assert(graph@ =~= graph_updated(g, library_index, gate));
        }
    }

    // ─────────────────────────────────────────────────────────────────────────
    //  Library gate management
    // ─────────────────────────────────────────────────────────────────────────
    /// Load a saved gate back onto the canvas for editing.
    pub fn open_library_gate_for_editing(&mut self, library_index: usize)
        requires
            library_index < old(self).library@.len(),
        ensures
            final(self).title@ == old(self).library@[library_index as int].name@,
            final(self).graph@ == old(self).library@[library_index as int].graph@,
            final(self).input_states@ == Seq::new(
                old(self).library@[library_index as int].input_count as nat,
                |i: int| false,
            ),
            final(self).output_states@ == Seq::new(
                old(self).library@[library_index as int].output_count as nat,
                |i: int| false,
            ),
            final(self).simulation is None,
            final(self).simulation_error is None,
            !final(self).simulation_running,
            final(self).pending_wire_start is None,
            final(self).dragging_gate is None,
            final(self).live_wire_signals@ == Map::<usize, bool>::empty(),
            final(self).port_to_wire_index@ == Map::<(usize, usize), usize>::empty(),
            final(self).library == old(self).library,
            final(self).bulk_wire_state == old(self).bulk_wire_state,
            final(self).library_rename_index == old(self).library_rename_index,
            final(self).library_rename_text == old(self).library_rename_text,
    {
        let gate = self.library[library_index].clone();
        self.title = gate.name;
        self.graph = gate.graph;
        self.input_states = all_low(gate.input_count);
        self.output_states = all_low(gate.output_count);
        self.simulation = None;
        self.simulation_error = None;
        self.simulation_running = false;
        self.pending_wire_start = None;
        self.dragging_gate = None;
        self.live_wire_signals = HashMap::new();
        self.port_to_wire_index = HashMap::new();
    }

    /// Delete a library gate by index.
    ///
    /// Every `SavedGate(deleted_index)` node in all graphs (active canvas and all
    /// library graphs) is removed along with its connected wires, exactly as if the
    /// user had deleted those gate nodes individually.
    ///
    /// Remaining `SavedGate` references with an index greater than `deleted_index`
    /// are decremented by one to stay consistent with the new library layout.
    pub fn delete_library_gate(&mut self, deleted_index: usize)
        requires
            deleted_index < old(self).library@.len(),
            graph_fits(old(self).graph@),
            library_fits(library_view(old(self).library@)),
        ensures
            final(self).graph@ == graph_remapped(
                graph_without_instances(old(self).graph@, deleted_index),
                deleted_index,
            ),
            library_view(final(self).library@) == library_after_delete(
                library_view(old(self).library@),
                deleted_index,
            ),
            final(self).library_rename_index is None,
            final(self).library_rename_text@ == Seq::<char>::empty(),
            final(self).title == old(self).title,
            final(self).input_states == old(self).input_states,
            final(self).output_states == old(self).output_states,
            final(self).simulation == old(self).simulation,
            final(self).simulation_error == old(self).simulation_error,
            final(self).simulation_running == old(self).simulation_running,
            final(self).pending_wire_start == old(self).pending_wire_start,
            final(self).dragging_gate == old(self).dragging_gate,
            final(self).live_wire_signals == old(self).live_wire_signals,
            final(self).port_to_wire_index == old(self).port_to_wire_index,
            final(self).bulk_wire_state == old(self).bulk_wire_state,
    {
        let ghost lib0 = library_view(self.library@);
        // Step 1: remove every instance of the deleted gate from the active canvas.
        self.graph.remove_all_gates_of_library_index(deleted_index);

        // Step 2: remove every instance from every library graph.
        let mut library: Vec<LibraryGate> = Vec::new();
        std::mem::swap(&mut library, &mut self.library);
        let n = library.len();
        let mut j: usize = 0;
        while j < n
            invariant
                n == lib0.len(),
                library@.len() == n,
                j <= n,
                library_fits(lib0),
                forall|k: int|
                    0 <= k < j ==> #[trigger] library_view(library@)[k] == (LibraryGateModel {
                        graph: graph_without_instances(lib0[k].graph, deleted_index),
                        ..lib0[k]
                    }),
                forall|k: int| j <= k < n ==> #[trigger] library_view(library@)[k] == lib0[k],
            decreases n - j,
        {
            let ghost before = library_view(library@);
            let ghost raw = library@;
            proof {
                assert(before[j as int] == lib0[j as int]);
                assert(graph_fits(lib0[j as int].graph));
                assert forall|k: int| 0 <= k < n implies before[k] == library_view(library@)[k] by {}
            }
            library[j].graph.remove_all_gates_of_library_index(deleted_index);
            proof {
                assert forall|k: int| 0 <= k < n && k != j implies library_view(library@)[k]
                    == before[k] by {
                    assert(library@[k] == raw[k]);
                }
                assert forall|k: int| 0 <= k < j + 1 implies #[trigger] library_view(library@)[k] == (LibraryGateModel {
                    graph: graph_without_instances(lib0[k].graph, deleted_index),
                    ..lib0[k]
                }) by {
                    if k < j {
                        assert(library_view(library@)[k] == before[k]);
                    }
                }
                assert forall|k: int| j + 1 <= k < n implies #[trigger] library_view(library@)[k] == lib0[k] by {
                    assert(library_view(library@)[k] == before[k]);
                }
            }
            j = j + 1;
        }
        let ghost lib1 = library_view(library@);

        // Step 3: actually remove the library entry.
        library.remove(deleted_index);
        let ghost lib2 = library_view(library@);
        proof {
            assert forall|k: int| 0 <= k < n - 1 implies #[trigger] lib2[k] == lib1[if k < deleted_index {
                k
            } else {
                k + 1
            }] by {}
        }

        // Step 4: remap all remaining SavedGate indices that are above deleted_index.
        self.graph.remap_saved_gate_indices_after_library_deletion(deleted_index);
        let m = library.len();
        let mut j: usize = 0;
        while j < m
            invariant
                m == lib2.len(),
                library@.len() == m,
                j <= m,
                forall|k: int|
                    0 <= k < j ==> #[trigger] library_view(library@)[k] == (LibraryGateModel {
                        graph: graph_remapped(lib2[k].graph, deleted_index),
                        ..lib2[k]
                    }),
                forall|k: int| j <= k < m ==> #[trigger] library_view(library@)[k] == lib2[k],
            decreases m - j,
        {
            let ghost before = library_view(library@);
            let ghost raw = library@;
            proof {
                assert(before[j as int] == lib2[j as int]);
                assert forall|k: int| 0 <= k < m implies before[k] == library_view(library@)[k] by {}
            }
            library[j].graph.remap_saved_gate_indices_after_library_deletion(deleted_index);
            proof {
                assert forall|k: int| 0 <= k < m && k != j implies library_view(library@)[k]
                    == before[k] by {
                    assert(library@[k] == raw[k]);
                }
                assert forall|k: int| 0 <= k < j + 1 implies #[trigger] library_view(library@)[k] == (LibraryGateModel {
                    graph: graph_remapped(lib2[k].graph, deleted_index),
                    ..lib2[k]
                }) by {
                    if k < j {
                        assert(library_view(library@)[k] == before[k]);
                    }
                }
                assert forall|k: int| j + 1 <= k < m implies #[trigger] library_view(library@)[k] == lib2[k] by {
                    assert(library_view(library@)[k] == before[k]);
                }
            }
            j = j + 1;
        }
        proof {
            assert(library_view(library@) =~= library_after_delete(lib0, deleted_index));
        }
        self.library = library;

        // Clear rename state — it may now point at a stale index.
        self.library_rename_index = None;
        self.library_rename_text = String::new();
    }

    // ─────────────────────────────────────────────────────────────────────────
    //  Canvas
    // ─────────────────────────────────────────────────────────────────────────
    /// Reset the canvas to a blank single-input / single-output graph.
    pub fn clear_canvas(&mut self)
        ensures
            final(self).graph@.inputs == seq!["in"@],
            final(self).graph@.outputs == seq!["out"@],
            final(self).graph@.nodes.len() == 0,
            final(self).graph@.wires.len() == 0,
            final(self).simulation is None,
            final(self).simulation_error is None,
            !final(self).simulation_running,
            final(self).input_states@ == seq![false],
            final(self).output_states@ == seq![false],
            final(self).pending_wire_start is None,
            final(self).dragging_gate is None,
            final(self).live_wire_signals@ == Map::<usize, bool>::empty(),
            final(self).port_to_wire_index@ == Map::<(usize, usize), usize>::empty(),
            final(self).bulk_wire_state is Idle,
            final(self).title == old(self).title,
            final(self).library == old(self).library,
            final(self).library_rename_index == old(self).library_rename_index,
            final(self).library_rename_text == old(self).library_rename_text,
    {
        self.graph = EditorGraph::default();
        self.simulation = None;
        self.simulation_error = None;
        self.simulation_running = false;
        self.input_states = all_low(1);
        self.output_states = all_low(1);
        self.pending_wire_start = None;
        self.dragging_gate = None;
        self.live_wire_signals = HashMap::new();
        self.port_to_wire_index = HashMap::new();
        self.bulk_wire_state = BulkWireState::Idle;
        assert(self.input_states@ =~= seq![false]);
        assert(self.output_states@ =~= seq![false]);
    }
}

} // verus!