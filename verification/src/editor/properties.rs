use vstd::prelude::*;

use super::actions::{
    first_named,
    library_after_delete,
    graph_updated,
    port_gone,
    saved_canvas,
    saved_gate,
    saved_library,
    updated_node,
    wires_kept,
};
use crate::script::WireDesc;

use super::graph::{
    EditorGraphModel,
    EditorNodeKindModel,
    EditorNodeModel,
    LibraryGateModel,
    graph_remapped,
    graph_without_instances,
    instances_before,
    is_instance,
    is_instance_id,
    renumbered,
    touches_instance,
    without_instances,
    wires_without_instances,
};

verus! {

// ── Names in the library ────────────────────────────────────────────────────
/// No two library gates share a name.
pub open spec fn names_unique(lib: Seq<LibraryGateModel>) -> bool {
    forall|i: int, j: int| 0 <= i < j < lib.len() ==> #[trigger] lib[i].name != #[trigger] lib[j].name
}

proof fn lemma_first_named_same_names(a: Seq<LibraryGateModel>, b: Seq<LibraryGateModel>, name: Seq<char>, n: int)
    requires
        n <= a.len(),
        n <= b.len(),
        forall|j: int| 0 <= j < n ==> #[trigger] a[j].name == b[j].name,
    ensures
        first_named(a, name, n) == first_named(b, name, n),
    decreases n,
{
    if n > 0 {
        lemma_first_named_same_names(a, b, name, n - 1);
    }
}

proof fn lemma_first_named_none(lib: Seq<LibraryGateModel>, name: Seq<char>, n: int)
    requires
        n <= lib.len(),
        first_named(lib, name, n) is None,
    ensures
        forall|j: int| 0 <= j < n ==> #[trigger] lib[j].name != name,
    decreases n,
{
    if n > 0 {
        if first_named(lib, name, n - 1) is Some {
        } else {
            lemma_first_named_none(lib, name, n - 1);
        }
    }
}

proof fn lemma_first_named_some(lib: Seq<LibraryGateModel>, name: Seq<char>, n: int)
    requires
        n <= lib.len(),
    ensures
        first_named(lib, name, n) matches Some(i) ==> 0 <= i < n && lib[i].name == name,
    decreases n,
{
    if n > 0 {
        lemma_first_named_some(lib, name, n - 1);
    }
}

/// Saving the canvas under `title` leaves the library with a gate of that name, found
/// first by that name, with as many inputs and outputs as the canvas and the saved canvas
/// (its own instances of that gate refreshed) as its graph; the library grows by one gate
/// exactly when no gate had that name.
pub proof fn lemma_saved_gate_is_found(lib: Seq<LibraryGateModel>, title: Seq<char>, graph: EditorGraphModel)
    requires
        graph.inputs.len() <= usize::MAX,
        graph.outputs.len() <= usize::MAX,
    ensures
        ({
            let nl = saved_library(lib, title, graph);
            &&& first_named(nl, title, nl.len() as int) matches Some(i) && {
                &&& nl[i].name == title
                &&& nl[i].input_count == graph.inputs.len()
                &&& nl[i].output_count == graph.outputs.len()
                &&& nl[i].graph == saved_canvas(lib, title, graph)
                &&& nl[i].graph.inputs == graph.inputs
                &&& nl[i].graph.outputs == graph.outputs
            }
            &&& nl.len() == lib.len() + if first_named(lib, title, lib.len() as int) is Some {
                0int
            } else {
                1int
            }
        }),
{
    let gate = saved_gate(title, graph);
    let nl = saved_library(lib, title, graph);
    lemma_first_named_some(lib, title, lib.len() as int);
    match first_named(lib, title, lib.len() as int) {
        Some(i) => {
            assert forall|j: int| 0 <= j < lib.len() implies #[trigger] nl[j].name == lib[j].name by {}
            lemma_first_named_same_names(nl, lib, title, lib.len() as int);
        },
        None => {
            assert forall|j: int| 0 <= j < lib.len() implies #[trigger] nl[j].name == lib[j].name by {}
            lemma_first_named_same_names(nl, lib, title, lib.len() as int);
            assert(nl[lib.len() as int] == gate);
            assert(first_named(nl, title, lib.len() as int + 1) == Some(lib.len() as int));
        },
    }
}

/// Saving the canvas never makes two library gates share a name.
pub proof fn lemma_save_keeps_names_unique(lib: Seq<LibraryGateModel>, title: Seq<char>, graph: EditorGraphModel)
    requires
        names_unique(lib),
    ensures
        names_unique(saved_library(lib, title, graph)),
{
    let nl = saved_library(lib, title, graph);
    lemma_first_named_some(lib, title, lib.len() as int);
    match first_named(lib, title, lib.len() as int) {
        Some(i) => {
            assert forall|a: int, b: int| 0 <= a < b < nl.len() implies #[trigger] nl[a].name
                != #[trigger] nl[b].name by {
                assert(nl[a].name == lib[a].name);
                assert(nl[b].name == lib[b].name);
            }
        },
        None => {
            lemma_first_named_none(lib, title, lib.len() as int);
            assert forall|a: int, b: int| 0 <= a < b < nl.len() implies #[trigger] nl[a].name
                != #[trigger] nl[b].name by {
                if b == lib.len() {
                    assert(lib[a].name != title);
                }
            }
        },
    }
}

// ── Refreshing instances ────────────────────────────────────────────────────
proof fn lemma_wires_kept_keep(g: EditorGraphModel, idx: usize, gate: LibraryGateModel, n: int)
    requires
        n <= g.wires.len(),
    ensures
        forall|k: int|
            0 <= k < wires_kept(g, idx, gate, n).len() ==> !port_gone(
                g,
                idx,
                gate,
                #[trigger] wires_kept(g, idx, gate, n)[k],
            ),
    decreases n,
{
    if n > 0 {
        lemma_wires_kept_keep(g, idx, gate, n - 1);
        let prev = wires_kept(g, idx, gate, n - 1);
        let cur = wires_kept(g, idx, gate, n);
        assert forall|k: int| 0 <= k < cur.len() implies !port_gone(g, idx, gate, #[trigger] cur[k]) by {
            if k < prev.len() {
                assert(cur[k] == prev[k]);
            }
        }
    }
}

/// After the instances of a library gate are refreshed, no wire of the graph sits on a
/// port that an instance no longer has.
pub proof fn lemma_update_leaves_no_dangling_port(g: EditorGraphModel, idx: usize, gate: LibraryGateModel)
    ensures
        ({
            let u = graph_updated(g, idx, gate);
            forall|k: int| 0 <= k < u.wires.len() ==> !port_gone(u, idx, gate, #[trigger] u.wires[k])
        }),
{
    let u = graph_updated(g, idx, gate);
    lemma_wires_kept_keep(g, idx, gate, g.wires.len() as int);
    assert forall|id: int| #[trigger] is_instance_id(u, idx, id) == is_instance_id(g, idx, id) by {
        if g.gate_base() <= id < g.gate_base() + g.nodes.len() {
            assert(u.nodes[id - g.gate_base()] == updated_node(g.nodes[id - g.gate_base()], idx, gate));
        }
    }
    assert forall|k: int| 0 <= k < u.wires.len() implies !port_gone(u, idx, gate, #[trigger] u.wires[k]) by {
        assert(!port_gone(g, idx, gate, u.wires[k]));
        assert(is_instance_id(u, idx, u.wires[k].to.node as int) == is_instance_id(g, idx, u.wires[k].to.node as int));
        assert(is_instance_id(u, idx, u.wires[k].from.node as int) == is_instance_id(g, idx, u.wires[k].from.node as int));
    }
}

proof fn lemma_wires_kept_all(g: EditorGraphModel, idx: usize, gate: LibraryGateModel, n: int)
    requires
        0 <= n <= g.wires.len(),
        forall|k: int| 0 <= k < n ==> !port_gone(g, idx, gate, #[trigger] g.wires[k]),
    ensures
        wires_kept(g, idx, gate, n) == g.wires.subrange(0, n),
    decreases n,
{
    if n > 0 {
        lemma_wires_kept_all(g, idx, gate, n - 1);
        assert(g.wires.subrange(0, n - 1).push(g.wires[n - 1]) =~= g.wires.subrange(0, n));
    } else {
        assert(g.wires.subrange(0, 0) =~= Seq::<WireDesc>::empty());
    }
}

/// Refreshing the instances of a library gate a second time changes nothing.
pub proof fn lemma_update_is_idempotent(g: EditorGraphModel, idx: usize, gate: LibraryGateModel)
    ensures
        graph_updated(graph_updated(g, idx, gate), idx, gate) == graph_updated(g, idx, gate),
{
    let u = graph_updated(g, idx, gate);
    let u2 = graph_updated(u, idx, gate);
    lemma_update_leaves_no_dangling_port(g, idx, gate);
    lemma_wires_kept_all(u, idx, gate, u.wires.len() as int);
    assert(u.wires.subrange(0, u.wires.len() as int) =~= u.wires);
    assert(u2.nodes =~= u.nodes);
    assert(u2 =~= u);
}

proof fn lemma_wires_kept_same_ports(
    g: EditorGraphModel,
    idx: usize,
    a: LibraryGateModel,
    b: LibraryGateModel,
    n: int,
)
    requires
        a.input_count == b.input_count,
        a.output_count == b.output_count,
        n <= g.wires.len(),
    ensures
        wires_kept(g, idx, a, n) == wires_kept(g, idx, b, n),
    decreases n,
{
    if n > 0 {
        lemma_wires_kept_same_ports(g, idx, a, b, n - 1);
    }
}

/// Two library gates with the same name, port counts and port labels refresh the
/// instances of a graph alike.
proof fn lemma_update_same_ports(g: EditorGraphModel, idx: usize, a: LibraryGateModel, b: LibraryGateModel)
    requires
        a.name == b.name,
        a.input_count == b.input_count,
        a.output_count == b.output_count,
        a.graph.inputs == b.graph.inputs,
        a.graph.outputs == b.graph.outputs,
    ensures
        graph_updated(g, idx, a) == graph_updated(g, idx, b),
{
    lemma_wires_kept_same_ports(g, idx, a, b, g.wires.len() as int);
    assert(graph_updated(g, idx, a).nodes =~= graph_updated(g, idx, b).nodes);
}

/// A graph with no instance of library gate `idx` is left as it is by refreshing them.
proof fn lemma_update_without_instances(g: EditorGraphModel, idx: usize, gate: LibraryGateModel)
    requires
        refs_below(g, idx as int),
    ensures
        graph_updated(g, idx, gate) == g,
{
    assert forall|id: int| !#[trigger] is_instance_id(g, idx, id) by {
        if g.gate_base() <= id < g.gate_base() + g.nodes.len() {
            assert(g.nodes[id - g.gate_base()].kind matches EditorNodeKindModel::SavedGate(j) ==> j < idx);
        }
    }
    assert forall|k: int| 0 <= k < g.wires.len() implies !port_gone(g, idx, gate, #[trigger] g.wires[k]) by {
        assert(!is_instance_id(g, idx, g.wires[k].to.node as int));
        assert(!is_instance_id(g, idx, g.wires[k].from.node as int));
    }
    lemma_wires_kept_all(g, idx, gate, g.wires.len() as int);
    assert(g.wires.subrange(0, g.wires.len() as int) =~= g.wires);
    let u = graph_updated(g, idx, gate);
    assert forall|i: int| 0 <= i < g.nodes.len() implies u.nodes[i] == g.nodes[i] by {
        assert(g.nodes[i].kind matches EditorNodeKindModel::SavedGate(j) ==> j < idx);
    }
    assert(u.nodes =~= g.nodes);
    assert(u =~= g);
}

/// Saving the canvas a second time, right after saving it, changes neither the library
/// nor the canvas, when every library reference of the canvas and of the library names
/// a gate of the library.
pub proof fn lemma_save_is_idempotent(lib: Seq<LibraryGateModel>, title: Seq<char>, graph: EditorGraphModel)
    requires
        lib.len() < usize::MAX,
        refs_below(graph, lib.len() as int),
        forall|j: int| 0 <= j < lib.len() ==> refs_below(#[trigger] lib[j].graph, lib.len() as int),
    ensures
        ({
            let lib1 = saved_library(lib, title, graph);
            let g1 = saved_canvas(lib, title, graph);
            &&& saved_library(lib1, title, g1) == lib1
            &&& saved_canvas(lib1, title, g1) == g1
        }),
{
    let n = lib.len() as int;
    let gate = saved_gate(title, graph);
    let lib1 = saved_library(lib, title, graph);
    let g1 = saved_canvas(lib, title, graph);
    let lib2 = saved_library(lib1, title, g1);
    lemma_first_named_some(lib, title, n);
    match first_named(lib, title, n) {
        Some(i) => {
            let gate1 = saved_gate(title, g1);
            assert forall|j: int| 0 <= j < n implies #[trigger] lib1[j].name == lib[j].name by {}
            lemma_first_named_same_names(lib1, lib, title, n);
            assert(first_named(lib1, title, lib1.len() as int) == Some(i));
            lemma_update_same_ports(g1, i as usize, gate1, gate);
            lemma_update_is_idempotent(graph, i as usize, gate);
            assert forall|j: int| 0 <= j < n implies #[trigger] lib2[j] == lib1[j] by {
                if j != i {
                    lemma_update_same_ports(lib1[j].graph, i as usize, gate1, gate);
                    lemma_update_is_idempotent(lib[j].graph, i as usize, gate);
                }
            }
            assert(lib2 =~= lib1);
        },
        None => {
            assert(lib1 == lib.push(gate));
            assert forall|j: int| 0 <= j < n implies #[trigger] lib1[j].name == lib[j].name by {}
            lemma_first_named_same_names(lib1, lib, title, n);
            assert(first_named(lib1, title, n + 1) == Some(n));
            lemma_update_without_instances(graph, n as usize, gate);
            assert forall|j: int| 0 <= j < n + 1 implies #[trigger] lib2[j] == lib1[j] by {
                if j < n {
                    lemma_update_without_instances(lib[j].graph, n as usize, gate);
                }
            }
            assert(lib2 =~= lib1);
        },
    }
}

// ── Deleting a library gate ─────────────────────────────────────────────────
/// Every library reference of `g` names one of the first `n` library gates.
pub open spec fn refs_below(g: EditorGraphModel, n: int) -> bool {
    forall|i: int|
        0 <= i < g.nodes.len() ==> (#[trigger] g.nodes[i].kind matches EditorNodeKindModel::SavedGate(
            j,
        ) ==> j < n)
}

proof fn lemma_without_instances_from(nodes: Seq<EditorNodeModel>, idx: usize, n: int)
    requires
        n <= nodes.len(),
    ensures
        forall|i: int|
            0 <= i < without_instances(nodes, idx, n).len() ==> exists|j: int|
                0 <= j < n && #[trigger] without_instances(nodes, idx, n)[i] == nodes[j] && !is_instance(
                    nodes[j],
                    idx,
                ),
    decreases n,
{
    if n > 0 {
        lemma_without_instances_from(nodes, idx, n - 1);
        let prev = without_instances(nodes, idx, n - 1);
        let cur = without_instances(nodes, idx, n);
        assert forall|i: int| 0 <= i < cur.len() implies exists|j: int|
            0 <= j < n && #[trigger] cur[i] == nodes[j] && !is_instance(nodes[j], idx) by {
            if i < prev.len() {
                assert(cur[i] == prev[i]);
                let j = choose|j: int| 0 <= j < n - 1 && prev[i] == nodes[j] && !is_instance(nodes[j], idx);
                assert(cur[i] == nodes[j]);
            } else {
                assert(cur[i] == nodes[n - 1]);
            }
        }
    }
}

/// Whether a node is not an instance of library gate `idx`.
pub open spec fn not_instance_of(idx: usize) -> spec_fn(EditorNodeModel) -> bool {
    |m: EditorNodeModel| !is_instance(m, idx)
}

proof fn lemma_without_instances_is_filter(nodes: Seq<EditorNodeModel>, idx: usize, n: int)
    requires
        0 <= n <= nodes.len(),
    ensures
        without_instances(nodes, idx, n) == nodes.subrange(0, n).filter(not_instance_of(idx)),
    decreases n,
{
    reveal(Seq::filter);
    if n > 0 {
        lemma_without_instances_is_filter(nodes, idx, n - 1);
        let sub = nodes.subrange(0, n);
        assert(sub.drop_last() =~= nodes.subrange(0, n - 1));
        assert(sub.last() == nodes[n - 1]);
        assert(sub.filter(not_instance_of(idx)) == if not_instance_of(idx)(nodes[n - 1]) {
            nodes.subrange(0, n - 1).filter(not_instance_of(idx)).push(nodes[n - 1])
        } else {
            nodes.subrange(0, n - 1).filter(not_instance_of(idx))
        });
    } else {
        assert(nodes.subrange(0, 0) =~= Seq::<EditorNodeModel>::empty());
    }
}

proof fn lemma_without_instances_at(nodes: Seq<EditorNodeModel>, idx: usize, n: int, j: int)
    requires
        0 <= j < n <= nodes.len(),
        !is_instance(nodes[j], idx),
    ensures
        0 <= j - instances_before(nodes, idx, j) < without_instances(nodes, idx, n).len(),
        without_instances(nodes, idx, n)[j - instances_before(nodes, idx, j)] == nodes[j],
    decreases n,
{
    lemma_without_instances_len(nodes, idx, n - 1);
    lemma_instances_between(nodes, idx, 0, j);
    let prev = without_instances(nodes, idx, n - 1);
    if j == n - 1 {
        assert(without_instances(nodes, idx, n) == prev.push(nodes[n - 1]));
    } else {
        lemma_without_instances_at(nodes, idx, n - 1, j);
    }
}

/// Deleting the instances of library gate `idx` keeps every other gate, in the order
/// they had: the gates left are those of the graph that are not instances, and the id
/// that a gate is renumbered to names that same gate.
pub proof fn lemma_removal_keeps_other_gates(g: EditorGraphModel, idx: usize)
    ensures
        ({
            let r = graph_without_instances(g, idx);
            &&& r.nodes == g.nodes.filter(not_instance_of(idx))
            &&& r.gate_base() == g.gate_base()
            &&& forall|x: usize|
                g.gate_base() <= x < g.gate_base() + g.nodes.len() && !is_instance(
                    g.nodes[x - g.gate_base()],
                    idx,
                ) ==> {
                    &&& g.gate_base() <= #[trigger] renumbered(g, idx, x) < r.gate_base() + r.nodes.len()
                    &&& r.nodes[renumbered(g, idx, x) - r.gate_base()] == g.nodes[x - g.gate_base()]
                }
        }),
{
    let n = g.nodes.len() as int;
    let r = graph_without_instances(g, idx);
    lemma_without_instances_is_filter(g.nodes, idx, n);
    assert(g.nodes.subrange(0, n) =~= g.nodes);
    assert forall|x: usize|
        g.gate_base() <= x < g.gate_base() + g.nodes.len() && !is_instance(
            g.nodes[x - g.gate_base()],
            idx,
        ) implies {
        &&& g.gate_base() <= #[trigger] renumbered(g, idx, x) < r.gate_base() + r.nodes.len()
        &&& r.nodes[renumbered(g, idx, x) - r.gate_base()] == g.nodes[x - g.gate_base()]
    } by {
        let j = x - g.gate_base();
        lemma_instances_between(g.nodes, idx, 0, j);
        assert(renumbered(g, idx, x) == x - instances_before(g.nodes, idx, j));
        lemma_without_instances_at(g.nodes, idx, n, j);
    }
}

/// When every library reference of a graph is valid, deleting library gate `d` (its
/// instances go, the references above it move down) leaves every reference valid in the
/// shorter library.
pub proof fn lemma_delete_keeps_refs_valid(g: EditorGraphModel, d: usize, n: int)
    requires
        d < n,
        refs_below(g, n),
    ensures
        refs_below(graph_remapped(graph_without_instances(g, d), d), n - 1),
{
    let w = graph_without_instances(g, d);
    let r = graph_remapped(w, d);
    lemma_without_instances_from(g.nodes, d, g.nodes.len() as int);
    assert forall|i: int| 0 <= i < r.nodes.len() implies (#[trigger] r.nodes[i].kind matches EditorNodeKindModel::SavedGate(
        j,
    ) ==> j < n - 1) by {
        let src = choose|j: int|
            0 <= j < g.nodes.len() && w.nodes[i] == g.nodes[j] && !is_instance(g.nodes[j], d);
        assert(w.nodes[i] == g.nodes[src]);
        assert(refs_below(g, n));
        assert(g.nodes[src].kind matches EditorNodeKindModel::SavedGate(j) ==> j < n);
    }
}

/// The index that library gate `j` had before library gate `d` was deleted.
pub open spec fn index_before_delete(j: usize, d: usize) -> int {
    if j < d {
        j as int
    } else {
        j + 1
    }
}

/// After library gate `d` is deleted, each library reference left in a graph comes from a
/// reference of the graph before the deletion, and names the same library gate (same name
/// and ports) in the shorter library.
pub proof fn lemma_delete_keeps_referenced_entries(g: EditorGraphModel, lib: Seq<LibraryGateModel>, d: usize)
    requires
        d < lib.len(),
        refs_below(g, lib.len() as int),
    ensures
        ({
            let r = graph_remapped(graph_without_instances(g, d), d);
            let nl = library_after_delete(lib, d);
            forall|i: int|
                0 <= i < r.nodes.len() ==> (#[trigger] r.nodes[i].kind matches EditorNodeKindModel::SavedGate(
                    j,
                ) ==> {
                    &&& j < nl.len()
                    &&& exists|i0: int|
                        0 <= i0 < g.nodes.len() && g.nodes[i0].kind == EditorNodeKindModel::SavedGate(
                            index_before_delete(j, d) as usize,
                        )
                    &&& nl[j as int].name == lib[index_before_delete(j, d)].name
                    &&& nl[j as int].input_count == lib[index_before_delete(j, d)].input_count
                    &&& nl[j as int].output_count == lib[index_before_delete(j, d)].output_count
                })
        }),
{
    let w = graph_without_instances(g, d);
    let r = graph_remapped(w, d);
    let nl = library_after_delete(lib, d);
    lemma_without_instances_from(g.nodes, d, g.nodes.len() as int);
    assert forall|i: int| 0 <= i < r.nodes.len() implies (#[trigger] r.nodes[i].kind matches EditorNodeKindModel::SavedGate(
        j,
    ) ==> {
        &&& j < nl.len()
        &&& exists|i0: int|
            0 <= i0 < g.nodes.len() && g.nodes[i0].kind == EditorNodeKindModel::SavedGate(
                index_before_delete(j, d) as usize,
            )
        &&& nl[j as int].name == lib[index_before_delete(j, d)].name
        &&& nl[j as int].input_count == lib[index_before_delete(j, d)].input_count
        &&& nl[j as int].output_count == lib[index_before_delete(j, d)].output_count
    }) by {
        let src = choose|j: int|
            0 <= j < g.nodes.len() && w.nodes[i] == g.nodes[j] && !is_instance(g.nodes[j], d);
        assert(w.nodes[i] == g.nodes[src]);
        if let EditorNodeKindModel::SavedGate(j) = r.nodes[i].kind {
            if let EditorNodeKindModel::SavedGate(jo) = g.nodes[src].kind {
                assert(jo != d);
                assert(jo < lib.len());
                assert(index_before_delete(j, d) == jo);
            }
        }
    }
}

// ── Wires stay attached ─────────────────────────────────────────────────────
/// Every wire of `g` starts and ends at a node of `g`.
pub open spec fn wires_attached(g: EditorGraphModel) -> bool {
    forall|k: int|
        0 <= k < g.wires.len() ==> (#[trigger] g.wires[k]).from.node < g.gate_base() + g.nodes.len()
            && g.wires[k].to.node < g.gate_base() + g.nodes.len()
}

proof fn lemma_without_instances_len(nodes: Seq<EditorNodeModel>, idx: usize, n: int)
    requires
        0 <= n <= nodes.len(),
    ensures
        without_instances(nodes, idx, n).len() == n - instances_before(nodes, idx, n),
    decreases n,
{
    if n > 0 {
        lemma_without_instances_len(nodes, idx, n - 1);
    }
}

proof fn lemma_instances_between(nodes: Seq<EditorNodeModel>, idx: usize, a: int, b: int)
    requires
        0 <= a <= b <= nodes.len(),
    ensures
        0 <= instances_before(nodes, idx, b) - instances_before(nodes, idx, a) <= b - a,
    decreases b - a,
{
    if a < b {
        lemma_instances_between(nodes, idx, a, b - 1);
    }
}

proof fn lemma_renumbered_in_range(g: EditorGraphModel, idx: usize, id: usize)
    requires
        id < g.gate_base() + g.nodes.len(),
        !is_instance_id(g, idx, id as int),
    ensures
        renumbered(g, idx, id) < g.gate_base() + (g.nodes.len() - instances_before(
            g.nodes,
            idx,
            g.nodes.len() as int,
        )),
{
    let n = g.nodes.len() as int;
    lemma_instances_between(g.nodes, idx, 0, n);
    if id >= g.gate_base() {
        let k = id - g.gate_base();
        lemma_instances_between(g.nodes, idx, 0, k);
        lemma_instances_between(g.nodes, idx, k + 1, n);
        assert(instances_before(g.nodes, idx, k + 1) == instances_before(g.nodes, idx, k));
    }
}

proof fn lemma_wires_without_instances_attached(g: EditorGraphModel, idx: usize, n: int)
    requires
        0 <= n <= g.wires.len(),
        wires_attached(g),
    ensures
        forall|k: int|
            0 <= k < wires_without_instances(g, idx, n).len() ==> {
                let w = #[trigger] wires_without_instances(g, idx, n)[k];
                &&& w.from.node < g.gate_base() + (g.nodes.len() - instances_before(
                    g.nodes,
                    idx,
                    g.nodes.len() as int,
                ))
                &&& w.to.node < g.gate_base() + (g.nodes.len() - instances_before(
                    g.nodes,
                    idx,
                    g.nodes.len() as int,
                ))
            },
    decreases n,
{
    if n > 0 {
        lemma_wires_without_instances_attached(g, idx, n - 1);
        let w = g.wires[n - 1];
        let bound = g.gate_base() + (g.nodes.len() - instances_before(g.nodes, idx, g.nodes.len() as int));
        let prev = wires_without_instances(g, idx, n - 1);
        let cur = wires_without_instances(g, idx, n);
        if !touches_instance(g, idx, w) {
            lemma_renumbered_in_range(g, idx, w.from.node);
            lemma_renumbered_in_range(g, idx, w.to.node);
        }
        assert forall|k: int| 0 <= k < cur.len() implies (#[trigger] cur[k]).from.node < bound && cur[k].to.node < bound by {
            if k < prev.len() {
                assert(cur[k] == prev[k]);
            }
        }
    }
}

/// Deleting the instances of a library gate keeps every wire attached to a node: the
/// wires of deleted gates go, and the others follow the gates as they move down.
pub proof fn lemma_removal_keeps_wires_attached(g: EditorGraphModel, idx: usize)
    requires
        wires_attached(g),
    ensures
        wires_attached(graph_without_instances(g, idx)),
{
    lemma_without_instances_len(g.nodes, idx, g.nodes.len() as int);
    lemma_wires_without_instances_attached(g, idx, g.wires.len() as int);
}

} // verus!
