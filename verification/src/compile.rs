use vstd::prelude::*;

use crate::external_node_descriptions::ExternalNodeDescrptions;
use crate::name_map::NameMap;
use crate::script::{CircutLangScript, GateKind, GateKindModel, GraphDesc, GraphDescModel};
use crate::simulation::WireId;
use crate::simulation::node::{Node, NodeKind};
use crate::simulation::simulation::{
    NodeModel,
    Nodes,
    SimModel,
    Simulation,
    node_view,
    node_wf,
    wires_below,
};
use crate::simulation::wire_state::{WireState, all_low};

verus! {

#[derive(Debug)]
pub enum CompileError {
    MissingEntryPoint(String),
    MissingLibraryNode(String),
    ExternalNodeBadIOCount(String),
    LibraryNodeBadIOCount(String),
    NandBadIOCount(String),
    CircularDependency(String),
}

/// What a `CompileError` is.
pub enum CompileErrorModel {
    MissingEntryPoint(Seq<char>),
    MissingLibraryNode(Seq<char>),
    ExternalNodeBadIOCount(Seq<char>),
    LibraryNodeBadIOCount(Seq<char>),
    NandBadIOCount(Seq<char>),
    CircularDependency(Seq<char>),
}

impl View for CompileError {
    type V = CompileErrorModel;

    open spec fn view(&self) -> CompileErrorModel {
        match self {
            CompileError::MissingEntryPoint(m) => CompileErrorModel::MissingEntryPoint(m@),
            CompileError::MissingLibraryNode(m) => CompileErrorModel::MissingLibraryNode(m@),
            CompileError::ExternalNodeBadIOCount(m) => CompileErrorModel::ExternalNodeBadIOCount(m@),
            CompileError::LibraryNodeBadIOCount(m) => CompileErrorModel::LibraryNodeBadIOCount(m@),
            CompileError::NandBadIOCount(m) => CompileErrorModel::NandBadIOCount(m@),
            CompileError::CircularDependency(m) => CompileErrorModel::CircularDependency(m@),
        }
    }
}

/// What a compilation gave.
pub open spec fn result_view(r: Result<Simulation, CompileError>) -> Result<SimModel, CompileErrorModel> {
    match r {
        Ok(s) => Ok(s@),
        Err(e) => Err(e@),
    }
}

// ── Wire layout ─────────────────────────────────────────────────────────────
//
// One wire is given to each output port of a graph: wires `0 .. n_inputs` to the
// input pseudo-nodes, then, gate after gate, one wire per output port of that gate.
// Input ports have no wire of their own: they read the wire that drives them.
/// The first wire of gate `k`; for `k` the number of gates, the number of wires.
pub open spec fn wire_base(d: GraphDescModel, k: int) -> int
    decreases k,
{
    if k <= 0 {
        d.n_inputs as int
    } else {
        wire_base(d, k - 1) + d.gates[k - 1].1
    }
}

/// Number of wires of the graph.
pub open spec fn wire_count(d: GraphDescModel) -> int {
    wire_base(d, d.gates.len() as int)
}

/// The wire of output port `port` of node `node`, where that port exists.
pub open spec fn output_port_wire(d: GraphDescModel, node: int, port: int) -> Option<int> {
    if node < d.n_inputs {
        if port == 0 {
            Some(node)
        } else {
            None
        }
    } else if node < d.gate_base() {
        None
    } else if node - d.gate_base() < d.gates.len() && port < d.gates[node - d.gate_base()].1 {
        Some(wire_base(d, node - d.gate_base()) + port)
    } else {
        None
    }
}

/// The wire that drives input port `port` of node `node`, looking at the wires of the
/// graph from the `i`-th on: the source of the first of them that ends there and starts
/// at an existing output port; wire 0 if there is none.
pub open spec fn driving_wire_from(d: GraphDescModel, node: int, port: int, i: int) -> int
    decreases d.wires.len() - i,
{
    if i < 0 || i >= d.wires.len() {
        0
    } else if d.wires[i].to.node == node && d.wires[i].to.port == port && output_port_wire(
        d,
        d.wires[i].from.node as int,
        d.wires[i].from.port as int,
    ) is Some {
        output_port_wire(d, d.wires[i].from.node as int, d.wires[i].from.port as int).unwrap()
    } else {
        driving_wire_from(d, node, port, i + 1)
    }
}

/// The wire that drives input port `port` of node `node` (wire 0 if none does).
pub open spec fn driving_wire(d: GraphDescModel, node: int, port: int) -> int {
    driving_wire_from(d, node, port, 0)
}

pub open spec fn wire_of(x: int) -> WireId {
    WireId(x as u32)
}

/// The wires that drive the first `count` input ports of node `node`.
pub open spec fn port_wires(d: GraphDescModel, node: int, count: int) -> Seq<WireId> {
    Seq::new(count as nat, |p: int| wire_of(driving_wire(d, node, p)))
}

/// The wires of the output ports of gate `k`.
pub open spec fn gate_output_wires(d: GraphDescModel, k: int) -> Seq<WireId> {
    Seq::new(d.gates[k].1 as nat, |p: int| wire_of(wire_base(d, k) + p))
}

/// The wire ids and node ids of the graph fit the machine.
pub open spec fn desc_fits(d: GraphDescModel) -> bool {
    &&& wire_count(d) <= u32::MAX
    &&& d.gate_base() + d.gates.len() <= usize::MAX
}

/// Every graph of the script fits the machine.
pub open spec fn script_fits(s: CircutLangScript) -> bool {
    forall|n: Seq<char>| s.gates@.contains_key(n) ==> desc_fits(#[trigger] s.gates@[n]@)
}

pub open spec fn graph_of(s: CircutLangScript, name: Seq<char>) -> GraphDescModel {
    s.gates@[name]@
}

pub open spec fn missing_message(s: CircutLangScript) -> Seq<char> {
    "Missing: "@ + s.entry_point@
}

pub open spec fn inside_message(name: Seq<char>) -> Seq<char> {
    "Inside: "@ + name
}

/// An external node named `x` is declared, and both its number of inputs and its number
/// of outputs differ from those of this instance.
pub open spec fn external_mismatch(
    ext: Option<ExternalNodeDescrptions>,
    x: Seq<char>,
    n_in: int,
    n_out: int,
) -> bool {
    match ext {
        Some(e) => e.nodes@.contains_key(x) && e.nodes@[x].inputs@.len() != n_in
            && e.nodes@[x].outputs@.len() != n_out,
        None => false,
    }
}

pub open spec fn empty_model() -> SimModel {
    SimModel {
        current: Seq::empty(),
        next: Seq::empty(),
        nodes: Seq::empty(),
        input_wires: Seq::empty(),
        output_wires: Seq::empty(),
    }
}

// ── Compilation ─────────────────────────────────────────────────────────────
//
// `path` holds the graphs whose compilation is under way: meeting one of them again
// is a circular dependency.
/// The result of compiling the graph `name` while the graphs of `path` are being compiled.
pub open spec fn compile_result(
    s: CircutLangScript,
    ext: Option<ExternalNodeDescrptions>,
    name: Seq<char>,
    path: Set<Seq<char>>,
) -> Result<SimModel, CompileErrorModel>
    decreases s.gates.fresh_count(path), 0nat, 0nat,
{
    if path.contains(name) {
        Err(CompileErrorModel::CircularDependency(name))
    } else if !s.gates@.contains_key(name) {
        Err(CompileErrorModel::MissingEntryPoint(missing_message(s)))
    } else {
        proof {
            s.gates.lemma_fresh_count_insert(path, name);
        }
        graph_result(s, ext, name, path.insert(name))
    }
}

/// The result of compiling the body of the graph `name` while the graphs of `path` are
/// being compiled.
pub open spec fn graph_result(
    s: CircutLangScript,
    ext: Option<ExternalNodeDescrptions>,
    name: Seq<char>,
    path: Set<Seq<char>>,
) -> Result<SimModel, CompileErrorModel>
    decreases s.gates.fresh_count(path), 2nat, 0nat,
{
    if !s.gates@.contains_key(name) {
        Err(CompileErrorModel::MissingEntryPoint(missing_message(s)))
    } else {
        match gates_error(s, ext, name, path, 0) {
            Some(e) => Err(e),
            None => Ok(graph_model(s, ext, name, path)),
        }
    }
}

/// The first error that the gates of graph `name`, from the `k`-th on, give.
pub open spec fn gates_error(
    s: CircutLangScript,
    ext: Option<ExternalNodeDescrptions>,
    name: Seq<char>,
    path: Set<Seq<char>>,
    k: int,
) -> Option<CompileErrorModel>
    decreases s.gates.fresh_count(path), 1nat, graph_of(s, name).gates.len() - k,
{
    let d = graph_of(s, name);
    if k < 0 || k >= d.gates.len() {
        None
    } else {
        let n_in = d.gates[k].0 as int;
        let n_out = d.gates[k].1 as int;
        match d.gates[k].2 {
            GateKindModel::Nand => {
                if n_in < 2 || n_out < 1 {
                    Some(CompileErrorModel::NandBadIOCount(inside_message(name)))
                } else {
                    gates_error(s, ext, name, path, k + 1)
                }
            },
            GateKindModel::SavedGate(l) => {
                match compile_result(s, ext, l, path) {
                    Err(e) => Some(e),
                    Ok(inner) => {
                        if inner.input_wires.len() != n_in || inner.output_wires.len() != n_out {
                            Some(CompileErrorModel::LibraryNodeBadIOCount(inside_message(name)))
                        } else {
                            gates_error(s, ext, name, path, k + 1)
                        }
                    },
                }
            },
            GateKindModel::ExternalGate(x) => {
                if external_mismatch(ext, x, n_in, n_out) {
                    Some(CompileErrorModel::ExternalNodeBadIOCount(inside_message(x)))
                } else {
                    gates_error(s, ext, name, path, k + 1)
                }
            },
        }
    }
}

/// The simulation node that gate `k` of graph `name` compiles to.
pub open spec fn node_model(
    s: CircutLangScript,
    ext: Option<ExternalNodeDescrptions>,
    name: Seq<char>,
    path: Set<Seq<char>>,
    k: int,
) -> NodeModel
    decreases s.gates.fresh_count(path), 1nat, 0int,
{
    let d = graph_of(s, name);
    let id = d.gate_base() + k;
    match d.gates[k].2 {
        GateKindModel::Nand => NodeModel::Nand {
            input_a: wire_of(driving_wire(d, id, 0)),
            input_b: wire_of(driving_wire(d, id, 1)),
            output: wire_of(wire_base(d, k)),
        },
        GateKindModel::SavedGate(l) => NodeModel::Graph {
            inputs: port_wires(d, id, d.gates[k].0 as int),
            outputs: gate_output_wires(d, k),
            simulation: match compile_result(s, ext, l, path) {
                Ok(m) => m,
                Err(_) => empty_model(),
            },
        },
        GateKindModel::ExternalGate(x) => NodeModel::External {
            inputs: port_wires(d, id, d.gates[k].0 as int),
            outputs: gate_output_wires(d, k),
            closure_name: x,
        },
    }
}

/// The simulation that graph `name` compiles to, when it compiles.
pub open spec fn graph_model(
    s: CircutLangScript,
    ext: Option<ExternalNodeDescrptions>,
    name: Seq<char>,
    path: Set<Seq<char>>,
) -> SimModel
    decreases s.gates.fresh_count(path), 1nat, 1int,
{
    let d = graph_of(s, name);
    SimModel {
        current: all_low(wire_count(d) as nat),
        next: all_low(wire_count(d) as nat),
        nodes: Seq::new(d.gates.len(), |k: int| node_model(s, ext, name, path, k)),
        input_wires: Seq::new(d.n_inputs as nat, |i: int| wire_of(i)),
        output_wires: Seq::new(
            d.n_outputs as nat,
            |j: int| wire_of(driving_wire(d, d.output_base() + j, 0)),
        ),
    }
}

// ── Which graphs a compilation reads ────────────────────────────────────────
/// Every graph that compiling `name` reads, while the graphs of `path` are being
/// compiled, fits the machine. A compilation stops at its first error, so the graphs
/// after that point need not fit.
pub open spec fn fits_along(
    s: CircutLangScript,
    ext: Option<ExternalNodeDescrptions>,
    name: Seq<char>,
    path: Set<Seq<char>>,
) -> bool
    decreases s.gates.fresh_count(path), 0nat, 0int,
{
    if path.contains(name) || !s.gates@.contains_key(name) {
        true
    } else {
        proof {
            s.gates.lemma_fresh_count_insert(path, name);
        }
        graph_fits_along(s, ext, name, path.insert(name))
    }
}

/// Every graph that compiling the body of `name` reads fits the machine.
pub open spec fn graph_fits_along(
    s: CircutLangScript,
    ext: Option<ExternalNodeDescrptions>,
    name: Seq<char>,
    path: Set<Seq<char>>,
) -> bool
    decreases s.gates.fresh_count(path), 2nat, 0int,
{
    !s.gates@.contains_key(name) || (desc_fits(graph_of(s, name)) && gates_fit(
        s,
        ext,
        name,
        path,
        0,
    ))
}

/// Every graph that compiling the gates of `name` from the `k`-th on reads fits the
/// machine.
pub open spec fn gates_fit(
    s: CircutLangScript,
    ext: Option<ExternalNodeDescrptions>,
    name: Seq<char>,
    path: Set<Seq<char>>,
    k: int,
) -> bool
    decreases s.gates.fresh_count(path), 1nat, graph_of(s, name).gates.len() - k,
{
    let d = graph_of(s, name);
    if k < 0 || k >= d.gates.len() {
        true
    } else {
        let n_in = d.gates[k].0 as int;
        let n_out = d.gates[k].1 as int;
        match d.gates[k].2 {
            GateKindModel::Nand => (n_in < 2 || n_out < 1) || gates_fit(s, ext, name, path, k + 1),
            GateKindModel::SavedGate(l) => fits_along(s, ext, l, path) && match compile_result(
                s,
                ext,
                l,
                path,
            ) {
                Err(_) => true,
                Ok(inner) => (inner.input_wires.len() != n_in || inner.output_wires.len() != n_out)
                    || gates_fit(s, ext, name, path, k + 1),
            },
            GateKindModel::ExternalGate(x) => external_mismatch(ext, x, n_in, n_out) || gates_fit(
                s,
                ext,
                name,
                path,
                k + 1,
            ),
        }
    }
}

/// When every graph of the script fits, every compilation reads only graphs that fit.
pub proof fn lemma_script_fits_along(
    s: CircutLangScript,
    ext: Option<ExternalNodeDescrptions>,
    name: Seq<char>,
    path: Set<Seq<char>>,
)
    requires
        script_fits(s),
    ensures
        fits_along(s, ext, name, path),
    decreases s.gates.fresh_count(path), 0nat, 0int,
{
    if !path.contains(name) && s.gates@.contains_key(name) {
        s.gates.lemma_fresh_count_insert(path, name);
        lemma_script_gates_fit(s, ext, name, path.insert(name), 0);
    }
}

proof fn lemma_script_gates_fit(
    s: CircutLangScript,
    ext: Option<ExternalNodeDescrptions>,
    name: Seq<char>,
    path: Set<Seq<char>>,
    k: int,
)
    requires
        script_fits(s),
        s.gates@.contains_key(name),
        0 <= k,
    ensures
        gates_fit(s, ext, name, path, k),
    decreases s.gates.fresh_count(path), 1nat, graph_of(s, name).gates.len() - k,
{
    let d = graph_of(s, name);
    if k < d.gates.len() {
        match d.gates[k].2 {
            GateKindModel::SavedGate(l) => {
                lemma_script_fits_along(s, ext, l, path);
            },
            _ => {},
        }
        lemma_script_gates_fit(s, ext, name, path, k + 1);
    }
}

// ── Lemmas on the wire layout ───────────────────────────────────────────────
proof fn lemma_wire_base_mono(d: GraphDescModel, j: int, k: int)
    requires
        j <= k,
    ensures
        wire_base(d, j) <= wire_base(d, k),
        d.n_inputs <= wire_base(d, j),
    decreases k - j,
{
    if j < k {
        lemma_wire_base_mono(d, j, k - 1);
        if k - 1 <= 0 {
        } else {
            lemma_wire_base_mono(d, k - 1, k - 1);
        }
    } else {
        lemma_wire_base_floor(d, j);
    }
}

proof fn lemma_wire_base_floor(d: GraphDescModel, j: int)
    ensures
        d.n_inputs <= wire_base(d, j),
    decreases j,
{
    if j > 0 {
        lemma_wire_base_floor(d, j - 1);
    }
}

/// The wire of every existing output port is a wire of the graph.
proof fn lemma_output_port_wire_bound(d: GraphDescModel, node: int, port: int)
    requires
        0 <= port,
        0 <= node,
    ensures
        output_port_wire(d, node, port) matches Some(w) ==> 0 <= w < wire_count(d),
{
    if node < d.n_inputs {
        lemma_wire_base_floor(d, d.gates.len() as int);
    } else if node >= d.gate_base() && node - d.gate_base() < d.gates.len() {
        let g = node - d.gate_base();
        lemma_wire_base_mono(d, g + 1, d.gates.len() as int);
        lemma_wire_base_floor(d, g);
    }
}

/// Each output port of a graph gets a wire of its own: two ports that have a wire have
/// the same wire only if they are the same port.
pub proof fn lemma_output_port_wires_distinct(d: GraphDescModel, n1: int, p1: int, n2: int, p2: int)
    requires
        0 <= n1,
        0 <= n2,
        0 <= p1,
        0 <= p2,
        output_port_wire(d, n1, p1) is Some,
        output_port_wire(d, n1, p1) == output_port_wire(d, n2, p2),
    ensures
        n1 == n2,
        p1 == p2,
{
    let gb = d.gate_base();
    if n1 >= d.n_inputs {
        lemma_wire_base_floor(d, n1 - gb);
    }
    if n2 >= d.n_inputs {
        lemma_wire_base_floor(d, n2 - gb);
    }
    if n1 >= d.n_inputs && n2 >= d.n_inputs {
        let g1 = n1 - gb;
        let g2 = n2 - gb;
        if g1 < g2 {
            lemma_wire_base_mono(d, g1 + 1, g2);
        } else if g2 < g1 {
            lemma_wire_base_mono(d, g2 + 1, g1);
        }
    }
}

/// Output `p` of a gate of a compiled graph reads the wire of its output port `p`.
pub proof fn lemma_node_outputs_are_port_wires(
    s: CircutLangScript,
    ext: Option<ExternalNodeDescrptions>,
    name: Seq<char>,
    path: Set<Seq<char>>,
    k: int,
    p: int,
)
    requires
        0 <= k < graph_of(s, name).gates.len(),
        0 <= p < graph_of(s, name).gates[k].1,
    ensures
        ({
            let d = graph_of(s, name);
            let id = d.gate_base() + k;
            &&& output_port_wire(d, id, p) == Some(wire_base(d, k) + p)
            &&& match graph_model(s, ext, name, path).nodes[k] {
                NodeModel::Nand { output, .. } => p == 0 ==> output == wire_of(
                    output_port_wire(d, id, 0).unwrap(),
                ),
                NodeModel::Graph { outputs, .. } => {
                    &&& outputs.len() == d.gates[k].1
                    &&& outputs[p] == wire_of(output_port_wire(d, id, p).unwrap())
                },
                NodeModel::External { outputs, .. } => {
                    &&& outputs.len() == d.gates[k].1
                    &&& outputs[p] == wire_of(output_port_wire(d, id, p).unwrap())
                },
            }
        }),
{
    let d = graph_of(s, name);
    assert(graph_model(s, ext, name, path).nodes[k] == node_model(s, ext, name, path, k));
}

/// An input port that the first of the graph's wires into it connects to output port
/// `p` of node `n` reads the wire of that output port.
pub proof fn lemma_reader_reads_port_wire(d: GraphDescModel, i: int)
    requires
        0 <= i < d.wires.len(),
        output_port_wire(d, d.wires[i].from.node as int, d.wires[i].from.port as int) is Some,
        forall|j: int|
            0 <= j < i && d.wires[j].to == d.wires[i].to ==> output_port_wire(
                d,
                #[trigger] d.wires[j].from.node as int,
                d.wires[j].from.port as int,
            ) is None,
    ensures
        driving_wire(d, d.wires[i].to.node as int, d.wires[i].to.port as int) == output_port_wire(
            d,
            d.wires[i].from.node as int,
            d.wires[i].from.port as int,
        ).unwrap(),
{
    lemma_driving_wire_from_first(d, d.wires[i].to.node as int, d.wires[i].to.port as int, 0, i);
}

proof fn lemma_driving_wire_from_first(d: GraphDescModel, node: int, port: int, from: int, i: int)
    requires
        0 <= from <= i < d.wires.len(),
        d.wires[i].to.node == node,
        d.wires[i].to.port == port,
        output_port_wire(d, d.wires[i].from.node as int, d.wires[i].from.port as int) is Some,
        forall|j: int|
            0 <= j < i && d.wires[j].to == d.wires[i].to ==> output_port_wire(
                d,
                #[trigger] d.wires[j].from.node as int,
                d.wires[j].from.port as int,
            ) is None,
    ensures
        driving_wire_from(d, node, port, from) == output_port_wire(
            d,
            d.wires[i].from.node as int,
            d.wires[i].from.port as int,
        ).unwrap(),
    decreases i - from,
{
    if from < i {
        let w = d.wires[from];
        if w.to.node == node && w.to.port == port {
            assert(w.to == d.wires[i].to);
        }
        lemma_driving_wire_from_first(d, node, port, from + 1, i);
    }
}

/// An input port reads either wire 0 (when nothing drives it) or the wire of an existing
/// output port, which is a wire of the graph.
pub proof fn lemma_driving_wire_exists(d: GraphDescModel, node: int, port: int)
    ensures
        driving_wire(d, node, port) == 0 || exists|n: int, p: int|
            0 <= n && 0 <= p && #[trigger] output_port_wire(d, n, p) == Some(
                driving_wire(d, node, port),
            ),
        0 <= driving_wire(d, node, port),
        driving_wire(d, node, port) == 0 || driving_wire(d, node, port) < wire_count(d),
{
    lemma_driving_wire_from_exists(d, node, port, 0);
}

proof fn lemma_driving_wire_from_exists(d: GraphDescModel, node: int, port: int, i: int)
    ensures
        driving_wire_from(d, node, port, i) == 0 || exists|n: int, p: int|
            0 <= n && 0 <= p && #[trigger] output_port_wire(d, n, p) == Some(
                driving_wire_from(d, node, port, i),
            ),
        0 <= driving_wire_from(d, node, port, i),
        driving_wire_from(d, node, port, i) == 0 || driving_wire_from(d, node, port, i)
            < wire_count(d),
    decreases d.wires.len() - i,
{
    if 0 <= i < d.wires.len() {
        let w = d.wires[i];
        if w.to.node == node && w.to.port == port && output_port_wire(
            d,
            w.from.node as int,
            w.from.port as int,
        ) is Some {
            lemma_output_port_wire_bound(d, w.from.node as int, w.from.port as int);
            assert(output_port_wire(d, w.from.node as int, w.from.port as int) == Some(
                driving_wire_from(d, node, port, i),
            ));
        } else {
            lemma_driving_wire_from_exists(d, node, port, i + 1);
        }
    }
}

/// A graph whose first gate is an instance of the graph itself does not compile: the
/// compilation meets the graph again while compiling it.
pub proof fn lemma_self_instance_is_circular(
    s: CircutLangScript,
    ext: Option<ExternalNodeDescrptions>,
    name: Seq<char>,
    path: Set<Seq<char>>,
)
    requires
        s.gates@.contains_key(name),
        graph_of(s, name).gates.len() > 0,
        graph_of(s, name).gates[0].2 == GateKindModel::SavedGate(name),
    ensures
        compile_result(s, ext, name, path) == Err::<SimModel, CompileErrorModel>(
            CompileErrorModel::CircularDependency(name),
        ),
{
    if !path.contains(name) {
        let p = path.insert(name);
        assert(compile_result(s, ext, name, p) == Err::<SimModel, CompileErrorModel>(
            CompileErrorModel::CircularDependency(name),
        ));
        assert(gates_error(s, ext, name, p, 0) == Some(CompileErrorModel::CircularDependency(name)));
    }
}

proof fn lemma_submap_trans(a: Map<Seq<char>, Simulation>, b: Map<Seq<char>, Simulation>, c: Map<Seq<char>, Simulation>)
    requires
        a.submap_of(b),
        b.submap_of(c),
    ensures
        a.submap_of(c),
{
    assert forall|key: Seq<char>| #[trigger] a.contains_key(key) implies c.contains_key(key) && a[key] == c[key] by {
        assert(b.contains_key(key));
    }
}

/// `bases` holds the first wire of every gate.
pub open spec fn bases_ok(d: GraphDescModel, bases: Seq<u32>) -> bool {
    &&& bases.len() == d.gates.len()
    &&& forall|j: int| 0 <= j < bases.len() ==> bases[j] as int == #[trigger] wire_base(d, j)
}

// ── Executable pieces of the layout ─────────────────────────────────────────
fn output_port_wire_of(desc: &GraphDesc, bases: &Vec<u32>, node: usize, port: usize) -> (r: Option<
    u32,
>)
    requires
        bases_ok(desc@, bases@),
        desc_fits(desc@),
    ensures
        match r {
            Some(w) => output_port_wire(desc@, node as int, port as int) == Some(w as int),
            None => output_port_wire(desc@, node as int, port as int) is None,
        },
{
    let ghost d = desc@;
    proof {
        lemma_output_port_wire_bound(d, node as int, port as int);
    }
    if node < desc.n_inputs {
        if port == 0 {
            Some(node as u32)
        } else {
            None
        }
    } else if node < desc.n_inputs + desc.n_outputs {
        None
    } else {
        let g = node - (desc.n_inputs + desc.n_outputs);
        if g < desc.gates.len() && port < desc.gates[g].1 {
            Some(bases[g] + port as u32)
        } else {
            None
        }
    }
}

fn find_driving_wire(desc: &GraphDesc, bases: &Vec<u32>, node: usize, port: usize) -> (w: u32)
    requires
        bases_ok(desc@, bases@),
        desc_fits(desc@),
    ensures
        w as int == driving_wire(desc@, node as int, port as int),
{
    let ghost d = desc@;
    let mut i: usize = 0;
    while i < desc.wires.len()
        invariant
            d == desc@,
            bases_ok(d, bases@),
            desc_fits(d),
            i <= d.wires.len(),
            driving_wire(d, node as int, port as int) == driving_wire_from(
                d,
                node as int,
                port as int,
                i as int,
            ),
        decreases d.wires.len() - i,
    {
        let wire = desc.wires[i];
        if wire.to.node == node && wire.to.port == port {
            match output_port_wire_of(desc, bases, wire.from.node, wire.from.port) {
                Some(w) => {
                    return w;
                },
                None => {},
            }
        }
        i = i + 1;
    }
    0
}

fn port_wires_of(desc: &GraphDesc, bases: &Vec<u32>, node: usize, count: usize) -> (r: Vec<
    WireId,
>)
    requires
        bases_ok(desc@, bases@),
        desc_fits(desc@),
    ensures
        r@ == port_wires(desc@, node as int, count as int),
{
    let mut r: Vec<WireId> = Vec::new();
    let mut p: usize = 0;
    while p < count
        invariant
            bases_ok(desc@, bases@),
            desc_fits(desc@),
            p <= count,
            r@ == port_wires(desc@, node as int, p as int),
        decreases count - p,
    {
        let w = find_driving_wire(desc, bases, node, p);
        r.push(WireId::new_unchecked(w));
        p = p + 1;
        assert(r@ =~= port_wires(desc@, node as int, p as int));
    }
    r
}

fn output_wires_of(desc: &GraphDesc, bases: &Vec<u32>, k: usize) -> (r: Vec<WireId>)
    requires
        bases_ok(desc@, bases@),
        desc_fits(desc@),
        k < desc@.gates.len(),
    ensures
        r@ == gate_output_wires(desc@, k as int),
        wires_below(r@, wire_count(desc@)),
{
    let ghost d = desc@;
    proof {
        lemma_wire_base_mono(d, k + 1, d.gates.len() as int);
    }
    let base = bases[k];
    let count = desc.gates[k].1;
    let mut r: Vec<WireId> = Vec::new();
    let mut p: usize = 0;
    while p < count
        invariant
            d == desc@,
            bases_ok(d, bases@),
            base == wire_base(d, k as int),
            count == d.gates[k as int].1,
            wire_base(d, k as int + 1) <= wire_count(d),
            wire_count(d) <= u32::MAX,
            p <= count,
            r@ == Seq::new(p as nat, |q: int| wire_of(wire_base(d, k as int) + q)),
            wires_below(r@, wire_count(d)),
        decreases count - p,
    {
        r.push(WireId::new_unchecked(base + p as u32));
        p = p + 1;
        assert(r@ =~= Seq::new(p as nat, |q: int| wire_of(wire_base(d, k as int) + q)));
    }
    r
}

fn output_pseudo_node_wires(desc: &GraphDesc, bases: &Vec<u32>) -> (r: Vec<WireId>)
    requires
        bases_ok(desc@, bases@),
        desc_fits(desc@),
    ensures
        r@ == Seq::new(
            desc@.n_outputs as nat,
            |i: int| wire_of(driving_wire(desc@, desc@.output_base() + i, 0)),
        ),
{
    let ghost d = desc@;
    let mut r: Vec<WireId> = Vec::new();
    let mut j: usize = 0;
    while j < desc.n_outputs
        invariant
            d == desc@,
            desc_fits(d),
            bases_ok(d, bases@),
            j <= d.n_outputs,
            r@ == Seq::new(j as nat, |i: int| wire_of(driving_wire(d, d.output_base() + i, 0))),
        decreases d.n_outputs - j,
    {
        let w = find_driving_wire(desc, bases, desc.n_inputs + j, 0);
        r.push(WireId::new_unchecked(w));
        j = j + 1;
        assert(r@ =~= Seq::new(j as nat, |i: int| wire_of(driving_wire(d, d.output_base() + i, 0))));
    }
    r
}

fn input_pseudo_node_wires(desc: &GraphDesc) -> (r: Vec<WireId>)
    requires
        desc_fits(desc@),
    ensures
        r@ == Seq::new(desc@.n_inputs as nat, |x: int| wire_of(x)),
        wires_below(r@, wire_count(desc@)),
{
    let ghost d = desc@;
    proof {
        lemma_wire_base_floor(d, d.gates.len() as int);
    }
    let mut r: Vec<WireId> = Vec::new();
    let mut i: usize = 0;
    while i < desc.n_inputs
        invariant
            d == desc@,
            d.n_inputs <= wire_count(d) <= u32::MAX,
            i <= d.n_inputs,
            r@ == Seq::new(i as nat, |x: int| wire_of(x)),
            wires_below(r@, wire_count(d)),
        decreases d.n_inputs - i,
    {
        r.push(WireId::new_unchecked(i as u32));
        i = i + 1;
        assert(r@ =~= Seq::new(i as nat, |x: int| wire_of(x)));
    }
    r
}

/// Whether the wire ids and node ids of `desc` fit the machine.
pub fn desc_fits_check(desc: &GraphDesc) -> (b: bool)
    ensures
        b == desc_fits(desc@),
{
    let ghost d = desc@;
    let n = desc.gates.len();
    let mut total: u128 = desc.n_inputs as u128;
    let mut k: usize = 0;
    while k < n
        invariant
            d == desc@,
            n == d.gates.len(),
            k <= n,
            total as int == wire_base(d, k as int),
            total <= u32::MAX as int + usize::MAX as int,
        decreases n - k,
    {
        if total > u32::MAX as u128 {
            proof {
                lemma_wire_base_mono(d, k as int, n as int);
            }
            return false;
        }
        total = total + desc.gates[k].1 as u128;
        k = k + 1;
    }
    if total > u32::MAX as u128 {
        return false;
    }
    (desc.n_inputs as u128 + desc.n_outputs as u128 + n as u128) <= usize::MAX as u128
}

/// Whether every graph of `script` fits the machine.
pub fn script_fits_check(script: &CircutLangScript) -> (b: bool)
    ensures
        b == script_fits(*script),
{
    let n = script.gates.len();
    proof {
        script.gates.lemma_keys();
    }
    let mut i: usize = 0;
    while i < n
        invariant
            n == script.gates.size(),
            i <= n,
            forall|j: int| 0 <= j < i ==> desc_fits(#[trigger] script.gates@[script.gates.key_at(j)]@),
        decreases n - i,
    {
        let (name, desc) = script.gates.entry_at(i);
        if !desc_fits_check(desc) {
            proof {
                assert(script.gates@.contains_key(name@));
                assert(!desc_fits(script.gates@[name@]@));
            }
            return false;
        }
        i = i + 1;
    }
    proof {
        assert forall|k: Seq<char>| script.gates@.contains_key(k) implies desc_fits(#[trigger] script.gates@[k]@) by {
            let j = choose|j: int| 0 <= j < script.gates.size() && #[trigger] script.gates.key_at(j) == k;
            assert(desc_fits(script.gates@[script.gates.key_at(j)]@));
        }
    }
    true
}

fn missing_text(entry: &String) -> (r: String)
    ensures
        r@ == "Missing: "@ + entry@,
{
    let mut r = String::from_str("Missing: ");
    r.append(entry.as_str());
    r
}

fn inside_text(name: &String) -> (r: String)
    ensures
        r@ == inside_message(name@),
{
    let mut r = String::from_str("Inside: ");
    r.append(name.as_str());
    r
}


// ── The compiler ────────────────────────────────────────────────────────────
pub struct Compiler {
    script: CircutLangScript,
    external_node_descriptions: Option<ExternalNodeDescrptions>,
    compilation_finished: NameMap<Simulation>,
    // gate is in started & gate is NOT in finished -> compilation has started & not finished
    // a compilation has started and not finished -> it is currently compiling
    // we go to compile it while it is currently compiling -> circular dep
    compilation_started: NameMap<()>,
}

impl Compiler {
    /// The script being compiled.
    pub closed spec fn source(self) -> CircutLangScript {
        self.script
    }

    /// The declared external nodes.
    pub closed spec fn externals(self) -> Option<ExternalNodeDescrptions> {
        self.external_node_descriptions
    }

    /// The graphs compiled so far, by name.
    pub closed spec fn finished(self) -> Map<Seq<char>, Simulation> {
        self.compilation_finished@
    }

    /// The graphs whose compilation has started.
    pub closed spec fn started(self) -> Set<Seq<char>> {
        self.compilation_started@.dom()
    }

    /// Number of graphs of the script whose compilation has not started.
    pub closed spec fn progress(self) -> nat {
        self.script.gates.fresh_count(self.started())
    }

    /// The graphs whose compilation is under way.
    pub closed spec fn path(self) -> Set<Seq<char>> {
        self.started().difference(self.finished().dom())
    }

    /// Each graph compiled so far is well formed, and is what compiling it gives while
    /// any set of graphs that are not yet compiled are being compiled.
    #[verifier::type_invariant]
    spec fn inv(self) -> bool {
        &&& self.finished().dom().subset_of(self.started())
        &&& forall|f: Seq<char>| #[trigger]
            self.finished().contains_key(f) ==> self.finished()[f]@.wf()
        &&& forall|f: Seq<char>, q: Set<Seq<char>>|
            self.finished().contains_key(f) && q.disjoint(self.finished().dom())
                ==> #[trigger] compile_result(self.script, self.external_node_descriptions, f, q)
                == Ok::<SimModel, CompileErrorModel>(self.finished()[f]@)
    }

    /// Compiles the entry point of `script`, and the library graphs it uses.
    pub fn compile(
        script: CircutLangScript,
        external_node_descriptions: Option<ExternalNodeDescrptions>,
    ) -> (res: Result<Simulation, CompileError>)
        requires
            fits_along(script, external_node_descriptions, script.entry_point@, Set::empty()),
        ensures
            result_view(res) == compile_result(
                script,
                external_node_descriptions,
                script.entry_point@,
                Set::empty(),
            ),
            res matches Ok(sim) ==> sim@.wf(),
    {
        let entry = script.entry_point.clone();
        let mut compiler = Compiler {
            script,
            external_node_descriptions,
            compilation_finished: NameMap::new(),
            compilation_started: NameMap::new(),
        };
        assert(compiler.path() =~= Set::empty());
        compiler.compile_or_get_graph(&entry)
    }

    /// Compiles `script` when every one of its graphs fits the machine; `None` otherwise.
    pub fn compile_checked(
        script: CircutLangScript,
        external_node_descriptions: Option<ExternalNodeDescrptions>,
    ) -> (r: Option<Result<Simulation, CompileError>>)
        ensures
            r is None <==> !script_fits(script),
            r matches Some(res) ==> {
                &&& result_view(res) == compile_result(
                    script,
                    external_node_descriptions,
                    script.entry_point@,
                    Set::empty(),
                )
                &&& res matches Ok(sim) ==> sim@.wf()
            },
    {
        if !script_fits_check(&script) {
            return None;
        }
        proof {
            lemma_script_fits_along(script, external_node_descriptions, script.entry_point@, Set::empty());
        }
        Some(Compiler::compile(script, external_node_descriptions))
    }

    /// Marks the compilation of `name` as started.
    fn mark_started(&mut self, name: &String)
        ensures
            final(self).source() == old(self).source(),
            final(self).externals() == old(self).externals(),
            final(self).finished() == old(self).finished(),
            final(self).started() == old(self).started().insert(name@),
    {
        proof {
            use_type_invariant(&*self);
        }
        // The finished graphs step aside while the started set is taken out, so that
        // every finished graph stays among the started ones at each step.
        let mut finished: NameMap<Simulation> = NameMap::new();
        std::mem::swap(&mut finished, &mut self.compilation_finished);
        let mut started: NameMap<()> = NameMap::new();
        std::mem::swap(&mut started, &mut self.compilation_started);
        started.insert(name.clone(), ());
        std::mem::swap(&mut started, &mut self.compilation_started);
        std::mem::swap(&mut finished, &mut self.compilation_finished);
    }

    /// Records `sim` as the compiled graph `name`.
    fn record_finished(&mut self, name: &String, sim: Simulation)
        requires
            old(self).started().contains(name@),
            sim@.wf(),
            forall|q: Set<Seq<char>>|
                q.disjoint(old(self).finished().dom().insert(name@)) ==> #[trigger] compile_result(
                    old(self).source(),
                    old(self).externals(),
                    name@,
                    q,
                ) == Ok::<SimModel, CompileErrorModel>(sim@),
        ensures
            final(self).source() == old(self).source(),
            final(self).externals() == old(self).externals(),
            final(self).started() == old(self).started(),
            final(self).finished() == old(self).finished().insert(name@, sim),
    {
        proof {
            use_type_invariant(&*self);
        }
        let ghost f1 = self.finished();
        let mut finished: NameMap<Simulation> = NameMap::new();
        std::mem::swap(&mut finished, &mut self.compilation_finished);
        finished.insert(name.clone(), sim);
        proof {
            let f2 = finished@;
            assert(f2.dom() =~= f1.dom().insert(name@));
            assert forall|f: Seq<char>, q: Set<Seq<char>>|
                f2.contains_key(f) && q.disjoint(f2.dom()) implies #[trigger] compile_result(
                self.script,
                self.external_node_descriptions,
                f,
                q,
            ) == Ok::<SimModel, CompileErrorModel>(f2[f]@) by {
                if f != name@ {
                    assert(f1.contains_key(f));
                    assert(q.disjoint(f1.dom()));
                    assert(f2[f] == f1[f]);
                } else {
                    assert(q.disjoint(old(self).finished().dom().insert(name@)));
                    assert(compile_result(old(self).source(), old(self).externals(), name@, q)
                        == Ok::<SimModel, CompileErrorModel>(sim@));
                    assert(f2[f] == sim);
                }
            }
        }
        std::mem::swap(&mut finished, &mut self.compilation_finished);
    }

    fn compile_or_get_graph(&mut self, name: &String) -> (res: Result<Simulation, CompileError>)
        requires
            fits_along(old(self).source(), old(self).externals(), name@, old(self).path()),
        ensures
            final(self).source() == old(self).source(),
            final(self).externals() == old(self).externals(),
            old(self).started().subset_of(final(self).started()),
            final(self).started().contains(name@),
            old(self).finished().submap_of(final(self).finished()),
            old(self).finished().contains_key(name@) || old(self).started().contains(name@)
                ==> *final(self) == *old(self),
            result_view(res) == compile_result(
                old(self).source(),
                old(self).externals(),
                name@,
                old(self).path(),
            ),
            res matches Ok(sim) ==> {
                &&& sim@.wf()
                &&& final(self).path() == old(self).path()
                &&& old(self).finished().submap_of(final(self).finished())
                &&& final(self).finished().contains_key(name@)
                &&& final(self).finished()[name@]@ == sim@
            },
        decreases old(self).progress(), 0nat,
    {
        proof {
            use_type_invariant(&*self);
        }
        let ghost s = self.script;
        let ghost ext = self.external_node_descriptions;
        let ghost p0 = self.path();
        let ghost started0 = self.started();
        match self.compilation_finished.get(name) {
            Some(sim) => {
                proof {
                    assert(p0.disjoint(self.finished().dom()));
                    assert(compile_result(s, ext, name@, p0) == Ok::<SimModel, CompileErrorModel>(self.finished()[name@]@));
                }
                return Ok(sim.clone());
            },
            None => {},
        }
        if self.compilation_started.contains_key(name) {
            proof {
                assert(p0.contains(name@));
            }
            return Err(CompileError::CircularDependency(name.clone()));
        }
        self.mark_started(name);
        // A name with no graph fails here, before any further work.

        if !self.script.gates.contains_key(name) {
            return Err(CompileError::MissingEntryPoint(missing_text(&self.script.entry_point)));
        }
        proof {
            assert(self.path() =~= p0.insert(name@));
            assert(self.started() =~= started0.insert(name@));
            s.gates.lemma_fresh_count_insert(started0, name@);
        }
        let graph = match self.compile_graph(name) {
            Ok(g) => g,
            Err(e) => {
                return Err(e);
            },
        };
        let ghost f1 = self.finished();
        proof {
            assert(self.path() == p0.insert(name@));
            assert(self.path().contains(name@));
            assert(!f1.contains_key(name@));
        }
        proof {
            assert forall|q: Set<Seq<char>>|
                q.disjoint(f1.dom().insert(name@)) implies #[trigger] compile_result(
                s,
                ext,
                name@,
                q,
            ) == Ok::<SimModel, CompileErrorModel>(graph@) by {
                assert(q.insert(name@).disjoint(f1.dom()));
                assert(graph_result(s, ext, name@, q.insert(name@)) == Ok::<SimModel, CompileErrorModel>(graph@));
            }
        }
        self.record_finished(name, graph.clone());
        proof {
            assert(self.finished().dom() =~= f1.dom().insert(name@));
            assert(!p0.contains(name@));
            assert(self.path() =~= p0.insert(name@).remove(name@));
            assert(p0.insert(name@).remove(name@) =~= p0);
        }
        Ok(graph)
    }

    /// Compiles the graph `name` of the script, taking the library graphs that it uses
    /// from those compiled so far or compiling them.
    pub fn compile_graph(&mut self, name: &String) -> (res: Result<Simulation, CompileError>)
        requires
            graph_fits_along(old(self).source(), old(self).externals(), name@, old(self).path()),
        ensures
            final(self).source() == old(self).source(),
            final(self).externals() == old(self).externals(),
            old(self).started().subset_of(final(self).started()),
            old(self).finished().submap_of(final(self).finished()),
            !old(self).source().gates@.contains_key(name@) ==> *final(self) == *old(self),
            result_view(res) == graph_result(
                old(self).source(),
                old(self).externals(),
                name@,
                old(self).path(),
            ),
            res matches Ok(sim) ==> {
                &&& sim@.wf()
                &&& final(self).path() == old(self).path()
                &&& old(self).finished().submap_of(final(self).finished())
                &&& forall|q: Set<Seq<char>>|
                    q.disjoint(final(self).finished().dom()) ==> #[trigger] graph_result(
                        old(self).source(),
                        old(self).externals(),
                        name@,
                        q,
                    ) == Ok::<SimModel, CompileErrorModel>(sim@)
            },
        decreases old(self).progress(), 1nat,
    {
        proof {
            use_type_invariant(&*self);
        }
        let ghost s = self.script;
        let ghost ext = self.external_node_descriptions;
        let ghost p0 = self.path();
        let ghost f0 = self.finished();
        let ghost started0 = self.started();
        let desc: GraphDesc = match self.script.gates.get(name) {
            Some(d) => d.clone(),
            None => {
                return Err(CompileError::MissingEntryPoint(missing_text(&self.script.entry_point)));
            },
        };
        let ghost d = desc@;
        assert(d == graph_of(s, name@));
        assert(desc_fits(d));
        let n_gates = desc.gates.len();

        // Wire-id assignment: wires 0 .. n_inputs for the input pseudo-nodes, then one
        // wire per output port of each internal gate; `bases[k]` is the first of gate k.
        proof {
            lemma_wire_base_floor(d, 0);
            lemma_wire_base_mono(d, 0, n_gates as int);
        }
        let mut bases: Vec<u32> = Vec::new();
        let mut next_free_wire_id: u32 = desc.n_inputs as u32;
        let mut k: usize = 0;
        while k < n_gates
            invariant
                d == desc@,
                n_gates == d.gates.len(),
                desc_fits(d),
                k <= n_gates,
                bases@.len() == k,
                next_free_wire_id as int == wire_base(d, k as int),
                forall|j: int| 0 <= j < k ==> bases@[j] as int == #[trigger] wire_base(d, j),
            decreases n_gates - k,
        {
            proof {
                lemma_wire_base_mono(d, k + 1, n_gates as int);
            }
            bases.push(next_free_wire_id);
            next_free_wire_id = next_free_wire_id + desc.gates[k].1 as u32;
            k = k + 1;
        }
        let total_wire_count = next_free_wire_id;
        assert(bases_ok(d, bases@));
        let gate_base = desc.n_inputs + desc.n_outputs;

        // Simulation nodes, one per internal gate.
        let mut sim_nodes: Vec<Node> = Vec::new();
        let mut k: usize = 0;
        while k < n_gates
            invariant
                self.script == s,
                self.external_node_descriptions == ext,
                self.source() == old(self).source(),
                self.externals() == old(self).externals(),
                s == old(self).source(),
                ext == old(self).externals(),
                started0 == old(self).started(),
                p0 == old(self).path(),
                f0 == old(self).finished(),
                self.path() == p0,
                f0.submap_of(self.finished()),
                started0.subset_of(self.started()),
                s.gates@.contains_key(name@),
                gates_fit(s, ext, name@, p0, k as int),
                d == desc@,
                d == graph_of(s, name@),
                n_gates == d.gates.len(),
                desc_fits(d),
                bases_ok(d, bases@),
                total_wire_count as int == wire_count(d),
                gate_base == d.gate_base(),
                k <= n_gates,
                sim_nodes@.len() == k,
                forall|j: int|
                    0 <= j < k ==> node_wf(node_view(#[trigger] sim_nodes@[j]), wire_count(d)),
                forall|q: Set<Seq<char>>, j: int|
                    q.disjoint(self.finished().dom()) && 0 <= j < k ==> #[trigger] node_model(
                        s,
                        ext,
                        name@,
                        q,
                        j,
                    ) == node_view(sim_nodes@[j]),
                forall|q: Set<Seq<char>>|
                    q.disjoint(self.finished().dom()) ==> #[trigger] gates_error(
                        s,
                        ext,
                        name@,
                        q,
                        0,
                    ) == gates_error(s, ext, name@, q, k as int),
            decreases n_gates - k,
        {
            let node_id = gate_base + k;
            let gate_input_count = desc.gates[k].0;
            let gate_output_count = desc.gates[k].1;
            let ghost fk = self.finished();
            assert(p0.disjoint(fk.dom()));
            match &desc.gates[k].2 {
                GateKind::Nand => {
                    if gate_input_count < 2 || gate_output_count < 1 {
                        proof {
                            assert(gates_error(s, ext, name@, p0, 0) == gates_error(s, ext, name@, p0, k as int));
                        }
                        return Err(CompileError::NandBadIOCount(inside_text(name)));
                    }
                    let wire_a = WireId::new_unchecked(find_driving_wire(&desc, &bases, node_id, 0));
                    let wire_b = WireId::new_unchecked(find_driving_wire(&desc, &bases, node_id, 1));
                    proof {
                        lemma_wire_base_mono(d, k + 1, n_gates as int);
                    }
                    let wire_out = WireId::new_unchecked(bases[k]);
                    sim_nodes.push(
                        Node {
                            kind: NodeKind::Nand { input_a: wire_a, input_b: wire_b, output: wire_out },
                        },
                    );
                    proof {
                        assert(wire_base(d, k + 1) == wire_base(d, k as int) + d.gates[k as int].1);
                        assert(node_wf(node_view(sim_nodes@[k as int]), wire_count(d)));
                        assert forall|q: Set<Seq<char>>|
                            q.disjoint(self.finished().dom()) implies #[trigger] gates_error(
                            s,
                            ext,
                            name@,
                            q,
                            0,
                        ) == gates_error(s, ext, name@, q, k + 1) by {
                            assert(gates_error(s, ext, name@, q, 0) == gates_error(s, ext, name@, q, k as int));
                        }
                    }
                },
                GateKind::SavedGate(lib_node_name) => {
                    // Resolve the outer wires — these live in the parent simulation's wire space.
                    let outer_input_wires = port_wires_of(&desc, &bases, node_id, gate_input_count);
                    let outer_output_wires = output_wires_of(&desc, &bases, k);
                    proof {
                        s.gates.lemma_fresh_count_mono(started0, self.started());
                        assert(fits_along(s, ext, lib_node_name@, p0));
                    }
                    let inner_simulation = match self.compile_or_get_graph(lib_node_name) {
                        Ok(sim) => sim,
                        Err(e) => {
                            proof {
                                assert(gates_error(s, ext, name@, p0, 0) == gates_error(s, ext, name@, p0, k as int));
                                lemma_submap_trans(f0, fk, self.finished());
                            }
                            return Err(e);
                        },
                    };
                    if inner_simulation.input_wires.len() != gate_input_count
                        || inner_simulation.output_wires.len() != gate_output_count {
                        proof {
                            assert(gates_error(s, ext, name@, p0, 0) == gates_error(s, ext, name@, p0, k as int));
                            lemma_submap_trans(f0, fk, self.finished());
                        }
                        return Err(CompileError::LibraryNodeBadIOCount(inside_text(name)));
                    }
                    proof {
                        use_type_invariant(&*self);
                    }
                    let ghost inner = inner_simulation@;
                    sim_nodes.push(
                        Node {
                            kind: NodeKind::Graph {
                                inputs: outer_input_wires,
                                outputs: outer_output_wires,
                                simulation: Box::new(inner_simulation),
                            },
                        },
                    );
                    proof {
                        assert(gates_fit(s, ext, name@, p0, k + 1));
                        let f = self.finished();
                        assert forall|key: Seq<char>| #[trigger] f0.contains_key(key) implies f.contains_key(key) && f0[key] == f[key] by {
                            assert(fk.contains_key(key));
                        }
                        assert(f0.submap_of(f));
                        assert(node_wf(node_view(sim_nodes@[k as int]), wire_count(d)));
                        assert forall|q: Set<Seq<char>>|
                            q.disjoint(f.dom()) implies #[trigger] gates_error(
                            s,
                            ext,
                            name@,
                            q,
                            0,
                        ) == gates_error(s, ext, name@, q, k + 1) by {
                            assert(q.disjoint(fk.dom()));
                            assert(compile_result(s, ext, lib_node_name@, q) == Ok::<SimModel, CompileErrorModel>(f[lib_node_name@]@));
                            assert(gates_error(s, ext, name@, q, 0) == gates_error(s, ext, name@, q, k as int));
                        }
                        assert forall|q: Set<Seq<char>>, j: int|
                            q.disjoint(f.dom()) && 0 <= j < k + 1 implies #[trigger] node_model(
                            s,
                            ext,
                            name@,
                            q,
                            j,
                        ) == node_view(sim_nodes@[j]) by {
                            assert(q.disjoint(fk.dom()));
                            if j == k {
                                assert(compile_result(s, ext, lib_node_name@, q) == Ok::<SimModel, CompileErrorModel>(f[lib_node_name@]@));
                            }
                        }
                    }
                },
                GateKind::ExternalGate(ext_name) => {
                    // Resolve the outer wires — these live in the parent simulation's wire space.
                    let outer_input_wires = port_wires_of(&desc, &bases, node_id, gate_input_count);
                    let outer_output_wires = output_wires_of(&desc, &bases, k);
                    let mismatch = match &self.external_node_descriptions {
                        Some(descriptions) => match descriptions.nodes.get(ext_name) {
                            Some(ext_desc) => ext_desc.inputs.len() != gate_input_count
                                && ext_desc.outputs.len() != gate_output_count,
                            None => false,
                        },
                        None => false,
                    };
                    if mismatch {
                        proof {
                            assert(gates_error(s, ext, name@, p0, 0) == gates_error(s, ext, name@, p0, k as int));
                        }
                        return Err(CompileError::ExternalNodeBadIOCount(inside_text(ext_name)));
                    }
                    sim_nodes.push(
                        Node {
                            kind: NodeKind::External {
                                inputs: outer_input_wires,
                                outputs: outer_output_wires,
                                closure_name: ext_name.clone(),
                            },
                        },
                    );
                    proof {
                        assert(node_wf(node_view(sim_nodes@[k as int]), wire_count(d)));
                        assert forall|q: Set<Seq<char>>|
                            q.disjoint(self.finished().dom()) implies #[trigger] gates_error(
                            s,
                            ext,
                            name@,
                            q,
                            0,
                        ) == gates_error(s, ext, name@, q, k + 1) by {
                            assert(gates_error(s, ext, name@, q, 0) == gates_error(s, ext, name@, q, k as int));
                        }
                    }
                },
            }
            k = k + 1;
        }

        // Output wire ids: which wire feeds each output pseudo-node.
        let sim_output_wire_ids = output_pseudo_node_wires(&desc, &bases);
        // Input wire ids: the wire that each input pseudo-node drives.
        let sim_input_wire_ids = input_pseudo_node_wires(&desc);

        let ghost nodes_v = sim_nodes@;
        let sim = Simulation {
            wire_states: WireState::new(total_wire_count),
            nodes: Nodes { nodes: sim_nodes },
            input_wires: sim_input_wire_ids,
            output_wires: sim_output_wire_ids,
        };
        proof {
            let f = self.finished();
            assert forall|q: Set<Seq<char>>| q.disjoint(f.dom()) implies #[trigger] graph_result(
                s,
                ext,
                name@,
                q,
            ) == Ok::<SimModel, CompileErrorModel>(sim@) by {
                assert(gates_error(s, ext, name@, q, 0) == gates_error(s, ext, name@, q, n_gates as int));
                assert forall|j: int| 0 <= j < n_gates implies graph_model(s, ext, name@, q).nodes[j]
                    == sim@.nodes[j] by {
                    assert(node_model(s, ext, name@, q, j) == node_view(nodes_v[j]));
                }
                assert(graph_model(s, ext, name@, q).nodes =~= sim@.nodes);
                assert(graph_model(s, ext, name@, q) =~= sim@);
            }
            assert(p0.disjoint(f.dom()));
            assert forall|k2: int| 0 <= k2 < sim@.nodes.len() implies node_wf(
                #[trigger] sim@.nodes[k2],
                sim@.wire_count(),
            ) by {
                assert(node_wf(node_view(nodes_v[k2]), wire_count(d)));
            }
        }
        Ok(sim)
    }
}
} // verus!
