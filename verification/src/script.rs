use vstd::prelude::*;

use crate::name_map::NameMap;

verus! {

/// A circuit description: the named graphs of a library and the one to compile first.
pub struct CircutLangScript {
    pub entry_point: String,
    pub gates: NameMap<GraphDesc>,
}

/// Identifies one port on one node using the flat node-id numbering that
/// `EditorGraph` uses:
///   `0 .. n_inputs`                      → input pseudo-nodes  (port 0 is their one output)
///   `n_inputs .. n_inputs + n_outputs`   → output pseudo-nodes (port 0 is their one input)
///   `n_inputs + n_outputs ..`            → internal gate nodes
#[derive(Clone, Copy, Debug, PartialEq, Eq, Structural)]
pub struct PortRef {
    pub node: usize,
    pub port: usize,
}

/// Describes one wire: a directed edge from an output port to an input port.
#[derive(Clone, Copy, Debug, PartialEq, Eq, Structural)]
pub struct WireDesc {
    /// The output port that drives the wire.
    pub from: PortRef,
    /// The input port that is driven by the wire.
    pub to: PortRef,
}

/// The kind of an internal gate node inside a `GraphDesc`.
#[derive(Debug)]
pub enum GateKind {
    Nand,
    /// Name of a graph of the library: this instance is a copy of that saved circuit.
    SavedGate(String),
    ExternalGate(String),
}

/// What a `GateKind` is.
pub enum GateKindModel {
    Nand,
    SavedGate(Seq<char>),
    ExternalGate(Seq<char>),
}

impl View for GateKind {
    type V = GateKindModel;

    open spec fn view(&self) -> GateKindModel {
        match self {
            GateKind::Nand => GateKindModel::Nand,
            GateKind::SavedGate(s) => GateKindModel::SavedGate(s@),
            GateKind::ExternalGate(s) => GateKindModel::ExternalGate(s@),
        }
    }
}

impl Clone for GateKind {
    fn clone(&self) -> (r: Self)
        ensures
            r@ == self@,
    {
        match self {
            GateKind::Nand => GateKind::Nand,
            GateKind::SavedGate(s) => GateKind::SavedGate(s.clone()),
            GateKind::ExternalGate(s) => GateKind::ExternalGate(s.clone()),
        }
    }
}

/// A complete description of one level of the circuit as seen by the editor.
///
/// Node-id conventions must match `EditorGraph`:
///   `input_base  = 0`
///   `output_base = n_inputs`
///   `gate_base   = n_inputs + n_outputs`
#[derive(Debug)]
pub struct GraphDesc {
    pub n_inputs: usize,
    pub n_outputs: usize,
    /// One entry per internal gate: `(gate_input_count, gate_output_count, kind)`.
    pub gates: Vec<(usize, usize, GateKind)>,
    pub wires: Vec<WireDesc>,
}

/// What a `GraphDesc` is.
pub struct GraphDescModel {
    pub n_inputs: usize,
    pub n_outputs: usize,
    pub gates: Seq<(usize, usize, GateKindModel)>,
    pub wires: Seq<WireDesc>,
}

impl View for GraphDesc {
    type V = GraphDescModel;

    open spec fn view(&self) -> GraphDescModel {
        GraphDescModel {
            n_inputs: self.n_inputs,
            n_outputs: self.n_outputs,
            gates: Seq::new(
                self.gates@.len(),
                |i: int| (self.gates@[i].0, self.gates@[i].1, self.gates@[i].2@),
            ),
            wires: self.wires@,
        }
    }
}

impl GraphDescModel {
    /// Node id of the first output pseudo-node.
    pub open spec fn output_base(self) -> int {
        self.n_inputs as int
    }

    /// Node id of the first internal gate.
    pub open spec fn gate_base(self) -> int {
        self.n_inputs + self.n_outputs
    }
}

impl GraphDesc {
    pub fn input_base() -> (b: usize)
        ensures
            b == 0,
    {
        0
    }

    pub fn output_base(&self) -> (b: usize)
        ensures
            b == self@.output_base(),
    {
        self.n_inputs
    }

    pub fn gate_base(&self) -> (b: usize)
        requires
            self.n_inputs + self.n_outputs <= usize::MAX,
        ensures
            b == self@.gate_base(),
    {
        self.n_inputs + self.n_outputs
    }
}

impl Clone for GraphDesc {
    fn clone(&self) -> (r: Self)
        ensures
            r@ == self@,
    {
        let mut gates: Vec<(usize, usize, GateKind)> = Vec::new();
        let mut i: usize = 0;
        while i < self.gates.len()
            invariant
                i <= self.gates@.len(),
                gates@.len() == i,
                forall|j: int|
                    0 <= j < i ==> (#[trigger] gates@[j]).0 == self.gates@[j].0 && gates@[j].1
                        == self.gates@[j].1 && gates@[j].2@ == self.gates@[j].2@,
            decreases self.gates@.len() - i,
        {
            let g = &self.gates[i];
            gates.push((g.0, g.1, g.2.clone()));
            i = i + 1;
        }
        let mut wires: Vec<WireDesc> = Vec::new();
        let mut i: usize = 0;
        while i < self.wires.len()
            invariant
                i <= self.wires@.len(),
                wires@ == self.wires@.subrange(0, i as int),
            decreases self.wires@.len() - i,
        {
            wires.push(self.wires[i]);
            i = i + 1;
            assert(wires@ =~= self.wires@.subrange(0, i as int));
        }
        assert(self.wires@.subrange(0, self.wires@.len() as int) =~= self.wires@);
        let r = GraphDesc { n_inputs: self.n_inputs, n_outputs: self.n_outputs, gates, wires };
        assert(r@.gates =~= self@.gates);
        r
    }
}

} // verus!
