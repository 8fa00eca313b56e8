use vstd::prelude::*;

use super::WireId;
use super::node::{Node, NodeKind};
use super::wire_state::WireState;

verus! {

/// The gates of one simulation level, in the order in which a tick evaluates them.
pub struct Nodes {
    pub nodes: Vec<Node>,
}

/// One level of a compiled circuit: its wires, its gates, and which wires are its
/// inputs and outputs.
pub struct Simulation {
    pub wire_states: WireState,
    pub nodes: Nodes,
    pub input_wires: Vec<WireId>,
    pub output_wires: Vec<WireId>,
}

/// What a gate of a simulation is, with nested simulations taken by their model.
pub enum NodeModel {
    Nand { input_a: WireId, input_b: WireId, output: WireId },
    Graph { inputs: Seq<WireId>, outputs: Seq<WireId>, simulation: SimModel },
    External { inputs: Seq<WireId>, outputs: Seq<WireId>, closure_name: Seq<char> },
}

/// What a simulation is.
pub struct SimModel {
    pub current: Seq<bool>,
    pub next: Seq<bool>,
    pub nodes: Seq<NodeModel>,
    pub input_wires: Seq<WireId>,
    pub output_wires: Seq<WireId>,
}

pub open spec fn sim_view(s: Simulation) -> SimModel
    decreases s,
{
    SimModel {
        current: s.wire_states@.current,
        next: s.wire_states@.next,
        nodes: Seq::new(
            s.nodes.nodes@.len(),
            |i: int|
                if 0 <= i < s.nodes.nodes@.len() {
                    node_view(s.nodes.nodes@[i])
                } else {
                    NodeModel::Nand { input_a: WireId(0), input_b: WireId(0), output: WireId(0) }
                },
        ),
        input_wires: s.input_wires@,
        output_wires: s.output_wires@,
    }
}

pub open spec fn node_view(n: Node) -> NodeModel
    decreases n,
{
    match n.kind {
        NodeKind::Nand { input_a, input_b, output } => NodeModel::Nand { input_a, input_b, output },
        NodeKind::Graph { inputs, outputs, simulation } => NodeModel::Graph {
            inputs: inputs@,
            outputs: outputs@,
            simulation: sim_view(*simulation),
        },
        NodeKind::External { inputs, outputs, closure_name } => NodeModel::External {
            inputs: inputs@,
            outputs: outputs@,
            closure_name: closure_name@,
        },
    }
}

impl View for Simulation {
    type V = SimModel;

    open spec fn view(&self) -> SimModel {
        sim_view(*self)
    }
}

impl View for Node {
    type V = NodeModel;

    open spec fn view(&self) -> NodeModel {
        node_view(*self)
    }
}

/// Every wire of `ws` is one of the first `count` wires.
pub open spec fn wires_below(ws: Seq<WireId>, count: int) -> bool {
    forall|i: int| 0 <= i < ws.len() ==> (#[trigger] ws[i]).0 < count
}

impl SimModel {
    /// Number of wires.
    pub open spec fn wire_count(self) -> int {
        self.current.len() as int
    }

    /// Every wire that is written (an input of the circuit, the output of a gate) exists,
    /// at every level, and each nested circuit has as many inputs and outputs as the node
    /// that holds it. Wires that are only read may be missing: they read low.
    pub open spec fn wf(self) -> bool
        decreases self,
    {
        &&& self.next.len() == self.current.len()
        &&& self.current.len() <= u32::MAX
        &&& wires_below(self.input_wires, self.wire_count())
        &&& forall|k: int|
            0 <= k < self.nodes.len() ==> node_wf(#[trigger] self.nodes[k], self.wire_count())
    }
}

pub open spec fn node_wf(n: NodeModel, count: int) -> bool
    decreases n,
{
    match n {
        NodeModel::Nand { output, .. } => output.0 < count,
        NodeModel::Graph { inputs, outputs, simulation } => {
            &&& wires_below(outputs, count)
            &&& inputs.len() == simulation.input_wires.len()
            &&& outputs.len() == simulation.output_wires.len()
            &&& simulation.wf()
        },
        NodeModel::External { outputs, .. } => wires_below(outputs, count),
    }
}

fn clone_wires(ws: &Vec<WireId>) -> (r: Vec<WireId>)
    ensures
        r@ == ws@,
{
    let mut r: Vec<WireId> = Vec::new();
    let mut i: usize = 0;
    while i < ws.len()
        invariant
            i <= ws@.len(),
            r@ == ws@.subrange(0, i as int),
        decreases ws@.len() - i,
    {
        r.push(ws[i]);
        i = i + 1;
        assert(r@ =~= ws@.subrange(0, i as int));
    }
    assert(ws@.subrange(0, ws@.len() as int) =~= ws@);
    r
}

fn clone_node(n: &Node) -> (r: Node)
    ensures
        r@ == n@,
    decreases n,
{
    match &n.kind {
        NodeKind::Nand { input_a, input_b, output } => Node {
            kind: NodeKind::Nand { input_a: *input_a, input_b: *input_b, output: *output },
        },
        NodeKind::Graph { inputs, outputs, simulation } => {
            let inner = clone_sim(&**simulation);
            Node {
                kind: NodeKind::Graph {
                    inputs: clone_wires(inputs),
                    outputs: clone_wires(outputs),
                    simulation: Box::new(inner),
                },
            }
        },
        NodeKind::External { inputs, outputs, closure_name } => Node {
            kind: NodeKind::External {
                inputs: clone_wires(inputs),
                outputs: clone_wires(outputs),
                closure_name: closure_name.clone(),
            },
        },
    }
}

fn clone_sim(s: &Simulation) -> (r: Simulation)
    ensures
        r@ == s@,
    decreases s,
{
    let mut nodes: Vec<Node> = Vec::new();
    let mut i: usize = 0;
    while i < s.nodes.nodes.len()
        invariant
            i <= s.nodes.nodes@.len(),
            nodes@.len() == i,
            forall|j: int| 0 <= j < i ==> node_view(#[trigger] nodes@[j]) == node_view(s.nodes.nodes@[j]),
        decreases s.nodes.nodes@.len() - i,
    {
        let c = clone_node(&s.nodes.nodes[i]);
        nodes.push(c);
        i = i + 1;
    }
    let r = Simulation {
        wire_states: s.wire_states.clone(),
        nodes: Nodes { nodes },
        input_wires: clone_wires(&s.input_wires),
        output_wires: clone_wires(&s.output_wires),
    };
    assert(sim_view(r).nodes =~= sim_view(*s).nodes);
    r
}

fn wires_below_check(ws: &Vec<WireId>, count: usize) -> (b: bool)
    ensures
        b == wires_below(ws@, count as int),
{
    let mut i: usize = 0;
    while i < ws.len()
        invariant
            i <= ws@.len(),
            forall|j: int| 0 <= j < i ==> (#[trigger] ws@[j]).0 < count,
        decreases ws@.len() - i,
    {
        if ws[i].0 as usize >= count {
            return false;
        }
        i = i + 1;
    }
    true
}

fn node_is_wf(n: &Node, count: usize) -> (b: bool)
    ensures
        b == node_wf(node_view(*n), count as int),
    decreases n,
{
    match &n.kind {
        NodeKind::Nand { output, .. } => (output.0 as usize) < count,
        NodeKind::Graph { inputs, outputs, simulation } => {
            wires_below_check(outputs, count) && inputs.len() == simulation.input_wires.len()
                && outputs.len() == simulation.output_wires.len() && sim_is_wf(&**simulation)
        },
        NodeKind::External { outputs, .. } => wires_below_check(outputs, count),
    }
}

fn sim_is_wf(s: &Simulation) -> (b: bool)
    ensures
        b == sim_view(*s).wf(),
    decreases s,
{
    let count = s.wire_states.len();
    if s.wire_states.len_next() != count {
        return false;
    }
    if count as u64 > u32::MAX as u64 {
        return false;
    }
    if !wires_below_check(&s.input_wires, count) {
        return false;
    }
    let n = s.nodes.nodes.len();
    let mut k: usize = 0;
    while k < n
        invariant
            n == s.nodes.nodes@.len(),
            count == sim_view(*s).wire_count(),
            k <= n,
            forall|j: int| 0 <= j < k ==> node_wf(#[trigger] sim_view(*s).nodes[j], count as int),
        decreases n - k,
    {
        if !node_is_wf(&s.nodes.nodes[k], count) {
            proof {
                assert(sim_view(*s).nodes[k as int] == node_view(s.nodes.nodes@[k as int]));
            }
            return false;
        }
        k = k + 1;
    }
    true
}

impl Simulation {
    /// Whether this simulation is well formed (see `SimModel::wf`).
    pub fn is_well_formed(&self) -> (b: bool)
        ensures
            b == self@.wf(),
    {
        sim_is_wf(self)
    }
}

impl Clone for Simulation {
    fn clone(&self) -> (r: Self)
        ensures
            r@ == self@,
    {
        clone_sim(self)
    }
}

impl Clone for Node {
    fn clone(&self) -> (r: Self)
        ensures
            r@ == self@,
    {
        clone_node(self)
    }
}

} // verus!
