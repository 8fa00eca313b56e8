use vstd::prelude::*;

use super::WireId;
use super::simulation::Simulation;

verus! {

/// One gate of a compiled simulation.
pub struct Node {
    pub kind: NodeKind,
}

/// What a gate of a compiled simulation computes, and on which wires.
pub enum NodeKind {
    /// `output` takes the NAND of `input_a` and `input_b`.
    Nand { input_a: WireId, input_b: WireId, output: WireId },
    /// A nested circuit: `inputs` drive its input wires, its output wires drive `outputs`.
    Graph { inputs: Vec<WireId>, outputs: Vec<WireId>, simulation: Box<Simulation> },
    /// A gate computed outside the library, named `closure_name`.
    External { inputs: Vec<WireId>, outputs: Vec<WireId>, closure_name: String },
}

} // verus!
