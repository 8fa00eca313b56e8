use vstd::prelude::*;

use crate::compile::{CompileError, Compiler, compile_result, fits_along, script_fits};
use crate::script::CircutLangScript;
use crate::simulation::WireId;
use crate::simulation::simulation::{Nodes, SimModel, Simulation};
use crate::simulation::tick::{
    ExternalCall,
    answers,
    calls_in,
    calls_view,
    read_wires,
    sim_tick,
    lemma_write_wires_reads_back,
    write_all,
};
use crate::simulation::wire_state::{WireState, read_wire};

verus! {

#[derive(Debug)]
pub enum RuntimeError {
    ExternalNodeMissing(String),
}

/// A compiled circuit being run, tick after tick.
pub struct Runtime {
    simulation: Simulation,
}

/// `m` with its input wires set, in order, to `values`, now and for the next tick.
pub open spec fn with_inputs(m: SimModel, values: Seq<bool>) -> SimModel {
    SimModel {
        current: write_all(m.current, m.input_wires, values),
        next: write_all(m.next, m.input_wires, values),
        ..m
    }
}

/// Setting the inputs of a simulation whose input wires are distinct wires of it gives
/// input wire `i` the value `i`, now and for the next tick, as far as both lists go; every
/// other wire keeps its value.
pub proof fn lemma_set_inputs_reads_back(m: SimModel, values: Seq<bool>)
    requires
        forall|a: int, b: int| 0 <= a < b < m.input_wires.len() ==> m.input_wires[a] != m.input_wires[b],
        forall|a: int|
            0 <= a < m.input_wires.len() ==> (#[trigger] m.input_wires[a].0 as int) < m.current.len()
                && (m.input_wires[a].0 as int) < m.next.len(),
    ensures
        ({
            let r = with_inputs(m, values);
            &&& r.current.len() == m.current.len()
            &&& r.next.len() == m.next.len()
            &&& forall|i: int|
                0 <= i < m.input_wires.len() && i < values.len() ==> {
                    &&& read_wire(r.current, #[trigger] m.input_wires[i]) == values[i]
                    &&& read_wire(r.next, m.input_wires[i]) == values[i]
                }
            &&& forall|w: WireId|
                !m.input_wires.contains(w) ==> {
                    &&& #[trigger] read_wire(r.current, w) == read_wire(m.current, w)
                    &&& read_wire(r.next, w) == read_wire(m.next, w)
                }
        }),
{
    let ws = m.input_wires;
    let n = if ws.len() < values.len() {
        ws.len() as int
    } else {
        values.len() as int
    };
    lemma_write_wires_reads_back(m.current, ws, values, n);
    lemma_write_wires_reads_back(m.next, ws, values, n);
    assert forall|w: WireId| !ws.contains(w) implies {
        &&& #[trigger] read_wire(with_inputs(m, values).current, w) == read_wire(m.current, w)
        &&& read_wire(with_inputs(m, values).next, w) == read_wire(m.next, w)
    } by {
        assert forall|a: int| 0 <= a < n implies ws[a] != w by {
            if ws[a] == w {
                assert(ws.contains(w));
            }
        }
    }
}

fn empty_simulation() -> (s: Simulation)
    ensures
        s@.wf(),
{
    let s = Simulation {
        wire_states: WireState::new(0),
        nodes: Nodes { nodes: Vec::new() },
        input_wires: Vec::new(),
        output_wires: Vec::new(),
    };
    assert(s@.current =~= Seq::<bool>::empty());
    s
}

impl Runtime {
    #[verifier::type_invariant]
    closed spec fn well_formed(self) -> bool {
        self.simulation@.wf()
    }

    /// The simulation being run.
    pub closed spec fn model(self) -> SimModel {
        self.simulation@
    }

    pub fn new(simulation: Simulation) -> (r: Self)
        requires
            simulation@.wf(),
        ensures
            r@ == simulation@,
    {
        Self { simulation }
    }

    /// Compiles `script` (with no external node declared) and makes it ready to run.
    pub fn new_compile(script: CircutLangScript) -> (r: Result<Self, CompileError>)
        requires
            fits_along(script, None, script.entry_point@, Set::empty()),
        ensures
            match r {
                Ok(rt) => compile_result(script, None, script.entry_point@, Set::empty()) == Ok::<
                    SimModel,
                    crate::compile::CompileErrorModel,
                >(rt@),
                Err(e) => compile_result(script, None, script.entry_point@, Set::empty()) == Err::<
                    SimModel,
                    crate::compile::CompileErrorModel,
                >(e@),
            },
    {
        match Compiler::compile(script, None) {
            Ok(simulation) => Ok(Self { simulation }),
            Err(e) => Err(e),
        }
    }

    /// Makes `simulation` ready to run when it is well formed; `None` otherwise.
    pub fn new_checked(simulation: Simulation) -> (r: Option<Self>)
        ensures
            r is None <==> !simulation@.wf(),
            r matches Some(rt) ==> rt@ == simulation@,
    {
        if simulation.is_well_formed() {
            Some(Self { simulation })
        } else {
            None
        }
    }

    /// Compiles `script` (with no external node declared) when every one of its graphs fits
    /// the machine, and makes it ready to run; `None` when some graph does not fit.
    pub fn new_compile_checked(script: CircutLangScript) -> (r: Option<Result<Self, CompileError>>)
        ensures
            r is None <==> !script_fits(script),
            r matches Some(Ok(rt)) ==> compile_result(script, None, script.entry_point@, Set::empty())
                == Ok::<SimModel, crate::compile::CompileErrorModel>(rt@),
            r matches Some(Err(e)) ==> compile_result(script, None, script.entry_point@, Set::empty())
                == Err::<SimModel, crate::compile::CompileErrorModel>(e@),
    {
        match Compiler::compile_checked(script, None) {
            None => None,
            Some(Ok(simulation)) => Some(Ok(Self { simulation })),
            Some(Err(e)) => Some(Err(e)),
        }
    }

    /// Sets the input wires, in order, to the values of `set_input`, if given.
    pub fn set_inputs(&mut self, set_input: Option<Vec<bool>>)
        ensures
            final(self)@ == match set_input {
                Some(v) => with_inputs(old(self)@, v@),
                None => old(self)@,
            },
    {
        proof {
            use_type_invariant(&*self);
        }
        if let Some(values) = set_input {
            let mut simulation = empty_simulation();
            std::mem::swap(&mut simulation, &mut self.simulation);
            let ws = simulation.input_wires.clone();
            assert(ws@ =~= simulation.input_wires@);
            crate::simulation::tick::force_all(&mut simulation, &ws, &values);
            self.simulation = simulation;
        }
    }

    /// The questions that the next tick will ask of external gates, in order.
    pub fn external_calls(&self) -> (calls: Vec<ExternalCall>)
        ensures
            calls_view(calls@) == calls_in(self@, self@.current),
    {
        self.simulation.external_calls()
    }

    /// Runs one tick, with `external_outputs` the answers to the questions of
    /// `external_calls`, in order. With fewer answers than questions, nothing changes and
    /// the error names the external node of the first question left unanswered.
    pub fn run_one_tick(&mut self, external_outputs: &Vec<Vec<bool>>) -> (res: Result<(), RuntimeError>)
        ensures
            match res {
                Ok(()) => {
                    &&& calls_in(old(self)@, old(self)@.current).len() <= external_outputs@.len()
                    &&& final(self)@ == sim_tick(
                        old(self)@,
                        old(self)@.current,
                        old(self)@.next,
                        answers(external_outputs@),
                        0,
                    ).0
                },
                Err(RuntimeError::ExternalNodeMissing(name)) => {
                    &&& external_outputs@.len() < calls_in(old(self)@, old(self)@.current).len()
                    &&& name@ == calls_in(old(self)@, old(self)@.current)[external_outputs@.len() as int].name
                    &&& final(self)@ == old(self)@
                },
            },
    {
        proof {
            use_type_invariant(&*self);
        }
        let mut simulation = empty_simulation();
        std::mem::swap(&mut simulation, &mut self.simulation);
        let res = simulation.run_one_tick(external_outputs);
        self.simulation = simulation;
        res
    }

    /// The value of `wire` in the current tick; a wire that does not exist reads low.
    pub fn wire_value(&self, wire: WireId) -> (b: bool)
        ensures
            b == read_wire(self@.current, wire),
    {
        wire.current_value(&self.simulation.wire_states)
    }

    /// The current values of the output wires.
    pub fn output_values(&self) -> (values: Vec<bool>)
        ensures
            values@ == read_wires(self@.current, self@.output_wires),
    {
        self.simulation.outputs()
    }
}

impl View for Runtime {
    type V = SimModel;

    open spec fn view(&self) -> SimModel {
        self.model()
    }
}

} // verus!
