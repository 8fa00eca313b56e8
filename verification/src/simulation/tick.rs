use vstd::prelude::*;

use super::WireId;
use super::node::NodeKind;
use super::simulation::{NodeModel, SimModel, Simulation, node_wf, wires_below};
use super::wire_state::{lemma_write_then_read, read_wire};
use crate::runtime::RuntimeError;

verus! {

// ── What one tick does ──────────────────────────────────────────────────────
//
// A tick reads the wire values of the current tick and computes those of the next one:
// each gate, in order, writes its output wires. A nested circuit first takes the values
// of the wires that drive it as its inputs (now and for the next tick), then runs one
// tick of its own; its output wires then drive the outputs of that node. An external
// gate asks for the values of its outputs from outside the library: those come, in the
// order in which the tick meets external gates, as a list of answers.
/// The values of the wires `ws` among `values`.
pub open spec fn read_wires(values: Seq<bool>, ws: Seq<WireId>) -> Seq<bool> {
    Seq::new(ws.len(), |i: int| read_wire(values, ws[i]))
}

/// `values` with wire `w` set to `v`; a wire that does not exist is left alone.
pub open spec fn write_wire(values: Seq<bool>, w: WireId, v: bool) -> Seq<bool> {
    if (w.0 as int) < values.len() {
        values.update(w.0 as int, v)
    } else {
        values
    }
}

/// `values` with the first `n` wires of `ws` set, in order, to the first `n` of `vals`.
pub open spec fn write_wires(values: Seq<bool>, ws: Seq<WireId>, vals: Seq<bool>, n: int) -> Seq<
    bool,
>
    decreases n,
{
    if n <= 0 {
        values
    } else {
        write_wire(write_wires(values, ws, vals, n - 1), ws[n - 1], vals[n - 1])
    }
}

/// `values` with the wires of `ws` set, in order, to `vals`, as far as both go.
pub open spec fn write_all(values: Seq<bool>, ws: Seq<WireId>, vals: Seq<bool>) -> Seq<bool> {
    write_wires(values, ws, vals, if ws.len() < vals.len() { ws.len() as int } else { vals.len() as int })
}

/// Reading a list of wires gives one value per wire, in the list's order: entry `i` is
/// the value of wire `i` of the list; reading two lists one after the other gives the two
/// readings one after the other.
pub proof fn lemma_read_wires_in_order(values: Seq<bool>, ws: Seq<WireId>, more: Seq<WireId>)
    ensures
        read_wires(values, ws).len() == ws.len(),
        forall|i: int| 0 <= i < ws.len() ==> #[trigger] read_wires(values, ws)[i] == read_wire(values, ws[i]),
        read_wires(values, ws + more) == read_wires(values, ws) + read_wires(values, more),
{
    assert(read_wires(values, ws + more) =~= read_wires(values, ws) + read_wires(values, more));
}

/// Writing the first `n` of a list of distinct existing wires sets each of them to its
/// own value and leaves every other wire, and the number of wires, as it was.
pub proof fn lemma_write_wires_reads_back(values: Seq<bool>, ws: Seq<WireId>, vals: Seq<bool>, n: int)
    requires
        0 <= n <= ws.len(),
        n <= vals.len(),
        forall|a: int, b: int| 0 <= a < b < n ==> ws[a] != ws[b],
        forall|a: int| 0 <= a < n ==> (#[trigger] ws[a].0 as int) < values.len(),
    ensures
        write_wires(values, ws, vals, n).len() == values.len(),
        forall|a: int| 0 <= a < n ==> read_wire(write_wires(values, ws, vals, n), #[trigger] ws[a]) == vals[a],
        forall|w: WireId|
            (forall|a: int| 0 <= a < n ==> ws[a] != w) ==> #[trigger] read_wire(
                write_wires(values, ws, vals, n),
                w,
            ) == read_wire(values, w),
    decreases n,
{
    if n > 0 {
        lemma_write_wires_reads_back(values, ws, vals, n - 1);
        let before = write_wires(values, ws, vals, n - 1);
        let last = ws[n - 1];
        assert((last.0 as int) < values.len());
        lemma_write_then_read(before, last, vals[n - 1]);
        assert forall|a: int| 0 <= a < n implies read_wire(
            write_wires(values, ws, vals, n),
            #[trigger] ws[a],
        ) == vals[a] by {
            if a < n - 1 {
                assert(ws[a] != last);
            }
        }
        assert forall|w: WireId| (forall|a: int| 0 <= a < n ==> ws[a] != w) implies #[trigger] read_wire(
            write_wires(values, ws, vals, n),
            w,
        ) == read_wire(values, w) by {
            assert(ws[n - 1] != w);
            assert(forall|a: int| 0 <= a < n - 1 ==> ws[a] != w);
        }
    }
}

/// One question for an external gate: its name and the values of its inputs.
pub struct CallModel {
    pub name: Seq<char>,
    pub inputs: Seq<bool>,
}

/// The questions that a tick of `m` asks, in order, when its current values are `cur`.
pub open spec fn calls_in(m: SimModel, cur: Seq<bool>) -> Seq<CallModel>
    decreases m, m.nodes.len() + 1,
{
    nodes_calls(m, cur, 0)
}

pub open spec fn nodes_calls(m: SimModel, cur: Seq<bool>, k: int) -> Seq<CallModel>
    decreases m, m.nodes.len() - k,
{
    if k < 0 || k >= m.nodes.len() {
        Seq::empty()
    } else {
        node_calls(m.nodes[k], cur) + nodes_calls(m, cur, k + 1)
    }
}

pub open spec fn node_calls(n: NodeModel, cur: Seq<bool>) -> Seq<CallModel>
    decreases n, 0int,
{
    match n {
        NodeModel::Nand { .. } => Seq::empty(),
        NodeModel::Graph { inputs, simulation, .. } => calls_in(
            simulation,
            write_all(simulation.current, simulation.input_wires, read_wires(cur, inputs)),
        ),
        NodeModel::External { inputs, closure_name, .. } => seq![
            CallModel { name: closure_name, inputs: read_wires(cur, inputs) },
        ],
    }
}

/// The state left by a part of a tick.
pub struct TickState {
    pub next: Seq<bool>,
    pub nodes: Seq<NodeModel>,
    pub pos: int,
}

/// The state left by a tick of one gate.
pub struct NodeTick {
    pub next: Seq<bool>,
    pub node: NodeModel,
    pub pos: int,
}

/// `m` after one tick that reads `cur`, starts from `next` and takes the answers of
/// `outs` from the `pos`-th on; and the position of the first answer not taken.
pub open spec fn sim_tick(
    m: SimModel,
    cur: Seq<bool>,
    next: Seq<bool>,
    outs: Seq<Seq<bool>>,
    pos: int,
) -> (SimModel, int)
    decreases m, m.nodes.len() + 1,
{
    let r = nodes_tick(m, cur, next, outs, pos, 0);
    (
        SimModel {
            current: r.next,
            next: r.next,
            nodes: r.nodes,
            input_wires: m.input_wires,
            output_wires: m.output_wires,
        },
        r.pos,
    )
}

pub open spec fn nodes_tick(
    m: SimModel,
    cur: Seq<bool>,
    next: Seq<bool>,
    outs: Seq<Seq<bool>>,
    pos: int,
    k: int,
) -> TickState
    decreases m, m.nodes.len() - k,
{
    if k < 0 || k >= m.nodes.len() {
        TickState { next, nodes: Seq::empty(), pos }
    } else {
        let s = node_tick(m.nodes[k], cur, next, outs, pos);
        let r = nodes_tick(m, cur, s.next, outs, s.pos, k + 1);
        TickState { next: r.next, nodes: seq![s.node] + r.nodes, pos: r.pos }
    }
}

pub open spec fn node_tick(
    n: NodeModel,
    cur: Seq<bool>,
    next: Seq<bool>,
    outs: Seq<Seq<bool>>,
    pos: int,
) -> NodeTick
    decreases n, 0int,
{
    match n {
        NodeModel::Nand { input_a, input_b, output } => NodeTick {
            next: write_wire(next, output, !(read_wire(cur, input_a) && read_wire(cur, input_b))),
            node: n,
            pos,
        },
        NodeModel::Graph { inputs, outputs, simulation } => {
            let vals = read_wires(cur, inputs);
            let (inner, p) = sim_tick(
                simulation,
                write_all(simulation.current, simulation.input_wires, vals),
                write_all(simulation.next, simulation.input_wires, vals),
                outs,
                pos,
            );
            NodeTick {
                next: write_all(next, outputs, read_wires(inner.current, inner.output_wires)),
                node: NodeModel::Graph { inputs, outputs, simulation: inner },
                pos: p,
            }
        },
        NodeModel::External { outputs, .. } => NodeTick {
            next: write_all(next, outputs, outs[pos]),
            node: n,
            pos: pos + 1,
        },
    }
}


// ── Executable pieces ───────────────────────────────────────────────────────
/// One question for an external gate: its name and the values of its inputs.
pub struct ExternalCall {
    pub name: String,
    pub inputs: Vec<bool>,
}

impl View for ExternalCall {
    type V = CallModel;

    open spec fn view(&self) -> CallModel {
        CallModel { name: self.name@, inputs: self.inputs@ }
    }
}

/// The questions held by `calls`.
pub open spec fn calls_view(calls: Seq<ExternalCall>) -> Seq<CallModel> {
    Seq::new(calls.len(), |i: int| calls[i]@)
}

/// The answers held by `outs`.
pub open spec fn answers(outs: Seq<Vec<bool>>) -> Seq<Seq<bool>> {
    Seq::new(outs.len(), |i: int| outs[i]@)
}

fn read_wire_of(values: &Vec<bool>, w: WireId) -> (b: bool)
    ensures
        b == read_wire(values@, w),
{
    if (w.0 as usize) < values.len() {
        values[w.0 as usize]
    } else {
        false
    }
}

fn read_wires_of(values: &Vec<bool>, ws: &Vec<WireId>) -> (r: Vec<bool>)
    ensures
        r@ == read_wires(values@, ws@),
{
    let mut r: Vec<bool> = Vec::new();
    let mut i: usize = 0;
    while i < ws.len()
        invariant
            i <= ws@.len(),
            r@ == read_wires(values@, ws@.subrange(0, i as int)),
        decreases ws@.len() - i,
    {
        r.push(read_wire_of(values, ws[i]));
        i = i + 1;
        assert(r@ =~= read_wires(values@, ws@.subrange(0, i as int)));
    }
    assert(ws@.subrange(0, ws@.len() as int) =~= ws@);
    r
}

proof fn lemma_write_wires_len(values: Seq<bool>, ws: Seq<WireId>, vals: Seq<bool>, n: int)
    ensures
        write_wires(values, ws, vals, n).len() == values.len(),
    decreases n,
{
    if n > 0 {
        lemma_write_wires_len(values, ws, vals, n - 1);
    }
}

fn write_all_of(values: &mut Vec<bool>, ws: &Vec<WireId>, vals: &Vec<bool>)
    ensures
        final(values)@ == write_all(old(values)@, ws@, vals@),
{
    let n = if ws.len() < vals.len() {
        ws.len()
    } else {
        vals.len()
    };
    let mut i: usize = 0;
    while i < n
        invariant
            n <= ws@.len(),
            n <= vals@.len(),
            n == (if ws@.len() < vals@.len() { ws@.len() as int } else { vals@.len() as int }),
            i <= n,
            values@ == write_wires(old(values)@, ws@, vals@, i as int),
        decreases n - i,
    {
        proof {
            lemma_write_wires_len(old(values)@, ws@, vals@, i as int);
        }
        let w = ws[i];
        if (w.0 as usize) < values.len() {
            values.set(w.0 as usize, vals[i]);
        }
        i = i + 1;
    }
}

/// Appends to `calls` the questions of a tick of `sim` whose current values are `cur`.
fn collect_calls(sim: &Simulation, cur: &Vec<bool>, calls: &mut Vec<ExternalCall>)
    ensures
        calls_view(final(calls)@) == calls_view(old(calls)@) + calls_in(sim@, cur@),
    decreases sim,
{
    let ghost m = sim@;
    let n = sim.nodes.nodes.len();
    let mut k: usize = 0;
    while k < n
        invariant
            m == sim@,
            n == m.nodes.len(),
            k <= n,
            calls_view(old(calls)@) + calls_in(m, cur@) == calls_view(calls@) + nodes_calls(
                m,
                cur@,
                k as int,
            ),
        decreases n - k,
    {
        let ghost before = calls_view(calls@);
        proof {
            assert(sim.nodes.nodes@[k as int]@ == m.nodes[k as int]);
        }
        match &sim.nodes.nodes[k].kind {
            NodeKind::Nand { .. } => {},
            NodeKind::Graph { inputs, simulation, .. } => {
                let vals = read_wires_of(cur, inputs);
                let mut inner_cur = simulation.wire_states.current().clone();
                assert(inner_cur@ =~= simulation.wire_states@.current);
                write_all_of(&mut inner_cur, &simulation.input_wires, &vals);
                collect_calls(&**simulation, &inner_cur, calls);
            },
            NodeKind::External { inputs, closure_name, .. } => {
                let c = ExternalCall { name: closure_name.clone(), inputs: read_wires_of(cur, inputs) };
                calls.push(c);
                assert(calls_view(calls@) =~= before + seq![c@]);
            },
        }
        proof {
            assert(calls_view(calls@) =~= before + node_calls(m.nodes[k as int], cur@));
            assert(nodes_calls(m, cur@, k as int) == node_calls(m.nodes[k as int], cur@) + nodes_calls(m, cur@, k + 1));
            assert(before + nodes_calls(m, cur@, k as int) =~= calls_view(calls@) + nodes_calls(m, cur@, k + 1));
        }
        k = k + 1;
    }
    proof {
        assert(calls_view(calls@) + nodes_calls(m, cur@, n as int) =~= calls_view(calls@));
    }
}

impl Simulation {
    /// The questions that the next tick will ask of external gates, in order.
    pub fn external_calls(&self) -> (calls: Vec<ExternalCall>)
        ensures
            calls_view(calls@) == calls_in(self@, self@.current),
    {
        let mut calls: Vec<ExternalCall> = Vec::new();
        let cur = self.wire_states.current().clone();
        assert(cur@ =~= self@.current);
        collect_calls(self, &cur, &mut calls);
        assert(calls_view(Seq::<ExternalCall>::empty()) =~= Seq::<CallModel>::empty());
        assert(Seq::<CallModel>::empty() + calls_in(self@, self@.current) =~= calls_in(self@, self@.current));
        calls
    }
}

/// The values of `vals`, if any.
pub open spec fn opt_view(vals: Option<&Vec<bool>>) -> Option<Seq<bool>> {
    match vals {
        Some(v) => Some(v@),
        None => None,
    }
}

/// The current values of `m` once its inputs, if given, are set to `vals`.
pub open spec fn start_current(m: SimModel, vals: Option<Seq<bool>>) -> Seq<bool> {
    match vals {
        Some(v) => write_all(m.current, m.input_wires, v),
        None => m.current,
    }
}

/// The next-tick values of `m` once its inputs, if given, are set to `vals`.
pub open spec fn start_next(m: SimModel, vals: Option<Seq<bool>>) -> Seq<bool> {
    match vals {
        Some(v) => write_all(m.next, m.input_wires, v),
        None => m.next,
    }
}

fn clone_wire_ids(ws: &Vec<WireId>) -> (r: Vec<WireId>)
    ensures
        r@ == ws@,
{
    let r = ws.clone();
    assert(r@ =~= ws@);
    r
}

proof fn lemma_node_tick_len(
    n: NodeModel,
    cur: Seq<bool>,
    next: Seq<bool>,
    outs: Seq<Seq<bool>>,
    pos: int,
)
    ensures
        node_tick(n, cur, next, outs, pos).next.len() == next.len(),
{
    match n {
        NodeModel::Nand { .. } => {},
        NodeModel::Graph { inputs, outputs, simulation } => {
            let vals = read_wires(cur, inputs);
            let (inner, p) = sim_tick(
                simulation,
                write_all(simulation.current, simulation.input_wires, vals),
                write_all(simulation.next, simulation.input_wires, vals),
                outs,
                pos,
            );
            let ws = read_wires(inner.current, inner.output_wires);
            let c = if outputs.len() < ws.len() { outputs.len() as int } else { ws.len() as int };
            lemma_write_wires_len(next, outputs, ws, c);
        },
        NodeModel::External { outputs, .. } => {
            let c = if outputs.len() < outs[pos].len() { outputs.len() as int } else { outs[pos].len() as int };
            lemma_write_wires_len(next, outputs, outs[pos], c);
        },
    }
}

/// Sets, in order, the next-tick values of the wires `ws` to `vals`, as far as both go.
fn write_next_all(state: &mut super::wire_state::WireState, ws: &Vec<WireId>, vals: &Vec<bool>)
    ensures
        final(state)@.current == old(state)@.current,
        final(state)@.next == write_all(old(state)@.next, ws@, vals@),
{
    let n = if ws.len() < vals.len() {
        ws.len()
    } else {
        vals.len()
    };
    let mut i: usize = 0;
    while i < n
        invariant
            n <= ws@.len(),
            n <= vals@.len(),
            n == (if ws@.len() < vals@.len() { ws@.len() as int } else { vals@.len() as int }),
            i <= n,
            state@.current == old(state)@.current,
            state@.next == write_wires(old(state)@.next, ws@, vals@, i as int),
        decreases n - i,
    {
        proof {
            lemma_write_wires_len(old(state)@.next, ws@, vals@, i as int);
        }
        let w = ws[i];
        if (w.0 as usize) < state.len_next() {
            w.set_next(state, vals[i]);
        }
        i = i + 1;
    }
}

/// Sets, in order, the wires `ws` of `sim` to `vals` both now and for the next tick.
pub(crate) fn force_all(sim: &mut Simulation, ws: &Vec<WireId>, vals: &Vec<bool>)
    requires
        old(sim)@.wf(),
        wires_below(ws@, old(sim)@.wire_count()),
    ensures
        final(sim)@ == (SimModel {
            current: write_all(old(sim)@.current, ws@, vals@),
            next: write_all(old(sim)@.next, ws@, vals@),
            ..old(sim)@
        }),
        final(sim)@.wf(),
        final(sim).nodes == old(sim).nodes,
{
    let n = if ws.len() < vals.len() {
        ws.len()
    } else {
        vals.len()
    };
    let mut i: usize = 0;
    while i < n
        invariant
            n <= ws@.len(),
            n <= vals@.len(),
            n == (if ws@.len() < vals@.len() { ws@.len() as int } else { vals@.len() as int }),
            i <= n,
            old(sim)@.wf(),
            wires_below(ws@, old(sim)@.wire_count()),
            sim.nodes == old(sim).nodes,
            sim@ == (SimModel {
                current: write_wires(old(sim)@.current, ws@, vals@, i as int),
                next: write_wires(old(sim)@.next, ws@, vals@, i as int),
                ..old(sim)@
            }),
        decreases n - i,
    {
        proof {
            lemma_write_wires_len(old(sim)@.current, ws@, vals@, i as int);
            lemma_write_wires_len(old(sim)@.next, ws@, vals@, i as int);
        }
        sim.force_set_wire(ws[i], vals[i]);
        i = i + 1;
    }
    proof {
        lemma_write_wires_len(old(sim)@.current, ws@, vals@, n as int);
        lemma_write_wires_len(old(sim)@.next, ws@, vals@, n as int);
        assert(sim@.nodes == old(sim)@.nodes);
    }
}

/// Runs one tick of `sim`, taking the answers of external gates from `outs`, from the
/// `pos`-th on. Returns the position of the first answer not taken.
fn tick_at(sim: &mut Simulation, inputs: Option<&Vec<bool>>, outs: &Vec<Vec<bool>>, pos: usize) -> (new_pos: usize)
    requires
        old(sim)@.wf(),
        pos + calls_in(old(sim)@, start_current(old(sim)@, opt_view(inputs))).len() <= outs@.len(),
    ensures
        (final(sim)@, new_pos as int) == sim_tick(
            old(sim)@,
            start_current(old(sim)@, opt_view(inputs)),
            start_next(old(sim)@, opt_view(inputs)),
            answers(outs@),
            pos as int,
        ),
        final(sim)@.wf(),
        new_pos == pos + calls_in(old(sim)@, start_current(old(sim)@, opt_view(inputs))).len(),
    decreases *old(sim),
{
    match inputs {
        Some(vals) => {
            let ws = clone_wire_ids(&sim.input_wires);
            force_all(sim, &ws, vals);
        },
        None => {},
    }
    let ghost m0 = sim@;
    let ghost mo = old(sim)@;
    let ghost orig = *old(sim);
    proof {
        match opt_view(inputs) {
            Some(v) => {
                let c = if mo.input_wires.len() < v.len() { mo.input_wires.len() as int } else { v.len() as int };
                lemma_write_wires_len(mo.current, mo.input_wires, v, c);
            },
            None => {},
        }
        assert(m0.nodes == mo.nodes);
        assert(m0.current == start_current(mo, opt_view(inputs)));
        assert(m0.next == start_next(mo, opt_view(inputs)));
        assert(m0.wire_count() == mo.wire_count());
    }
    let ghost outs_v = answers(outs@);
    let cur: Vec<bool> = sim.wire_states.current().clone();
    assert(cur@ =~= m0.current);
    let n = sim.nodes.nodes.len();
    let mut k: usize = 0;
    let mut p: usize = pos;
    while k < n
        invariant
            mo == old(sim)@,
            m0.wf(),
            mo.wf(),
            m0.nodes == mo.nodes,
            m0.wire_count() == mo.wire_count(),
            m0.current == start_current(mo, opt_view(inputs)),
            m0.next == start_next(mo, opt_view(inputs)),
            outs_v == answers(outs@),
            cur@ == m0.current,
            n == m0.nodes.len(),
            k <= n,
            orig == *old(sim),
            forall|j: int| k <= j < n ==> sim.nodes.nodes@[j] == orig.nodes.nodes@[j],
            sim@.nodes.len() == n,
            sim.nodes.nodes@.len() == n,
            sim@.input_wires == m0.input_wires,
            sim@.output_wires == m0.output_wires,
            sim@.current == m0.current,
            sim@.next.len() == m0.next.len(),
            forall|j: int| k <= j < n ==> sim@.nodes[j] == m0.nodes[j],
            forall|j: int| 0 <= j < k ==> node_wf(#[trigger] sim@.nodes[j], m0.wire_count()),
            p + nodes_calls(mo, m0.current, k as int).len() <= outs@.len(),
            pos + calls_in(mo, m0.current).len() == p + nodes_calls(mo, m0.current, k as int).len(),
            nodes_tick(mo, m0.current, m0.next, outs_v, pos as int, 0) == (TickState {
                next: nodes_tick(mo, m0.current, sim@.next, outs_v, p as int, k as int).next,
                nodes: sim@.nodes.subrange(0, k as int) + nodes_tick(
                    mo,
                    m0.current,
                    sim@.next,
                    outs_v,
                    p as int,
                    k as int,
                ).nodes,
                pos: nodes_tick(mo, m0.current, sim@.next, outs_v, p as int, k as int).pos,
            }),
        decreases n - k,
    {
        let ghost m = sim@;
        let ghost nodes_before = sim.nodes.nodes@;
        let ghost node0 = m0.nodes[k as int];
        proof {
            assert(sim.nodes.nodes@[k as int]@ == node0);
            assert(node_wf(node0, m0.wire_count()));
            assert(nodes_calls(mo, m0.current, k as int) == node_calls(node0, m0.current)
                + nodes_calls(mo, m0.current, k + 1));
        }
        let ghost p_before = p;
        let ghost step = node_tick(node0, m0.current, m.next, outs_v, p as int);
        match &mut sim.nodes.nodes[k].kind {
            NodeKind::Nand { input_a, input_b, output } => {
                let v = !(read_wire_of(&cur, *input_a) && read_wire_of(&cur, *input_b));
                let o = *output;
                o.set_next(&mut sim.wire_states, v);
            },
            NodeKind::External { outputs, .. } => {
                assert(node_calls(node0, m0.current).len() == 1);
                assert(p < outs@.len());
                assert(outs@.len() == outs.len());
                write_next_all(&mut sim.wire_states, outputs, &outs[p]);
                p = p + 1;
            },
            NodeKind::Graph { inputs, outputs, simulation } => {
                let vals = read_wires_of(&cur, inputs);
                proof {
                    assert(decreases_to!(orig => orig.nodes));
                    assert(decreases_to!(orig.nodes => orig.nodes.nodes));
                    assert(decreases_to!(orig.nodes.nodes => orig.nodes.nodes@[k as int]));
                    assert(decreases_to!(*old(sim) => **simulation));
                }
                p = tick_at(&mut **simulation, Some(&vals), outs, p);
                let inner_out = read_wires_of(simulation.wire_states.current(), &simulation.output_wires);
                write_next_all(&mut sim.wire_states, outputs, &inner_out);
            },
        }
        proof {
            assert(sim@.nodes[k as int] == step.node);
            assert(node_wf(sim@.nodes[k as int], m0.wire_count()));
            lemma_node_tick_len(node0, m0.current, m.next, outs_v, p_before as int);
            assert forall|j: int| 0 <= j < n && j != k implies sim@.nodes[j] == m.nodes[j] by {
                assert(sim.nodes.nodes@[j] == nodes_before[j]);
            }
            assert forall|j: int| 0 <= j < k + 1 implies node_wf(#[trigger] sim@.nodes[j], m0.wire_count()) by {
                if j < k {
                    assert(node_wf(m.nodes[j], m0.wire_count()));
                }
            }
            assert(sim@.next == step.next);
            assert(p == step.pos);
            let r = nodes_tick(mo, m0.current, sim@.next, outs_v, p as int, k + 1);
            assert(sim@.nodes.subrange(0, k + 1) =~= sim@.nodes.subrange(0, k as int).push(step.node));
            assert(sim@.nodes.subrange(0, k as int) =~= m.nodes.subrange(0, k as int));
            assert(sim@.nodes.subrange(0, k + 1) + r.nodes =~= m.nodes.subrange(0, k as int) + (seq![step.node] + r.nodes));
        }
        k = k + 1;
    }
    proof {
        assert(sim@.nodes.subrange(0, n as int) =~= sim@.nodes);
        assert(sim@.nodes + Seq::<NodeModel>::empty() =~= sim@.nodes);
    }
    sim.wire_states.advance();
    p
}

impl Simulation {
    /// Sets wire `wire` to `value`, both now and for the next tick.
    pub fn force_set_wire(&mut self, wire: WireId, value: bool)
        requires
            (wire.0 as int) < old(self)@.current.len(),
            old(self)@.next.len() == old(self)@.current.len(),
        ensures
            final(self).nodes == old(self).nodes,
            final(self)@ == (SimModel {
                current: old(self)@.current.update(wire.0 as int, value),
                next: old(self)@.next.update(wire.0 as int, value),
                ..old(self)@
            }),
            read_wire(final(self)@.current, wire) == value,
            read_wire(final(self)@.next, wire) == value,
            forall|w: WireId|
                w != wire ==> {
                    &&& #[trigger] read_wire(final(self)@.current, w) == read_wire(old(self)@.current, w)
                    &&& read_wire(final(self)@.next, w) == read_wire(old(self)@.next, w)
                },
    {
        wire.set_current(&mut self.wire_states, value);
        wire.set_next(&mut self.wire_states, value);
    }

    /// The current values of the output wires.
    pub fn outputs(&self) -> (values: Vec<bool>)
        ensures
            values@ == read_wires(self@.current, self@.output_wires),
    {
        read_wires_of(self.wire_states.current(), &self.output_wires)
    }

    /// Runs one tick, with `external_outputs` the answers to the questions that
    /// `external_calls` gives, in order. With fewer answers than questions, nothing
    /// changes and the error names the external node of the first question left unanswered.
    pub fn run_one_tick(&mut self, external_outputs: &Vec<Vec<bool>>) -> (res: Result<(), RuntimeError>)
        requires
            old(self)@.wf(),
        ensures
            final(self)@.wf(),
            match res {
                Ok(()) => {
                    &&& calls_in(old(self)@, old(self)@.current).len() <= external_outputs@.len()
                    &&& final(self)@ == sim_tick(
                        old(self)@,
                        old(self)@.current,
                        old(self)@.next,
                        answers(external_outputs@),
                        0,
                    ).0
                },
                Err(RuntimeError::ExternalNodeMissing(name)) => {
                    &&& external_outputs@.len() < calls_in(old(self)@, old(self)@.current).len()
                    &&& name@ == calls_in(old(self)@, old(self)@.current)[external_outputs@.len() as int].name
                    &&& final(self)@ == old(self)@
                },
            },
    {
        let calls = self.external_calls();
        if external_outputs.len() < calls.len() {
            let missing = calls[external_outputs.len()].name.clone();
            return Err(RuntimeError::ExternalNodeMissing(missing));
        }
        tick_at(self, None, external_outputs, 0);
        Ok(())
    }
}
} // verus!
