use vstd::prelude::*;

use crate::script::{PortRef, WireDesc};

verus! {

/// What a node of the editor's canvas is.
#[derive(Debug)]
pub enum EditorNodeKind {
    Nand,
    /// An instance of the library gate at this index.
    SavedGate(usize),
    /// An instance of the external node of this name.
    External(String),
}

/// A gate placed on the editor's canvas.
#[derive(Debug)]
pub struct EditorNode {
    pub kind: EditorNodeKind,
    pub label: String,
    pub input_count: usize,
    pub output_count: usize,
    pub input_labels: Vec<String>,
    pub output_labels: Vec<String>,
}

/// The circuit on the editor's canvas. Node ids are flat, as in `GraphDesc`:
/// `0 .. inputs.len()` are the input pseudo-nodes, the next `outputs.len()` the output
/// pseudo-nodes, then come the gates of `nodes`, in order.
#[derive(Debug)]
pub struct EditorGraph {
    pub inputs: Vec<String>,
    pub outputs: Vec<String>,
    pub nodes: Vec<EditorNode>,
    pub wires: Vec<WireDesc>,
}

/// A saved gate of the library: a named circuit with its number of inputs and outputs.
#[derive(Debug)]
pub struct LibraryGate {
    pub name: String,
    pub input_count: usize,
    pub output_count: usize,
    pub graph: EditorGraph,
}

/// Where the editor stands in laying several wires at once.
#[derive(Debug)]
pub enum BulkWireState {
    Idle,
    Dragging { from: PortRef },
}

// ── Models ──────────────────────────────────────────────────────────────────
pub enum EditorNodeKindModel {
    Nand,
    SavedGate(usize),
    External(Seq<char>),
}

pub struct EditorNodeModel {
    pub kind: EditorNodeKindModel,
    pub label: Seq<char>,
    pub input_count: usize,
    pub output_count: usize,
    pub input_labels: Seq<Seq<char>>,
    pub output_labels: Seq<Seq<char>>,
}

pub struct EditorGraphModel {
    pub inputs: Seq<Seq<char>>,
    pub outputs: Seq<Seq<char>>,
    pub nodes: Seq<EditorNodeModel>,
    pub wires: Seq<WireDesc>,
}

pub struct LibraryGateModel {
    pub name: Seq<char>,
    pub input_count: usize,
    pub output_count: usize,
    pub graph: EditorGraphModel,
}

/// The texts held by `v`.
pub open spec fn strings_view(v: Seq<String>) -> Seq<Seq<char>> {
    Seq::new(v.len(), |i: int| v[i]@)
}

impl View for EditorNodeKind {
    type V = EditorNodeKindModel;

    open spec fn view(&self) -> EditorNodeKindModel {
        match self {
            EditorNodeKind::Nand => EditorNodeKindModel::Nand,
            EditorNodeKind::SavedGate(i) => EditorNodeKindModel::SavedGate(*i),
            EditorNodeKind::External(s) => EditorNodeKindModel::External(s@),
        }
    }
}

impl View for EditorNode {
    type V = EditorNodeModel;

    open spec fn view(&self) -> EditorNodeModel {
        EditorNodeModel {
            kind: self.kind@,
            label: self.label@,
            input_count: self.input_count,
            output_count: self.output_count,
            input_labels: strings_view(self.input_labels@),
            output_labels: strings_view(self.output_labels@),
        }
    }
}

/// The models of the nodes of `v`.
pub open spec fn nodes_view(v: Seq<EditorNode>) -> Seq<EditorNodeModel> {
    Seq::new(v.len(), |i: int| v[i]@)
}

impl View for EditorGraph {
    type V = EditorGraphModel;

    open spec fn view(&self) -> EditorGraphModel {
        EditorGraphModel {
            inputs: strings_view(self.inputs@),
            outputs: strings_view(self.outputs@),
            nodes: nodes_view(self.nodes@),
            wires: self.wires@,
        }
    }
}

impl View for LibraryGate {
    type V = LibraryGateModel;

    open spec fn view(&self) -> LibraryGateModel {
        LibraryGateModel {
            name: self.name@,
            input_count: self.input_count,
            output_count: self.output_count,
            graph: self.graph@,
        }
    }
}

/// The models of the library gates of `v`.
pub open spec fn library_view(v: Seq<LibraryGate>) -> Seq<LibraryGateModel> {
    Seq::new(v.len(), |i: int| v[i]@)
}

impl EditorGraphModel {
    /// Node id of the first gate.
    pub open spec fn gate_base(self) -> int {
        (self.inputs.len() + self.outputs.len()) as int
    }
}

// ── Copies ──────────────────────────────────────────────────────────────────
pub fn clone_strings(v: &Vec<String>) -> (r: Vec<String>)
    ensures
        strings_view(r@) == strings_view(v@),
{
    let mut r: Vec<String> = Vec::new();
    let mut i: usize = 0;
    while i < v.len()
        invariant
            i <= v@.len(),
            r@.len() == i,
            forall|j: int| 0 <= j < i ==> (#[trigger] r@[j])@ == v@[j]@,
        decreases v@.len() - i,
    {
        r.push(v[i].clone());
        i = i + 1;
    }
    assert(strings_view(r@) =~= strings_view(v@));
    r
}

fn clone_wire_descs(v: &Vec<WireDesc>) -> (r: Vec<WireDesc>)
    ensures
        r@ == v@,
{
    let mut r: Vec<WireDesc> = Vec::new();
    let mut i: usize = 0;
    while i < v.len()
        invariant
            i <= v@.len(),
            r@ == v@.subrange(0, i as int),
        decreases v@.len() - i,
    {
        r.push(v[i]);
        i = i + 1;
        assert(r@ =~= v@.subrange(0, i as int));
    }
    assert(v@.subrange(0, v@.len() as int) =~= v@);
    r
}

impl Clone for EditorNodeKind {
    fn clone(&self) -> (r: Self)
        ensures
            r@ == self@,
    {
        match self {
            EditorNodeKind::Nand => EditorNodeKind::Nand,
            EditorNodeKind::SavedGate(i) => EditorNodeKind::SavedGate(*i),
            EditorNodeKind::External(s) => EditorNodeKind::External(s.clone()),
        }
    }
}

impl Clone for EditorNode {
    fn clone(&self) -> (r: Self)
        ensures
            r@ == self@,
    {
        EditorNode {
            kind: self.kind.clone(),
            label: self.label.clone(),
            input_count: self.input_count,
            output_count: self.output_count,
            input_labels: clone_strings(&self.input_labels),
            output_labels: clone_strings(&self.output_labels),
        }
    }
}

impl Clone for EditorGraph {
    fn clone(&self) -> (r: Self)
        ensures
            r@ == self@,
    {
        let mut nodes: Vec<EditorNode> = Vec::new();
        let mut i: usize = 0;
        while i < self.nodes.len()
            invariant
                i <= self.nodes@.len(),
                nodes@.len() == i,
                forall|j: int| 0 <= j < i ==> (#[trigger] nodes@[j])@ == self.nodes@[j]@,
            decreases self.nodes@.len() - i,
        {
            nodes.push(self.nodes[i].clone());
            i = i + 1;
        }
        let r = EditorGraph {
            inputs: clone_strings(&self.inputs),
            outputs: clone_strings(&self.outputs),
            nodes,
            wires: clone_wire_descs(&self.wires),
        };
        assert(r@.nodes =~= self@.nodes);
        r
    }
}

impl Clone for LibraryGate {
    fn clone(&self) -> (r: Self)
        ensures
            r@ == self@,
    {
        LibraryGate {
            name: self.name.clone(),
            input_count: self.input_count,
            output_count: self.output_count,
            graph: self.graph.clone(),
        }
    }
}

// ── A blank canvas ──────────────────────────────────────────────────────────
impl Default for EditorGraph {
    /// One input and one output, no gate, no wire.
    fn default() -> (g: Self)
        ensures
            g@.inputs == seq!["in"@],
            g@.outputs == seq!["out"@],
            g@.nodes.len() == 0,
            g@.wires.len() == 0,
    {
        let mut inputs: Vec<String> = Vec::new();
        inputs.push(String::from_str("in"));
        let mut outputs: Vec<String> = Vec::new();
        outputs.push(String::from_str("out"));
        let g = EditorGraph { inputs, outputs, nodes: Vec::new(), wires: Vec::new() };
        assert(g@.inputs =~= seq!["in"@]);
        assert(g@.outputs =~= seq!["out"@]);
        g
    }
}


// ── Removing the instances of a library gate ────────────────────────────────
/// Whether `n` is an instance of the library gate at index `idx`.
pub open spec fn is_instance(n: EditorNodeModel, idx: usize) -> bool {
    n.kind == EditorNodeKindModel::SavedGate(idx)
}

/// Number of instances of library gate `idx` among the first `g` nodes.
pub open spec fn instances_before(nodes: Seq<EditorNodeModel>, idx: usize, g: int) -> int
    decreases g,
{
    if g <= 0 {
        0
    } else if g > nodes.len() {
        instances_before(nodes, idx, nodes.len() as int)
    } else {
        instances_before(nodes, idx, g - 1) + if is_instance(nodes[g - 1], idx) {
            1int
        } else {
            0int
        }
    }
}

/// The first `n` nodes, without the instances of library gate `idx`.
pub open spec fn without_instances(nodes: Seq<EditorNodeModel>, idx: usize, n: int) -> Seq<
    EditorNodeModel,
>
    decreases n,
{
    if n <= 0 {
        Seq::empty()
    } else if is_instance(nodes[n - 1], idx) {
        without_instances(nodes, idx, n - 1)
    } else {
        without_instances(nodes, idx, n - 1).push(nodes[n - 1])
    }
}

/// Whether node id `id` of `g` is an instance of library gate `idx`.
pub open spec fn is_instance_id(g: EditorGraphModel, idx: usize, id: int) -> bool {
    g.gate_base() <= id < g.gate_base() + g.nodes.len() && is_instance(
        g.nodes[id - g.gate_base()],
        idx,
    )
}

/// The id that node `id` of `g` takes once the instances of library gate `idx` are gone:
/// every gate moves down by the number of removed gates before it.
pub open spec fn renumbered(g: EditorGraphModel, idx: usize, id: usize) -> usize {
    if id < g.gate_base() {
        id
    } else {
        (id - instances_before(g.nodes, idx, id - g.gate_base())) as usize
    }
}

pub open spec fn renumbered_wire(g: EditorGraphModel, idx: usize, w: WireDesc) -> WireDesc {
    WireDesc {
        from: PortRef { node: renumbered(g, idx, w.from.node), port: w.from.port },
        to: PortRef { node: renumbered(g, idx, w.to.node), port: w.to.port },
    }
}

/// Whether wire `w` of `g` starts or ends at an instance of library gate `idx`.
pub open spec fn touches_instance(g: EditorGraphModel, idx: usize, w: WireDesc) -> bool {
    is_instance_id(g, idx, w.from.node as int) || is_instance_id(g, idx, w.to.node as int)
}

/// Of the first `n` wires of `g`, those that do not touch an instance of library gate
/// `idx`, renumbered.
pub open spec fn wires_without_instances(g: EditorGraphModel, idx: usize, n: int) -> Seq<
    WireDesc,
>
    decreases n,
{
    if n <= 0 {
        Seq::empty()
    } else if touches_instance(g, idx, g.wires[n - 1]) {
        wires_without_instances(g, idx, n - 1)
    } else {
        wires_without_instances(g, idx, n - 1).push(renumbered_wire(g, idx, g.wires[n - 1]))
    }
}

/// `g` with every instance of library gate `idx` deleted, as a user would delete them
/// one by one: their wires go, and the gates after them move down.
pub open spec fn graph_without_instances(g: EditorGraphModel, idx: usize) -> EditorGraphModel {
    EditorGraphModel {
        inputs: g.inputs,
        outputs: g.outputs,
        nodes: without_instances(g.nodes, idx, g.nodes.len() as int),
        wires: wires_without_instances(g, idx, g.wires.len() as int),
    }
}

/// The library index that `kind` refers to once the library gate `deleted` is gone.
pub open spec fn remapped_kind(kind: EditorNodeKindModel, deleted: usize) -> EditorNodeKindModel {
    match kind {
        EditorNodeKindModel::SavedGate(j) => if j > deleted {
            EditorNodeKindModel::SavedGate((j - 1) as usize)
        } else {
            kind
        },
        _ => kind,
    }
}

/// `g` with its library references moved down past the deleted library gate `deleted`.
pub open spec fn graph_remapped(g: EditorGraphModel, deleted: usize) -> EditorGraphModel {
    EditorGraphModel {
        nodes: Seq::new(
            g.nodes.len(),
            |i: int| EditorNodeModel { kind: remapped_kind(g.nodes[i].kind, deleted), ..g.nodes[i] },
        ),
        ..g
    }
}

proof fn lemma_instances_before_bound(nodes: Seq<EditorNodeModel>, idx: usize, g: int)
    requires
        0 <= g <= nodes.len(),
    ensures
        0 <= instances_before(nodes, idx, g) <= g,
    decreases g,
{
    if g > 0 {
        lemma_instances_before_bound(nodes, idx, g - 1);
    }
}

pub(crate) fn is_instance_of(n: &EditorNode, idx: usize) -> (b: bool)
    ensures
        b == is_instance(n@, idx),
{
    match n.kind {
        EditorNodeKind::SavedGate(j) => j == idx,
        _ => false,
    }
}

impl EditorGraph {
    /// Deletes every instance of the library gate at `library_index`, with the wires that
    /// touch them; the gates after a deleted one move down.
    pub fn remove_all_gates_of_library_index(&mut self, library_index: usize)
        requires
            old(self)@.gate_base() + old(self)@.nodes.len() <= usize::MAX,
        ensures
            final(self)@ == graph_without_instances(old(self)@, library_index),
    {
        let ghost g = self@;
        let gate_base = self.inputs.len() + self.outputs.len();
        let n = self.nodes.len();
        // before[i]: the number of instances among the first i gates.
        let mut before: Vec<usize> = Vec::new();
        let mut count: usize = 0;
        let mut kept: Vec<EditorNode> = Vec::new();
        let mut i: usize = 0;
        while i < n
            invariant
                g == self@,
                n == g.nodes.len(),
                i <= n,
                before@.len() == i,
                count as int == instances_before(g.nodes, library_index, i as int),
                count <= i,
                forall|j: int| 0 <= j < i ==> before@[j] <= j,
                forall|j: int| 0 <= j < i ==> before@[j] as int == #[trigger] instances_before(g.nodes, library_index, j),
                nodes_view(kept@) == without_instances(g.nodes, library_index, i as int),
            decreases n - i,
        {
            before.push(count);
            let ghost kept_before = nodes_view(kept@);
            if is_instance_of(&self.nodes[i], library_index) {
                count = count + 1;
            } else {
                kept.push(self.nodes[i].clone());
                assert(nodes_view(kept@) =~= kept_before.push(g.nodes[i as int]));
            }
            i = i + 1;
        }
        let total = count;
        proof {
            lemma_instances_before_bound(g.nodes, library_index, n as int);
        }
        let mut wires: Vec<WireDesc> = Vec::new();
        let mut w: usize = 0;
        while w < self.wires.len()
            invariant
                g == self@,
                n == g.nodes.len(),
                gate_base == g.gate_base(),
                g.gate_base() + n <= usize::MAX,
                before@.len() == n,
                total as int == instances_before(g.nodes, library_index, n as int),
                total <= n,
                forall|j: int| 0 <= j < n ==> before@[j] <= j,
                forall|j: int| 0 <= j < n ==> before@[j] as int == #[trigger] instances_before(g.nodes, library_index, j),
                w <= g.wires.len(),
                wires@ == wires_without_instances(g, library_index, w as int),
            decreases g.wires.len() - w,
        {
            let wire = self.wires[w];
            let from_removed = wire.from.node >= gate_base && wire.from.node - gate_base < n
                && is_instance_of(&self.nodes[wire.from.node - gate_base], library_index);
            let to_removed = wire.to.node >= gate_base && wire.to.node - gate_base < n
                && is_instance_of(&self.nodes[wire.to.node - gate_base], library_index);
            if !from_removed && !to_removed {
                let from_node = renumber(gate_base, &before, total, wire.from.node);
                let to_node = renumber(gate_base, &before, total, wire.to.node);
                proof {
                    lemma_renumber(g, library_index, wire.from.node);
                    lemma_renumber(g, library_index, wire.to.node);
                }
                wires.push(
                    WireDesc {
                        from: PortRef { node: from_node, port: wire.from.port },
                        to: PortRef { node: to_node, port: wire.to.port },
                    },
                );
            }
            w = w + 1;
        }
        self.nodes = kept;
        self.wires = wires;
        proof {
            assert(self@.inputs == g.inputs);
            assert(self@ =~= graph_without_instances(g, library_index));
        }
    }

    /// Moves every library reference above `deleted` down by one.
    pub fn remap_saved_gate_indices_after_library_deletion(&mut self, deleted: usize)
        ensures
            final(self)@ == graph_remapped(old(self)@, deleted),
    {
        let ghost g = self@;
        let n = self.nodes.len();
        let mut i: usize = 0;
        while i < n
            invariant
                n == g.nodes.len(),
                i <= n,
                self.nodes@.len() == n,
                self@.inputs == g.inputs,
                self@.outputs == g.outputs,
                self@.wires == g.wires,
                self@.nodes.len() == n,
                forall|j: int| 0 <= j < i ==> #[trigger] self@.nodes[j] == graph_remapped(g, deleted).nodes[j],
                forall|j: int| i <= j < n ==> #[trigger] self@.nodes[j] == g.nodes[j],
            decreases n - i,
        {
            let ghost before = self.nodes@;
            let ghost before_v = self@.nodes;
            let new_kind = match self.nodes[i].kind {
                EditorNodeKind::SavedGate(j) => if j > deleted {
                    Some(EditorNodeKind::SavedGate(j - 1))
                } else {
                    None
                },
                _ => None,
            };
            proof {
                assert(before_v[i as int] == g.nodes[i as int]);
                assert(before[i as int]@ == g.nodes[i as int]);
            }
            match new_kind {
                Some(k) => {
                    let node = &mut self.nodes[i];
                    node.kind = k;
                    assert(self.nodes@[i as int]@.kind == remapped_kind(g.nodes[i as int].kind, deleted));
                    assert(self.nodes@[i as int]@.label == g.nodes[i as int].label);
                    assert(self.nodes@[i as int]@.input_labels == g.nodes[i as int].input_labels);
                },
                None => {
                    assert(remapped_kind(g.nodes[i as int].kind, deleted) == g.nodes[i as int].kind);
                },
            }
            proof {
                assert forall|j: int| 0 <= j < n && j != i implies self@.nodes[j] == before_v[j] by {
                    assert(self.nodes@[j] == before[j]);
                }
                assert(self@.nodes[i as int] == graph_remapped(g, deleted).nodes[i as int]);
                assert forall|j: int| 0 <= j < i + 1 implies #[trigger] self@.nodes[j] == graph_remapped(g, deleted).nodes[j] by {
                    if j < i {
                        assert(self@.nodes[j] == before_v[j]);
                    }
                }
                assert forall|j: int| i + 1 <= j < n implies #[trigger] self@.nodes[j] == g.nodes[j] by {
                    assert(self@.nodes[j] == before_v[j]);
                }
            }
            i = i + 1;
        }
        proof {
            assert(self@.nodes =~= graph_remapped(g, deleted).nodes);
        }
    }
}

proof fn lemma_renumber(g: EditorGraphModel, idx: usize, id: usize)
    requires
        g.gate_base() + g.nodes.len() <= usize::MAX,
    ensures
        id >= g.gate_base() ==> 0 <= instances_before(g.nodes, idx, id - g.gate_base()) <= id
            - g.gate_base(),
{
    if id >= g.gate_base() {
        let k = id - g.gate_base();
        if k <= g.nodes.len() {
            lemma_instances_before_bound(g.nodes, idx, k);
        } else {
            lemma_instances_before_bound(g.nodes, idx, g.nodes.len() as int);
        }
    }
}

/// The id that node `id` takes once the instances counted in `before` are gone.
fn renumber(gate_base: usize, before: &Vec<usize>, total: usize, id: usize) -> (r: usize)
    requires
        forall|j: int| 0 <= j < before@.len() ==> before@[j] <= j,
        total <= before@.len(),
        id >= gate_base ==> (if id - gate_base < before@.len() {
            before@[id - gate_base] as int
        } else {
            total as int
        }) <= id - gate_base,
    ensures
        r == if id < gate_base {
            id
        } else if id - gate_base < before@.len() {
            (id - before@[id - gate_base]) as usize
        } else {
            (id - total) as usize
        },
{
    if id < gate_base {
        id
    } else if id - gate_base < before.len() {
        id - before[id - gate_base]
    } else {
        id - total
    }
}
} // verus!
