use vstd::prelude::*;

pub mod node;
pub mod simulation;
pub mod tick;
pub mod wire_state;

use self::simulation::Simulation;
use self::wire_state::{WireState, read_wire};

verus! {

/// Identifies a gate.
#[derive(Debug, Clone, Copy, PartialEq, Eq, Structural)]
pub struct NodeId(pub u32);

impl NodeId {
    pub fn new_unchecked(i: u32) -> (n: Self)
        ensures
            n.0 == i,
    {
        NodeId(i)
    }
}

/// Identifies a wire of one simulation level.
#[derive(Debug, Clone, Copy, PartialEq, Eq, Structural)]
pub struct WireId(pub u32);

impl WireId {
    pub fn new_unchecked(i: u32) -> (w: Self)
        ensures
            w.0 == i,
    {
        WireId(i)
    }

    /// The wire `i` of `sim`, if `sim` has such a wire.
    pub fn new_from_sim(i: u32, sim: &Simulation) -> (r: Option<Self>)
        ensures
            r == if (i as int) < sim@.current.len() {
                Some(WireId(i))
            } else {
                None::<WireId>
            },
    {
        if (i as usize) < sim.wire_states.current().len() {
            Some(WireId(i))
        } else {
            None
        }
    }

    pub fn i(&self) -> (r: u32)
        ensures
            r == self.0,
    {
        self.0
    }

    /// The value this wire has in the current tick.
    pub fn current_value(&self, state: &WireState) -> (b: bool)
        ensures
            b == read_wire(state@.current, *self),
    {
        state.get_current(*self)
    }

    fn set_next(&self, state: &mut WireState, value: bool)
        requires
            (self.0 as int) < old(state)@.next.len(),
        ensures
            final(state)@.current == old(state)@.current,
            final(state)@.next == old(state)@.next.update(self.0 as int, value),
            read_wire(final(state)@.next, *self) == value,
            forall|w: WireId|
                w != *self ==> #[trigger] read_wire(final(state)@.next, w) == read_wire(
                    old(state)@.next,
                    w,
                ),
    {
        state.set_in_next(*self, value)
    }

    fn set_current(&self, state: &mut WireState, value: bool)
        requires
            (self.0 as int) < old(state)@.current.len(),
        ensures
            final(state)@.current == old(state)@.current.update(self.0 as int, value),
            final(state)@.next == old(state)@.next,
            read_wire(final(state)@.current, *self) == value,
            forall|w: WireId|
                w != *self ==> #[trigger] read_wire(final(state)@.current, w) == read_wire(
                    old(state)@.current,
                    w,
                ),
    {
        state.set_in_current(*self, value)
    }
}

} // verus!
