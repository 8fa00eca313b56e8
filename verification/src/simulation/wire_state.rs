use vstd::prelude::*;

use super::WireId;

verus! {

/// The value of every wire of one simulation level: the values of this tick
/// (`current`) and the values being computed for the next one (`next`).
pub struct WireState {
    current: Vec<bool>,
    next: Vec<bool>,
}

/// What a `WireState` holds.
pub struct WireStateModel {
    pub current: Seq<bool>,
    pub next: Seq<bool>,
}

impl View for WireState {
    type V = WireStateModel;

    closed spec fn view(&self) -> WireStateModel {
        WireStateModel { current: self.current@, next: self.next@ }
    }
}

/// `count` wires, all low.
pub open spec fn all_low(count: nat) -> Seq<bool> {
    Seq::new(count, |i: int| false)
}

/// The value of wire `id` among `values`; a wire that does not exist reads low.
pub open spec fn read_wire(values: Seq<bool>, id: WireId) -> bool {
    if (id.0 as int) < values.len() {
        values[id.0 as int]
    } else {
        false
    }
}

/// Writing one wire and reading it back gives the value written; every other wire
/// reads as it did before.
pub proof fn lemma_write_then_read(values: Seq<bool>, id: WireId, value: bool)
    requires
        (id.0 as int) < values.len(),
    ensures
        read_wire(values.update(id.0 as int, value), id) == value,
        forall|w: WireId|
            w != id ==> #[trigger] read_wire(values.update(id.0 as int, value), w) == read_wire(
                values,
                w,
            ),
{
    assert forall|w: WireId| w != id implies #[trigger] read_wire(
        values.update(id.0 as int, value),
        w,
    ) == read_wire(values, w) by {
        assert(w.0 != id.0);
    }
}

impl WireState {
    /// `count` wires, all low both now and for the next tick.
    pub fn new(count: u32) -> (s: Self)
        ensures
            s@.current == all_low(count as nat),
            s@.next == all_low(count as nat),
    {
        let mut current: Vec<bool> = Vec::new();
        let mut i: u32 = 0;
        while i < count
            invariant
                i <= count,
                current@ == all_low(i as nat),
            decreases count - i,
        {
            current.push(false);
            i = i + 1;
            assert(current@ =~= all_low(i as nat));
        }
        let next = current.clone();
        assert(next@ =~= current@);
        WireState { current, next }
    }

    /// The values of this tick, one per wire.
    pub fn current(&self) -> (r: &Vec<bool>)
        ensures
            r@ == self@.current,
    {
        &self.current
    }

    /// Number of wires.
    pub fn len(&self) -> (n: usize)
        ensures
            n == self@.current.len(),
    {
        self.current.len()
    }

    /// Number of wires whose next-tick value is kept.
    pub fn len_next(&self) -> (n: usize)
        ensures
            n == self@.next.len(),
    {
        self.next.len()
    }

    /// The value of wire `id` in this tick; a wire that does not exist reads low.
    pub fn get_current(&self, id: WireId) -> (b: bool)
        ensures
            b == read_wire(self@.current, id),
    {
        if (id.0 as usize) < self.current.len() {
            self.current[id.0 as usize]
        } else {
            false
        }
    }

    /// Sets the value that wire `id` takes at the next tick.
    pub fn set_in_next(&mut self, id: WireId, value: bool)
        requires
            (id.0 as int) < old(self)@.next.len(),
        ensures
            final(self)@.current == old(self)@.current,
            final(self)@.next == old(self)@.next.update(id.0 as int, value),
            read_wire(final(self)@.next, id) == value,
            forall|w: WireId|
                w != id ==> #[trigger] read_wire(final(self)@.next, w) == read_wire(old(self)@.next, w),
    {
        proof {
            lemma_write_then_read(self@.next, id, value);
        }
        self.next.set(id.0 as usize, value);
    }

    /// Sets the value of wire `id` in this tick.
    pub fn set_in_current(&mut self, id: WireId, value: bool)
        requires
            (id.0 as int) < old(self)@.current.len(),
        ensures
            final(self)@.current == old(self)@.current.update(id.0 as int, value),
            final(self)@.next == old(self)@.next,
            read_wire(final(self)@.current, id) == value,
            forall|w: WireId|
                w != id ==> #[trigger] read_wire(final(self)@.current, w) == read_wire(
                    old(self)@.current,
                    w,
                ),
    {
        proof {
            lemma_write_then_read(self@.current, id, value);
        }
        self.current.set(id.0 as usize, value);
    }

    /// Ends a tick: the values computed for the next tick become current.
    pub fn advance(&mut self)
        ensures
            final(self)@.current == old(self)@.next,
            final(self)@.next == old(self)@.next,
    {
        let next = self.next.clone();
        assert(next@ =~= self.next@);
        self.current = next;
    }
}

impl Clone for WireState {
    fn clone(&self) -> (r: Self)
        ensures
            r@ == self@,
    {
        let current = self.current.clone();
        let next = self.next.clone();
        assert(current@ =~= self.current@);
        assert(next@ =~= self.next@);
        WireState { current, next }
    }
}

} // verus!
