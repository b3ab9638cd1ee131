use vstd::prelude::*;
use crate::cursor::{prev_lap, spec_observe, Cursor};
use crate::read_result::ReadResult;

verus! {

/// What one slot of the ring holds: the last value written to it and the
/// writer's lap at that moment.
#[derive(Clone, Copy, PartialEq, Eq, Debug)]
pub struct Slot<T> {
    pub lap: u16,
    pub value: T,
}

/// The ring as the writer has filled it: the contents of every slot, and
/// the writer's position (the slot it fills next, and its current lap).
pub struct RingModel<T> {
    pub slots: Seq<Slot<T>>,
    pub writer: Cursor,
}

impl<T> RingModel<T> {
    pub open spec fn capacity(self) -> nat {
        self.slots.len()
    }

    /// The ring after the writer publishes `value`: the value and the
    /// writer's lap go into the writer's slot, and the writer moves on.
    pub open spec fn write(self, value: T) -> RingModel<T> {
        RingModel {
            slots: self.slots.update(self.writer.index as int, Slot { lap: self.writer.lap, value }),
            writer: self.writer.spec_next(self.capacity()),
        }
    }

    /// The ring as construction leaves it: nothing written yet, every slot on
    /// lap 0, the writer at the first slot on lap 1.
    pub open spec fn is_fresh(self) -> bool {
        &&& 2 <= self.capacity() <= usize::MAX
        &&& self.writer == Cursor { index: 0, lap: 1 }
        &&& forall|i: int| 0 <= i < self.capacity() ==> (#[trigger] self.slots[i]).lap == 0
    }

    /// The slots that the writer has passed on its current lap carry that
    /// lap; the others still carry the lap before.
    pub open spec fn is_consistent(self) -> bool {
        &&& 2 <= self.capacity() <= usize::MAX
        &&& self.writer.index < self.capacity()
        &&& forall|i: int|
            0 <= i < self.capacity() ==> (#[trigger] self.slots[i]).lap == if i < self.writer.index {
                self.writer.lap
            } else {
                prev_lap(self.writer.lap)
            }
    }

    /// The ring after the writer publishes `values` in order.
    pub open spec fn write_all(self, values: Seq<T>) -> RingModel<T>
        decreases values.len(),
    {
        if values.len() == 0 {
            self
        } else {
            self.write_all(values.drop_last()).write(values.last())
        }
    }

    /// A reader at `at` reads its slot: the result and its next position.
    /// [crate::Reader::read] finds some lap and value in the slot and
    /// classifies them by [spec_observe]; this is that outcome when what it
    /// finds is what the writer put there last.
    pub open spec fn read(self, at: Cursor) -> (ReadResult<T>, Cursor) {
        spec_observe(at, self.slots[at.index as int].lap, self.slots[at.index as int].value, self.capacity())
    }
}

} // verus!
