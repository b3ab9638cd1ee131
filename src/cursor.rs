use vstd::prelude::*;
use crate::read_result::ReadResult;

verus! {

/// The lap after `lap`, wrapping at the counter's width.
pub open spec fn next_lap(lap: u16) -> u16 {
    if lap == u16::MAX {
        0
    } else {
        (lap + 1) as u16
    }
}

/// The lap before `lap`, wrapping at the counter's width.
pub open spec fn prev_lap(lap: u16) -> u16 {
    if lap == 0 {
        u16::MAX
    } else {
        (lap - 1) as u16
    }
}

/// A position in the ring: a slot index and the lap on which that slot is
/// (to be) visited. The writer's cursor names the slot it fills next; a
/// reader's cursor names the slot it reads next and the lap it expects to
/// find there.
#[derive(Clone, Copy, PartialEq, Eq, Debug)]
pub struct Cursor {
    pub index: usize,
    pub lap: u16,
}

impl Cursor {
    /// The position one slot further on in a ring of `capacity` slots.
    pub open spec fn spec_next(self, capacity: nat) -> Cursor {
        if self.index + 1 == capacity {
            Cursor { index: 0, lap: next_lap(self.lap) }
        } else {
            Cursor { index: (self.index + 1) as usize, lap: self.lap }
        }
    }

    /// Moves one slot further on; passing the end starts the next lap.
    pub fn next(self, capacity: usize) -> (r: Cursor)
        requires
            self.index < capacity,
        ensures
            r == self.spec_next(capacity as nat),
            r.index < capacity,
    {
        if self.index + 1 == capacity {
            Cursor { index: 0, lap: self.lap.wrapping_add(1) }
        } else {
            Cursor { index: self.index + 1, lap: self.lap }
        }
    }
}

/// How a read classifies a slot last written on lap `observed` by a reader
/// that expects lap `expected` there.
pub open spec fn read_outcome<T>(observed: u16, expected: u16, value: T) -> ReadResult<T> {
    if next_lap(observed) == expected {
        ReadResult::Empty
    } else if observed == expected {
        ReadResult::Next(value)
    } else {
        ReadResult::Dropout(value)
    }
}

/// A reader at `at`, in a ring of `capacity` slots, finds a slot last written
/// on lap `observed` holding `value`: the result and its next position. On
/// `Empty` it stays; otherwise it takes the slot's lap as its own (which is
/// what it expected, unless it was overtaken) and moves on.
pub open spec fn spec_observe<T>(at: Cursor, observed: u16, value: T, capacity: nat) -> (
    ReadResult<T>,
    Cursor,
) {
    if next_lap(observed) == at.lap {
        (ReadResult::Empty, at)
    } else {
        (read_outcome(observed, at.lap, value), Cursor { index: at.index, lap: observed }.spec_next(capacity))
    }
}

/// Classifies what a reader at `at` found in its slot (last written on lap
/// `observed`, holding `value`) and computes where the reader goes next.
pub fn observe<T>(at: Cursor, observed: u16, value: T, capacity: usize) -> (r: (ReadResult<T>, Cursor))
    requires
        at.index < capacity,
    ensures
        r == spec_observe(at, observed, value, capacity as nat),
        r.0 == read_outcome(observed, at.lap, value),
        r.1.index < capacity,
{
    if observed.wrapping_add(1) == at.lap {
        return (ReadResult::Empty, at);
    }
    let moved = Cursor { index: at.index, lap: observed }.next(capacity);
    if observed == at.lap {
        (ReadResult::Next(value), moved)
    } else {
        (ReadResult::Dropout(value), moved)
    }
}

/// The slot written most recently before the writer moved to `published`,
/// in a ring of `capacity` slots.
pub open spec fn spec_last_written(published: usize, capacity: nat) -> usize {
    if published == 0 {
        (capacity - 1) as usize
    } else {
        ((published - 1) as nat % capacity) as usize
    }
}

/// Where a reader at `at` lands when it jumps to the newest slot, given that
/// the writer published `published` as its next slot. The reader's lap is
/// set back so that the next read reports a dropout: by one lap, or by two
/// when the writer has just wrapped, since the newest slot then still
/// carries the lap before the writer's.
pub open spec fn spec_skip(at: Cursor, published: usize, capacity: nat) -> Cursor {
    Cursor {
        index: spec_last_written(published, capacity),
        lap: if published == 0 {
            prev_lap(prev_lap(at.lap))
        } else {
            prev_lap(at.lap)
        },
    }
}

/// Computes the jump of [spec_skip].
pub fn skip(at: Cursor, published: usize, capacity: usize) -> (r: Cursor)
    requires
        capacity >= 1,
    ensures
        r == spec_skip(at, published, capacity as nat),
        r.index < capacity,
{
    if published == 0 {
        Cursor { index: capacity - 1, lap: at.lap.wrapping_sub(2) }
    } else {
        Cursor { index: (published - 1) % capacity, lap: at.lap.wrapping_sub(1) }
    }
}

} // verus!
