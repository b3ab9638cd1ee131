use vstd::prelude::*;
use vstd::rwlock::{RwLock, RwLockPredicate};
use std::sync::Arc;
use std::sync::atomic::{AtomicUsize, Ordering};
use crate::cursor::{observe, skip, spec_observe, spec_skip, Cursor};
use crate::read_result::ReadResult;
use crate::model::{RingModel, Slot};
use crate::laws::{lemma_fresh_is_consistent, lemma_write_keeps_consistent};

verus! {

/// Any lap and value may stand in a slot.
struct AnySlot;

impl<T> RwLockPredicate<Slot<T>> for AnySlot {
    open spec fn inv(self, v: Slot<T>) -> bool {
        true
    }
}

/// The storage shared by the writer and every reader, and the index of the
/// slot the writer fills next.
///
/// Each slot sits behind its own reader-writer spin lock: any number of
/// readers, or the one writer, may be inside it at a time. Readers never
/// wait on each other, only on a writer storing into that very slot, and
/// the writer only on readers copying out of it. Either side holds the lock
/// for a single copy of the slot.
struct Shared<T> {
    slots: Vec<RwLock<Slot<T>, AnySlot>>,
    write_index: AtomicUsize,
}

/// Relies on `Arc::clone`: the new handle points to the same allocation, so
/// it holds the same value.
#[verifier::external_body]
fn share<T>(shared: &Arc<Shared<T>>) -> (r: Arc<Shared<T>>)
    ensures
        r == *shared,
{
    Arc::clone(shared)
}

/// The receiving end of a ring buffer. Each reader keeps its own position;
/// clones read independently of each other.
pub struct Reader<T> {
    shared: Arc<Shared<T>>,
    read_index: usize,
    lap_count: u16,
}

/// The sending end of a ring buffer. There is exactly one per ring.
pub struct Writer<T> {
    shared: Arc<Shared<T>>,
    progress: Progress<T>,
}

/// The writer's own state. The writer is the only one to move the write
/// index, so it keeps the authoritative copy here and publishes it to the
/// shared one for readers. Alongside it goes a record of what it has put in
/// each slot.
struct Progress<T> {
    next: Cursor,
    published: Ghost<Seq<Slot<T>>>,
}

impl<T> View for Reader<T> {
    type V = Cursor;

    closed spec fn view(&self) -> Cursor {
        Cursor { index: self.read_index, lap: self.lap_count }
    }
}

impl<T> View for Writer<T> {
    type V = RingModel<T>;

    /// The slots as this writer last wrote them, and its position.
    closed spec fn view(&self) -> RingModel<T> {
        RingModel {
            slots: self.progress.published@,
            writer: self.progress.next,
        }
    }
}

impl<T> Reader<T> {
    #[verifier::type_invariant]
    spec fn well_formed(&self) -> bool {
        &&& self.shared.slots@.len() >= 2
        &&& self.read_index < self.shared.slots@.len()
    }

    /// The number of slots in the ring.
    pub closed spec fn capacity(&self) -> nat {
        self.shared.slots@.len()
    }

    /// Whether this reader reads the slots and the write index that `w`
    /// writes.
    pub closed spec fn on_ring(&self, w: &Writer<T>) -> bool {
        self.shared == w.shared
    }

    /// Whether this reader and `other` read the same slots and write index.
    pub closed spec fn same_ring(&self, other: &Reader<T>) -> bool {
        self.shared == other.shared
    }
}

impl<T> Writer<T> {
    #[verifier::type_invariant]
    spec fn well_formed(&self) -> bool {
        &&& self.shared.slots@.len() >= 2
        &&& self.progress.next.index < self.shared.slots@.len()
        &&& self.progress.published@.len() == self.shared.slots@.len()
        &&& self@.is_consistent()
    }


    /// The number of slots in the ring.
    pub closed spec fn capacity(&self) -> nat {
        self.shared.slots@.len()
    }

    /// Writes `value` into the ring, possibly over data that some readers
    /// have not read yet. Readers that were caught up see it as
    /// [ReadResult::Next]; readers it overtakes see a [ReadResult::Dropout].
    ///
    /// Waits only while readers are copying out of the very slot to be
    /// written.
    pub fn write(&mut self, value: T)
        ensures
            final(self).capacity() == old(self).capacity(),
            final(self)@ == old(self)@.write(value),
            final(self)@.is_consistent(),
            final(self).capacity() >= 2,
            forall|r: Reader<T>| #[trigger] r.on_ring(final(self)) == r.on_ring(old(self)),
    {
        proof {
            use_type_invariant(&*self);
        }
        let capacity = self.shared.slots.len();
        let at = self.progress.next;
        let slot = &self.shared.slots[at.index];
        let (_overwritten, handle) = slot.acquire_write();
        let next = at.next(capacity);
        self.shared.write_index.store(next.index, Ordering::SeqCst);
        let written = Slot { lap: at.lap, value };
        proof {
            lemma_write_keeps_consistent(self@, value);
        }
        let published = Ghost(self.progress.published@.update(at.index as int, written));
        handle.release_write(written);
        self.progress = Progress { next, published };
    }
}

impl<T: Copy> Reader<T> {
    /// Receives the next item if one is available: [ReadResult::Next] with it
    /// when the reader is in step with the writer, [ReadResult::Dropout] with
    /// a newer item when the writer overtook the reader since its last read,
    /// and [ReadResult::Empty] when the reader is caught up.
    ///
    /// Waits only while the writer is storing into the slot being read.
    pub fn read(&mut self) -> (r: ReadResult<T>)
        ensures
            final(self).capacity() == old(self).capacity(),
            final(self).capacity() >= 2,
            final(self).same_ring(old(self)),
            forall|w: Writer<T>| #[trigger] final(self).on_ring(&w) == old(self).on_ring(&w),
            exists|lap: u16, value: T|
                (r, final(self)@) == #[trigger] spec_observe(old(self)@, lap, value, old(self).capacity()),
    {
        proof {
            use_type_invariant(&*self);
        }
        let capacity = self.shared.slots.len();
        let slot = &self.shared.slots[self.read_index];
        let handle = slot.acquire_read();
        let found = *handle.borrow();
        handle.release_read();
        let at = Cursor { index: self.read_index, lap: self.lap_count };
        let (result, moved) = observe(at, found.lap, found.value, capacity);
        self.read_index = moved.index;
        self.lap_count = moved.lap;
        assert(capacity as nat == old(self).capacity());
        assert(at == old(self)@);
        assert((result, self@) == spec_observe(old(self)@, found.lap, found.value, old(self).capacity()));
        result
    }

    /// Jumps to the slot written most recently, dropping everything unread
    /// before it. The next read reports a [ReadResult::Dropout] whether or
    /// not anything was actually skipped. Calling this twice without a read
    /// in between may show the same item twice.
    pub fn skip_ahead(&mut self)
        ensures
            final(self).capacity() == old(self).capacity(),
            final(self).capacity() >= 2,
            final(self).same_ring(old(self)),
            forall|w: Writer<T>| #[trigger] final(self).on_ring(&w) == old(self).on_ring(&w),
            exists|published: usize|
                final(self)@ == #[trigger] spec_skip(old(self)@, published, old(self).capacity()),
    {
        proof {
            use_type_invariant(&*self);
        }
        let capacity = self.shared.slots.len();
        let published = self.shared.write_index.load(Ordering::SeqCst);
        let at = skip(Cursor { index: self.read_index, lap: self.lap_count }, published, capacity);
        self.read_index = at.index;
        self.lap_count = at.lap;
        assert(capacity as nat == old(self).capacity());
        assert(self@ == spec_skip(old(self)@, published, old(self).capacity()));
    }
}

impl<T> Clone for Reader<T> {
    /// A new reader at the same position, on the same ring.
    fn clone(&self) -> (r: Self)
        ensures
            r@ == self@,
            r.capacity() == self.capacity(),
            r.capacity() >= 2,
            r.same_ring(self),
            forall|w: Writer<T>| #[trigger] r.on_ring(&w) == self.on_ring(&w),
    {
        proof {
            use_type_invariant(self);
        }
        Reader { shared: share(&self.shared), read_index: self.read_index, lap_count: self.lap_count }
    }
}

/// Builds a ring of `capacity` slots and returns its one reader and its one
/// writer, both at the start with nothing written yet. Every slot starts at
/// lap 0 holding `T::default()`, while both ends start at lap 1, so that the
/// fresh ring reads as empty.
pub fn ring_buffer<T: Default>(capacity: usize) -> (r: (Reader<T>, Writer<T>))
    requires
        capacity >= 2,
    ensures
        r.0@ == (Cursor { index: 0, lap: 1 }),
        r.0.capacity() == capacity,
        r.0.on_ring(&r.1),
        r.1.capacity() == capacity,
        r.1@.is_fresh(),
        r.1@.capacity() == capacity,
        forall|i: int|
            0 <= i < capacity ==> (#[trigger] r.1@.slots[i]).lap == 0 && T::default.ensures(
                (),
                r.1@.slots[i].value,
            ),
{
    let mut slots: Vec<RwLock<Slot<T>, AnySlot>> = Vec::new();
    let ghost mut published: Seq<Slot<T>> = Seq::empty();
    while slots.len() < capacity
        invariant
            slots.len() <= capacity,
            published.len() == slots.len(),
            forall|i: int|
                0 <= i < published.len() ==> (#[trigger] published[i]).lap == 0 && T::default.ensures(
                    (),
                    published[i].value,
                ),
        decreases capacity - slots.len(),
    {
        let value = T::default();
        let slot = Slot { lap: 0, value };
        proof {
            published = published.push(slot);
        }
        slots.push(RwLock::new(slot, Ghost(AnySlot)));
    }
    let shared = Arc::new(Shared { slots, write_index: AtomicUsize::new(0) });
    let reader = Reader { shared: share(&shared), read_index: 0, lap_count: 1 };
    proof {
        let fresh = RingModel { slots: published, writer: Cursor { index: 0, lap: 1 } };
        lemma_fresh_is_consistent(fresh);
    }
    let progress = Progress { next: Cursor { index: 0, lap: 1 }, published: Ghost(published) };
    let writer = Writer { shared, progress };
    (reader, writer)
}

} // verus!
