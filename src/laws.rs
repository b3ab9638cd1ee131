use vstd::prelude::*;
use vstd::arithmetic::div_mod::{
    lemma_fundamental_div_mod, lemma_fundamental_div_mod_converse, lemma_mod_pos_bound,
};
use crate::cursor::{next_lap, prev_lap, spec_skip, Cursor};
use crate::model::RingModel;
use crate::read_result::ReadResult;

verus! {

/// A freshly built ring is consistent: the writer has passed no slot, and
/// every slot carries the lap before the writer's.
pub proof fn lemma_fresh_is_consistent<T>(m: RingModel<T>)
    requires
        m.is_fresh(),
    ensures
        m.is_consistent(),
{
}

/// Writing keeps a ring consistent.
pub proof fn lemma_write_keeps_consistent<T>(m: RingModel<T>, value: T)
    requires
        m.is_consistent(),
    ensures
        m.write(value).is_consistent(),
        m.write(value).capacity() == m.capacity(),
{
    let w = m.write(value);
    let l = m.writer.lap;
    assert(prev_lap(next_lap(l)) == l);
    assert forall|i: int| 0 <= i < w.capacity() implies (#[trigger] w.slots[i]).lap == if i
        < w.writer.index {
        w.writer.lap
    } else {
        prev_lap(w.writer.lap)
    } by {
        if i != m.writer.index {
            assert(w.slots[i] == m.slots[i]);
        } else {
            assert(w.slots[i].lap == l);
        }
        if m.writer.index + 1 == m.capacity() {
            assert(w.writer.lap == next_lap(l));
            assert(w.writer.index == 0);
        } else {
            assert(w.writer.lap == l);
            assert(w.writer.index == m.writer.index + 1);
        }
    }
}

/// Nothing is read before the first write: on a fresh ring a new reader
/// reads `Empty` and stays where it is, however often it reads.
pub proof fn law_fresh_ring_reads_empty<T>(m: RingModel<T>)
    requires
        m.is_fresh(),
    ensures
        m.read(Cursor { index: 0, lap: 1 }) == (ReadResult::<T>::Empty, Cursor { index: 0, lap: 1 }),
{
    assert(m.slots[0].lap == 0);
}

/// A reader in step with the writer reads `Empty`; after one write it reads
/// exactly that value as `Next` and is in step with the writer again. So
/// values written one at a time, each followed by a read, are delivered in
/// order, with `Empty` in between.
pub proof fn law_caught_up_reader_sees_each_write<T>(m: RingModel<T>, value: T)
    requires
        m.is_consistent(),
    ensures
        m.read(m.writer) == (ReadResult::<T>::Empty, m.writer),
        m.write(value).read(m.writer) == (ReadResult::Next(value), m.write(value).writer),
        m.write(value).is_consistent(),
{
    assert(m.slots[m.writer.index as int].lap == prev_lap(m.writer.lap));
    lemma_write_keeps_consistent(m, value);
}

/// The run in which the writer publishes `values` one at a time and, after
/// each, a reader starting at `at` reads twice: the pair of results it gets
/// after each write.
pub open spec fn paced_reads<T>(m: RingModel<T>, at: Cursor, values: Seq<T>) -> Seq<
    (ReadResult<T>, ReadResult<T>),
>
    decreases values.len(),
{
    if values.len() == 0 {
        Seq::empty()
    } else {
        let w = m.write(values[0]);
        let (first, next) = w.read(at);
        let (second, after) = w.read(next);
        seq![(first, second)] + paced_reads(w, after, values.drop_first())
    }
}

/// In-order delivery: a reader in step with the writer that reads twice
/// after each write receives every value as `Next`, in the order written,
/// and `Empty` on the second read, for any number of writes.
pub proof fn law_paced_reader_receives_every_value<T>(m: RingModel<T>, values: Seq<T>)
    requires
        m.is_consistent(),
    ensures
        paced_reads(m, m.writer, values).len() == values.len(),
        forall|i: int|
            0 <= i < values.len() ==> #[trigger] paced_reads(m, m.writer, values)[i] == (
                ReadResult::Next(values[i]),
                ReadResult::<T>::Empty,
            ),
    decreases values.len(),
{
    if values.len() > 0 {
        let w = m.write(values[0]);
        law_caught_up_reader_sees_each_write(m, values[0]);
        law_caught_up_reader_sees_each_write(w, values[0]);
        let rest = values.drop_first();
        law_paced_reader_receives_every_value(w, rest);
        let tail = paced_reads(w, w.writer, rest);
        assert forall|i: int| 0 <= i < values.len() implies #[trigger] paced_reads(
            m,
            m.writer,
            values,
        )[i] == (ReadResult::Next(values[i]), ReadResult::<T>::Empty) by {
            if i > 0 {
                assert(tail[i - 1] == (ReadResult::Next(rest[i - 1]), ReadResult::<T>::Empty));
            }
        }
    }
}

/// Where the writer stands after `values` are written to a fresh ring, and
/// what the slot written last holds.
proof fn lemma_writes_from_fresh<T>(m: RingModel<T>, values: Seq<T>)
    requires
        m.is_fresh(),
        values.len() < 65535 * m.capacity(),
    ensures
        m.write_all(values).is_consistent(),
        m.write_all(values).capacity() == m.capacity(),
        m.write_all(values).writer.index == values.len() % m.capacity(),
        m.write_all(values).writer.lap == values.len() / m.capacity() + 1,
        values.len() >= 1 ==> m.write_all(values).slots[(values.len() - 1) % (m.capacity() as int)].value
            == values.last(),
    decreases values.len(),
{
    let c = m.capacity() as int;
    let k = values.len() as int;
    if k == 0 {
        lemma_fresh_is_consistent(m);
        lemma_fundamental_div_mod_converse(0, c, 0, 0);
    } else {
        let before = values.drop_last();
        assert(before.len() < 65535 * c);
        lemma_writes_from_fresh(m, before);
        let p = m.write_all(before);
        lemma_write_keeps_consistent(p, values.last());
        assert(m.write_all(values) == p.write(values.last()));
        let q = (k - 1) / c;
        let r = (k - 1) % c;
        lemma_fundamental_div_mod(k - 1, c);
        lemma_mod_pos_bound(k - 1, c);
        if r + 1 == c {
            assert(k == (q + 1) * c + 0) by (nonlinear_arith)
                requires
                    k - 1 == c * q + r,
                    r + 1 == c,
            ;
            lemma_fundamental_div_mod_converse(k, c, q + 1, 0);
            assert(q + 1 < 65535) by (nonlinear_arith)
                requires
                    k == (q + 1) * c,
                    k < 65535 * c,
                    c >= 2,
            ;
        } else {
            lemma_fundamental_div_mod_converse(k, c, q, r + 1);
        }
    }
}

/// A reader that has not read while the writer lapped it `laps` times and
/// one slot more reads the newest value as a `Dropout`, and then `Empty`.
/// Writing one more than the capacity is a single lap; one more than twice
/// the capacity is two.
pub proof fn law_lapped_reader_drops_out<T>(m: RingModel<T>, values: Seq<T>, laps: int)
    requires
        m.is_fresh(),
        1 <= laps < 65535,
        values.len() == laps * m.capacity() + 1,
    ensures
        ({
            let w = m.write_all(values);
            let (first, at) = w.read(Cursor { index: 0, lap: 1 });
            &&& first == ReadResult::Dropout(values.last())
            &&& w.read(at).0 == ReadResult::<T>::Empty
        }),
{
    let c = m.capacity() as int;
    let k = values.len() as int;
    assert(k < 65535 * c) by (nonlinear_arith)
        requires
            k == laps * c + 1,
            laps < 65535,
            c >= 2,
    ;
    lemma_writes_from_fresh(m, values);
    lemma_fundamental_div_mod_converse(k, c, laps, 1);
    lemma_fundamental_div_mod_converse(k - 1, c, laps, 0);
    let w = m.write_all(values);
    assert(w.slots[0].lap == laps + 1);
    assert(w.slots[1].lap == laps);
}

/// How many laps the reader at `at` trails the writer, counted modulo the
/// lap counter's width.
pub open spec fn laps_behind<T>(m: RingModel<T>, at: Cursor) -> int {
    (m.writer.lap - at.lap + 65536) % 65536
}

/// After `skip_ahead` the next read is a `Dropout` of the newest value,
/// for any reader that trails the writer by fewer than 65534 laps (further
/// behind, the lap counter wraps and the lags cannot be told apart).
pub proof fn law_skip_ahead_reads_dropout<T>(m: RingModel<T>, at: Cursor)
    requires
        m.is_consistent(),
        laps_behind(m, at) < 65534,
    ensures
        ({
            let s = spec_skip(at, m.writer.index, m.capacity());
            m.read(s).0 == ReadResult::Dropout(m.slots[s.index as int].value)
        }),
{
    let c = m.capacity();
    let s = spec_skip(at, m.writer.index, c);
    if m.writer.index != 0 {
        lemma_fundamental_div_mod_converse(m.writer.index - 1, c as int, 0, m.writer.index - 1);
    }
    assert(m.slots[s.index as int].lap == if m.writer.index != 0 {
        m.writer.lap
    } else {
        prev_lap(m.writer.lap)
    });
}

/// The lap `laps` laps after `lap`, wrapping at the counter's width.
pub open spec fn lap_plus(lap: u16, laps: int) -> u16 {
    ((lap + laps) % 65536) as u16
}

/// Where the writer stands after `values` are written to a consistent ring.
proof fn lemma_writes_from<T>(m: RingModel<T>, values: Seq<T>)
    requires
        m.is_consistent(),
    ensures
        m.write_all(values).is_consistent(),
        m.write_all(values).capacity() == m.capacity(),
        m.write_all(values).writer.index == (m.writer.index + values.len()) % (m.capacity() as int),
        m.write_all(values).writer.lap == lap_plus(
            m.writer.lap,
            (m.writer.index + values.len()) / (m.capacity() as int),
        ),
    decreases values.len(),
{
    let c = m.capacity() as int;
    let x = m.writer.index + values.len();
    if values.len() == 0 {
        lemma_fundamental_div_mod_converse(x, c, 0, x);
    } else {
        let before = values.drop_last();
        lemma_writes_from(m, before);
        let p = m.write_all(before);
        lemma_write_keeps_consistent(p, values.last());
        assert(m.write_all(values) == p.write(values.last()));
        let q = (x - 1) / c;
        let r = (x - 1) % c;
        lemma_fundamental_div_mod(x - 1, c);
        lemma_mod_pos_bound(x - 1, c);
        if r + 1 == c {
            assert(x == (q + 1) * c + 0) by (nonlinear_arith)
                requires
                    x - 1 == c * q + r,
                    r + 1 == c,
            ;
            lemma_fundamental_div_mod_converse(x, c, q + 1, 0);
            assert(next_lap(lap_plus(m.writer.lap, q)) == lap_plus(m.writer.lap, q + 1));
        } else {
            lemma_fundamental_div_mod_converse(x, c, q, r + 1);
        }
    }
}

/// Readers fan out independently. Of two readers at the writer's position
/// (a reader and its clone), one reads twice after every write and the
/// other does not read at all. The first receives every value in order,
/// as if the second did not exist. Once the writer has written more than a
/// full ring (and fewer than 65533 rings), the second finds its slot
/// overwritten and reads it as a `Dropout` carrying the slot's newest value.
pub proof fn law_readers_fan_out_independently<T>(m: RingModel<T>, values: Seq<T>)
    requires
        m.is_consistent(),
        m.capacity() < values.len() < 65533 * m.capacity(),
    ensures
        forall|i: int|
            0 <= i < values.len() ==> #[trigger] paced_reads(m, m.writer, values)[i] == (
                ReadResult::Next(values[i]),
                ReadResult::<T>::Empty,
            ),
        ({
            let w = m.write_all(values);
            w.read(m.writer).0 == ReadResult::Dropout(w.slots[m.writer.index as int].value)
        }),
{
    law_paced_reader_receives_every_value(m, values);
    lemma_writes_from(m, values);
    let c = m.capacity() as int;
    let idx = m.writer.index as int;
    let x = idx + values.len();
    let w = m.write_all(values);
    let q = x / c;
    let f = x % c;
    lemma_fundamental_div_mod(x, c);
    lemma_mod_pos_bound(x, c);
    assert(2 <= q + 1 && q < 65534) by (nonlinear_arith)
        requires
            x == c * q + f,
            0 <= f < c,
            0 <= idx < c,
            c < x - idx < 65533 * c,
    ;
    if idx < f {
        assert(w.slots[idx].lap == lap_plus(m.writer.lap, q));
    } else {
        assert(q >= 2) by (nonlinear_arith)
            requires
                x == c * q + f,
                f <= idx,
                x - idx > c,
                c >= 2,
        ;
        assert(prev_lap(lap_plus(m.writer.lap, q)) == lap_plus(m.writer.lap, q - 1));
        assert(w.slots[idx].lap == lap_plus(m.writer.lap, q - 1));
    }
}

} // verus!
