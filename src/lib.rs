//! A fixed-capacity ring buffer with one writer and any number of readers.
//!
//! Neither side ever waits on the other for longer than a single slot copy.
//! A reader that falls behind is overtaken: its next read reports a
//! `Dropout` carrying newer data, and it carries on from there.
//!
//! Call [ring_buffer] to receive a [Reader] and a [Writer]. Clone the reader
//! to fan out to more consumers.

mod cursor;
mod laws;
mod model;
mod read_result;
mod ring;

pub use cursor::{next_lap, observe, prev_lap, skip, spec_last_written, spec_observe, spec_skip, read_outcome, Cursor};
pub use model::{RingModel, Slot};
pub use read_result::ReadResult;
pub use ring::{ring_buffer, Reader, Writer};
pub use laws::{
    laps_behind, law_caught_up_reader_sees_each_write, law_fresh_ring_reads_empty,
    law_lapped_reader_drops_out, law_paced_reader_receives_every_value, law_readers_fan_out_independently, lap_plus, paced_reads, law_skip_ahead_reads_dropout, lemma_fresh_is_consistent,
    lemma_write_keeps_consistent,
};
