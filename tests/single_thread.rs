use spmc_ring::{ring_buffer, ReadResult};

#[test]
fn test_basic_use_one_thread() {
    let (mut reader, mut writer) = ring_buffer::<usize>(32);

    assert!(reader.read().is_empty());
    assert!(reader.read().is_empty());
    assert!(reader.read().is_empty());
    assert!(reader.read().is_empty());
    assert!(reader.read().is_empty());
    assert!(reader.read().is_empty());

    writer.write(1);

    assert_eq!(reader.read(), ReadResult::Next(1));
    assert!(reader.read().is_empty());
    assert!(reader.read().is_empty());
    assert!(reader.read().is_empty());
    assert!(reader.read().is_empty());

    writer.write(2);

    assert_eq!(reader.read(), ReadResult::Next(2));
    assert!(reader.read().is_empty());
    assert!(reader.read().is_empty());
    assert!(reader.read().is_empty());
    assert!(reader.read().is_empty());

    writer.write(3);

    assert_eq!(reader.read(), ReadResult::Next(3));
    assert!(reader.read().is_empty());
    assert!(reader.read().is_empty());
    assert!(reader.read().is_empty());
    assert!(reader.read().is_empty());

    writer.write(4);

    assert_eq!(reader.read(), ReadResult::Next(4));
    assert!(reader.read().is_empty());
    assert!(reader.read().is_empty());
    assert!(reader.read().is_empty());
    assert!(reader.read().is_empty());

    writer.write(5);
    writer.write(6);

    assert_eq!(reader.read(), ReadResult::Next(5));
    assert_eq!(reader.read(), ReadResult::Next(6));
    assert!(reader.read().is_empty());
    assert!(reader.read().is_empty());
    assert!(reader.read().is_empty());
    assert!(reader.read().is_empty());

    writer.write(7);
    writer.write(8);
    writer.write(9);
    writer.write(10);

    assert_eq!(reader.read(), ReadResult::Next(7));
    assert_eq!(reader.read(), ReadResult::Next(8));
    assert_eq!(reader.read(), ReadResult::Next(9));
    assert_eq!(reader.read(), ReadResult::Next(10));
    assert!(reader.read().is_empty());
    assert!(reader.read().is_empty());
    assert!(reader.read().is_empty());
    assert!(reader.read().is_empty());

    writer.write(11);
    writer.write(12);

    assert_eq!(reader.read(), ReadResult::Next(11));

    writer.write(13);
    writer.write(14);
    writer.write(15);

    assert_eq!(reader.read(), ReadResult::Next(12));

    writer.write(16);
    writer.write(17);
    writer.write(18);
    writer.write(19);

    assert_eq!(reader.read(), ReadResult::Next(13));
    assert_eq!(reader.read(), ReadResult::Next(14));
    assert_eq!(reader.read(), ReadResult::Next(15));
    assert_eq!(reader.read(), ReadResult::Next(16));
    assert_eq!(reader.read(), ReadResult::Next(17));
    assert_eq!(reader.read(), ReadResult::Next(18));
    assert_eq!(reader.read(), ReadResult::Next(19));
    assert!(reader.read().is_empty());
    assert!(reader.read().is_empty());
    assert!(reader.read().is_empty());
    assert!(reader.read().is_empty());
}

#[test]
fn test_wraparound_keeping_pace_one_thread() {
    let (mut reader, mut writer) = ring_buffer::<usize>(32);

    for i in 0..1024 {
        assert!(reader.read().is_empty());
        assert!(reader.read().is_empty());
        assert!(reader.read().is_empty());
        assert!(reader.read().is_empty());

        writer.write(i);

        assert_eq!(reader.read(), ReadResult::Next(i));
        assert!(reader.read().is_empty());
        assert!(reader.read().is_empty());
        assert!(reader.read().is_empty());
        assert!(reader.read().is_empty());
    }
}

#[test]
fn test_dropouts_lapped_once_one_thread() {
    let (mut reader, mut writer) = ring_buffer::<usize>(32);

    // one read, capacity+1 writes
    for i in 0..1024 {
        assert_eq!(reader.read(), ReadResult::Empty);

        for _ in 0..33 {
            writer.write(i);
        }

        assert_eq!(reader.read(), ReadResult::Dropout(i));
        assert_eq!(reader.read(), ReadResult::Empty);
    }
}

#[test]
fn test_dropouts_lapped_twice_one_thread() {
    let (mut reader, mut writer) = ring_buffer::<usize>(32);

    // one read, 2*capacity+1 writes
    for i in 0..1024 {
        assert_eq!(reader.read(), ReadResult::Empty);

        for _ in 0..65 {
            writer.write(i);
        }

        assert_eq!(reader.read(), ReadResult::Dropout(i));
        assert_eq!(reader.read(), ReadResult::Empty);
    }
}

#[test]
fn test_skip_ahead_basic_one_thread() {
    let (mut reader, mut writer) = ring_buffer::<usize>(32);

    writer.write(1);
    writer.write(2);
    writer.write(3);
    writer.write(4);

    assert_eq!(reader.read(), ReadResult::Next(1));
    reader.skip_ahead();
    assert_eq!(reader.read(), ReadResult::Dropout(4));
    assert_eq!(reader.read(), ReadResult::Empty);

    writer.write(5);

    reader.skip_ahead();
    // Might seem a bit silly to return Dropout instead
    // of Ok if there weren't actually any items skipped,
    // but to call skip_ahead is basically to ask for items
    // to be skipped and its effect can't generally be know
    // ahead of time.
    assert_eq!(reader.read(), ReadResult::Dropout(5));
    assert_eq!(reader.read(), ReadResult::Empty);

    writer.write(6);
    writer.write(7);

    reader.skip_ahead();

    writer.write(8);
    writer.write(9);

    reader.skip_ahead();
    assert_eq!(reader.read(), ReadResult::Dropout(9));
    assert_eq!(reader.read(), ReadResult::Empty);
}

#[test]
fn test_skip_ahead_lapped_one_thread() {
    let (mut reader, mut writer) = ring_buffer::<usize>(32);

    // one read, 2*capacity+1 writes
    for i in 0..1024 {
        for _ in 0..65 {
            writer.write(i);
        }

        reader.skip_ahead();
        assert_eq!(reader.read(), ReadResult::Dropout(i));
        assert_eq!(reader.read(), ReadResult::Empty);
    }
}

#[test]
fn test_two_readers_one_thread() {
    let (mut reader1, mut writer) = ring_buffer::<usize>(32);
    let mut reader2 = reader1.clone();

    assert_eq!(reader1.read(), ReadResult::Empty);
    assert_eq!(reader2.read(), ReadResult::Empty);

    writer.write(1);

    assert_eq!(reader1.read(), ReadResult::Next(1));
    assert_eq!(reader1.read(), ReadResult::Empty);

    assert_eq!(reader2.read(), ReadResult::Next(1));
    assert_eq!(reader2.read(), ReadResult::Empty);

    writer.write(2);

    assert_eq!(reader1.read(), ReadResult::Next(2));
    assert_eq!(reader1.read(), ReadResult::Empty);

    writer.write(3);

    assert_eq!(reader1.read(), ReadResult::Next(3));
    assert_eq!(reader1.read(), ReadResult::Empty);

    writer.write(4);

    assert_eq!(reader1.read(), ReadResult::Next(4));
    assert_eq!(reader1.read(), ReadResult::Empty);

    assert_eq!(reader2.read(), ReadResult::Next(2));
    assert_eq!(reader2.read(), ReadResult::Next(3));
    assert_eq!(reader2.read(), ReadResult::Next(4));
    assert_eq!(reader2.read(), ReadResult::Empty);

    writer.write(5);
    writer.write(6);
    writer.write(7);
    writer.write(8);

    reader2.skip_ahead();
    assert_eq!(reader2.read(), ReadResult::Dropout(8));
    assert_eq!(reader2.read(), ReadResult::Empty);

    assert_eq!(reader1.read(), ReadResult::Next(5));
    assert_eq!(reader1.read(), ReadResult::Next(6));
    assert_eq!(reader1.read(), ReadResult::Next(7));
    assert_eq!(reader1.read(), ReadResult::Next(8));
    assert_eq!(reader1.read(), ReadResult::Empty);
}

#[derive(Clone, Copy, PartialEq, Eq, Debug)]
struct Blob {
    data: [u8; 1024],
}

impl Blob {
    fn new(value: u8) -> Blob {
        Blob {
            data: [value; 1024],
        }
    }
}

impl Default for Blob {
    fn default() -> Self {
        Self { data: [0; 1024] }
    }
}

#[test]
fn test_custom_data_type_one_thread() {
    let (mut reader, mut writer) = ring_buffer::<Blob>(32);

    assert_eq!(reader.read(), ReadResult::Empty);

    writer.write(Blob::new(0));

    assert_eq!(reader.read(), ReadResult::Next(Blob::new(0)));
    assert_eq!(reader.read(), ReadResult::Empty);

    writer.write(Blob::new(1));

    assert_eq!(reader.read(), ReadResult::Next(Blob::new(1)));
    assert_eq!(reader.read(), ReadResult::Empty);

    for _ in 0..64 {
        writer.write(Blob::new(3));
    }

    assert_eq!(reader.read(), ReadResult::Dropout(Blob::new(3)));

    reader.skip_ahead();
    assert_eq!(reader.read(), ReadResult::Dropout(Blob::new(3)));
    assert_eq!(reader.read(), ReadResult::Empty);
}
