use midi_engine::ring::{le_decode, le_encode, ring_load, ring_store};
use midi_engine::shared_buffer::{
    timestamp_from_clock, timestamp_from_micros, MidiEvent, SharedMidiBuffer,
};

fn event(data: Vec<u8>, timestamp: u64, device_name: &str) -> MidiEvent {
    MidiEvent { data, timestamp, device_name: device_name.to_string() }
}

#[test]
fn test_write_read() {
    let mut buffer = SharedMidiBuffer::new(1024);

    let event = MidiEvent {
        data: vec![0x90, 0x40, 0x7F],
        timestamp: 12345678,
        device_name: "Test Device".to_string(),
    };

    assert!(buffer.write(&event));

    let read_event = buffer.read().unwrap();
    assert_eq!(read_event.data, event.data);
    assert_eq!(read_event.timestamp, event.timestamp);
    assert_eq!(read_event.device_name, event.device_name);

    // Buffer should be empty now
    assert!(buffer.read().is_none());
}

#[test]
fn test_multiple_events() {
    let mut buffer = SharedMidiBuffer::new(1024);

    for i in 0..10 {
        let event = MidiEvent {
            data: vec![0x90, i, 0x7F],
            timestamp: i as u64 * 1000,
            device_name: format!("Device {}", i),
        };

        assert!(buffer.write(&event));
    }

    for i in 0..10 {
        let event = buffer.read().unwrap();
        assert_eq!(event.data, vec![0x90, i, 0x7F]);
        assert_eq!(event.timestamp, i as u64 * 1000);
        assert_eq!(event.device_name, format!("Device {}", i));
    }

    // Buffer should be empty now
    assert!(buffer.read().is_none());
}

#[test]
fn frame_layout_is_little_endian_and_bit_exact() {
    let mut buffer = SharedMidiBuffer::new(64);
    assert!(buffer.write(&event(vec![0x90, 0x40, 0x7F], 0x0102_0304_0506_0708, "ab")));
    let cells = buffer.as_ptr();
    let expected: Vec<u8> = vec![
        21, 0, 0, 0, // total_size = 8 + 4 + 3 + 4 + 2
        0x08, 0x07, 0x06, 0x05, 0x04, 0x03, 0x02, 0x01, // timestamp
        3, 0, 0, 0, // data_len
        0x90, 0x40, 0x7F, // data
        2, 0, 0, 0, // name_len
        b'a', b'b', // name
    ];
    assert_eq!(&cells[..25], &expected[..]);
    assert!(cells[25..].iter().all(|b| *b == 0));
}

#[test]
fn reading_an_empty_ring_returns_nothing() {
    let mut buffer = SharedMidiBuffer::new(128);
    assert!(buffer.read().is_none());
    assert!(buffer.read().is_none());
}

#[test]
fn a_ring_without_cells_refuses_every_write() {
    let mut buffer = SharedMidiBuffer::new(0);
    assert!(!buffer.write(&event(vec![0xF8], 1, "")));
    assert!(buffer.read().is_none());
}

#[test]
fn a_frame_larger_than_the_space_is_refused_and_changes_nothing() {
    // A frame of one data byte and no name takes 4 + 16 + 1 = 21 cells.
    let mut buffer = SharedMidiBuffer::new(40);
    assert!(buffer.write(&event(vec![0xF8], 7, "")));
    let before: Vec<u8> = buffer.as_ptr().to_vec();
    assert!(!buffer.write(&event(vec![0xFA], 8, "")));
    assert_eq!(buffer.as_ptr(), &before[..]);
    let first = buffer.read().unwrap();
    assert_eq!(first.data, vec![0xF8]);
    assert_eq!(first.timestamp, 7);
    assert_eq!(first.device_name, "");
    assert!(buffer.read().is_none());
}

#[test]
fn a_frame_of_exactly_the_free_space_is_accepted() {
    let mut buffer = SharedMidiBuffer::new(21);
    assert!(buffer.write(&event(vec![0xF8], 7, "")));
    // The cursors coincide again, so the ring reads as empty: the known
    // limit of a ring that keeps no cell free.
    assert!(buffer.read().is_none());
}

#[test]
fn frames_wrap_around_the_end_of_the_region() {
    let mut buffer = SharedMidiBuffer::new(50);
    for round in 0..20u64 {
        let e = event(vec![0x90, round as u8, 0x7F], round * 3, "wrap");
        // 4 + 16 + 3 + 4 = 27 cells: every second frame runs over the end.
        assert!(buffer.write(&e));
        let back = buffer.read().unwrap();
        assert_eq!(back.data, e.data);
        assert_eq!(back.timestamp, e.timestamp);
        assert_eq!(back.device_name, e.device_name);
        assert!(buffer.read().is_none());
    }
}

#[test]
fn events_come_back_in_the_order_written_across_the_wrap() {
    let mut buffer = SharedMidiBuffer::new(100);
    let mut next_write = 0u64;
    let mut next_read = 0u64;
    for _ in 0..30 {
        while buffer.write(&event(vec![next_write as u8], next_write, "d")) {
            next_write += 1;
            if next_write - next_read == 3 {
                break;
            }
        }
        while next_read < next_write {
            let e = buffer.read().unwrap();
            assert_eq!(e.data, vec![next_read as u8]);
            assert_eq!(e.timestamp, next_read);
            assert_eq!(e.device_name, "d");
            next_read += 1;
        }
    }
    assert!(next_read > 30);
}

#[test]
fn device_names_keep_their_unicode() {
    let mut buffer = SharedMidiBuffer::new(256);
    let e = event(vec![0xB0, 74, 1], 99, "Clavier électrique №1 🎹");
    assert!(buffer.write(&e));
    let back = buffer.read().unwrap();
    assert_eq!(back.device_name, "Clavier électrique №1 🎹");
}

#[test]
fn bytes_that_are_no_text_are_read_lossily() {
    // One frame written by hand whose name is not UTF-8.
    let mut region = vec![0u8; 64];
    let frame: Vec<u8> = vec![
        18, 0, 0, 0, 5, 0, 0, 0, 0, 0, 0, 0, 1, 0, 0, 0, 0xF8, 1, 0, 0, 0, 0xFF,
    ];
    region[..frame.len()].copy_from_slice(&frame);
    let mut probe = SharedMidiBuffer::new(64);
    assert!(probe.write(&event(vec![0xF8], 5, "x")));
    probe.as_mut_ptr().copy_from_slice(&region);
    let back = probe.read().unwrap();
    assert_eq!(back.data, vec![0xF8]);
    assert_eq!(back.timestamp, 5);
    assert_eq!(back.device_name, "\u{FFFD}");
}

#[test]
fn a_ring_over_a_supplied_region_starts_at_its_first_cell() {
    let mut buffer = SharedMidiBuffer::from_raw(vec![0xAA; 32]);
    assert_eq!(buffer.as_ptr(), &[0xAA; 32][..]);
    assert!(buffer.read().is_none());
    assert!(buffer.write(&event(vec![1, 2], 3, "")));
    assert_eq!(&buffer.as_ptr()[..4], &[18, 0, 0, 0]);
    assert_eq!(buffer.as_ptr()[22], 0xAA);
}

#[test]
fn clock_readings_become_timestamps() {
    assert_eq!(timestamp_from_micros(0), 0);
    assert_eq!(timestamp_from_micros(1_700_000_000_000_000), 1_700_000_000_000_000);
    assert_eq!(timestamp_from_micros((1u128 << 64) + 5), 5);
    assert_eq!(timestamp_from_micros(u64::MAX as u128), u64::MAX);
    assert_eq!(timestamp_from_clock(None), 0);
    assert_eq!(timestamp_from_clock(Some(1_700_000_000_000_000)), 1_700_000_000_000_000);
    assert_eq!(timestamp_from_clock(Some((1u128 << 64) + 9)), 9);
    let a = SharedMidiBuffer::current_timestamp();
    let b = SharedMidiBuffer::current_timestamp();
    assert!(a > 1_500_000_000_000_000);
    assert!(b >= a);
}

#[test]
fn a_supplied_region_goes_back_to_the_caller_and_an_own_region_does_not() {
    let mut borrowed = SharedMidiBuffer::from_raw(vec![7u8; 40]);
    assert!(borrowed.write(&event(vec![1], 2, "")));
    let region = borrowed.release().unwrap();
    assert_eq!(region.len(), 40);
    assert_eq!(&region[..4], &[17, 0, 0, 0]);
    assert_eq!(region[39], 7);
    let owned = SharedMidiBuffer::new(40);
    assert!(owned.release().is_none());
}

#[test]
fn integers_are_laid_out_least_significant_byte_first() {
    assert_eq!(le_encode(0x0102_0304, 4), vec![4, 3, 2, 1]);
    assert_eq!(le_encode(21, 4), vec![21, 0, 0, 0]);
    assert_eq!(le_encode(0x0102_0304_0506_0708, 8), vec![8, 7, 6, 5, 4, 3, 2, 1]);
    // A field holds the low bytes of a number that is too large for it.
    assert_eq!(le_encode(0x1_0000_0005, 4), vec![5, 0, 0, 0]);
    assert_eq!(le_encode(7, 0), Vec::<u8>::new());
    assert_eq!(le_decode(&vec![4, 3, 2, 1]), 0x0102_0304);
    assert_eq!(le_decode(&vec![0xFF; 8]), u64::MAX);
    assert_eq!(le_decode(&vec![]), 0);
    for x in [0u64, 1, 255, 256, 65_535, 65_536, 0xFFFF_FFFF] {
        assert_eq!(le_decode(&le_encode(x, 4)), x);
    }
    for x in [0u64, 0x1_0000_0000, u64::MAX, 12_345_678] {
        assert_eq!(le_decode(&le_encode(x, 8)), x);
    }
}

#[test]
fn bytes_are_stored_and_loaded_around_the_end_of_a_region() {
    let mut region = vec![0u8; 8];
    assert_eq!(ring_store(&mut region, 6, &[1, 2, 3, 4]), 2);
    assert_eq!(region, vec![3, 4, 0, 0, 0, 0, 1, 2]);
    assert_eq!(ring_load(&region, 6, 4), (vec![1, 2, 3, 4], 2));
    assert_eq!(ring_load(&region, 7, 0), (vec![], 7));
    // A walk longer than the region goes round it again.
    assert_eq!(ring_load(&region, 6, 10), (vec![1, 2, 3, 4, 0, 0, 0, 0, 1, 2], 0));
    assert_eq!(ring_store(&mut region, 0, &[9; 8]), 0);
    assert_eq!(region, vec![9; 8]);
    assert_eq!(ring_store(&mut region, 3, &[]), 3);
}

#[test]
fn an_event_is_copied_whole() {
    let e = event(vec![1, 2, 3], 44, "copy me");
    let copy = e.clone();
    assert_eq!(copy.data, vec![1, 2, 3]);
    assert_eq!(copy.timestamp, 44);
    assert_eq!(copy.device_name, "copy me");
}
