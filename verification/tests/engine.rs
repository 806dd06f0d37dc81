use midi_engine::error::{decimal_string, MidiError};
use midi_engine::midi_processor::{
    process_message, process_mtc_quarter_frame, process_rpn_nrpn, process_song_position,
    process_song_select,
};
use midi_engine::note_tracker::{detect_key, detect_scale, key_of};
use midi_engine::sysex::process_mcm_message;
use midi_engine::{
    process_midi_message, process_sysex, MpeConfiguration, MpeInitTracker, NoteTracker,
    RustMidiStats,
};

#[test]
fn it_works() {
    let result = midi_engine::add(2, 2);
    assert_eq!(result, 4);
}

#[test]
fn test_mpe_zone_configuration() {
    let mut config = MpeConfiguration::new();
    config.configure_zone(true, 5, 48); // Lower zone, 5 channels
    assert!(config.is_mpe_channel(2));
    assert!(config.is_mpe_channel(6));
    assert!(!config.is_mpe_channel(7));
}

#[test]
fn test_note_tracking() {
    let mut tracker = NoteTracker::new();
    tracker.note_on(60, 2, 100, 0); // Middle C, channel 2, velocity 100
    tracker.update_pitch_bend(2, 4096, 100_000); // Add some pitch bend
    tracker.note_off(60, 2, 1_000_000); // Note duration = 1.0s

    let stats = tracker.get_stats();
    assert_eq!(stats.note_count, 1);
    assert!(stats.max_pitch_bend > 0);
}

#[test]
fn test_midi_processing() {
    let mut stats = RustMidiStats::new();

    // Test MIDI Clock
    let clock = [0xF8]; // MIDI Clock message
    process_midi_message(&clock, 0, &mut stats);
    assert_eq!(stats.clock_count, 1);

    // Test Note tracking
    let note_on = [0x90, 60, 100];
    process_midi_message(&note_on, 0, &mut stats);
    assert!(stats.note_tracker.get_stats().active_notes > 0);
}

fn invalid_text(r: Result<(), MidiError>) -> String {
    match r {
        Err(MidiError::InvalidData(s)) => s,
        other => panic!("expected invalid data, got {:?}", other),
    }
}

fn processing_text(r: Result<(), MidiError>) -> String {
    match r {
        Err(MidiError::ProcessingError(s)) => s,
        other => panic!("expected a processing error, got {:?}", other),
    }
}

fn timing_text(r: Result<(), MidiError>) -> String {
    match r {
        Err(MidiError::TimingError(s)) => s,
        other => panic!("expected a timing error, got {:?}", other),
    }
}

#[test]
fn note_on_then_off_moves_the_note_to_the_history() {
    let mut tracker = NoteTracker::new();
    tracker.note_on(64, 3, 127, 1_000);
    assert_eq!(tracker.get_active_notes().len(), 1);
    let active = tracker.get_active_notes()[&key_of(64, 3)];
    assert_eq!(active.note, 64);
    assert_eq!(active.channel, 3);
    assert_eq!(active.velocity, 254);
    assert_eq!(active.pitch_bend, 0);
    assert_eq!(active.pressure, 0);
    assert_eq!(active.timbre, 127);
    assert_eq!(active.start_time, 1_000);
    assert_eq!(active.last_update, 1_000);

    tracker.note_off(64, 3, 5_000);
    assert!(tracker.get_active_notes().is_empty());
    let history = tracker.get_note_history();
    assert_eq!(history.len(), 1);
    assert_eq!(history[0].note, 64);
    assert_eq!(history[0].channel, 3);
    assert_eq!(history[0].start_time, 1_000);
    assert_eq!(history[0].last_update, 5_000);
    assert!(history[0].last_update >= history[0].start_time);
}

#[test]
fn out_of_range_note_messages_are_dropped_by_the_tracker() {
    let mut tracker = NoteTracker::new();
    tracker.note_on(128, 0, 100, 0);
    tracker.note_on(60, 16, 100, 0);
    tracker.note_on(60, 0, 128, 0);
    assert!(tracker.get_active_notes().is_empty());
    tracker.note_on(60, 0, 100, 0);
    tracker.note_off(128, 0, 1);
    tracker.note_off(60, 16, 1);
    tracker.note_off(61, 0, 1);
    assert_eq!(tracker.get_active_notes().len(), 1);
    assert!(tracker.get_note_history().is_empty());
}

#[test]
fn a_note_on_with_velocity_zero_ends_the_note() {
    let mut tracker = NoteTracker::new();
    tracker.note_on(60, 0, 100, 10);
    tracker.note_on(60, 0, 0, 20);
    assert!(tracker.get_active_notes().is_empty());
    assert_eq!(tracker.get_note_history().len(), 1);
    assert_eq!(tracker.get_note_history()[0].last_update, 20);
    assert_eq!(tracker.get_note_history()[0].velocity, 200);
}

#[test]
fn a_second_note_on_overwrites_the_first() {
    let mut tracker = NoteTracker::new();
    tracker.note_on(60, 0, 100, 10);
    tracker.update_pitch_bend(0, 77, 11);
    tracker.note_on(60, 0, 50, 20);
    assert_eq!(tracker.get_active_notes().len(), 1);
    let e = tracker.get_active_notes()[&key_of(60, 0)];
    assert_eq!(e.velocity, 100);
    assert_eq!(e.pitch_bend, 0);
    assert_eq!(e.start_time, 20);
    assert!(tracker.get_note_history().is_empty());
}

#[test]
fn bend_and_timbre_reach_the_notes_of_their_channel_only() {
    let mut tracker = NoteTracker::new();
    tracker.note_on(60, 1, 100, 0);
    tracker.note_on(62, 1, 100, 0);
    tracker.note_on(60, 2, 100, 0);
    tracker.update_pitch_bend(1, -300, 50);
    tracker.update_timbre(2, 200, 60);
    let notes = tracker.get_active_notes();
    assert_eq!(notes[&key_of(60, 1)].pitch_bend, -300);
    assert_eq!(notes[&key_of(62, 1)].pitch_bend, -300);
    assert_eq!(notes[&key_of(60, 1)].last_update, 50);
    assert_eq!(notes[&key_of(62, 1)].last_update, 50);
    assert_eq!(notes[&key_of(60, 1)].timbre, 127);
    assert_eq!(notes[&key_of(60, 2)].pitch_bend, 0);
    assert_eq!(notes[&key_of(60, 2)].timbre, 200);
    assert_eq!(notes[&key_of(60, 2)].last_update, 60);
    tracker.update_pitch_bend(16, 5, 70);
    tracker.update_timbre(200, 5, 70);
    let notes = tracker.get_active_notes();
    assert_eq!(notes[&key_of(60, 1)].last_update, 50);
    assert_eq!(notes[&key_of(60, 2)].last_update, 60);
}

#[test]
fn pressure_reaches_exactly_one_note() {
    let mut tracker = NoteTracker::new();
    tracker.note_on(60, 1, 100, 0);
    tracker.note_on(62, 1, 100, 0);
    tracker.update_pressure(62, 1, 90, 5);
    tracker.update_pressure(63, 1, 91, 6);
    tracker.update_pressure(62, 16, 92, 7);
    let notes = tracker.get_active_notes();
    assert_eq!(notes[&key_of(62, 1)].pressure, 90);
    assert_eq!(notes[&key_of(62, 1)].last_update, 5);
    assert_eq!(notes[&key_of(60, 1)].pressure, 0);
    assert_eq!(notes[&key_of(60, 1)].last_update, 0);
    assert_eq!(notes.len(), 2);
}

#[test]
fn statistics_of_no_notes() {
    let tracker = NoteTracker::new();
    let stats = tracker.get_stats();
    assert_eq!(stats.note_count, 0);
    assert_eq!(stats.active_notes, 0);
    assert_eq!(stats.velocity_total, 0);
    assert_eq!(stats.average_velocity, 0);
    assert_eq!(stats.velocity_range, (254, 0));
    assert_eq!(stats.average_duration, 0);
    assert_eq!(stats.shortest_note, u64::MAX);
    assert_eq!(stats.longest_note, 0);
    assert_eq!(stats.max_pitch_bend, 0);
    assert_eq!(stats.polyphony, 0);
    assert_eq!(stats.scale_detection, "");
    assert_eq!(stats.key_signature, "");
}

#[test]
fn statistics_have_exact_values() {
    let mut tracker = NoteTracker::new();
    // C (60) twice, E (64) once, G (67) once; one note still sounds.
    tracker.note_on(60, 0, 100, 0);
    tracker.note_on(64, 0, 50, 100);
    tracker.update_pitch_bend(0, -2000, 150);
    tracker.update_pressure(64, 0, 30, 160);
    tracker.note_off(60, 0, 1_000);
    tracker.note_off(64, 0, 400);
    tracker.note_on(67, 1, 127, 2_000);
    tracker.update_timbre(1, 201, 2_100);
    tracker.note_off(67, 1, 2_500);
    tracker.note_on(72, 1, 1, 3_000);
    tracker.note_off(72, 1, 3_001);
    tracker.note_on(61, 5, 99, 4_000);

    let stats = tracker.get_stats();
    assert_eq!(stats.note_count, 4);
    assert_eq!(stats.active_notes, 1);
    assert_eq!(stats.velocity_total, 200 + 100 + 254 + 2);
    assert_eq!(stats.average_velocity, 556 / 4);
    assert_eq!(stats.velocity_range, (2, 254));
    assert_eq!(stats.duration_total, 1_000 + 300 + 500 + 1);
    assert_eq!(stats.average_duration, 1_801 / 4);
    assert_eq!(stats.shortest_note, 1);
    assert_eq!(stats.longest_note, 1_000);
    assert_eq!(stats.max_pitch_bend, 2_000);
    assert_eq!(stats.pressure_total, 30);
    assert_eq!(stats.average_pressure, 7);
    assert_eq!(stats.timbre_total, 127 + 127 + 201 + 127);
    assert_eq!(stats.average_timbre, 582 / 4);
    assert_eq!(stats.polyphony, 2);
    assert_eq!(stats.scale_detection, "Unknown");
    assert_eq!(stats.key_signature, "C");
}

#[test]
fn a_note_that_ends_when_another_starts_does_not_overlap_it() {
    let mut tracker = NoteTracker::new();
    tracker.note_on(60, 0, 100, 0);
    tracker.note_off(60, 0, 1_000);
    tracker.note_on(62, 0, 100, 1_000);
    tracker.note_off(62, 0, 2_000);
    assert_eq!(tracker.get_stats().polyphony, 1);

    // At equal timestamps the history decides. Here the later note is the
    // earlier in the history, so its start is taken before the end of the
    // other note, and the two count as sounding together.
    let mut tracker = NoteTracker::new();
    tracker.note_on(62, 0, 100, 1_000);
    tracker.note_on(60, 1, 100, 0);
    tracker.note_off(62, 0, 2_000);
    tracker.note_off(60, 1, 1_000);
    assert_eq!(tracker.get_stats().polyphony, 2);
}

#[test]
fn notes_that_overlap_by_one_microsecond_sound_together() {
    let mut tracker = NoteTracker::new();
    tracker.note_on(60, 0, 100, 0);
    tracker.note_on(62, 0, 100, 999);
    tracker.note_on(64, 0, 100, 999);
    tracker.note_off(60, 0, 1_000);
    tracker.note_off(62, 0, 2_000);
    tracker.note_off(64, 0, 999);
    // The third note has no length, and counts at its start all the same.
    assert_eq!(tracker.get_stats().polyphony, 3);
}

#[test]
fn a_note_that_ends_at_its_own_start_counts_in_polyphony() {
    let mut tracker = NoteTracker::new();
    tracker.note_on(60, 0, 100, 500);
    tracker.note_off(60, 0, 500);
    let stats = tracker.get_stats();
    assert_eq!(stats.note_count, 1);
    assert_eq!(stats.polyphony, 1);
    assert_eq!(stats.duration_total, 0);
    assert_eq!(stats.shortest_note, 0);
    assert_eq!(stats.longest_note, 0);

    // Every completed note counts at least itself.
    tracker.note_on(61, 0, 100, 600);
    tracker.note_off(61, 0, 700);
    tracker.note_on(62, 0, 100, 700);
    tracker.note_off(62, 0, 700);
    let stats = tracker.get_stats();
    assert!(1 <= stats.polyphony && stats.polyphony <= stats.note_count);
    assert_eq!(stats.polyphony, 1);
    assert!(stats.velocity_range.0 <= stats.velocity_range.1);
    assert!(stats.shortest_note <= stats.longest_note);
    assert_eq!(tracker.get_note_history().len(), 3);
    assert_eq!(tracker.get_stats().polyphony, 1);
}

#[test]
fn a_note_stamped_backwards_has_length_zero_and_counts_down_before_it_counts_up() {
    let mut tracker = NoteTracker::new();
    tracker.note_on(61, 0, 100, 900);
    tracker.note_off(61, 0, 100);
    let stats = tracker.get_stats();
    assert_eq!(stats.note_count, 1);
    assert_eq!(stats.polyphony, 0);
    assert_eq!(stats.duration_total, 0);
    assert_eq!(stats.shortest_note, 0);
    assert_eq!(stats.longest_note, 0);
}

#[test]
fn the_key_is_the_most_frequent_pitch_class_and_the_lowest_of_equals() {
    assert_eq!(detect_key(&[0; 12]), "C");
    assert_eq!(detect_key(&[0, 0, 3, 0, 3, 0, 0, 0, 0, 0, 0, 0]), "D");
    assert_eq!(detect_key(&[1, 0, 0, 0, 0, 0, 0, 0, 0, 0, 0, 2]), "B");
    assert_eq!(detect_key(&[0, 5, 0, 0, 0, 0, 0, 0, 0, 0, 0, 0]), "C#");
    assert_eq!(detect_key(&[0, 0, 0, 1, 2, 3, 4, 5, 6, 7, 8, 0]), "A#");
    let names = ["C", "C#", "D", "D#", "E", "F", "F#", "G", "G#", "A", "A#", "B"];
    for (i, name) in names.iter().enumerate() {
        let mut histogram = [0usize; 12];
        histogram[i] = 1;
        assert_eq!(detect_key(&histogram), *name);
    }
}

#[test]
fn the_scale_heuristic_names_every_histogram_unknown() {
    assert_eq!(detect_scale(&[0; 12]), "Unknown");
    assert_eq!(detect_scale(&[1, 0, 1, 0, 1, 1, 0, 1, 0, 1, 0, 1]), "Unknown");
    assert_eq!(detect_scale(&[1, 0, 1, 1, 0, 1, 0, 1, 1, 0, 1, 0]), "Unknown");
    assert_eq!(detect_scale(&[0, 9, 0, 0, 0, 0, 0, 0, 0, 0, 0, 0]), "Unknown");
    assert_eq!(detect_scale(&[0, 9, 9, 0, 0, 0, 0, 0, 0, 0, 0, 0]), "Unknown");
}

#[test]
fn zones_hold_the_computed_ranges() {
    let mut config = MpeConfiguration::new();
    assert!(!config.is_mpe_channel(2));
    assert!(!config.is_master_channel(1));
    assert_eq!(config.get_bend_range(1), 2);

    config.configure_zone(true, 5, 48);
    assert!(config.is_master_channel(1));
    assert!(!config.is_master_channel(16));
    assert!(!config.is_mpe_channel(1));
    for channel in 2..=6 {
        assert!(config.is_mpe_channel(channel));
        assert_eq!(config.get_bend_range(channel), 48);
    }
    assert!(!config.is_mpe_channel(7));
    assert_eq!(config.get_bend_range(1), 48);
    assert_eq!(config.get_bend_range(7), 2);

    config.configure_zone(false, 3, 24);
    assert!(config.is_master_channel(16));
    for channel in 13..=15 {
        assert!(config.is_mpe_channel(channel));
        assert_eq!(config.get_bend_range(channel), 24);
    }
    assert!(!config.is_mpe_channel(12));
    assert!(!config.is_mpe_channel(16));
    assert_eq!(config.get_bend_range(16), 24);
    assert!(config.validate_zone_state().is_ok());
}

#[test]
fn configuring_a_zone_again_overwrites_it() {
    let mut config = MpeConfiguration::new();
    config.configure_zone(true, 10, 48);
    config.configure_zone(true, 2, 12);
    assert!(config.is_mpe_channel(3));
    assert!(!config.is_mpe_channel(4));
    assert_eq!(config.get_bend_range(2), 12);
    config.configure_zone(true, 0, 12);
    assert!(!config.is_mpe_channel(2));
    assert!(config.is_master_channel(1));
}

#[test]
fn member_counts_beyond_the_channels_are_cut_at_the_channel_range() {
    let mut config = MpeConfiguration::new();
    config.configure_zone(false, 16, 1);
    assert!(config.is_mpe_channel(0));
    assert!(config.is_mpe_channel(15));
    config.configure_zone(false, 200, 1);
    assert!(config.is_mpe_channel(0));
    assert!(config.is_mpe_channel(15));
    assert!(!config.is_mpe_channel(16));
    let mut config = MpeConfiguration::new();
    config.configure_zone(true, 255, 1);
    assert!(config.is_mpe_channel(255));
    assert!(config.is_mpe_channel(2));
    assert!(!config.is_mpe_channel(1));
    assert!(!config.is_mpe_channel(0));
}

#[test]
fn setting_a_bend_range_needs_a_configured_zone() {
    let mut config = MpeConfiguration::new();
    config.set_zone_bend_range(true, 7);
    assert_eq!(config.get_bend_range(2), 2);
    config.configure_zone(true, 3, 48);
    config.set_zone_bend_range(true, 7);
    config.set_zone_bend_range(false, 9);
    assert_eq!(config.get_bend_range(2), 7);
    assert_eq!(config.get_bend_range(1), 7);
    assert!(config.is_mpe_channel(4));
    assert_eq!(config.get_bend_range(15), 2);
}

#[test]
fn overlapping_zones_are_an_error_that_names_the_first_shared_channel() {
    let mut config = MpeConfiguration::new();
    config.configure_zone(true, 10, 48); // 2..=11
    assert!(config.validate_zone_state().is_ok());
    config.configure_zone(false, 6, 48); // 10..=15
    assert_eq!(invalid_text(config.validate_zone_state()), "Channel 10 is in both zones");
    config.configure_zone(false, 14, 48); // 2..=15
    assert_eq!(invalid_text(config.validate_zone_state()), "Channel 2 is in both zones");
    config.configure_zone(false, 4, 48); // 12..=15
    assert!(config.validate_zone_state().is_ok());
    config.configure_zone(true, 255, 48); // 2..=255
    assert_eq!(invalid_text(config.validate_zone_state()), "Channel 12 is in both zones");
    // Validation changes nothing.
    assert!(config.is_mpe_channel(100));
}

#[test]
fn numbers_are_written_in_decimal() {
    assert_eq!(decimal_string(0), "0");
    assert_eq!(decimal_string(7), "7");
    assert_eq!(decimal_string(10), "10");
    assert_eq!(decimal_string(99), "99");
    assert_eq!(decimal_string(100), "100");
    assert_eq!(decimal_string(105), "105");
    assert_eq!(decimal_string(255), "255");
}

#[test]
fn errors_say_their_kind_and_their_text() {
    assert_eq!(MidiError::InvalidData("x".to_string()).message(), "Invalid MIDI data: x");
    assert_eq!(MidiError::ProcessingError("y".to_string()).message(), "Processing error: y");
    assert_eq!(MidiError::TimingError("z".to_string()).message(), "Timing error: z");
}

#[test]
fn the_handshake_in_order_reaches_ready() {
    let mut tracker = MpeInitTracker::new();
    assert!(!tracker.is_initialized());
    assert!(tracker.process_message(0x7B, 100).is_ok());
    assert!(!tracker.is_initialized());
    assert!(tracker.process_message(0x79, 200).is_ok());
    assert!(tracker.process_message(0x02, 300).is_ok());
    assert!(!tracker.is_initialized());
    assert!(tracker.process_message(0x03, 1_000_300).is_ok());
    assert!(tracker.is_initialized());
}

#[test]
fn a_skipped_step_is_a_processing_error_and_leaves_the_state() {
    let mut tracker = MpeInitTracker::new();
    assert!(tracker.process_message(0x7B, 100).is_ok());
    assert_eq!(
        processing_text(tracker.process_message(0x02, 200)),
        "Unexpected MPE initialization message"
    );
    assert!(!tracker.is_initialized());
    // Still waiting for Reset All Controllers.
    assert!(tracker.process_message(0x79, 300).is_ok());
    assert!(tracker.process_message(0x02, 400).is_ok());
    assert!(tracker.process_message(0x03, 500).is_ok());
    assert!(tracker.is_initialized());
}

#[test]
fn a_stalled_handshake_times_out_and_starts_over() {
    let mut tracker = MpeInitTracker::new();
    assert!(tracker.process_message(0x7B, 100).is_ok());
    assert!(tracker.process_message(0x79, 1_000_100).is_ok());
    assert_eq!(
        timing_text(tracker.process_message(0x02, 2_000_101)),
        "MPE initialization timeout"
    );
    assert_eq!(
        processing_text(tracker.process_message(0x02, 2_000_102)),
        "Unexpected MPE initialization message"
    );
    assert!(tracker.process_message(0x7B, 9_000_000).is_ok());
    assert!(tracker.process_message(0x79, 9_000_001).is_ok());
}

#[test]
fn ready_is_final_and_no_timeout_applies_before_the_handshake() {
    let mut tracker = MpeInitTracker::new();
    // Long after time zero, yet no handshake is under way.
    assert!(tracker.process_message(0x7B, 50_000_000).is_ok());
    assert!(tracker.process_message(0x79, 50_000_000).is_ok());
    assert!(tracker.process_message(0x02, 50_000_000).is_ok());
    assert!(tracker.process_message(0x03, 50_000_000).is_ok());
    assert!(tracker.is_initialized());
    assert_eq!(
        processing_text(tracker.process_message(0x7B, 99_000_000)),
        "Unexpected MPE initialization message"
    );
    assert!(tracker.is_initialized());
}

#[test]
fn sysex_set_zone_configures_the_zone() {
    let mut stats = RustMidiStats::new();
    assert!(process_sysex(&[0xF0, 0x7E, 0x7F, 0x06, 0x02, 0x05, 0xF7], 0, &mut stats).is_ok());
    assert!(stats.mpe_config.is_master_channel(1));
    assert!(stats.mpe_config.is_mpe_channel(6));
    assert!(!stats.mpe_config.is_mpe_channel(7));
    assert_eq!(stats.mpe_config.get_bend_range(3), 48);
    assert!(process_sysex(&[0xF0, 0x7E, 0x7F, 0x06, 0x02, 0x13, 0xF7], 0, &mut stats).is_ok());
    assert!(stats.mpe_config.is_master_channel(16));
    assert!(stats.mpe_config.is_mpe_channel(13));
    assert!(!stats.mpe_config.is_mpe_channel(12));
}

#[test]
fn sysex_messages_are_checked_for_their_form() {
    let mut stats = RustMidiStats::new();
    let bad = "Invalid SysEx message format";
    assert_eq!(invalid_text(process_sysex(&[], 0, &mut stats)), bad);
    assert_eq!(invalid_text(process_sysex(&[0xF0, 0xF7], 0, &mut stats)), bad);
    assert_eq!(invalid_text(process_sysex(&[0xF1, 0x7E, 0xF7], 0, &mut stats)), bad);
    assert_eq!(invalid_text(process_sysex(&[0xF0, 0x7E, 0x00], 0, &mut stats)), bad);
    assert_eq!(
        invalid_text(process_sysex(&[0xF0, 0x7E, 0x7F, 0xF7], 0, &mut stats)),
        "MCM message too short"
    );
    // The closing byte is no payload: Set Zone has one payload byte before
    // it and Set Bend Range two.
    assert_eq!(
        invalid_text(process_sysex(&[0xF0, 0x7E, 0x7F, 0x06, 0x02, 0xF7], 0, &mut stats)),
        "Invalid zone configuration message"
    );
    assert_eq!(
        invalid_text(process_mcm_message(&[0x7F, 0x06, 0x02, 0xF7], 0, &mut stats)),
        "Invalid zone configuration message"
    );
    assert_eq!(
        invalid_text(process_sysex(&[0xF0, 0x7E, 0x7F, 0x06, 0x03, 0xF7], 0, &mut stats)),
        "Invalid pitch bend range message"
    );
    assert_eq!(
        invalid_text(process_sysex(&[0xF0, 0x7E, 0x7F, 0x06, 0x03, 0x01, 0xF7], 0, &mut stats)),
        "Invalid pitch bend range message"
    );
    for channel in 0..=255u8 {
        assert!(!stats.mpe_config.is_mpe_channel(channel));
        assert!(!stats.mpe_config.is_master_channel(channel));
    }
    assert_eq!(
        invalid_text(process_mcm_message(&[0x7F, 0x06, 0x02], 0, &mut stats)),
        "Invalid zone configuration message"
    );
    assert_eq!(
        invalid_text(process_mcm_message(&[0x7F, 0x06], 0, &mut stats)),
        "MCM message too short"
    );
    assert!(process_sysex(&[0xF0, 0x7E, 0x7F, 0x06, 0x03, 0x00, 0x30, 0xF7], 0, &mut stats)
        .is_ok());
    // Other makers, other addressees and other commands are ignored.
    assert!(process_sysex(&[0xF0, 0x41, 0x10, 0xF7], 0, &mut stats).is_ok());
    assert!(process_sysex(&[0xF0, 0x7E, 0x01, 0x06, 0x02, 0x05, 0xF7], 0, &mut stats).is_ok());
    assert!(process_sysex(&[0xF0, 0x7E, 0x7F, 0x06, 0x09, 0xF7], 0, &mut stats).is_ok());
    assert!(!stats.mpe_config.is_master_channel(1));
    assert!(!stats.mpe_config.is_master_channel(16));
}

#[test]
fn a_single_clock_byte_is_counted_once() {
    let mut stats = RustMidiStats::new();
    assert!(process_message(&[0xF8], 5, &mut stats).is_ok());
    assert_eq!(stats.clock_count, 1);
    assert_eq!(stats.last_clock_time, 5);
    assert!(process_message(&[0xF8], 20_838, &mut stats).is_ok());
    assert!(process_message(&[0xF8], 41_671, &mut stats).is_ok());
    assert_eq!(stats.clock_count, 3);
    assert_eq!(stats.last_clock_time, 41_671);
}

#[test]
fn start_resets_the_pulse_counter_and_stop_changes_nothing() {
    let mut stats = RustMidiStats::new();
    assert!(process_message(&[0xF8], 5, &mut stats).is_ok());
    assert!(process_message(&[0xF8], 6, &mut stats).is_ok());
    assert!(process_message(&[0xFC], 7, &mut stats).is_ok());
    assert_eq!(stats.clock_count, 2);
    assert_eq!(stats.last_clock_time, 6);
    assert!(process_message(&[0xFA], 8, &mut stats).is_ok());
    assert_eq!(stats.clock_count, 0);
    assert_eq!(stats.last_clock_time, 8);
}

#[test]
fn a_pulse_that_cannot_be_counted_is_a_processing_error() {
    let mut stats = RustMidiStats::new();
    stats.clock_count = i32::MAX;
    stats.last_clock_time = 3;
    assert_eq!(processing_text(process_message(&[0xF8], 9, &mut stats)), "Clock count overflow");
    assert_eq!(stats.clock_count, i32::MAX);
    assert_eq!(stats.last_clock_time, 3);
    assert!(!process_midi_message(&[0xF8], 9, &mut stats));
    // The next message is handled all the same.
    assert!(process_midi_message(&[0xFA], 10, &mut stats));
    assert!(process_midi_message(&[0xF8], 11, &mut stats));
    assert_eq!(stats.clock_count, 1);
}

#[test]
fn malformed_messages_are_invalid_data() {
    let mut stats = RustMidiStats::new();
    assert_eq!(invalid_text(process_message(&[], 0, &mut stats)), "Empty MIDI message");
    assert_eq!(invalid_text(process_message(&[0x90], 0, &mut stats)), "Incomplete note message");
    assert_eq!(
        invalid_text(process_message(&[0x90, 60], 0, &mut stats)),
        "Incomplete note message"
    );
    assert_eq!(
        invalid_text(process_message(&[0x80, 60], 0, &mut stats)),
        "Incomplete note message"
    );
    assert_eq!(invalid_text(process_message(&[0xB0, 1], 0, &mut stats)), "Incomplete CC message");
    assert_eq!(
        invalid_text(process_message(&[0xE0, 0], 0, &mut stats)),
        "Incomplete pitch bend message"
    );
    assert_eq!(
        invalid_text(process_message(&[0x90, 128, 100], 0, &mut stats)),
        "Note or channel out of range"
    );
    assert_eq!(
        invalid_text(process_message(&[0x80, 200, 0], 0, &mut stats)),
        "Note or channel out of range"
    );
    assert_eq!(stats.note_tracker.get_stats().active_notes, 0);
    assert_eq!(stats.clock_count, 0);
}

#[test]
fn unknown_status_bytes_are_accepted_and_ignored() {
    let mut stats = RustMidiStats::new();
    for status in [0xF0u8, 0xF1, 0xF2, 0xFB, 0xFE, 0xFF, 0xC0, 0xD0, 0xA0, 0x91, 0x00, 0x7F] {
        assert!(process_message(&[status], 1, &mut stats).is_ok());
        assert!(process_message(&[status, 1, 2, 3], 1, &mut stats).is_ok());
    }
    assert_eq!(stats.clock_count, 0);
    assert_eq!(stats.last_clock_time, 0);
    assert_eq!(stats.note_tracker.get_stats().active_notes, 0);
}

#[test]
fn the_decoder_feeds_the_tracker() {
    let mut stats = RustMidiStats::new();
    assert!(process_message(&[0x90, 60, 100], 10, &mut stats).is_ok());
    assert!(process_message(&[0x90, 64, 1], 20, &mut stats).is_ok());
    // A velocity above 127 is dropped by the tracker without an error.
    assert!(process_message(&[0x90, 65, 200], 25, &mut stats).is_ok());
    assert_eq!(stats.note_tracker.get_active_notes().len(), 2);

    // Pitch bend: lsb 0, msb 96 is 12288, that is 4096 above the centre.
    assert!(process_message(&[0xE0, 0, 96], 30, &mut stats).is_ok());
    assert_eq!(stats.note_tracker.get_active_notes()[&key_of(60, 0)].pitch_bend, 4096);
    assert_eq!(stats.note_tracker.get_active_notes()[&key_of(64, 0)].pitch_bend, 4096);
    assert!(process_message(&[0xE0, 0, 0], 31, &mut stats).is_ok());
    assert_eq!(stats.note_tracker.get_active_notes()[&key_of(60, 0)].pitch_bend, -8192);
    assert!(process_message(&[0xE0, 127, 127], 32, &mut stats).is_ok());
    assert_eq!(stats.note_tracker.get_active_notes()[&key_of(60, 0)].pitch_bend, 8191);
    assert!(process_message(&[0xE0, 0, 64], 33, &mut stats).is_ok());
    assert_eq!(stats.note_tracker.get_active_notes()[&key_of(60, 0)].pitch_bend, 0);

    // Brightness sets the timbre; modulation, expression and others do not.
    assert!(process_message(&[0xB0, 74, 100], 40, &mut stats).is_ok());
    assert_eq!(stats.note_tracker.get_active_notes()[&key_of(60, 0)].timbre, 200);
    assert_eq!(stats.note_tracker.get_active_notes()[&key_of(60, 0)].last_update, 40);
    assert!(process_message(&[0xB0, 1, 5], 41, &mut stats).is_ok());
    assert!(process_message(&[0xB0, 11, 5], 42, &mut stats).is_ok());
    assert!(process_message(&[0xB0, 7, 5], 43, &mut stats).is_ok());
    assert_eq!(stats.note_tracker.get_active_notes()[&key_of(60, 0)].timbre, 200);
    assert_eq!(stats.note_tracker.get_active_notes()[&key_of(60, 0)].last_update, 40);

    // Note-off, and note-on with velocity zero.
    assert!(process_message(&[0x80, 60, 0], 50, &mut stats).is_ok());
    assert!(process_message(&[0x90, 64, 0], 60, &mut stats).is_ok());
    assert!(stats.note_tracker.get_active_notes().is_empty());
    let stats = stats.get_expression_stats();
    assert_eq!(stats.note_count, 2);
    assert_eq!(stats.polyphony, 2);
    assert_eq!(stats.duration_total, 40 + 40);
}

#[test]
fn the_entry_point_refuses_messages_of_the_wrong_size() {
    let mut stats = RustMidiStats::new();
    assert!(!process_midi_message(&[], 0, &mut stats));
    let mut long = vec![0xF8u8; 1025];
    assert!(!process_midi_message(&long, 0, &mut stats));
    assert_eq!(stats.clock_count, 0);
    long.truncate(1024);
    assert!(process_midi_message(&long, 0, &mut stats));
    assert_eq!(stats.clock_count, 1);
    assert!(!process_midi_message(&[0x90, 60], 0, &mut stats));
    assert!(process_midi_message(&[0x90, 60, 1], 0, &mut stats));
}

#[test]
fn parameter_numbers_are_kept_for_each_channel_and_each_engine() {
    let mut one = RustMidiStats::new();
    let mut two = RustMidiStats::new();
    assert!(process_rpn_nrpn(0x65, 1, 3, 0, &mut one).is_ok());
    assert!(process_rpn_nrpn(0x64, 2, 3, 0, &mut one).is_ok());
    assert!(process_rpn_nrpn(0x63, 3, 15, 0, &mut one).is_ok());
    assert!(process_rpn_nrpn(0x62, 4, 0, 0, &mut one).is_ok());
    assert!(process_rpn_nrpn(0x07, 9, 5, 0, &mut one).is_ok());
    assert_eq!(one.parameters.rpn_msb[3], 1);
    assert_eq!(one.parameters.rpn_lsb[3], 2);
    assert_eq!(one.parameters.nrpn_msb[15], 3);
    assert_eq!(one.parameters.nrpn_lsb[0], 4);
    assert_eq!(one.parameters.rpn_msb[5], 0);
    assert_eq!(one.parameters.rpn_msb.iter().filter(|b| **b != 0).count(), 1);
    assert_eq!(two.parameters.rpn_msb, [0; 16]);
    assert!(process_rpn_nrpn(0x65, 7, 3, 0, &mut two).is_ok());
    assert_eq!(one.parameters.rpn_msb[3], 1);
    assert_eq!(two.parameters.rpn_msb[3], 7);
    assert_eq!(one.clock_count, 0);
}

#[test]
fn system_common_messages_are_checked_for_their_length() {
    assert_eq!(invalid_text(process_mtc_quarter_frame(&[0xF1], 0)), "MTC message too short");
    assert!(process_mtc_quarter_frame(&[0xF1, 0x23], 0).is_ok());
    assert_eq!(
        invalid_text(process_song_position(&[0xF2, 1], 0)),
        "Song position message too short"
    );
    assert!(process_song_position(&[0xF2, 1, 2], 0).is_ok());
    assert_eq!(invalid_text(process_song_select(&[0xF3], 0)), "Song select message too short");
    assert!(process_song_select(&[0xF3, 4], 0).is_ok());
    assert_eq!(invalid_text(process_song_select(&[], 0)), "Song select message too short");
}

#[test]
fn a_copy_of_an_engine_goes_its_own_way() {
    let mut stats = RustMidiStats::new();
    assert!(process_midi_message(&[0x90, 60, 100], 10, &mut stats));
    assert!(process_midi_message(&[0xF8], 11, &mut stats));
    assert!(process_sysex(&[0xF0, 0x7E, 0x7F, 0x06, 0x02, 0x05, 0xF7], 0, &mut stats).is_ok());
    assert!(stats.mpe_init.clone().process_message(0x7B, 1).is_ok());
    let mut copy = stats.clone();
    assert_eq!(copy.clock_count, 1);
    assert_eq!(copy.last_clock_time, 11);
    assert_eq!(copy.note_tracker.get_active_notes().len(), 1);
    assert!(copy.mpe_config.is_mpe_channel(6));
    assert!(!copy.mpe_init.is_initialized());
    assert!(process_midi_message(&[0x80, 60, 0], 20, &mut copy));
    copy.mpe_config.configure_zone(true, 1, 48);
    assert_eq!(copy.note_tracker.get_note_history().len(), 1);
    assert_eq!(stats.note_tracker.get_note_history().len(), 0);
    assert_eq!(stats.note_tracker.get_active_notes().len(), 1);
    assert!(stats.mpe_config.is_mpe_channel(6));
    assert!(!copy.mpe_config.is_mpe_channel(6));
}

#[test]
fn three_pulses_at_120_beats_per_minute_move_the_tempo_toward_120() {
    let mut stats = RustMidiStats::new();
    // 24 pulses in a quarter note at 120 beats per minute: 20.833 ms apart.
    assert!(process_message(&[0xF8], 20_833, &mut stats).is_ok());
    assert_eq!(stats.clock_count, 1);
    assert_eq!(stats.current_bpm, 0);
    assert_eq!(stats.average_bpm, 0);
    assert_eq!(stats.jitter, 0);

    assert!(process_message(&[0xF8], 41_666, &mut stats).is_ok());
    assert_eq!(stats.clock_count, 2);
    // The interval gives 60e12 / (24 * 20833) = 120_001_920 millionths.
    assert_eq!(stats.current_bpm, 12_000_192);
    assert_eq!(stats.average_bpm, 60_000_960);
    // The smoothed tempo expects 208_329 us; the distance is 187_496 us.
    assert_eq!(stats.jitter, 18_749);

    assert!(process_message(&[0xF8], 62_499, &mut stats).is_ok());
    assert_eq!(stats.clock_count, 3);
    assert_eq!(stats.current_bpm, 22_800_364);
    assert_eq!(stats.average_bpm, 80_001_280);
    assert_eq!(stats.jitter, 25_755);
    assert_eq!(stats.last_clock_time, 62_499);

    // One tenth of 120, then nine tenths of that and another tenth of 120.
    let bpm = stats.current_bpm as f64 / 1_000_000.0;
    assert!((bpm - 22.8).abs() < 0.001);
    assert!(bpm < 120.0);
}

#[test]
fn steady_pulses_bring_the_tempo_to_120_and_the_jitter_to_nothing() {
    let mut stats = RustMidiStats::new();
    let mut before = 0;
    for pulse in 1..=200u64 {
        assert!(process_message(&[0xF8], pulse * 20_833, &mut stats).is_ok());
        assert!(stats.current_bpm >= before);
        before = stats.current_bpm;
    }
    assert_eq!(stats.clock_count, 200);
    assert_eq!(stats.current_bpm, 120_001_911);
    assert_eq!(stats.average_bpm, 119_401_862);
    assert_eq!(stats.jitter, 0);
    assert!((stats.current_bpm as f64 / 1_000_000.0 - 120.0).abs() < 0.01);
}

#[test]
fn a_pulse_that_does_not_come_after_the_last_one_gives_no_estimate() {
    let mut stats = RustMidiStats::new();
    assert!(process_message(&[0xF8], 20_833, &mut stats).is_ok());
    assert!(process_message(&[0xF8], 41_666, &mut stats).is_ok());
    assert!(process_message(&[0xF8], 41_666, &mut stats).is_ok());
    assert!(process_message(&[0xF8], 30_000, &mut stats).is_ok());
    assert_eq!(stats.clock_count, 4);
    assert_eq!(stats.last_clock_time, 30_000);
    assert_eq!(stats.current_bpm, 12_000_192);
    assert_eq!(stats.average_bpm, 60_000_960);
    assert_eq!(stats.jitter, 18_749);
    // A pulse at time zero is a pulse to measure from like any other.
    assert!(process_message(&[0xF8], 0, &mut stats).is_ok());
    assert_eq!(stats.current_bpm, 12_000_192);
    assert!(process_message(&[0xF8], 20_833, &mut stats).is_ok());
    assert_eq!(stats.clock_count, 6);
    assert_eq!(stats.current_bpm, 22_800_364);
    assert_eq!(stats.average_bpm, 70_001_120);
    assert_eq!(stats.jitter, 25_755);
}

#[test]
fn a_first_pulse_at_time_zero_is_a_previous_pulse() {
    let mut stats = RustMidiStats::new();
    assert!(!stats.has_clock_time);
    assert!(process_message(&[0xF8], 0, &mut stats).is_ok());
    assert!(stats.has_clock_time);
    assert_eq!(stats.clock_count, 1);
    assert_eq!(stats.current_bpm, 0);
    assert!(process_message(&[0xF8], 20_833, &mut stats).is_ok());
    assert_eq!(stats.current_bpm, 12_000_192);
    assert_eq!(stats.average_bpm, 60_000_960);
    assert_eq!(stats.jitter, 18_749);
    assert!(process_message(&[0xF8], 41_666, &mut stats).is_ok());
    assert_eq!(stats.clock_count, 3);
    assert_eq!(stats.current_bpm, 22_800_364);
    assert_eq!(stats.average_bpm, 80_001_280);
    assert_eq!(stats.jitter, 25_755);
    assert!((stats.current_bpm as f64 / 1_000_000.0 - 22.80).abs() < 0.01);

    // So is a Start at time zero.
    let mut stats = RustMidiStats::new();
    assert!(process_message(&[0xFA], 0, &mut stats).is_ok());
    assert!(stats.has_clock_time);
    assert!(process_message(&[0xF8], 500_000, &mut stats).is_ok());
    assert_eq!(stats.clock_count, 1);
    assert_eq!(stats.current_bpm, 500_000);
    assert_eq!(stats.average_bpm, 5_000_000);
    assert_eq!(stats.jitter, 450_000);
}

#[test]
fn start_leaves_the_estimates_and_is_a_time_to_measure_from() {
    let mut stats = RustMidiStats::new();
    assert!(process_message(&[0xFA], 1_000_000, &mut stats).is_ok());
    assert!(process_message(&[0xF8], 1_500_000, &mut stats).is_ok());
    // Half a second between pulses is five beats per minute.
    assert_eq!(stats.clock_count, 1);
    assert_eq!(stats.current_bpm, 500_000);
    assert_eq!(stats.average_bpm, 5_000_000);
    assert_eq!(stats.jitter, 450_000);
    assert!(process_message(&[0xF8], 2_000_000, &mut stats).is_ok());
    assert_eq!(stats.current_bpm, 950_000);
    assert_eq!(stats.average_bpm, 5_000_000);
    assert_eq!(stats.jitter, 618_157);
    assert!(process_message(&[0xFA], 3_000_000, &mut stats).is_ok());
    assert_eq!(stats.clock_count, 0);
    assert_eq!(stats.last_clock_time, 3_000_000);
    assert_eq!(stats.current_bpm, 950_000);
    assert_eq!(stats.average_bpm, 5_000_000);
    assert_eq!(stats.jitter, 618_157);
}
