//! The message decoder: classifies a raw MIDI message by its status byte and
//! routes it to the clock estimator or the note tracker.
//!
//! Tempo is kept in millionths of a beat per minute and jitter in
//! microseconds; quotients are rounded down.

use vstd::prelude::*;
use crate::engine::{ParameterSelection, RustMidiStats, StatsView};
use crate::error::{
    fault, invalid, invalid_data, outcome, processing_error, ErrorView, MidiError,
};

verus! {

/// Status byte of a clock pulse.
pub const STATUS_CLOCK: u8 = 0xF8;

/// Status byte of a note-on.
pub const STATUS_NOTE_ON: u8 = 0x90;

/// Status byte of a note-off.
pub const STATUS_NOTE_OFF: u8 = 0x80;

/// Status byte of a control change.
pub const STATUS_CONTROL_CHANGE: u8 = 0xB0;

/// Status byte of a pitch bend.
pub const STATUS_PITCH_BEND: u8 = 0xE0;

/// Status byte of Start.
pub const STATUS_START: u8 = 0xFA;

/// Status byte of Stop.
pub const STATUS_STOP: u8 = 0xFC;

/// Controller number of the modulation wheel.
pub const CC_MODULATION: u8 = 1;

/// Controller number of expression.
pub const CC_EXPRESSION: u8 = 11;

/// Controller number of brightness, the timbre dimension of MPE.
pub const CC_BRIGHTNESS: u8 = 74;

/// Clock pulses in a quarter note.
pub const PULSES_PER_QUARTER: u128 = 24;

/// The tempo scale: a beat per minute is this many units of tempo.
pub const BPM_SCALE: u64 = 1_000_000;

/// The microseconds of a minute times the tempo scale: divided by the
/// microseconds of a quarter note it gives the tempo, and divided by a tempo
/// the microseconds of a quarter note.
pub const TEMPO_NUMERATOR: u128 = 60_000_000_000_000;

/// The tempo, in millionths of a beat per minute, at which clock pulses are
/// `interval` microseconds apart: sixty seconds over twenty-four intervals.
pub open spec fn tempo_of(interval: int) -> int {
    TEMPO_NUMERATOR as int / (PULSES_PER_QUARTER as int * interval)
}

/// The microseconds between two clock pulses at the tempo `tempo`, in
/// millionths of a beat per minute.
pub open spec fn interval_of(tempo: int) -> int {
    TEMPO_NUMERATOR as int / (PULSES_PER_QUARTER as int * tempo)
}

/// A new value weighed in with one tenth against nine tenths of the value
/// so far, rounded down.
pub open spec fn smoothed(so_far: int, new: int) -> int {
    (9 * so_far + new) / 10
}

/// The mean of `count` values of which the first `count - 1` have the mean
/// `so_far` and the last is `new`, rounded down.
pub open spec fn running_mean(so_far: int, new: int, count: int) -> int {
    (so_far * (count - 1) + new) / count
}

/// The distance between two numbers.
pub open spec fn distance(a: int, b: int) -> int {
    if a >= b {
        a - b
    } else {
        b - a
    }
}

/// Whether a pulse at `timestamp` gives an estimate: a pulse or a Start has
/// been seen before it, at whatever time, and the pulse comes after that.
pub open spec fn gives_estimate(s: StatsView, timestamp: u64) -> bool {
    s.has_clock_time && timestamp > s.last_clock_time
}

/// The engine state after a clock pulse that can be counted.
///
/// The pulse is counted and its time is kept. If it gives an estimate, the
/// tempo of its interval is weighed into the smoothed tempo and into the
/// running mean over the pulses counted; and unless the smoothed tempo is
/// zero, the distance of the interval from the interval of the smoothed
/// tempo is weighed into the jitter.
pub open spec fn clock_state(s: StatsView, timestamp: u64) -> StatsView {
    let count = s.clock_count + 1;
    if gives_estimate(s, timestamp) {
        let interval = timestamp - s.last_clock_time;
        let instant = tempo_of(interval);
        let current = smoothed(s.current_bpm as int, instant);
        StatsView {
            current_bpm: current as u64,
            average_bpm: running_mean(s.average_bpm as int, instant, count) as u64,
            jitter: if current > 0 {
                smoothed(s.jitter as int, distance(interval, interval_of(current))) as u64
            } else {
                s.jitter
            },
            clock_count: count as i32,
            has_clock_time: true,
            last_clock_time: timestamp,
            ..s
        }
    } else {
        StatsView {
            clock_count: count as i32,
            has_clock_time: true,
            last_clock_time: timestamp,
            ..s
        }
    }
}

/// The first byte of a message carries the channel in its low four bits.
pub open spec fn channel_of(status: u8) -> u8 {
    status & 0x0F
}

/// The pitch bend, in 8192ths, of the two data bytes of a pitch-bend
/// message: the fourteen-bit value with its centre at zero.
pub open spec fn bend_of(lsb: u8, msb: u8) -> i16 {
    ((((msb as u16) << 7) | (lsb as u16)) - 8192) as i16
}

/// The kinds of message that carry two data bytes.
pub open spec fn needs_two_data_bytes(status: u8) -> bool {
    status == STATUS_NOTE_ON || status == STATUS_NOTE_OFF || status == STATUS_CONTROL_CHANGE
        || status == STATUS_PITCH_BEND
}

/// The text of the error for a message that is too short for its kind.
pub open spec fn short_text(status: u8) -> Seq<char> {
    if status == STATUS_CONTROL_CHANGE {
        "Incomplete CC message"@
    } else if status == STATUS_PITCH_BEND {
        "Incomplete pitch bend message"@
    } else {
        "Incomplete note message"@
    }
}

/// What the decoder answers to `data` in the state `s`.
pub open spec fn decode_answer(s: StatsView, data: Seq<u8>, timestamp: u64) -> Result<
    (),
    ErrorView,
> {
    if data.len() == 0 {
        invalid("Empty MIDI message"@)
    } else if needs_two_data_bytes(data[0]) && data.len() < 3 {
        invalid(short_text(data[0]))
    } else if (data[0] == STATUS_NOTE_ON || data[0] == STATUS_NOTE_OFF) && (data[1] > 127
        || channel_of(data[0]) > 15) {
        invalid("Note or channel out of range"@)
    } else if data[0] == STATUS_CLOCK && s.clock_count == i32::MAX {
        fault("Clock count overflow"@)
    } else {
        Ok(())
    }
}

/// The engine state after the decoder has taken `data` in the state `s`. A
/// message that the decoder answers with an error changes nothing.
pub open spec fn decode_state(s: StatsView, data: Seq<u8>, timestamp: u64) -> StatsView {
    if decode_answer(s, data, timestamp) is Err {
        s
    } else if data[0] == STATUS_CLOCK {
        clock_state(s, timestamp)
    } else if data[0] == STATUS_START {
        StatsView { clock_count: 0, has_clock_time: true, last_clock_time: timestamp, ..s }
    } else if data[0] == STATUS_NOTE_ON {
        StatsView {
            note_tracker: if data[2] > 0 {
                s.note_tracker.note_on(data[1], channel_of(data[0]), data[2], timestamp)
            } else {
                s.note_tracker.note_off(data[1], channel_of(data[0]), timestamp)
            },
            ..s
        }
    } else if data[0] == STATUS_NOTE_OFF {
        StatsView {
            note_tracker: s.note_tracker.note_off(data[1], channel_of(data[0]), timestamp),
            ..s
        }
    } else if data[0] == STATUS_CONTROL_CHANGE && data[1] == CC_BRIGHTNESS {
        StatsView {
            note_tracker: s.note_tracker.timbre(
                channel_of(data[0]),
                (2 * data[2]) as u16,
                timestamp,
            ),
            ..s
        }
    } else if data[0] == STATUS_PITCH_BEND {
        StatsView {
            note_tracker: s.note_tracker.pitch_bend(
                channel_of(data[0]),
                bend_of(data[1], data[2]),
                timestamp,
            ),
            ..s
        }
    } else {
        s
    }
}

/// Decodes one message and updates the engine.
///
/// An empty message, a message too short for its kind, and a note message
/// with a note above 127 are invalid data. A clock pulse that the counter
/// cannot count is a processing error. Status bytes that the decoder does
/// not know are accepted and ignored. A message that is answered with an
/// error changes nothing.
pub fn process_message(data: &[u8], timestamp: u64, stats: &mut RustMidiStats) -> (result: Result<
    (),
    MidiError,
>)
    requires
        old(stats).wf(),
    ensures
        final(stats).wf(),
        final(stats)@ == decode_state(old(stats)@, data@, timestamp),
        outcome(result) == decode_answer(old(stats)@, data@, timestamp),
{
    if data.len() == 0 {
        return Err(invalid_data("Empty MIDI message"));
    }
    let status = data[0];
    if status == STATUS_CLOCK {
        process_timing_clock(timestamp, stats)
    } else if status == STATUS_NOTE_ON {
        match parse_note_data(data) {
            Ok((note, velocity)) => process_note_on(note, velocity, status & 0x0F, timestamp, stats),
            Err(e) => Err(e),
        }
    } else if status == STATUS_NOTE_OFF {
        match parse_note_data(data) {
            Ok((note, velocity)) => process_note_off(
                note,
                velocity,
                status & 0x0F,
                timestamp,
                stats,
            ),
            Err(e) => Err(e),
        }
    } else if status == STATUS_CONTROL_CHANGE {
        match parse_cc_data(data) {
            Ok((controller, value)) => process_cc(
                controller,
                value,
                status & 0x0F,
                timestamp,
                stats,
            ),
            Err(e) => Err(e),
        }
    } else if status == STATUS_PITCH_BEND {
        match parse_pitch_bend_data(data) {
            Ok((lsb, msb)) => process_pitch_bend(lsb, msb, status & 0x0F, timestamp, stats),
            Err(e) => Err(e),
        }
    } else if status == STATUS_START {
        process_start(timestamp, stats)
    } else if status == STATUS_STOP {
        process_stop(timestamp, stats)
    } else {
        Ok(())
    }
}

/// What a parser of two data bytes answers: the bytes, or invalid data with
/// `text` for a message of fewer than three bytes.
pub open spec fn two_data_bytes(
    result: Result<(u8, u8), MidiError>,
    data: Seq<u8>,
    text: Seq<char>,
) -> bool {
    if data.len() < 3 {
        result matches Err(e) && e@ == ErrorView::InvalidData(text)
    } else {
        result == Ok::<(u8, u8), MidiError>((data[1], data[2]))
    }
}

/// The note number and the velocity of a note message.
pub fn parse_note_data(data: &[u8]) -> (result: Result<(u8, u8), MidiError>)
    ensures
        two_data_bytes(result, data@, "Incomplete note message"@),
{
    if data.len() < 3 {
        return Err(invalid_data("Incomplete note message"));
    }
    Ok((data[1], data[2]))
}

/// The controller number and the value of a control change.
pub fn parse_cc_data(data: &[u8]) -> (result: Result<(u8, u8), MidiError>)
    ensures
        two_data_bytes(result, data@, "Incomplete CC message"@),
{
    if data.len() < 3 {
        return Err(invalid_data("Incomplete CC message"));
    }
    Ok((data[1], data[2]))
}

/// The low and the high data byte of a pitch bend.
pub fn parse_pitch_bend_data(data: &[u8]) -> (result: Result<(u8, u8), MidiError>)
    ensures
        two_data_bytes(result, data@, "Incomplete pitch bend message"@),
{
    if data.len() < 3 {
        return Err(invalid_data("Incomplete pitch bend message"));
    }
    Ok((data[1], data[2]))
}

/// The tracker after a note-on message: a note-on for a velocity above
/// zero, a note-off for the velocity zero.
pub open spec fn note_on_state(s: StatsView, note: u8, velocity: u8, channel: u8, timestamp: u64)
    -> StatsView {
    if note > 127 || channel > 15 {
        s
    } else {
        StatsView {
            note_tracker: if velocity > 0 {
                s.note_tracker.note_on(note, channel, velocity, timestamp)
            } else {
                s.note_tracker.note_off(note, channel, timestamp)
            },
            ..s
        }
    }
}

/// What a note handler answers.
pub open spec fn note_answer(note: u8, channel: u8) -> Result<(), ErrorView> {
    if note > 127 || channel > 15 {
        invalid("Note or channel out of range"@)
    } else {
        Ok(())
    }
}

/// Handles a note-on. A note or channel out of range is invalid data; the
/// velocity zero ends the note.
pub fn process_note_on(
    note: u8,
    velocity: u8,
    channel: u8,
    timestamp: u64,
    stats: &mut RustMidiStats,
) -> (result: Result<(), MidiError>)
    requires
        old(stats).wf(),
    ensures
        final(stats).wf(),
        final(stats)@ == note_on_state(old(stats)@, note, velocity, channel, timestamp),
        outcome(result) == note_answer(note, channel),
{
    if note > 127 || channel > 15 {
        return Err(invalid_data("Note or channel out of range"));
    }
    if velocity > 0 {
        stats.note_tracker.note_on(note, channel, velocity, timestamp);
    } else {
        stats.note_tracker.note_off(note, channel, timestamp);
    }
    Ok(())
}

/// Handles a note-off. A note or channel out of range is invalid data; the
/// release velocity is not used.
pub fn process_note_off(
    note: u8,
    _velocity: u8,
    channel: u8,
    timestamp: u64,
    stats: &mut RustMidiStats,
) -> (result: Result<(), MidiError>)
    requires
        old(stats).wf(),
    ensures
        final(stats).wf(),
        final(stats)@ == (if note > 127 || channel > 15 {
            old(stats)@
        } else {
            StatsView {
                note_tracker: old(stats)@.note_tracker.note_off(note, channel, timestamp),
                ..old(stats)@
            }
        }),
        outcome(result) == note_answer(note, channel),
{
    if note > 127 || channel > 15 {
        return Err(invalid_data("Note or channel out of range"));
    }
    stats.note_tracker.note_off(note, channel, timestamp);
    Ok(())
}

/// Handles a control change. Brightness sets the timbre of the notes on the
/// channel; modulation, expression and every other controller are accepted
/// and change nothing.
pub fn process_cc(
    controller: u8,
    value: u8,
    channel: u8,
    timestamp: u64,
    stats: &mut RustMidiStats,
) -> (result: Result<(), MidiError>)
    requires
        old(stats).wf(),
    ensures
        final(stats).wf(),
        final(stats)@ == (if controller == CC_BRIGHTNESS {
            StatsView {
                note_tracker: old(stats)@.note_tracker.timbre(
                    channel,
                    (2 * value) as u16,
                    timestamp,
                ),
                ..old(stats)@
            }
        } else {
            old(stats)@
        }),
        result is Ok,
{
    if controller == CC_MODULATION {
        process_modulation_wheel(value, channel, timestamp, stats)
    } else if controller == CC_BRIGHTNESS {
        process_mpe_brightness(value, channel, timestamp, stats)
    } else if controller == CC_EXPRESSION {
        process_mpe_expression(value, channel, timestamp, stats)
    } else {
        Ok(())
    }
}

/// The mean of parts that are each at most `cap` is at most `cap`.
proof fn lemma_running_mean_bound(so_far: int, new: int, count: int, cap: int)
    requires
        0 <= so_far <= cap,
        0 <= new <= cap,
        count >= 1,
    ensures
        0 <= running_mean(so_far, new, count) <= cap,
{
    let sum = so_far * (count - 1) + new;
    assert(0 <= sum <= cap * count) by (nonlinear_arith)
        requires
            0 <= so_far <= cap,
            0 <= new <= cap,
            count >= 1,
            sum == so_far * (count - 1) + new,
    ;
    vstd::arithmetic::div_mod::lemma_div_is_ordered(sum, cap * count, count);
    vstd::arithmetic::div_mod::lemma_div_multiples_vanish(cap, count);
    vstd::arithmetic::div_mod::lemma_div_pos_is_pos(sum, count);
    assert(cap * count == count * cap) by (nonlinear_arith);
}

/// A tempo is never above the tempo numerator, and neither is the interval
/// of a tempo.
proof fn lemma_quotient_bound(divisor: int)
    requires
        divisor >= 1,
    ensures
        0 <= TEMPO_NUMERATOR as int / (PULSES_PER_QUARTER as int * divisor) <= TEMPO_NUMERATOR,
{
    let d = PULSES_PER_QUARTER as int * divisor;
    vstd::arithmetic::div_mod::lemma_div_pos_is_pos(TEMPO_NUMERATOR as int, d);
    vstd::arithmetic::div_mod::lemma_div_is_ordered_by_denominator(TEMPO_NUMERATOR as int, 1, d);
}

/// Counts a clock pulse, keeps its time, and weighs the tempo of its
/// interval into the estimates. A pulse that would take the counter past its
/// largest value is a processing error and changes nothing.
pub fn process_timing_clock(timestamp: u64, stats: &mut RustMidiStats) -> (result: Result<
    (),
    MidiError,
>)
    requires
        old(stats).wf(),
    ensures
        final(stats).wf(),
        final(stats)@ == (if old(stats)@.clock_count == i32::MAX {
            old(stats)@
        } else {
            clock_state(old(stats)@, timestamp)
        }),
        outcome(result) == (if old(stats)@.clock_count == i32::MAX {
            fault("Clock count overflow"@)
        } else {
            Ok(())
        }),
{
    if stats.clock_count == i32::MAX {
        return Err(processing_error("Clock count overflow"));
    }
    let count = stats.clock_count + 1;
    if stats.has_clock_time && timestamp > stats.last_clock_time {
        let interval = timestamp - stats.last_clock_time;
        proof {
            lemma_quotient_bound(interval as int);
        }
        let instant = TEMPO_NUMERATOR / (PULSES_PER_QUARTER * interval as u128);
        let current = (9 * stats.current_bpm as u128 + instant) / 10;
        proof {
            lemma_running_mean_bound(
                stats.average_bpm as int,
                instant as int,
                count as int,
                u64::MAX as int,
            );
            let so_far = stats.average_bpm as int;
            let before = count as int - 1;
            assert(0 <= so_far * before <= 0xFFFF_FFFF_FFFF_FFFF * 0x7FFF_FFFF) by (nonlinear_arith)
                requires
                    0 <= so_far <= 0xFFFF_FFFF_FFFF_FFFF,
                    0 <= before <= 0x7FFF_FFFF,
            ;
        }
        let average = (stats.average_bpm as u128 * (count - 1) as u128 + instant) / count as u128;
        if current > 0 {
            proof {
                lemma_quotient_bound(current as int);
            }
            let expected = TEMPO_NUMERATOR / (PULSES_PER_QUARTER * current);
            let deviation = if interval as u128 >= expected {
                interval as u128 - expected
            } else {
                expected - interval as u128
            };
            stats.jitter = ((9 * stats.jitter as u128 + deviation) / 10) as u64;
        }
        stats.current_bpm = current as u64;
        stats.average_bpm = average as u64;
    }
    stats.clock_count = count;
    stats.has_clock_time = true;
    stats.last_clock_time = timestamp;
    Ok(())
}

/// Handles the brightness controller: the timbre of every active note on
/// the channel becomes the level of `value`.
pub fn process_mpe_brightness(value: u8, channel: u8, timestamp: u64, stats: &mut RustMidiStats)
    -> (result: Result<(), MidiError>)
    requires
        old(stats).wf(),
    ensures
        final(stats).wf(),
        final(stats)@ == (StatsView {
            note_tracker: old(stats)@.note_tracker.timbre(channel, (2 * value) as u16, timestamp),
            ..old(stats)@
        }),
        result is Ok,
{
    stats.note_tracker.update_timbre(channel, 2 * value as u16, timestamp);
    Ok(())
}

/// Handles the expression controller: accepted, nothing changes.
pub fn process_mpe_expression(_value: u8, _channel: u8, _timestamp: u64, stats: &mut RustMidiStats)
    -> (result: Result<(), MidiError>)
    ensures
        *final(stats) == *old(stats),
        result is Ok,
{
    Ok(())
}

/// Handles the modulation wheel: accepted, nothing changes.
pub fn process_modulation_wheel(
    _value: u8,
    _channel: u8,
    _timestamp: u64,
    stats: &mut RustMidiStats,
) -> (result: Result<(), MidiError>)
    ensures
        *final(stats) == *old(stats),
        result is Ok,
{
    Ok(())
}

/// Handles a pitch bend: every active note on the channel gets the bend of
/// the two data bytes.
pub fn process_pitch_bend(lsb: u8, msb: u8, channel: u8, timestamp: u64, stats: &mut RustMidiStats)
    -> (result: Result<(), MidiError>)
    requires
        old(stats).wf(),
    ensures
        final(stats).wf(),
        final(stats)@ == (StatsView {
            note_tracker: old(stats)@.note_tracker.pitch_bend(
                channel,
                bend_of(lsb, msb),
                timestamp,
            ),
            ..old(stats)@
        }),
        result is Ok,
{
    let high = msb as u16;
    let low = lsb as u16;
    assert(((high << 7) | low) <= 0x7FFF) by (bit_vector)
        requires
            high <= 255,
            low <= 255,
    ;
    let combined: u16 = (high << 7) | low;
    let value: i16 = (combined as i32 - 8192) as i16;
    stats.note_tracker.update_pitch_bend(channel, value, timestamp);
    Ok(())
}

/// Handles Start: the pulse counter goes back to zero and the time to
/// measure the next pulse from becomes that of the message, whatever it is.
pub fn process_start(timestamp: u64, stats: &mut RustMidiStats) -> (result: Result<(), MidiError>)
    ensures
        *final(stats) == (RustMidiStats {
            clock_count: 0,
            has_clock_time: true,
            last_clock_time: timestamp,
            ..*old(stats)
        }),
        result is Ok,
{
    stats.clock_count = 0;
    stats.has_clock_time = true;
    stats.last_clock_time = timestamp;
    Ok(())
}

/// Handles Stop: accepted, nothing changes.
pub fn process_stop(_timestamp: u64, stats: &mut RustMidiStats) -> (result: Result<(), MidiError>)
    ensures
        *final(stats) == *old(stats),
        result is Ok,
{
    Ok(())
}

/// A single clock byte is counted exactly once and is no error, whatever the
/// engine has seen, unless the counter stands at its largest value.
pub proof fn lemma_clock_byte_counts_once(s: StatsView, timestamp: u64)
    requires
        s.clock_count < i32::MAX,
    ensures
        decode_answer(s, seq![STATUS_CLOCK], timestamp) is Ok,
        decode_state(s, seq![STATUS_CLOCK], timestamp).clock_count == s.clock_count + 1,
        decode_state(s, seq![STATUS_CLOCK], timestamp) == clock_state(s, timestamp),
        decode_state(s, seq![STATUS_CLOCK], timestamp).last_clock_time == timestamp,
        decode_state(s, seq![STATUS_CLOCK], timestamp).note_tracker == s.note_tracker,
        decode_state(s, seq![STATUS_CLOCK], timestamp).mpe_config == s.mpe_config,
        decode_state(s, seq![STATUS_CLOCK], timestamp).mpe_init == s.mpe_init,
{
}

/// A status byte that the decoder does not know is accepted and changes
/// nothing, whatever follows it.
pub proof fn lemma_unknown_status_is_ignored(s: StatsView, data: Seq<u8>, timestamp: u64)
    requires
        data.len() > 0,
        data[0] != STATUS_CLOCK,
        data[0] != STATUS_START,
        !needs_two_data_bytes(data[0]),
    ensures
        decode_answer(s, data, timestamp) is Ok,
        decode_state(s, data, timestamp) == s,
{
}

/// Controller number of the low byte of a non-registered parameter number.
pub const CC_NRPN_LSB: u8 = 0x62;

/// Controller number of the high byte of a non-registered parameter number.
pub const CC_NRPN_MSB: u8 = 0x63;

/// Controller number of the low byte of a registered parameter number.
pub const CC_RPN_LSB: u8 = 0x64;

/// Controller number of the high byte of a registered parameter number.
pub const CC_RPN_MSB: u8 = 0x65;

/// The selection after a parameter-number controller on `channel`: the byte
/// that the controller names takes `value`; other controllers change
/// nothing.
pub open spec fn selected(p: ParameterSelection, controller: u8, value: u8, channel: u8)
    -> ParameterSelection {
    let at = channel as int;
    if controller == CC_NRPN_LSB {
        ParameterSelection { nrpn_lsb: vstd::array::spec_array_update(p.nrpn_lsb, at, value), ..p }
    } else if controller == CC_NRPN_MSB {
        ParameterSelection { nrpn_msb: vstd::array::spec_array_update(p.nrpn_msb, at, value), ..p }
    } else if controller == CC_RPN_LSB {
        ParameterSelection { rpn_lsb: vstd::array::spec_array_update(p.rpn_lsb, at, value), ..p }
    } else if controller == CC_RPN_MSB {
        ParameterSelection { rpn_msb: vstd::array::spec_array_update(p.rpn_msb, at, value), ..p }
    } else {
        p
    }
}

/// Handles the controllers that select a registered or non-registered
/// parameter. The selection belongs to the engine that is handed in.
pub fn process_rpn_nrpn(
    controller: u8,
    value: u8,
    channel: u8,
    _timestamp: u64,
    stats: &mut RustMidiStats,
) -> (result: Result<(), MidiError>)
    requires
        channel <= 15,
    ensures
        *final(stats) == (RustMidiStats {
            parameters: selected(old(stats).parameters, controller, value, channel),
            ..*old(stats)
        }),
        result is Ok,
{
    let at = channel as usize;
    if controller == CC_NRPN_LSB {
        stats.parameters.nrpn_lsb[at] = value;
    } else if controller == CC_NRPN_MSB {
        stats.parameters.nrpn_msb[at] = value;
    } else if controller == CC_RPN_LSB {
        stats.parameters.rpn_lsb[at] = value;
    } else if controller == CC_RPN_MSB {
        stats.parameters.rpn_msb[at] = value;
    }
    Ok(())
}

/// What a handler answers that only needs `least` bytes: success, or
/// invalid data with `text`.
pub open spec fn long_enough(data: Seq<u8>, least: nat, text: Seq<char>) -> Result<(), ErrorView> {
    if data.len() < least {
        invalid(text)
    } else {
        Ok(())
    }
}

/// Handles a time code quarter frame: status byte and one data byte.
pub fn process_mtc_quarter_frame(data: &[u8], _timestamp: u64) -> (result: Result<(), MidiError>)
    ensures
        outcome(result) == long_enough(data@, 2, "MTC message too short"@),
{
    if data.len() < 2 {
        return Err(invalid_data("MTC message too short"));
    }
    Ok(())
}

/// Handles a song position pointer: status byte and two data bytes.
pub fn process_song_position(data: &[u8], _timestamp: u64) -> (result: Result<(), MidiError>)
    ensures
        outcome(result) == long_enough(data@, 3, "Song position message too short"@),
{
    if data.len() < 3 {
        return Err(invalid_data("Song position message too short"));
    }
    Ok(())
}

/// Handles a song select: status byte and one data byte.
pub fn process_song_select(data: &[u8], _timestamp: u64) -> (result: Result<(), MidiError>)
    ensures
        outcome(result) == long_enough(data@, 2, "Song select message too short"@),
{
    if data.len() < 2 {
        return Err(invalid_data("Song select message too short"));
    }
    Ok(())
}

/// Smoothing moves the value toward what is weighed in and never past it.
pub proof fn lemma_smoothing_moves_toward(so_far: int, new: int)
    requires
        0 <= so_far,
        0 <= new,
    ensures
        so_far <= new ==> so_far <= smoothed(so_far, new) <= new,
        so_far >= new ==> new <= smoothed(so_far, new) <= so_far,
        smoothed(new, new) == new,
{
}

/// The running mean lies between the mean so far and the value that joins.
pub proof fn lemma_running_mean_between(so_far: int, new: int, count: int)
    requires
        0 <= so_far,
        0 <= new,
        count >= 1,
    ensures
        so_far <= new ==> so_far <= running_mean(so_far, new, count) <= new,
        so_far >= new ==> new <= running_mean(so_far, new, count) <= so_far,
{
    let sum = so_far * (count - 1) + new;
    if so_far <= new {
        assert(so_far * count <= sum <= new * count) by (nonlinear_arith)
            requires
                0 <= so_far <= new,
                count >= 1,
                sum == so_far * (count - 1) + new,
        ;
        vstd::arithmetic::div_mod::lemma_div_is_ordered(so_far * count, sum, count);
        vstd::arithmetic::div_mod::lemma_div_is_ordered(sum, new * count, count);
    } else {
        assert(new * count <= sum <= so_far * count) by (nonlinear_arith)
            requires
                0 <= new <= so_far,
                count >= 1,
                sum == so_far * (count - 1) + new,
        ;
        vstd::arithmetic::div_mod::lemma_div_is_ordered(new * count, sum, count);
        vstd::arithmetic::div_mod::lemma_div_is_ordered(sum, so_far * count, count);
    }
    vstd::arithmetic::div_mod::lemma_div_multiples_vanish(so_far, count);
    vstd::arithmetic::div_mod::lemma_div_multiples_vanish(new, count);
    assert(so_far * count == count * so_far) by (nonlinear_arith);
    assert(new * count == count * new) by (nonlinear_arith);
}

/// Start sets the pulse counter to zero and the time to measure from, and
/// leaves the estimates and everything else.
pub proof fn lemma_start_resets_the_counter(s: StatsView, timestamp: u64)
    ensures
        decode_answer(s, seq![STATUS_START], timestamp) is Ok,
        decode_state(s, seq![STATUS_START], timestamp) == (StatsView {
            clock_count: 0,
            has_clock_time: true,
            last_clock_time: timestamp,
            ..s
        }),
{
}

/// Every pulse and every Start is a time to measure from, whatever its
/// timestamp: a pulse that comes after it gives an estimate.
pub proof fn lemma_every_pulse_is_measured_from(s: StatsView, first: u64, second: u64)
    requires
        first < second,
    ensures
        gives_estimate(clock_state(s, first), second),
        gives_estimate(decode_state(s, seq![STATUS_START], first), second),
        clock_state(s, first).last_clock_time == first,
{
}

} // verus!
