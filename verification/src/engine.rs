//! The state of one engine instance and its entry point.

use vstd::prelude::*;
use crate::midi_processor::{decode_answer, decode_state, process_message};
use crate::mpe::{ConfigView, MpeConfiguration};
use crate::note_tracker::{ExpressionStats, NoteTracker, TrackerView};
use crate::sysex::{InitView, MpeInitState, MpeInitTracker, MPE_INIT_TIMEOUT};

verus! {

/// The longest message that the engine takes, in bytes.
pub const MAX_MIDI_MESSAGE_SIZE: usize = 1024;

/// The shortest message that the engine takes, in bytes.
pub const MIN_MIDI_MESSAGE_SIZE: usize = 1;

/// Everything that one engine instance knows.
#[derive(Debug)]
pub struct RustMidiStats {
    /// Smoothed tempo, in millionths of a beat per minute.
    pub current_bpm: u64,
    /// Running mean of the tempo, in millionths of a beat per minute.
    pub average_bpm: u64,
    /// Smoothed deviation of the pulse interval from the interval that the
    /// smoothed tempo expects, in microseconds.
    pub jitter: u64,
    /// Clock pulses since the last Start message.
    pub clock_count: i32,
    /// Whether a clock pulse or a Start message has been seen, so that
    /// `last_clock_time` is the time of one.
    pub has_clock_time: bool,
    /// Timestamp of the last clock pulse or Start message, in microseconds;
    /// zero before the first.
    pub last_clock_time: u64,
    pub mpe_config: MpeConfiguration,
    pub note_tracker: NoteTracker,
    pub mpe_init: MpeInitTracker,
    /// The registered and non-registered parameter that each channel has
    /// selected.
    pub parameters: ParameterSelection,
}

/// The parameter numbers that the channels have selected, high and low
/// byte, for registered and non-registered parameters. Each engine keeps
/// its own.
#[derive(Debug, Clone, Copy)]
pub struct ParameterSelection {
    pub rpn_msb: [u8; 16],
    pub rpn_lsb: [u8; 16],
    pub nrpn_msb: [u8; 16],
    pub nrpn_lsb: [u8; 16],
}

/// What an engine instance knows, apart from how it is stored.
pub struct StatsView {
    pub current_bpm: u64,
    pub average_bpm: u64,
    pub jitter: u64,
    pub clock_count: i32,
    pub has_clock_time: bool,
    pub last_clock_time: u64,
    pub mpe_config: ConfigView,
    pub note_tracker: TrackerView,
    pub mpe_init: InitView,
    pub parameters: ParameterSelection,
}

impl View for RustMidiStats {
    type V = StatsView;

    open spec fn view(&self) -> StatsView {
        StatsView {
            current_bpm: self.current_bpm,
            average_bpm: self.average_bpm,
            jitter: self.jitter,
            clock_count: self.clock_count,
            has_clock_time: self.has_clock_time,
            last_clock_time: self.last_clock_time,
            mpe_config: self.mpe_config@,
            note_tracker: self.note_tracker@,
            mpe_init: self.mpe_init@,
            parameters: self.parameters,
        }
    }
}

impl Clone for RustMidiStats {
    fn clone(&self) -> (copy: Self)
        ensures
            copy@ == self@,
            copy.wf() == self.wf(),
    {
        RustMidiStats {
            current_bpm: self.current_bpm,
            average_bpm: self.average_bpm,
            jitter: self.jitter,
            clock_count: self.clock_count,
            has_clock_time: self.has_clock_time,
            last_clock_time: self.last_clock_time,
            mpe_config: self.mpe_config.clone(),
            note_tracker: self.note_tracker.clone(),
            mpe_init: self.mpe_init,
            parameters: self.parameters,
        }
    }
}

impl RustMidiStats {
    /// The invariant of the engine: the pulse counter is not negative, and
    /// the note tracker is well formed.
    pub open spec fn wf(&self) -> bool {
        self.clock_count >= 0 && self.note_tracker.wf()
    }

    /// An engine that has seen no message.
    pub fn new() -> (stats: Self)
        ensures
            stats.wf(),
            stats@.current_bpm == 0,
            stats@.average_bpm == 0,
            stats@.jitter == 0,
            stats@.clock_count == 0,
            !stats@.has_clock_time,
            stats@.last_clock_time == 0,
            stats@.mpe_config == (ConfigView { lower_zone: None, upper_zone: None }),
            stats@.note_tracker.active == Map::<u16, crate::note_tracker::NoteExpression>::empty(),
            stats@.note_tracker.history == Seq::<crate::note_tracker::NoteExpression>::empty(),
            stats@.mpe_init == (InitView {
                state: MpeInitState::NotInitialized,
                last_message_time: 0,
                timeout: MPE_INIT_TIMEOUT,
            }),
            forall|channel: int|
                0 <= channel < 16 ==> stats@.parameters.rpn_msb@[channel] == 0
                    && stats@.parameters.rpn_lsb@[channel] == 0
                    && stats@.parameters.nrpn_msb@[channel] == 0
                    && stats@.parameters.nrpn_lsb@[channel] == 0,
    {
        RustMidiStats {
            current_bpm: 0,
            average_bpm: 0,
            jitter: 0,
            clock_count: 0,
            has_clock_time: false,
            last_clock_time: 0,
            mpe_config: MpeConfiguration::new(),
            note_tracker: NoteTracker::new(),
            mpe_init: MpeInitTracker::new(),
            parameters: ParameterSelection {
                rpn_msb: [0; 16],
                rpn_lsb: [0; 16],
                nrpn_msb: [0; 16],
                nrpn_lsb: [0; 16],
            },
        }
    }

    /// The statistics of the note tracker.
    pub fn get_expression_stats(&self) -> (stats: ExpressionStats)
        ensures
            stats.describes(self@.note_tracker),
    {
        self.note_tracker.get_stats()
    }
}

/// Whether the engine takes a message of `len` bytes at all.
pub open spec fn admissible(len: nat) -> bool {
    MIN_MIDI_MESSAGE_SIZE <= len <= MAX_MIDI_MESSAGE_SIZE
}

/// Hands one message to the engine and says whether it was handled.
///
/// A message that is empty or longer than `MAX_MIDI_MESSAGE_SIZE` is refused
/// and changes nothing; any other message is decoded, and the answer is
/// whether decoding succeeded.
pub fn process_midi_message(data: &[u8], timestamp: u64, stats: &mut RustMidiStats) -> (ok: bool)
    requires
        old(stats).wf(),
    ensures
        final(stats).wf(),
        ok == (admissible(data@.len()) && decode_answer(old(stats)@, data@, timestamp) is Ok),
        final(stats)@ == (if admissible(data@.len()) {
            decode_state(old(stats)@, data@, timestamp)
        } else {
            old(stats)@
        }),
{
    if data.len() < MIN_MIDI_MESSAGE_SIZE {
        return false;
    }
    if data.len() > MAX_MIDI_MESSAGE_SIZE {
        return false;
    }
    match process_message(data, timestamp, stats) {
        Ok(_) => true,
        Err(_) => false,
    }
}

} // verus!
