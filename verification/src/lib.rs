//! A real-time MIDI telemetry engine: a framed ring transport for raw
//! events, and a protocol engine that tracks notes, expression, MPE zones,
//! the MPE initialisation handshake and clock pulses.
//!
//! All quantities are integers. Timestamps are microseconds.

use vstd::prelude::*;

pub mod error;
pub mod ring;
pub mod shared_buffer;
pub mod ring_laws;
pub mod note_tracker;
pub mod tracker_laws;
pub mod mpe;
pub mod sysex;
pub mod midi_processor;
pub mod engine;
pub mod ml;
pub mod observer;

pub use crate::engine::{
    process_midi_message, RustMidiStats, MAX_MIDI_MESSAGE_SIZE, MIN_MIDI_MESSAGE_SIZE,
};
pub use crate::error::MidiError;
pub use crate::mpe::{MpeConfiguration, MpeZone};
pub use crate::note_tracker::{ExpressionStats, NoteExpression, NoteTracker};
pub use crate::shared_buffer::{MidiEvent, SharedMidiBuffer};
pub use crate::sysex::{process_sysex, MpeInitState, MpeInitTracker};

verus! {

/// Adds two counters.
pub fn add(left: u64, right: u64) -> (sum: u64)
    requires
        left + right <= u64::MAX,
    ensures
        sum == left + right,
{
    left + right
}

} // verus!
