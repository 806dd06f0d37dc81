//! System exclusive messages: the MPE configuration messages that set up
//! zones, and the state machine of the MPE initialisation handshake.

use vstd::prelude::*;
use vstd::slice::slice_subrange;
use crate::engine::{RustMidiStats, StatsView};
use crate::error::{
    fault, invalid, invalid_data, late, outcome, processing_error, timing_error, ErrorView,
    MidiError,
};

verus! {

/// Second byte of a universal non-real-time system exclusive message.
pub const MCM_UNIVERSAL_SYSEX: u8 = 0x7E;

/// Device id that addresses every device.
pub const MCM_ALL_CHANNELS: u8 = 0x7F;

/// Sub-id of the MPE configuration messages.
pub const MCM_SUB_ID: u8 = 0x06;

/// Command that sets a zone.
pub const MCM_SET_ZONE: u8 = 0x02;

/// Command that sets a bend range.
pub const MCM_SET_BEND_RANGE: u8 = 0x03;

/// Controller message that silences every note; the first step of the
/// handshake.
pub const ALL_NOTES_OFF: u8 = 0x7B;

/// Controller message that resets the controllers; the second step of the
/// handshake.
pub const RESET_ALL_CONTROLLERS: u8 = 0x79;

/// The time after which a handshake that has stalled is given up, in
/// microseconds.
pub const MPE_INIT_TIMEOUT: u64 = 1_000_000;

/// The bend range, in semitones, that a zone gets when a message configures
/// it.
pub const CONFIGURED_BEND_RANGE: u16 = 48;

/// How far the MPE initialisation handshake has come.
#[derive(Debug, Clone, Copy, PartialEq, Eq, Structural)]
pub enum MpeInitState {
    NotInitialized,
    AllNotesOff,
    ControllersReset,
    ZoneConfigured,
    BendRangeSet,
    Ready,
}

/// The state that `message_type` leads to from `state`, if it is the message
/// that the handshake expects next.
pub open spec fn next_state(state: MpeInitState, message_type: u8) -> Option<MpeInitState> {
    match state {
        MpeInitState::NotInitialized => if message_type == ALL_NOTES_OFF {
            Some(MpeInitState::AllNotesOff)
        } else {
            None
        },
        MpeInitState::AllNotesOff => if message_type == RESET_ALL_CONTROLLERS {
            Some(MpeInitState::ControllersReset)
        } else {
            None
        },
        MpeInitState::ControllersReset => if message_type == MCM_SET_ZONE {
            Some(MpeInitState::ZoneConfigured)
        } else {
            None
        },
        MpeInitState::ZoneConfigured => if message_type == MCM_SET_BEND_RANGE {
            Some(MpeInitState::Ready)
        } else {
            None
        },
        MpeInitState::BendRangeSet => None,
        MpeInitState::Ready => None,
    }
}

/// The text of the error for a handshake that has stalled.
pub open spec fn timeout_text() -> Seq<char> {
    "MPE initialization timeout"@
}

/// The text of the error for a message out of turn.
pub open spec fn unexpected_text() -> Seq<char> {
    "Unexpected MPE initialization message"@
}

/// What the handshake tracker knows.
pub struct InitView {
    pub state: MpeInitState,
    pub last_message_time: u64,
    pub timeout: u64,
}

impl InitView {
    /// A handshake is under way: it has begun and has not reached `Ready`.
    pub open spec fn mid_handshake(self) -> bool {
        self.state != MpeInitState::NotInitialized && self.state != MpeInitState::Ready
    }

    /// A message at `timestamp` comes too late for the handshake under way.
    pub open spec fn timed_out(self, timestamp: u64) -> bool {
        timestamp - self.last_message_time > self.timeout && self.mid_handshake()
    }

    /// The tracker after a message. A message that comes too late resets the
    /// handshake and leaves the time of the last message; any other message
    /// sets that time, and advances the state if it is the expected one.
    pub open spec fn step(self, message_type: u8, timestamp: u64) -> InitView {
        if self.timed_out(timestamp) {
            InitView { state: MpeInitState::NotInitialized, ..self }
        } else {
            InitView {
                state: match next_state(self.state, message_type) {
                    Some(next) => next,
                    None => self.state,
                },
                last_message_time: timestamp,
                timeout: self.timeout,
            }
        }
    }

    /// What the tracker answers to a message.
    pub open spec fn answer(self, message_type: u8, timestamp: u64) -> Result<(), ErrorView> {
        if self.timed_out(timestamp) {
            late(timeout_text())
        } else if next_state(self.state, message_type) is None {
            fault(unexpected_text())
        } else {
            Ok(())
        }
    }

    /// `is_initialized` of the tracker.
    pub open spec fn is_initialized(self) -> bool {
        self.state == MpeInitState::Ready
    }
}

/// Follows the MPE initialisation handshake: All Notes Off, Reset All
/// Controllers, Set Zone, Set Bend Range, in this order.
#[derive(Debug, Clone, Copy)]
pub struct MpeInitTracker {
    state: MpeInitState,
    last_message_time: u64,
    timeout: u64,
}

impl View for MpeInitTracker {
    type V = InitView;

    closed spec fn view(&self) -> InitView {
        InitView {
            state: self.state,
            last_message_time: self.last_message_time,
            timeout: self.timeout,
        }
    }
}

impl MpeInitTracker {
    /// A tracker before the handshake.
    pub fn new() -> (tracker: Self)
        ensures
            tracker@ == (InitView {
                state: MpeInitState::NotInitialized,
                last_message_time: 0,
                timeout: MPE_INIT_TIMEOUT,
            }),
    {
        MpeInitTracker {
            state: MpeInitState::NotInitialized,
            last_message_time: 0,
            timeout: MPE_INIT_TIMEOUT,
        }
    }

    /// Takes one handshake message.
    ///
    /// A message that comes more than the timeout after the last one, while a
    /// handshake is under way, resets the handshake and is a timing error. A
    /// message other than the expected one is a processing error and leaves
    /// the state.
    pub fn process_message(&mut self, message_type: u8, timestamp: u64) -> (result: Result<
        (),
        MidiError,
    >)
        ensures
            final(self)@ == old(self)@.step(message_type, timestamp),
            outcome(result) == old(self)@.answer(message_type, timestamp),
    {
        if timestamp > self.last_message_time && timestamp - self.last_message_time > self.timeout
            && self.state != MpeInitState::NotInitialized && self.state != MpeInitState::Ready {
            self.state = MpeInitState::NotInitialized;
            return Err(timing_error("MPE initialization timeout"));
        }
        self.last_message_time = timestamp;
        match self.state {
            MpeInitState::NotInitialized => {
                if message_type == ALL_NOTES_OFF {
                    self.state = MpeInitState::AllNotesOff;
                    return Ok(());
                }
            },
            MpeInitState::AllNotesOff => {
                if message_type == RESET_ALL_CONTROLLERS {
                    self.state = MpeInitState::ControllersReset;
                    return Ok(());
                }
            },
            MpeInitState::ControllersReset => {
                if message_type == MCM_SET_ZONE {
                    self.state = MpeInitState::ZoneConfigured;
                    return Ok(());
                }
            },
            MpeInitState::ZoneConfigured => {
                if message_type == MCM_SET_BEND_RANGE {
                    self.state = MpeInitState::Ready;
                    return Ok(());
                }
            },
            _ => {},
        }
        Err(processing_error("Unexpected MPE initialization message"))
    }

    /// Whether the handshake is complete.
    pub fn is_initialized(&self) -> (yes: bool)
        ensures
            yes == self@.is_initialized(),
    {
        self.state == MpeInitState::Ready
    }
}

/// The least length of a Set Zone message without the two bytes that open
/// it: addressee, sub-id, command, one payload byte and the closing byte.
pub const SET_ZONE_LENGTH: usize = 5;

/// The least length of a Set Bend Range message without the two bytes that
/// open it: addressee, sub-id, command, two payload bytes and the closing
/// byte.
pub const SET_BEND_RANGE_LENGTH: usize = 6;

/// The engine state after an MPE configuration message. The message is
/// given without the two bytes that open a universal system exclusive
/// message and with the byte that closes it, which is no payload.
pub open spec fn mcm_state(s: StatsView, data: Seq<u8>) -> StatsView {
    if data.len() >= SET_ZONE_LENGTH && data[0] == MCM_ALL_CHANNELS && data[1] == MCM_SUB_ID
        && data[2] == MCM_SET_ZONE {
        StatsView {
            mpe_config: s.mpe_config.configure(
                data[3] & 0x10 == 0,
                data[3] & 0x0F,
                CONFIGURED_BEND_RANGE,
            ),
            ..s
        }
    } else {
        s
    }
}

/// What the engine answers to an MPE configuration message. A command
/// without all of its payload before the closing byte is invalid data.
pub open spec fn mcm_answer(data: Seq<u8>) -> Result<(), ErrorView> {
    if data.len() < 3 {
        invalid("MCM message too short"@)
    } else if data[0] != MCM_ALL_CHANNELS || data[1] != MCM_SUB_ID {
        Ok(())
    } else if data[2] == MCM_SET_ZONE && data.len() < SET_ZONE_LENGTH {
        invalid("Invalid zone configuration message"@)
    } else if data[2] == MCM_SET_BEND_RANGE && data.len() < SET_BEND_RANGE_LENGTH {
        invalid("Invalid pitch bend range message"@)
    } else {
        Ok(())
    }
}

/// Whether `data` has the frame of a system exclusive message: at least
/// three bytes, 0xF0 first and 0xF7 last.
pub open spec fn is_sysex(data: Seq<u8>) -> bool {
    data.len() >= 3 && data[0] == 0xF0 && data[data.len() - 1] == 0xF7
}

/// The bytes of a system exclusive message after its first two.
pub open spec fn sysex_body(data: Seq<u8>) -> Seq<u8> {
    data.subrange(2, data.len() as int)
}

/// The engine state after a system exclusive message.
pub open spec fn sysex_state(s: StatsView, data: Seq<u8>) -> StatsView {
    if is_sysex(data) && data[1] == MCM_UNIVERSAL_SYSEX {
        mcm_state(s, sysex_body(data))
    } else {
        s
    }
}

/// What the engine answers to a system exclusive message.
pub open spec fn sysex_answer(data: Seq<u8>) -> Result<(), ErrorView> {
    if !is_sysex(data) {
        invalid("Invalid SysEx message format"@)
    } else if data[1] == MCM_UNIVERSAL_SYSEX {
        mcm_answer(sysex_body(data))
    } else {
        Ok(())
    }
}

/// Takes one system exclusive message. A universal message is handed on as
/// an MPE configuration message; messages of other makers are accepted and
/// ignored.
pub fn process_sysex(data: &[u8], timestamp: u64, stats: &mut RustMidiStats) -> (result: Result<
    (),
    MidiError,
>)
    requires
        old(stats).wf(),
    ensures
        final(stats).wf(),
        final(stats)@ == sysex_state(old(stats)@, data@),
        outcome(result) == sysex_answer(data@),
{
    if data.len() < 3 || data[0] != 0xF0 || data[data.len() - 1] != 0xF7 {
        return Err(invalid_data("Invalid SysEx message format"));
    }
    if data[1] == MCM_UNIVERSAL_SYSEX {
        process_mcm_message(slice_subrange(data, 2, data.len()), timestamp, stats)
    } else {
        Ok(())
    }
}

/// Takes one MPE configuration message, given without the two bytes that
/// open it and with the byte that closes it. Set Zone configures the zone
/// that bit 4 of its payload byte names, with as many members as the low
/// four bits say; Set Bend Range is checked for its two payload bytes; a
/// command whose payload is cut short is invalid data and changes nothing;
/// other commands and other addressees are accepted and ignored.
pub fn process_mcm_message(data: &[u8], timestamp: u64, stats: &mut RustMidiStats) -> (result:
    Result<(), MidiError>)
    requires
        old(stats).wf(),
    ensures
        final(stats).wf(),
        final(stats)@ == mcm_state(old(stats)@, data@),
        outcome(result) == mcm_answer(data@),
{
    if data.len() < 3 {
        return Err(invalid_data("MCM message too short"));
    }
    if data[0] != MCM_ALL_CHANNELS || data[1] != MCM_SUB_ID {
        return Ok(());
    }
    if data[2] == MCM_SET_ZONE {
        if data.len() < SET_ZONE_LENGTH {
            return Err(invalid_data("Invalid zone configuration message"));
        }
        let zone_config = data[3];
        let is_lower_zone = (zone_config & 0x10) == 0;
        let member_channels = zone_config & 0x0F;
        stats.mpe_config.configure_zone(is_lower_zone, member_channels, CONFIGURED_BEND_RANGE);
    } else if data[2] == MCM_SET_BEND_RANGE {
        if data.len() < SET_BEND_RANGE_LENGTH {
            return Err(invalid_data("Invalid pitch bend range message"));
        }
    }
    Ok(())
}

/// The handshake in its order reaches `Ready`, whatever came before it is
/// over, as long as no message comes later than the timeout after the one
/// before it.
pub proof fn lemma_handshake_reaches_ready(v: InitView, t1: u64, t2: u64, t3: u64, t4: u64)
    requires
        v.state == MpeInitState::NotInitialized,
        t2 - t1 <= v.timeout,
        t3 - t2 <= v.timeout,
        t4 - t3 <= v.timeout,
    ensures
        ({
            let a = v.step(ALL_NOTES_OFF, t1);
            let b = a.step(RESET_ALL_CONTROLLERS, t2);
            let c = b.step(MCM_SET_ZONE, t3);
            let d = c.step(MCM_SET_BEND_RANGE, t4);
            &&& v.answer(ALL_NOTES_OFF, t1) is Ok
            &&& a.answer(RESET_ALL_CONTROLLERS, t2) is Ok
            &&& b.answer(MCM_SET_ZONE, t3) is Ok
            &&& c.answer(MCM_SET_BEND_RANGE, t4) is Ok
            &&& d.is_initialized()
        }),
{
}

/// A message out of turn is a processing error and does not move the
/// handshake; a message that comes too late is a timing error and resets it.
pub proof fn lemma_handshake_rejects(v: InitView, message_type: u8, timestamp: u64)
    ensures
        !v.timed_out(timestamp) && next_state(v.state, message_type) is None ==> v.answer(
            message_type,
            timestamp,
        ) == fault(unexpected_text()) && v.step(message_type, timestamp).state == v.state,
        v.timed_out(timestamp) ==> v.answer(message_type, timestamp) == late(timeout_text())
            && v.step(message_type, timestamp).state == MpeInitState::NotInitialized,
        v.state == MpeInitState::Ready ==> v.step(message_type, timestamp).state
            == MpeInitState::Ready,
{
}

/// A Set Zone message without its payload byte is invalid data and changes
/// nothing: the byte that closes the message is not taken for payload.
pub proof fn lemma_set_zone_needs_its_payload(s: StatsView)
    ensures
        sysex_answer(seq![0xF0u8, 0x7E, 0x7F, 0x06, 0x02, 0xF7]) == invalid(
            "Invalid zone configuration message"@,
        ),
        sysex_state(s, seq![0xF0u8, 0x7E, 0x7F, 0x06, 0x02, 0xF7]) == s,
        mcm_answer(seq![0x7Fu8, 0x06, 0x02, 0xF7]) == invalid(
            "Invalid zone configuration message"@,
        ),
        mcm_state(s, seq![0x7Fu8, 0x06, 0x02, 0xF7]) == s,
{
    let whole = seq![0xF0u8, 0x7E, 0x7F, 0x06, 0x02, 0xF7];
    assert(sysex_body(whole) =~= seq![0x7Fu8, 0x06, 0x02, 0xF7]);
}

/// A complete Set Zone message configures the zone that its payload byte
/// names: the lower zone if bit 4 is clear, with as many members as the low
/// four bits say.
pub proof fn lemma_set_zone_configures(s: StatsView, payload: u8)
    ensures
        sysex_answer(seq![0xF0u8, 0x7E, 0x7F, 0x06, 0x02, payload, 0xF7]) is Ok,
        sysex_state(s, seq![0xF0u8, 0x7E, 0x7F, 0x06, 0x02, payload, 0xF7]) == (StatsView {
            mpe_config: s.mpe_config.configure(
                payload & 0x10 == 0,
                payload & 0x0F,
                CONFIGURED_BEND_RANGE,
            ),
            ..s
        }),
{
    let whole = seq![0xF0u8, 0x7E, 0x7F, 0x06, 0x02, payload, 0xF7];
    assert(sysex_body(whole) =~= seq![0x7Fu8, 0x06, 0x02, payload, 0xF7]);
}

} // verus!
