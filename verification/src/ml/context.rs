//! The musical context that analysis models read: recent messages, the
//! notes that are held, tempo, time signature and key.

use std::collections::hash_map::DefaultHasher;
use std::collections::VecDeque;
use std::hash::{Hash, Hasher};
use vstd::prelude::*;
use vstd::string::*;
use crate::ml::{Model, ModelView};
use crate::shared_buffer::{EventView, MidiEvent};

verus! {

/// A channel message, decoded.
#[allow(inconsistent_fields)]
#[derive(Debug, Clone, Copy)]
pub enum MidiMessage {
    /// Note on: channel 0-15, note 0-127, velocity 0-127.
    NoteOn { channel: u8, note: u8, velocity: u8 },
    /// Note off: channel 0-15, note 0-127, velocity 0-127.
    NoteOff { channel: u8, note: u8, velocity: u8 },
    /// Polyphonic aftertouch: channel 0-15, note 0-127, pressure 0-127.
    PolyphonicAftertouch { channel: u8, note: u8, pressure: u8 },
    /// Control change: channel 0-15, controller 0-127, value 0-127.
    ControlChange { channel: u8, controller: u8, value: u8 },
    /// Program change: channel 0-15, program 0-127.
    ProgramChange { channel: u8, program: u8 },
    /// Channel aftertouch: channel 0-15, pressure 0-127.
    ChannelAftertouch { channel: u8, pressure: u8 },
    /// Pitch bend: channel 0-15, value 0-16383.
    PitchBend { channel: u8, value: u16 },
    /// Any other message.
    Other,
}

/// The kind of a MIDI message.
#[derive(Debug, Clone, Copy, PartialEq, Eq, Structural)]
pub enum MidiMessageType {
    NoteOn,
    NoteOff,
    ControlChange,
    PitchBend,
    ProgramChange,
    Aftertouch,
    PolyAftertouch,
    Clock,
    Start,
    Stop,
    Continue,
    SysEx,
    Other,
}

/// A musical note with its timing.
#[derive(Debug, Clone, Copy)]
pub struct Note {
    /// MIDI note number (0-127).
    pub note: u8,
    /// MIDI velocity (0-127).
    pub velocity: u8,
    /// Channel (0-15).
    pub channel: u8,
    /// Start time in microseconds.
    pub start_time: u64,
    /// End time in microseconds (None while the note sounds).
    pub end_time: Option<u64>,
    /// Duration in microseconds (None while the note sounds).
    pub duration: Option<u64>,
}

/// What can go wrong with a model.
#[derive(Debug)]
pub enum ModelError {
    ModelNotFound,
    LoadFailed(String),
    InvalidInput(String),
}

impl ModelError {
    /// The message of the error.
    pub open spec fn text(&self) -> Seq<char> {
        match self {
            ModelError::ModelNotFound => "Model not found"@,
            ModelError::LoadFailed(s) => "Failed to load model: "@ + s@,
            ModelError::InvalidInput(s) => "Invalid input: "@ + s@,
        }
    }

    /// Writes the message of the error.
    pub fn message(&self) -> (out: String)
        ensures
            out@ == self.text(),
    {
        match self {
            ModelError::ModelNotFound => "Model not found".to_owned(),
            ModelError::LoadFailed(s) => "Failed to load model: ".to_owned().concat(s.as_str()),
            ModelError::InvalidInput(s) => "Invalid input: ".to_owned().concat(s.as_str()),
        }
    }
}

/// How many data bytes the decoder of channel messages reads after a status
/// byte.
pub open spec fn data_bytes_read(status: u8) -> nat {
    let kind = status & 0xF0;
    if kind == 0x80 || kind == 0x90 || kind == 0xA0 || kind == 0xB0 || kind == 0xE0 {
        2
    } else if kind == 0xC0 || kind == 0xD0 {
        1
    } else {
        0
    }
}

/// The channel message that `data` holds. The channel is the low half of the
/// status byte, and a pitch bend has its high byte second.
pub open spec fn message_of(data: Seq<u8>) -> MidiMessage {
    let kind = data[0] & 0xF0;
    let channel = data[0] & 0x0F;
    if kind == 0x80 {
        MidiMessage::NoteOff { channel, note: data[1], velocity: data[2] }
    } else if kind == 0x90 {
        MidiMessage::NoteOn { channel, note: data[1], velocity: data[2] }
    } else if kind == 0xA0 {
        MidiMessage::PolyphonicAftertouch { channel, note: data[1], pressure: data[2] }
    } else if kind == 0xB0 {
        MidiMessage::ControlChange { channel, controller: data[1], value: data[2] }
    } else if kind == 0xC0 {
        MidiMessage::ProgramChange { channel, program: data[1] }
    } else if kind == 0xD0 {
        MidiMessage::ChannelAftertouch { channel, pressure: data[1] }
    } else if kind == 0xE0 {
        MidiMessage::PitchBend { channel, value: ((data[2] as u16) << 7) | (data[1] as u16) }
    } else {
        MidiMessage::Other
    }
}

/// Counts the data bytes that the decoder of channel messages reads after a
/// status byte.
pub fn data_bytes_needed(status: u8) -> (count: usize)
    ensures
        count == data_bytes_read(status),
{
    let kind = status & 0xF0;
    if kind == 0x80 || kind == 0x90 || kind == 0xA0 || kind == 0xB0 || kind == 0xE0 {
        2
    } else if kind == 0xC0 || kind == 0xD0 {
        1
    } else {
        0
    }
}

impl MidiMessage {
    /// Whether `data` holds a status byte and as many data bytes as its kind
    /// has.
    pub open spec fn decodable(data: Seq<u8>) -> bool {
        data.len() >= 1 && data.len() > data_bytes_read(data[0])
    }

    /// Tests whether `from_bytes` can decode `data`.
    pub fn can_decode(data: &[u8]) -> (yes: bool)
        ensures
            yes == Self::decodable(data@),
    {
        data.len() >= 1 && data.len() > data_bytes_needed(data[0])
    }

    /// Tests whether the note that a note-on or note-off names is a key of
    /// the keyboard.
    pub fn is_in_range(&self) -> (yes: bool)
        ensures
            yes == self.in_range(),
    {
        match self {
            MidiMessage::NoteOn { note, .. } => *note < 128,
            MidiMessage::NoteOff { note, .. } => *note < 128,
            _ => true,
        }
    }

    /// Decodes a channel message from its bytes. The bytes hold the status
    /// byte and as many data bytes as its kind has.
    pub fn from_bytes(data: &[u8]) -> (message: MidiMessage)
        requires
            Self::decodable(data@),
        ensures
            message == message_of(data@),
    {
        let kind = data[0] & 0xF0;
        let channel = data[0] & 0x0F;
        if kind == 0x80 {
            MidiMessage::NoteOff { channel, note: data[1], velocity: data[2] }
        } else if kind == 0x90 {
            MidiMessage::NoteOn { channel, note: data[1], velocity: data[2] }
        } else if kind == 0xA0 {
            MidiMessage::PolyphonicAftertouch { channel, note: data[1], pressure: data[2] }
        } else if kind == 0xB0 {
            MidiMessage::ControlChange { channel, controller: data[1], value: data[2] }
        } else if kind == 0xC0 {
            MidiMessage::ProgramChange { channel, program: data[1] }
        } else if kind == 0xD0 {
            MidiMessage::ChannelAftertouch { channel, pressure: data[1] }
        } else if kind == 0xE0 {
            MidiMessage::PitchBend { channel, value: ((data[2] as u16) << 7) | (data[1] as u16) }
        } else {
            MidiMessage::Other
        }
    }

    /// The note that a note-on or note-off names is a key of the keyboard.
    pub open spec fn in_range(self) -> bool {
        match self {
            MidiMessage::NoteOn { note, .. } => note < 128,
            MidiMessage::NoteOff { note, .. } => note < 128,
            _ => true,
        }
    }
}

/// The kind of the message that `data` holds. A note-on with velocity zero
/// counts as a note-off.
pub open spec fn message_type_of(data: Seq<u8>) -> MidiMessageType {
    if data.len() == 0 {
        MidiMessageType::Other
    } else {
        let status = data[0];
        let kind = status & 0xF0;
        if kind == 0x80 {
            MidiMessageType::NoteOff
        } else if kind == 0x90 {
            if data.len() > 2 && data[2] == 0 {
                MidiMessageType::NoteOff
            } else {
                MidiMessageType::NoteOn
            }
        } else if kind == 0xA0 {
            MidiMessageType::PolyAftertouch
        } else if kind == 0xB0 {
            MidiMessageType::ControlChange
        } else if kind == 0xC0 {
            MidiMessageType::ProgramChange
        } else if kind == 0xD0 {
            MidiMessageType::Aftertouch
        } else if kind == 0xE0 {
            MidiMessageType::PitchBend
        } else if status == 0xF0 {
            MidiMessageType::SysEx
        } else if status == 0xF8 {
            MidiMessageType::Clock
        } else if status == 0xFA {
            MidiMessageType::Start
        } else if status == 0xFB {
            MidiMessageType::Continue
        } else if status == 0xFC {
            MidiMessageType::Stop
        } else {
            MidiMessageType::Other
        }
    }
}

/// The most messages that a context keeps.
pub const MAX_CONTEXT_MESSAGES: usize = 1000;

/// The tempo of a new context, in thousandths of a beat per minute.
pub const DEFAULT_TEMPO: u32 = 120_000;

/// The last `limit` elements of `s`, or all of `s` if it has no more.
pub open spec fn newest<T>(s: Seq<T>, limit: nat) -> Seq<T> {
    if s.len() > limit {
        s.skip(s.len() - limit)
    } else {
        s
    }
}

/// The held notes after `message`: a note-on with a velocity holds its note,
/// a note-on with velocity zero and a note-off release it.
pub open spec fn held_after(held: Seq<Option<u8>>, message: MidiMessage) -> Seq<Option<u8>> {
    match message {
        MidiMessage::NoteOn { note, velocity, .. } => if velocity > 0 {
            held.update(note as int, Some(velocity))
        } else {
            held.update(note as int, None)
        },
        MidiMessage::NoteOff { note, .. } => held.update(note as int, None),
        _ => held,
    }
}

/// What a musical context knows.
pub struct ContextView {
    pub messages: Seq<MidiMessage>,
    pub max_messages: nat,
    pub active_notes: Seq<Option<u8>>,
    pub tempo: u32,
    pub time_signature: (u8, u8),
    pub key_signature: u8,
}

impl ContextView {
    /// The context after `message`: the message joins the recent ones, the
    /// oldest leave when there are too many, and the held notes follow.
    pub open spec fn update(self, message: MidiMessage) -> ContextView {
        ContextView {
            messages: newest(self.messages.push(message), self.max_messages),
            active_notes: held_after(self.active_notes, message),
            ..self
        }
    }
}

/// Musical context for analysis models.
#[derive(Debug)]
pub struct MusicalContext {
    messages: VecDeque<MidiMessage>,
    max_messages: usize,
    active_notes: [Option<u8>; 128],
    tempo: u32,
    time_signature: (u8, u8),
    key_signature: u8,
}

impl View for MusicalContext {
    type V = ContextView;

    closed spec fn view(&self) -> ContextView {
        ContextView {
            messages: self.messages@,
            max_messages: self.max_messages as nat,
            active_notes: self.active_notes@,
            tempo: self.tempo,
            time_signature: self.time_signature,
            key_signature: self.key_signature,
        }
    }
}

impl MusicalContext {
    /// What a new context knows.
    pub open spec fn new_view() -> ContextView {
        ContextView {
            messages: Seq::empty(),
            max_messages: MAX_CONTEXT_MESSAGES as nat,
            active_notes: Seq::new(128, |i: int| None::<u8>),
            tempo: DEFAULT_TEMPO,
            time_signature: (4u8, 4u8),
            key_signature: 0,
        }
    }

    /// A context without messages or held notes, at 120 beats per minute in
    /// four-four time and the key of C.
    pub fn new() -> (context: Self)
        ensures
            context@ == Self::new_view(),
    {
        let context = MusicalContext {
            messages: VecDeque::new(),
            max_messages: MAX_CONTEXT_MESSAGES,
            active_notes: [None; 128],
            tempo: DEFAULT_TEMPO,
            time_signature: (4, 4),
            key_signature: 0,
        };
        proof {
            assert(context.active_notes@ =~= Seq::new(128, |i: int| None::<u8>));
        }
        context
    }

    /// Takes one message into the context.
    pub fn update(&mut self, message: MidiMessage)
        requires
            message.in_range(),
        ensures
            final(self)@ == old(self)@.update(message),
    {
        self.messages.push_back(message);
        let ghost pushed = self.messages@;
        while self.messages.len() > self.max_messages
            invariant
                self.max_messages == old(self).max_messages,
                self.active_notes == old(self).active_notes,
                self.tempo == old(self).tempo,
                self.time_signature == old(self).time_signature,
                self.key_signature == old(self).key_signature,
                self.messages@.len() <= pushed.len(),
                self.messages@ == pushed.skip(pushed.len() - self.messages@.len()),
                pushed.len() > self.max_messages ==> self.messages@.len() >= self.max_messages,
                pushed.len() <= self.max_messages ==> self.messages@.len() == pushed.len(),
            decreases self.messages@.len(),
        {
            let ghost before = self.messages@;
            self.messages.pop_front();
            proof {
                assert(self.messages@ =~= pushed.skip(pushed.len() - self.messages@.len()));
            }
        }
        proof {
            assert(pushed.skip(0) =~= pushed);
            assert(self.messages@ =~= newest(pushed, self.max_messages as nat));
        }
        match message {
            MidiMessage::NoteOn { note, velocity, .. } => {
                if velocity > 0 {
                    self.active_notes[note as usize] = Some(velocity);
                } else {
                    self.active_notes[note as usize] = None;
                }
            },
            MidiMessage::NoteOff { note, .. } => {
                self.active_notes[note as usize] = None;
            },
            _ => {},
        }
    }

    /// The velocity of each held note, by note number.
    pub fn active_notes(&self) -> (held: &[Option<u8>; 128])
        ensures
            held@ == self@.active_notes,
    {
        &self.active_notes
    }

    /// The recent messages, oldest first.
    pub fn messages(&self) -> (recent: &VecDeque<MidiMessage>)
        ensures
            recent@ == self@.messages,
    {
        &self.messages
    }

    /// The tempo in thousandths of a beat per minute.
    pub fn tempo(&self) -> (tempo: u32)
        ensures
            tempo == self@.tempo,
    {
        self.tempo
    }

    /// Sets the tempo, in thousandths of a beat per minute.
    pub fn set_tempo(&mut self, tempo: u32)
        ensures
            final(self)@ == (ContextView { tempo, ..old(self)@ }),
    {
        self.tempo = tempo;
    }

    /// The time signature: numerator and denominator.
    pub fn time_signature(&self) -> (signature: (u8, u8))
        ensures
            signature == self@.time_signature,
    {
        self.time_signature
    }

    /// Sets the time signature.
    pub fn set_time_signature(&mut self, numerator: u8, denominator: u8)
        ensures
            final(self)@ == (ContextView {
                time_signature: (numerator, denominator),
                ..old(self)@
            }),
    {
        self.time_signature = (numerator, denominator);
    }

    /// The key signature: 0 for C, 1 for C sharp, and so on.
    pub fn key_signature(&self) -> (key: u8)
        ensures
            key == self@.key_signature,
    {
        self.key_signature
    }

    /// Sets the key signature.
    pub fn set_key_signature(&mut self, key: u8)
        ensures
            final(self)@ == (ContextView { key_signature: key, ..old(self)@ }),
    {
        self.key_signature = key;
    }

    /// The kind of the message that an event holds.
    pub fn get_message_type(event: &MidiEvent) -> (kind: MidiMessageType)
        ensures
            kind == message_type_of(event@.data),
    {
        if event.data.len() == 0 {
            return MidiMessageType::Other;
        }
        let status = event.data[0];
        let kind = status & 0xF0;
        if kind == 0x80 {
            MidiMessageType::NoteOff
        } else if kind == 0x90 {
            if event.data.len() > 2 && event.data[2] == 0 {
                MidiMessageType::NoteOff
            } else {
                MidiMessageType::NoteOn
            }
        } else if kind == 0xA0 {
            MidiMessageType::PolyAftertouch
        } else if kind == 0xB0 {
            MidiMessageType::ControlChange
        } else if kind == 0xC0 {
            MidiMessageType::ProgramChange
        } else if kind == 0xD0 {
            MidiMessageType::Aftertouch
        } else if kind == 0xE0 {
            MidiMessageType::PitchBend
        } else if status == 0xF0 {
            MidiMessageType::SysEx
        } else if status == 0xF8 {
            MidiMessageType::Clock
        } else if status == 0xFA {
            MidiMessageType::Start
        } else if status == 0xFB {
            MidiMessageType::Continue
        } else if status == 0xFC {
            MidiMessageType::Stop
        } else {
            MidiMessageType::Other
        }
    }
}

/// The views of a run of events.
pub open spec fn event_views(events: Seq<MidiEvent>) -> Seq<EventView> {
    Seq::new(events.len(), |i: int| events[i]@)
}

/// The raw bytes of each event of a run.
pub open spec fn event_data(events: Seq<EventView>) -> Seq<Seq<u8>> {
    Seq::new(events.len(), |i: int| events[i].data)
}

/// Copies a run of events.
pub fn clone_events(events: &[MidiEvent]) -> (copy: Vec<MidiEvent>)
    ensures
        event_views(copy@) == event_views(events@),
{
    let mut copy: Vec<MidiEvent> = Vec::new();
    let mut i: usize = 0;
    while i < events.len()
        invariant
            i <= events.len(),
            copy@.len() == i,
            forall|j: int| 0 <= j < i ==> copy@[j]@ == events@[j]@,
        decreases events.len() - i,
    {
        copy.push(events[i].clone());
        i = i + 1;
    }
    proof {
        assert(event_views(copy@) =~= event_views(events@));
    }
    copy
}

/// The significance, in tenths, of a pattern that has been seen `count`
/// times: one tenth for each time, up to ten.
pub open spec fn significance_of(count: u32) -> u8 {
    if count < 10 {
        count as u8
    } else {
        10
    }
}

/// The significance, in tenths, above which a pattern is worth an insight.
pub const SIGNIFICANT: u8 = 5;

/// A pattern found in MIDI data.
#[derive(Debug)]
pub struct Pattern {
    /// Identifier of the pattern: a hash of the bytes of its events.
    pub id: u64,
    /// The events that make up the pattern.
    pub events: Vec<MidiEvent>,
    /// How often the pattern has been seen.
    pub occurrence_count: u32,
    /// Significance in tenths, 0 to 10.
    pub significance_score: u8,
    /// Kind of pattern, such as "rhythm" or "melody".
    pub pattern_type: String,
}

/// What a pattern is, apart from how it is stored.
pub struct PatternView {
    pub id: u64,
    pub events: Seq<EventView>,
    pub occurrence_count: u32,
    pub significance_score: u8,
    pub pattern_type: Seq<char>,
}

impl View for Pattern {
    type V = PatternView;

    open spec fn view(&self) -> PatternView {
        PatternView {
            id: self.id,
            events: event_views(self.events@),
            occurrence_count: self.occurrence_count,
            significance_score: self.significance_score,
            pattern_type: self.pattern_type@,
        }
    }
}

impl Clone for Pattern {
    fn clone(&self) -> (copy: Self)
        ensures
            copy@ == self@,
    {
        Pattern {
            id: self.id,
            events: clone_events(self.events.as_slice()),
            occurrence_count: self.occurrence_count,
            significance_score: self.significance_score,
            pattern_type: self.pattern_type.clone(),
        }
    }
}

/// The pattern that is made of `events` under the identifier `id`: seen
/// once, of no significance yet, of unknown kind.
pub open spec fn fresh_pattern(events: Seq<EventView>, id: u64) -> PatternView {
    PatternView {
        id,
        events,
        occurrence_count: 1,
        significance_score: 0,
        pattern_type: "unknown"@,
    }
}

/// `Hash::hash` of std for a `Vec<u8>`: feeds the vector to the hasher.
/// Nothing is claimed of the state that the hasher is left in.
#[verifier::external_body]
fn feed_hasher(state: &mut DefaultHasher, data: &Vec<u8>) {
    data.hash(state);
}

impl Pattern {
    /// Makes a pattern of `events`. Its identifier is a hash of the bytes of
    /// the events, of which nothing more is known here.
    pub fn new(events: Vec<MidiEvent>) -> (pattern: Self)
        ensures
            pattern@ == fresh_pattern(event_views(events@), pattern.id),
    {
        let id = Self::calculate_hash(events.as_slice());
        Self::with_id(events, id)
    }

    /// Makes a pattern of `events` under the identifier `id`.
    pub fn with_id(events: Vec<MidiEvent>, id: u64) -> (pattern: Self)
        ensures
            pattern@ == fresh_pattern(event_views(events@), id),
    {
        Pattern {
            id,
            events,
            occurrence_count: 1,
            significance_score: 0,
            pattern_type: "unknown".to_owned(),
        }
    }

    /// Hashes the bytes of the events, one event after the other.
    fn calculate_hash(events: &[MidiEvent]) -> u64 {
        let mut hasher = DefaultHasher::new();
        let mut i: usize = 0;
        while i < events.len()
            invariant
                i <= events.len(),
            decreases events.len() - i,
        {
            feed_hasher(&mut hasher, &events[i].data);
            i = i + 1;
        }
        hasher.finish()
    }

    /// The identifier of the pattern.
    pub fn hash(&self) -> (id: u64)
        ensures
            id == self.id,
    {
        self.id
    }

    /// Whether the pattern is worth an insight: its significance is above
    /// one half.
    pub fn is_significant(&self) -> (yes: bool)
        ensures
            yes == (self@.significance_score > SIGNIFICANT),
    {
        self.significance_score > SIGNIFICANT
    }
}

/// Something that the analysis has found.
#[derive(Debug)]
pub enum Insight {
    /// A pattern that was found.
    Pattern(Pattern),
    /// A judgement of the performance, scored in tenths.
    Performance { description: String, score: u8, suggestions: Vec<String> },
    /// A style that was recognised, with the confidence in tenths.
    Style { style: String, confidence: u8 },
}

/// The patterns that a run of insights holds, in order.
pub open spec fn insight_patterns(insights: Seq<Insight>) -> Seq<PatternView>
    decreases insights.len(),
{
    if insights.len() == 0 {
        Seq::empty()
    } else {
        let rest = insight_patterns(insights.drop_last());
        match insights.last() {
            Insight::Pattern(p) => rest.push(p@),
            _ => rest,
        }
    }
}

/// Whether every insight of a run is a pattern.
pub open spec fn all_patterns(insights: Seq<Insight>) -> bool {
    forall|i: int| 0 <= i < insights.len() ==> (#[trigger] insights[i]) is Pattern
}

/// The significant patterns of a run, in order.
pub open spec fn significant(patterns: Seq<PatternView>) -> Seq<PatternView> {
    patterns.filter(|p: PatternView| p.significance_score > SIGNIFICANT)
}

/// Makes an insight of every significant pattern and appends it to
/// `insights`.
pub fn push_significant(insights: &mut Vec<Insight>, patterns: &Vec<Pattern>)
    requires
        all_patterns(old(insights)@),
    ensures
        all_patterns(final(insights)@),
        insight_patterns(final(insights)@) == insight_patterns(old(insights)@) + significant(
            Seq::new(patterns@.len(), |i: int| patterns@[i]@),
        ),
{
    let ghost views = Seq::new(patterns@.len(), |i: int| patterns@[i]@);
    let ghost keep = |p: PatternView| p.significance_score > SIGNIFICANT;
    let mut i: usize = 0;
    proof {
        assert(views.take(0) =~= Seq::<PatternView>::empty());
        assert(insight_patterns(insights@) + views.take(0).filter(keep) =~= insight_patterns(
            insights@,
        ));
    }
    while i < patterns.len()
        invariant
            i <= patterns.len(),
            views == Seq::new(patterns@.len(), |i: int| patterns@[i]@),
            keep == |p: PatternView| p.significance_score > SIGNIFICANT,
            all_patterns(insights@),
            insight_patterns(insights@) == insight_patterns(old(insights)@) + views.take(
                i as int,
            ).filter(keep),
        decreases patterns.len() - i,
    {
        let ghost before = insights@;
        proof {
            assert(views.take(i + 1).drop_last() =~= views.take(i as int));
            assert(views.take(i + 1).last() == views[i as int]);
            reveal(Seq::filter);
        }
        if patterns[i].is_significant() {
            insights.push(Insight::Pattern(patterns[i].clone()));
            proof {
                assert(insights@.drop_last() =~= before);
                assert(insight_patterns(insights@) =~= insight_patterns(before).push(
                    views[i as int],
                ));
                assert(views.take(i + 1).filter(keep) =~= views.take(i as int).filter(keep).push(
                    views[i as int],
                ));
            }
        } else {
            proof {
                assert(views.take(i + 1).filter(keep) =~= views.take(i as int).filter(keep));
            }
        }
        i = i + 1;
    }
    proof {
        assert(views.take(i as int) =~= views);
    }
}

/// The patterns of two runs of insights are those of the first and then
/// those of the second.
pub proof fn lemma_insight_patterns_concat(a: Seq<Insight>, b: Seq<Insight>)
    ensures
        insight_patterns(a + b) == insight_patterns(a) + insight_patterns(b),
    decreases b.len(),
{
    if b.len() == 0 {
        assert(a + b =~= a);
        assert(insight_patterns(a) + insight_patterns(b) =~= insight_patterns(a));
    } else {
        lemma_insight_patterns_concat(a, b.drop_last());
        assert((a + b).drop_last() =~= a + b.drop_last());
        assert((a + b).last() == b.last());
        assert(insight_patterns(a + b) =~= insight_patterns(a) + insight_patterns(b));
    }
}

/// The most events that a model context keeps.
pub const MAX_RECENT_EVENTS: usize = 1000;

/// The note-on message that a model context reads from an event, whatever
/// the event holds: channel and two data bytes.
pub open spec fn note_on_of(data: Seq<u8>) -> MidiMessage {
    MidiMessage::NoteOn { channel: data[0] & 0x0F, note: data[1], velocity: data[2] }
}

/// An event that a model context can take: it has two data bytes and the
/// first is a note number.
pub open spec fn is_note_shaped(event: EventView) -> bool {
    event.data.len() >= 3 && event.data[1] < 128
}

/// What a model context knows.
pub struct ModelContextView {
    pub recent_events: Seq<EventView>,
    pub patterns: Seq<PatternView>,
    pub musical_context: ContextView,
    pub model: Option<ModelView>,
}

impl ModelContextView {
    /// Whether the context after `event` is `after`: the event joins the
    /// recent events, of which the oldest leaves once there are too many;
    /// the musical context takes the event as a note-on; and the model, if
    /// there is one, takes the event.
    pub open spec fn add_event(self, event: EventView, after: ModelContextView) -> bool {
        &&& after.recent_events == (if self.recent_events.len() + 1 > MAX_RECENT_EVENTS {
            self.recent_events.push(event).drop_first()
        } else {
            self.recent_events.push(event)
        })
        &&& after.patterns == self.patterns
        &&& after.musical_context == self.musical_context.update(note_on_of(event.data))
        &&& match self.model {
            Some(model) => after.model matches Some(next) && model.process_event(event, next),
            None => after.model is None,
        }
    }

    /// The patterns of the insights of the context: its own significant
    /// patterns, then those of its model.
    pub open spec fn insights(self) -> Seq<PatternView> {
        significant(self.patterns) + (match self.model {
            Some(model) => model.insights(),
            None => Seq::empty(),
        })
    }
}

/// The model context: recent events, patterns, the musical context and the
/// model that is in use.
#[derive(Debug)]
pub struct ModelContext {
    /// Recent MIDI events.
    pub recent_events: VecDeque<MidiEvent>,
    /// Detected patterns.
    pub patterns: Vec<Pattern>,
    /// Current musical context.
    pub musical_context: MusicalContext,
    /// The model in use.
    pub model: Option<Model>,
}

/// The view of a model that may be absent.
pub open spec fn model_view(model: Option<Model>) -> Option<ModelView> {
    match model {
        Some(m) => Some(m@),
        None => None,
    }
}

impl View for ModelContext {
    type V = ModelContextView;

    open spec fn view(&self) -> ModelContextView {
        ModelContextView {
            recent_events: event_views(self.recent_events@),
            patterns: Seq::new(self.patterns@.len(), |i: int| self.patterns@[i]@),
            musical_context: self.musical_context@,
            model: model_view(self.model),
        }
    }
}

impl ModelContext {
    /// A context without events, patterns or model.
    pub fn new() -> (context: Self)
        ensures
            context@.recent_events == Seq::<EventView>::empty(),
            context@.patterns == Seq::<PatternView>::empty(),
            context@.musical_context == MusicalContext::new_view(),
            context@.model is None,
    {
        let context = ModelContext {
            recent_events: VecDeque::with_capacity(MAX_RECENT_EVENTS),
            patterns: Vec::new(),
            musical_context: MusicalContext::new(),
            model: None,
        };
        proof {
            assert(context@.recent_events =~= Seq::<EventView>::empty());
            assert(context@.patterns =~= Seq::<PatternView>::empty());
        }
        context
    }

    /// Tests whether the context can take `event`: whether it has two data
    /// bytes of which the first is a note number.
    pub fn can_take(event: &MidiEvent) -> (yes: bool)
        ensures
            yes == is_note_shaped(event@),
    {
        event.data.len() >= 3 && event.data[1] < 128
    }

    /// Takes one event into the context.
    pub fn add_event(&mut self, event: MidiEvent)
        requires
            is_note_shaped(event@),
        ensures
            old(self)@.add_event(event@, final(self)@),
    {
        let ghost before = self.recent_events@;
        self.recent_events.push_back(event.clone());
        if self.recent_events.len() > MAX_RECENT_EVENTS {
            self.recent_events.pop_front();
        }
        proof {
            assert(event_views(self.recent_events@) =~= (if before.len() + 1 > MAX_RECENT_EVENTS {
                event_views(before).push(event@).drop_first()
            } else {
                event_views(before).push(event@)
            }));
        }
        self.musical_context.update(
            MidiMessage::NoteOn {
                channel: event.data[0] & 0x0F,
                note: event.data[1],
                velocity: event.data[2],
            },
        );
        match self.model.take() {
            Some(mut model) => {
                model.process_event(&event, &self.musical_context);
                self.model = Some(model);
            },
            None => {},
        }
    }

    /// The insights of the context: one for each of its significant
    /// patterns, then those of its model.
    pub fn generate_insights(&self) -> (insights: Vec<Insight>)
        ensures
            all_patterns(insights@),
            insight_patterns(insights@) == self@.insights(),
    {
        let mut insights: Vec<Insight> = Vec::new();
        proof {
            assert(insight_patterns(insights@) =~= Seq::<PatternView>::empty());
        }
        push_significant(&mut insights, &self.patterns);
        proof {
            assert(Seq::<PatternView>::empty() + significant(self@.patterns) =~= significant(
                self@.patterns,
            ));
        }
        if let Some(model) = &self.model {
            let ghost own = insights@;
            let mut more = model.generate_insights(&self.musical_context);
            proof {
                lemma_insight_patterns_concat(own, more@);
            }
            insights.append(&mut more);
        } else {
            proof {
                assert(significant(self@.patterns) + Seq::<PatternView>::empty() =~= significant(
                    self@.patterns,
                ));
            }
        }
        insights
    }
}

} // verus!
