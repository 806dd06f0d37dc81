//! The note and expression tracker: the notes that sound, the notes that
//! have ended, and how expression updates reach them.
//!
//! Normalised quantities are kept as integers. A *level* is a fraction of
//! 254, so the seven-bit value `v` is the level `2 * v` and one half is the
//! level 127. A pitch bend is a fraction of 8192 between -8192 and 8191.

use std::collections::HashMap;
use vstd::prelude::*;
use vstd::arithmetic::div_mod::{lemma_div_is_ordered, lemma_div_multiples_vanish};

verus! {

broadcast use vstd::std_specs::hash::group_hash_axioms;

/// The level that stands for 1.0.
pub const LEVEL_FULL: u16 = 254;

/// The level that stands for 0.5, the timbre of a note that has had no
/// brightness update.
pub const LEVEL_HALF: u16 = 127;

/// One note with its expression.
#[derive(Debug, Clone, Copy)]
pub struct NoteExpression {
    /// Note number, 0 to 127.
    pub note: u8,
    /// Channel, 0 to 15.
    pub channel: u8,
    /// Initial velocity as a level.
    pub velocity: u16,
    /// Pitch bend in 8192ths, -8192 to 8191.
    pub pitch_bend: i16,
    /// Pressure (aftertouch) as a level.
    pub pressure: u16,
    /// Timbre (brightness) as a level.
    pub timbre: u16,
    /// When the note started, in microseconds.
    pub start_time: u64,
    /// When its expression last changed, in microseconds.
    pub last_update: u64,
}

/// The key under which the note `note` on `channel` is kept.
pub open spec fn note_key(note: u8, channel: u8) -> u16 {
    (note as u16 * 16 + channel as u16) as u16
}

/// Computes `note_key`.
pub fn key_of(note: u8, channel: u8) -> (key: u16)
    requires
        channel <= 15,
    ensures
        key == note_key(note, channel),
{
    note as u16 * 16 + channel as u16
}

/// The level of a seven-bit value.
pub open spec fn level_of(value: u8) -> u16 {
    (2 * value as u16) as u16
}

/// The entry that a note-on makes.
pub open spec fn fresh_note(note: u8, channel: u8, velocity: u8, timestamp: u64) -> NoteExpression {
    NoteExpression {
        note,
        channel,
        velocity: level_of(velocity),
        pitch_bend: 0,
        pressure: 0,
        timbre: LEVEL_HALF,
        start_time: timestamp,
        last_update: timestamp,
    }
}

/// The snapshot that a note-off at `timestamp` archives.
pub open spec fn released(e: NoteExpression, timestamp: u64) -> NoteExpression {
    NoteExpression { last_update: timestamp, ..e }
}

/// `e` after a pitch-bend update on `channel`.
pub open spec fn bent(e: NoteExpression, channel: u8, value: i16, timestamp: u64) -> NoteExpression {
    if e.channel == channel {
        NoteExpression { pitch_bend: value, last_update: timestamp, ..e }
    } else {
        e
    }
}

/// `e` after a timbre update on `channel`.
pub open spec fn tinted(e: NoteExpression, channel: u8, value: u16, timestamp: u64) -> NoteExpression {
    if e.channel == channel {
        NoteExpression { timbre: value, last_update: timestamp, ..e }
    } else {
        e
    }
}

/// `e` after a pressure update.
pub open spec fn pressed(e: NoteExpression, value: u16, timestamp: u64) -> NoteExpression {
    NoteExpression { pressure: value, last_update: timestamp, ..e }
}

/// What the tracker knows: the active notes by key, and the history of
/// completed notes in the order in which they ended.
pub struct TrackerView {
    pub active: Map<u16, NoteExpression>,
    pub history: Seq<NoteExpression>,
}

impl TrackerView {
    /// Every active note is in range and is kept under its own key.
    pub open spec fn wf(self) -> bool {
        forall|k: u16| #[trigger]
            self.active.contains_key(k) ==> {
                &&& self.active[k].note <= 127
                &&& self.active[k].channel <= 15
                &&& k == note_key(self.active[k].note, self.active[k].channel)
            }
    }

    /// Whether the note `note` on `channel` sounds.
    pub open spec fn is_active(self, note: u8, channel: u8) -> bool {
        self.active.contains_key(note_key(note, channel))
    }

    /// The tracker after a note-off. Out-of-range arguments and notes that do
    /// not sound change nothing; else the note leaves the active notes and
    /// its snapshot joins the history.
    pub open spec fn note_off(self, note: u8, channel: u8, timestamp: u64) -> TrackerView {
        let key = note_key(note, channel);
        if note > 127 || channel > 15 || !self.active.contains_key(key) {
            self
        } else {
            TrackerView {
                active: self.active.remove(key),
                history: self.history.push(released(self.active[key], timestamp)),
            }
        }
    }

    /// The tracker after a note-on. Out-of-range arguments change nothing, a
    /// velocity of zero is a note-off, and any other note-on puts a fresh
    /// entry under the key of the note.
    pub open spec fn note_on(self, note: u8, channel: u8, velocity: u8, timestamp: u64)
        -> TrackerView {
        if note > 127 || channel > 15 || velocity > 127 {
            self
        } else if velocity == 0 {
            self.note_off(note, channel, timestamp)
        } else {
            TrackerView {
                active: self.active.insert(
                    note_key(note, channel),
                    fresh_note(note, channel, velocity, timestamp),
                ),
                history: self.history,
            }
        }
    }

    /// The tracker after a pitch-bend update on `channel`.
    pub open spec fn pitch_bend(self, channel: u8, value: i16, timestamp: u64) -> TrackerView {
        TrackerView {
            active: self.active.map_values(|e: NoteExpression| bent(e, channel, value, timestamp)),
            history: self.history,
        }
    }

    /// The tracker after a timbre update on `channel`.
    pub open spec fn timbre(self, channel: u8, value: u16, timestamp: u64) -> TrackerView {
        TrackerView {
            active: self.active.map_values(
                |e: NoteExpression| tinted(e, channel, value, timestamp),
            ),
            history: self.history,
        }
    }

    /// The tracker after a pressure update on one note.
    pub open spec fn pressure(self, note: u8, channel: u8, value: u16, timestamp: u64)
        -> TrackerView {
        let key = note_key(note, channel);
        if channel > 15 || !self.active.contains_key(key) {
            self
        } else {
            TrackerView {
                active: self.active.insert(key, pressed(self.active[key], value, timestamp)),
                history: self.history,
            }
        }
    }
}

/// A note-off keeps the tracker well formed.
pub proof fn lemma_note_off_wf(v: TrackerView, note: u8, channel: u8, timestamp: u64)
    requires
        v.wf(),
    ensures
        v.note_off(note, channel, timestamp).wf(),
{
}

/// A note-on keeps the tracker well formed.
pub proof fn lemma_note_on_wf(v: TrackerView, note: u8, channel: u8, velocity: u8, timestamp: u64)
    requires
        v.wf(),
    ensures
        v.note_on(note, channel, velocity, timestamp).wf(),
{
    lemma_note_off_wf(v, note, channel, timestamp);
}

/// A pitch-bend update keeps the tracker well formed.
pub proof fn lemma_pitch_bend_wf(v: TrackerView, channel: u8, value: i16, timestamp: u64)
    requires
        v.wf(),
    ensures
        v.pitch_bend(channel, value, timestamp).wf(),
{
}

/// A timbre update keeps the tracker well formed.
pub proof fn lemma_timbre_wf(v: TrackerView, channel: u8, value: u16, timestamp: u64)
    requires
        v.wf(),
    ensures
        v.timbre(channel, value, timestamp).wf(),
{
}

/// A pressure update keeps the tracker well formed.
pub proof fn lemma_pressure_wf(v: TrackerView, note: u8, channel: u8, value: u16, timestamp: u64)
    requires
        v.wf(),
    ensures
        v.pressure(note, channel, value, timestamp).wf(),
{
}

/// Tracks the notes that sound and archives the notes that have ended.
#[derive(Debug)]
pub struct NoteTracker {
    active_notes: HashMap<u16, NoteExpression>,
    history: Vec<NoteExpression>,
}

impl View for NoteTracker {
    type V = TrackerView;

    closed spec fn view(&self) -> TrackerView {
        TrackerView { active: self.active_notes@, history: self.history@ }
    }
}

impl Clone for NoteTracker {
    fn clone(&self) -> (copy: Self)
        ensures
            copy@ == self@,
    {
        let mut history: Vec<NoteExpression> = Vec::new();
        let mut i: usize = 0;
        while i < self.history.len()
            invariant
                i <= self.history.len(),
                history@ == self.history@.take(i as int),
            decreases self.history.len() - i,
        {
            history.push(self.history[i]);
            proof {
                assert(history@ =~= self.history@.take(i + 1));
            }
            i = i + 1;
        }
        proof {
            assert(self.history@.take(i as int) =~= self.history@);
        }
        NoteTracker { active_notes: self.active_notes.clone(), history }
    }
}

impl NoteTracker {
    /// The tracker's invariant: that of its view.
    pub open spec fn wf(&self) -> bool {
        self@.wf()
    }

    /// A tracker without notes.
    pub fn new() -> (tracker: Self)
        ensures
            tracker.wf(),
            tracker@.active == Map::<u16, NoteExpression>::empty(),
            tracker@.history == Seq::<NoteExpression>::empty(),
    {
        NoteTracker { active_notes: HashMap::new(), history: Vec::new() }
    }

    /// Starts a note. Arguments out of range are ignored; a velocity of zero
    /// ends the note instead; a note that already sounds is overwritten.
    pub fn note_on(&mut self, note: u8, channel: u8, velocity: u8, timestamp: u64)
        requires
            old(self).wf(),
        ensures
            final(self).wf(),
            final(self)@ == old(self)@.note_on(note, channel, velocity, timestamp),
    {
        proof {
            lemma_note_on_wf(self@, note, channel, velocity, timestamp);
        }
        if note > 127 || channel > 15 || velocity > 127 {
            return ;
        }
        if velocity == 0 {
            self.note_off(note, channel, timestamp);
            return ;
        }
        let expr = NoteExpression {
            note,
            channel,
            velocity: 2 * velocity as u16,
            pitch_bend: 0,
            pressure: 0,
            timbre: LEVEL_HALF,
            start_time: timestamp,
            last_update: timestamp,
        };
        self.active_notes.insert(key_of(note, channel), expr);
    }

    /// Ends a note: removes it from the active notes and appends its
    /// snapshot, with `last_update` set to `timestamp`, to the history. A
    /// note that does not sound, or arguments out of range, change nothing.
    pub fn note_off(&mut self, note: u8, channel: u8, timestamp: u64)
        requires
            old(self).wf(),
        ensures
            final(self).wf(),
            final(self)@ == old(self)@.note_off(note, channel, timestamp),
    {
        proof {
            lemma_note_off_wf(self@, note, channel, timestamp);
        }
        if note > 127 || channel > 15 {
            return ;
        }
        let key = key_of(note, channel);
        match self.active_notes.remove(&key) {
            Some(expr) => {
                let mut completed = expr;
                completed.last_update = timestamp;
                self.history.push(completed);
            },
            None => {
                assert(self.active_notes@ =~= old(self).active_notes@);
            },
        }
    }

    /// Sets the pitch bend of every active note on `channel`.
    pub fn update_pitch_bend(&mut self, channel: u8, value: i16, timestamp: u64)
        requires
            old(self).wf(),
        ensures
            final(self).wf(),
            final(self)@ == old(self)@.pitch_bend(channel, value, timestamp),
    {
        let ghost start = self@;
        let ghost before = self@.active;
        let ghost change = |e: NoteExpression| bent(e, channel, value, timestamp);
        proof {
            lemma_pitch_bend_wf(start, channel, value, timestamp);
        }
        if channel > 15 {
            assert(self.active_notes@ =~= before.map_values(change));
            return ;
        }
        let mut note: u8 = 0;
        while note < 128
            invariant
                note <= 128,
                channel <= 15,
                self.history == old(self).history,
                start.wf(),
                before == start.active,
                self.active_notes@.dom() == before.dom(),
                forall|k: u16| #[trigger]
                    before.contains_key(k) ==> self.active_notes@[k] == (if before[k].note < note {
                        bent(before[k], channel, value, timestamp)
                    } else {
                        before[k]
                    }),
            decreases 128 - note,
        {
            let key = key_of(note, channel);
            let ghost current = self.active_notes@;
            let found = self.active_notes.get(&key);
            if let Some(expr) = found {
                let mut updated = *expr;
                updated.pitch_bend = value;
                updated.last_update = timestamp;
                self.active_notes.insert(key, updated);
                assert(self.active_notes@.dom() =~= before.dom());
                assert(before.contains_key(key));
            }
            assert forall|k: u16| #[trigger] before.contains_key(k) implies self.active_notes@[k] == (
            if before[k].note < note + 1 {
                bent(before[k], channel, value, timestamp)
            } else {
                before[k]
            }) by {
                assert(start.active.contains_key(k));
                if k != key {
                    assert(self.active_notes@[k] == current[k]);
                }
            }
            note = note + 1;
        }
        assert(self.active_notes@ =~= before.map_values(change));
    }

    /// Sets the pressure of one active note.
    pub fn update_pressure(&mut self, note: u8, channel: u8, value: u16, timestamp: u64)
        requires
            old(self).wf(),
        ensures
            final(self).wf(),
            final(self)@ == old(self)@.pressure(note, channel, value, timestamp),
    {
        proof {
            lemma_pressure_wf(self@, note, channel, value, timestamp);
        }
        if channel > 15 {
            return ;
        }
        let key = key_of(note, channel);
        let found = self.active_notes.get(&key);
        if let Some(expr) = found {
            let mut updated = *expr;
            updated.pressure = value;
            updated.last_update = timestamp;
            self.active_notes.insert(key, updated);
        }
    }

    /// Sets the timbre of every active note on `channel`.
    pub fn update_timbre(&mut self, channel: u8, value: u16, timestamp: u64)
        requires
            old(self).wf(),
        ensures
            final(self).wf(),
            final(self)@ == old(self)@.timbre(channel, value, timestamp),
    {
        let ghost start = self@;
        let ghost before = self@.active;
        let ghost change = |e: NoteExpression| tinted(e, channel, value, timestamp);
        proof {
            lemma_timbre_wf(start, channel, value, timestamp);
        }
        if channel > 15 {
            assert(self.active_notes@ =~= before.map_values(change));
            return ;
        }
        let mut note: u8 = 0;
        while note < 128
            invariant
                note <= 128,
                channel <= 15,
                self.history == old(self).history,
                start.wf(),
                before == start.active,
                self.active_notes@.dom() == before.dom(),
                forall|k: u16| #[trigger]
                    before.contains_key(k) ==> self.active_notes@[k] == (if before[k].note < note {
                        tinted(before[k], channel, value, timestamp)
                    } else {
                        before[k]
                    }),
            decreases 128 - note,
        {
            let key = key_of(note, channel);
            let ghost current = self.active_notes@;
            let found = self.active_notes.get(&key);
            if let Some(expr) = found {
                let mut updated = *expr;
                updated.timbre = value;
                updated.last_update = timestamp;
                self.active_notes.insert(key, updated);
                assert(self.active_notes@.dom() =~= before.dom());
                assert(before.contains_key(key));
            }
            assert forall|k: u16| #[trigger] before.contains_key(k) implies self.active_notes@[k] == (
            if before[k].note < note + 1 {
                tinted(before[k], channel, value, timestamp)
            } else {
                before[k]
            }) by {
                assert(start.active.contains_key(k));
                if k != key {
                    assert(self.active_notes@[k] == current[k]);
                }
            }
            note = note + 1;
        }
        assert(self.active_notes@ =~= before.map_values(change));
    }

    /// The active notes, each under its `note_key`.
    pub fn get_active_notes(&self) -> (notes: &HashMap<u16, NoteExpression>)
        ensures
            notes@ == self@.active,
    {
        &self.active_notes
    }

    /// The completed notes, in the order in which they ended.
    pub fn get_note_history(&self) -> (notes: &[NoteExpression])
        ensures
            notes@ == self@.history,
    {
        self.history.as_slice()
    }
}

/// The quantities of a completed note that the statistics summarise.
pub enum Measure {
    Velocity,
    Duration,
    Pressure,
    Timbre,
    Bend,
}

/// How long a completed note lasted, in microseconds. A note whose end is
/// stamped before its start has length zero.
pub open spec fn duration(e: NoteExpression) -> nat {
    if e.last_update >= e.start_time {
        (e.last_update - e.start_time) as nat
    } else {
        0
    }
}

/// The size of the pitch bend of a note, whatever its direction.
pub open spec fn bend_size(e: NoteExpression) -> nat {
    if e.pitch_bend < 0 {
        (-e.pitch_bend) as nat
    } else {
        e.pitch_bend as nat
    }
}

/// The quantity `m` of the note `e`.
pub open spec fn measure(e: NoteExpression, m: Measure) -> nat {
    match m {
        Measure::Velocity => e.velocity as nat,
        Measure::Duration => duration(e),
        Measure::Pressure => e.pressure as nat,
        Measure::Timbre => e.timbre as nat,
        Measure::Bend => bend_size(e),
    }
}

/// The sum of the quantity `m` over the notes of `h`.
pub open spec fn total(h: Seq<NoteExpression>, m: Measure) -> nat
    decreases h.len(),
{
    if h.len() == 0 {
        0
    } else {
        total(h.drop_last(), m) + measure(h.last(), m)
    }
}

/// The least of `start` and the quantity `m` of each note of `h`.
pub open spec fn least(h: Seq<NoteExpression>, m: Measure, start: nat) -> nat
    decreases h.len(),
{
    if h.len() == 0 {
        start
    } else {
        let rest = least(h.drop_last(), m, start);
        if measure(h.last(), m) < rest {
            measure(h.last(), m)
        } else {
            rest
        }
    }
}

/// The greatest of `start` and the quantity `m` of each note of `h`.
pub open spec fn greatest(h: Seq<NoteExpression>, m: Measure, start: nat) -> nat
    decreases h.len(),
{
    if h.len() == 0 {
        start
    } else {
        let rest = greatest(h.drop_last(), m, start);
        if measure(h.last(), m) > rest {
            measure(h.last(), m)
        } else {
            rest
        }
    }
}

/// The mean of `count` quantities that add up to `sum`, rounded down; zero
/// for no quantities.
pub open spec fn mean(sum: nat, count: nat) -> nat {
    if count == 0 {
        0
    } else {
        sum / count
    }
}

/// How many notes of `h` have the pitch class `class` (note number modulo
/// twelve).
pub open spec fn pitch_class_count(h: Seq<NoteExpression>, class: int) -> nat
    decreases h.len(),
{
    if h.len() == 0 {
        0
    } else {
        pitch_class_count(h.drop_last(), class) + if h.last().note % 12 == class {
            1nat
        } else {
            0nat
        }
    }
}

/// The histogram of pitch classes of `h`.
pub open spec fn pitch_histogram(h: Seq<NoteExpression>) -> Seq<usize> {
    Seq::new(12, |class: int| pitch_class_count(h, class) as usize)
}

/// Whether the start of the note at `i` is taken no later than the start of
/// the note at `j`, when the starts and ends of the notes of `h` are taken
/// in the order of their timestamps and, at equal timestamps, in the order
/// of the history.
pub open spec fn started_by(h: Seq<NoteExpression>, i: int, j: int) -> bool {
    h[i].start_time < h[j].start_time || (h[i].start_time == h[j].start_time && i <= j)
}

/// Whether the end of the note at `i` is taken before the start of the note
/// at `j`, in the same order. The start of a note is taken before its own
/// end.
pub open spec fn ended_by(h: Seq<NoteExpression>, i: int, j: int) -> bool {
    h[i].last_update < h[j].start_time || (h[i].last_update == h[j].start_time && i < j)
}

/// How many of the first `n` notes have started by the start of the note at
/// `j`.
pub open spec fn started_count(h: Seq<NoteExpression>, j: int, n: nat) -> nat
    decreases n,
{
    if n == 0 {
        0
    } else {
        started_count(h, j, (n - 1) as nat) + if started_by(h, n - 1, j) {
            1nat
        } else {
            0nat
        }
    }
}

/// How many of the first `n` notes have ended by the start of the note at
/// `j`.
pub open spec fn ended_count(h: Seq<NoteExpression>, j: int, n: nat) -> nat
    decreases n,
{
    if n == 0 {
        0
    } else {
        ended_count(h, j, (n - 1) as nat) + if ended_by(h, n - 1, j) {
            1nat
        } else {
            0nat
        }
    }
}

/// How many notes sound once the start of the note at `j` has been taken:
/// those that have started less those that have ended, and never less than
/// none.
pub open spec fn sounding_at_start(h: Seq<NoteExpression>, j: int) -> nat {
    let started = started_count(h, j, h.len());
    let ended = ended_count(h, j, h.len());
    if started > ended {
        (started - ended) as nat
    } else {
        0
    }
}

/// The largest number of notes that sound at the start of one of the first
/// `n` notes of `h`.
pub open spec fn peak_sounding(h: Seq<NoteExpression>, n: nat) -> nat
    decreases n,
{
    if n == 0 {
        0
    } else {
        let rest = peak_sounding(h, (n - 1) as nat);
        let here = sounding_at_start(h, n - 1);
        if here > rest {
            here
        } else {
            rest
        }
    }
}

/// The polyphony of `h`: the largest number of notes that sound together.
///
/// It is what a sweep over the starts and ends of the notes finds that takes
/// them in the order of their timestamps and, where timestamps are equal, in
/// the order of the history, the start of a note before its own end; that
/// counts up at a start and down at an end; and that keeps the largest count
/// it reaches at a start.
pub open spec fn polyphony(h: Seq<NoteExpression>) -> nat {
    peak_sounding(h, h.len())
}

/// The whole and half steps of a major scale.
pub open spec fn major_steps() -> Seq<usize> {
    seq![2, 2, 1, 2, 2, 2, 1]
}

/// The whole and half steps of a natural minor scale.
pub open spec fn minor_steps() -> Seq<usize> {
    seq![2, 1, 2, 2, 1, 2, 2]
}

/// How many of the first `n` pitch classes occur in `histogram` and are, as
/// numbers, among `steps`.
pub open spec fn scale_matches(histogram: Seq<usize>, steps: Seq<usize>, n: nat) -> nat
    decreases n,
{
    if n == 0 {
        0
    } else {
        scale_matches(histogram, steps, (n - 1) as nat) + if histogram[n - 1] > 0 && steps.contains(
            (n - 1) as usize,
        ) {
            1nat
        } else {
            0nat
        }
    }
}

/// The scale that the heuristic names for `histogram`.
pub open spec fn scale_name(histogram: Seq<usize>) -> Seq<char> {
    let major = scale_matches(histogram, major_steps(), 12);
    let minor = scale_matches(histogram, minor_steps(), 12);
    if major > minor {
        "Major"@
    } else if minor > major {
        "Minor"@
    } else {
        "Unknown"@
    }
}

/// The first of the first `n` pitch classes that occurs most often.
pub open spec fn first_peak(histogram: Seq<usize>, n: nat) -> int
    decreases n,
{
    if n <= 1 {
        0
    } else {
        let best = first_peak(histogram, (n - 1) as nat);
        if histogram[n - 1] > histogram[best] {
            n - 1
        } else {
            best
        }
    }
}

/// The name of a pitch class.
pub open spec fn note_name(class: int) -> Seq<char> {
    if class == 0 {
        "C"@
    } else if class == 1 {
        "C#"@
    } else if class == 2 {
        "D"@
    } else if class == 3 {
        "D#"@
    } else if class == 4 {
        "E"@
    } else if class == 5 {
        "F"@
    } else if class == 6 {
        "F#"@
    } else if class == 7 {
        "G"@
    } else if class == 8 {
        "G#"@
    } else if class == 9 {
        "A"@
    } else if class == 10 {
        "A#"@
    } else {
        "B"@
    }
}

/// The key that the heuristic names for `histogram`: its most frequent
/// pitch class, the lowest one among equals.
pub open spec fn key_name(histogram: Seq<usize>) -> Seq<char> {
    note_name(first_peak(histogram, 12))
}

fn step_table_has(steps: &[usize; 7], class: usize) -> (found: bool)
    ensures
        found == steps@.contains(class),
{
    let mut i: usize = 0;
    while i < 7
        invariant
            i <= 7,
            forall|j: int| 0 <= j < i ==> steps@[j] != class,
        decreases 7 - i,
    {
        if steps[i] == class {
            return true;
        }
        i = i + 1;
    }
    false
}

/// Names the scale of a pitch-class histogram by comparing the pitch
/// classes that occur with the step tables of the major and minor scales.
pub fn detect_scale(histogram: &[usize; 12]) -> (name: String)
    ensures
        name@ == scale_name(histogram@),
{
    let major_pattern: [usize; 7] = [2, 2, 1, 2, 2, 2, 1];
    let minor_pattern: [usize; 7] = [2, 1, 2, 2, 1, 2, 2];
    assert(major_pattern@ =~= major_steps());
    assert(minor_pattern@ =~= minor_steps());
    let mut major_match: usize = 0;
    let mut minor_match: usize = 0;
    let mut i: usize = 0;
    while i < 12
        invariant
            i <= 12,
            major_pattern@ == major_steps(),
            minor_pattern@ == minor_steps(),
            major_match == scale_matches(histogram@, major_steps(), i as nat),
            minor_match == scale_matches(histogram@, minor_steps(), i as nat),
            major_match <= i,
            minor_match <= i,
        decreases 12 - i,
    {
        if histogram[i] > 0 {
            if step_table_has(&major_pattern, i) {
                major_match = major_match + 1;
            }
            if step_table_has(&minor_pattern, i) {
                minor_match = minor_match + 1;
            }
        }
        i = i + 1;
    }
    if major_match > minor_match {
        "Major".to_owned()
    } else if minor_match > major_match {
        "Minor".to_owned()
    } else {
        "Unknown".to_owned()
    }
}

/// Names the key of a pitch-class histogram: its most frequent pitch class.
pub fn detect_key(histogram: &[usize; 12]) -> (name: String)
    ensures
        name@ == key_name(histogram@),
{
    let mut max_count: usize = 0;
    let mut key_note: usize = 0;
    let mut i: usize = 0;
    while i < 12
        invariant
            i <= 12,
            key_note < 12,
            key_note as int == first_peak(histogram@, i as nat),
            max_count == if i == 0 {
                0
            } else {
                histogram@[key_note as int]
            },
        decreases 12 - i,
    {
        if histogram[i] > max_count {
            max_count = histogram[i];
            key_note = i;
        }
        i = i + 1;
    }
    let name = if key_note == 0 {
        "C"
    } else if key_note == 1 {
        "C#"
    } else if key_note == 2 {
        "D"
    } else if key_note == 3 {
        "D#"
    } else if key_note == 4 {
        "E"
    } else if key_note == 5 {
        "F"
    } else if key_note == 6 {
        "F#"
    } else if key_note == 7 {
        "G"
    } else if key_note == 8 {
        "G#"
    } else if key_note == 9 {
        "A"
    } else if key_note == 10 {
        "A#"
    } else {
        "B"
    };
    name.to_owned()
}

/// The mean of quantities that are each at most `cap` is at most `cap`.
proof fn lemma_mean_bound(sum: nat, count: nat, cap: nat)
    requires
        count > 0,
        sum <= count * cap,
    ensures
        sum / count <= cap,
{
    lemma_div_is_ordered(sum as int, (count * cap) as int, count as int);
    lemma_div_multiples_vanish(cap as int, count as int);
}

/// Statistics over the completed notes.
#[derive(Debug)]
pub struct ExpressionStats {
    /// Completed notes.
    pub note_count: usize,
    /// Notes that sound now.
    pub active_notes: usize,
    /// Sum of the velocity levels.
    pub velocity_total: u128,
    /// Mean velocity level, rounded down.
    pub average_velocity: u64,
    /// Least and greatest velocity level; `(LEVEL_FULL, 0)` for no notes.
    pub velocity_range: (u16, u16),
    /// Sum of the durations in microseconds.
    pub duration_total: u128,
    /// Mean duration, rounded down.
    pub average_duration: u64,
    /// Shortest duration; `u64::MAX` for no notes.
    pub shortest_note: u64,
    /// Longest duration.
    pub longest_note: u64,
    /// Largest pitch bend in either direction, in 8192ths.
    pub max_pitch_bend: u16,
    /// Sum of the pressure levels.
    pub pressure_total: u128,
    /// Mean pressure level, rounded down.
    pub average_pressure: u64,
    /// Sum of the timbre levels.
    pub timbre_total: u128,
    /// Mean timbre level, rounded down.
    pub average_timbre: u64,
    /// Largest number of notes that sounded together.
    pub polyphony: usize,
    /// The scale that the heuristic names; empty for no notes.
    pub scale_detection: String,
    /// The key that the heuristic names; empty for no notes.
    pub key_signature: String,
}

impl ExpressionStats {
    /// These are the statistics of a tracker in the state `v`.
    pub open spec fn describes(&self, v: TrackerView) -> bool {
        let h = v.history;
        &&& self.note_count == h.len()
        &&& self.active_notes == v.active.len()
        &&& self.velocity_total == total(h, Measure::Velocity)
        &&& self.average_velocity == mean(total(h, Measure::Velocity), h.len())
        &&& self.velocity_range.0 == least(h, Measure::Velocity, LEVEL_FULL as nat)
        &&& self.velocity_range.1 == greatest(h, Measure::Velocity, 0)
        &&& self.duration_total == total(h, Measure::Duration)
        &&& self.average_duration == mean(total(h, Measure::Duration), h.len())
        &&& self.shortest_note == least(h, Measure::Duration, u64::MAX as nat)
        &&& self.longest_note == greatest(h, Measure::Duration, 0)
        &&& self.max_pitch_bend == greatest(h, Measure::Bend, 0)
        &&& self.pressure_total == total(h, Measure::Pressure)
        &&& self.average_pressure == mean(total(h, Measure::Pressure), h.len())
        &&& self.timbre_total == total(h, Measure::Timbre)
        &&& self.average_timbre == mean(total(h, Measure::Timbre), h.len())
        &&& self.polyphony == polyphony(h)
        &&& self.scale_detection@ == if h.len() == 0 {
            Seq::<char>::empty()
        } else {
            scale_name(pitch_histogram(h))
        }
        &&& self.key_signature@ == if h.len() == 0 {
            Seq::<char>::empty()
        } else {
            key_name(pitch_histogram(h))
        }
    }
}

fn sounding_at_start_of(history: &Vec<NoteExpression>, j: usize) -> (count: usize)
    requires
        j < history.len(),
    ensures
        count == sounding_at_start(history@, j as int),
{
    let at = history[j].start_time;
    let mut started: usize = 0;
    let mut ended: usize = 0;
    let mut i: usize = 0;
    while i < history.len()
        invariant
            i <= history.len(),
            j < history.len(),
            at == history@[j as int].start_time,
            started <= i,
            ended <= i,
            started == started_count(history@, j as int, i as nat),
            ended == ended_count(history@, j as int, i as nat),
        decreases history.len() - i,
    {
        let note = &history[i];
        if note.start_time < at || (note.start_time == at && i <= j) {
            started = started + 1;
        }
        if note.last_update < at || (note.last_update == at && i < j) {
            ended = ended + 1;
        }
        i = i + 1;
    }
    if started > ended {
        started - ended
    } else {
        0
    }
}

fn polyphony_of(history: &Vec<NoteExpression>) -> (peak: usize)
    ensures
        peak == polyphony(history@),
{
    let mut peak: usize = 0;
    let mut j: usize = 0;
    while j < history.len()
        invariant
            j <= history.len(),
            peak == peak_sounding(history@, j as nat),
        decreases history.len() - j,
    {
        let here = sounding_at_start_of(history, j);
        if here > peak {
            peak = here;
        }
        j = j + 1;
    }
    peak
}

fn pitch_histogram_of(history: &Vec<NoteExpression>) -> (histogram: [usize; 12])
    ensures
        histogram@ == pitch_histogram(history@),
{
    let mut histogram: [usize; 12] = [0; 12];
    let mut i: usize = 0;
    while i < history.len()
        invariant
            i <= history.len(),
            forall|class: int|
                0 <= class < 12 ==> #[trigger] histogram@[class] == pitch_class_count(
                    history@.take(i as int),
                    class,
                ),
            forall|class: int| 0 <= class < 12 ==> #[trigger] histogram@[class] <= i,
        decreases history.len() - i,
    {
        proof {
            assert(history@.take(i + 1).drop_last() =~= history@.take(i as int));
        }
        let class = (history[i].note % 12) as usize;
        let count = histogram[class];
        histogram[class] = count + 1;
        i = i + 1;
    }
    proof {
        assert(history@.take(i as int) =~= history@);
        assert(histogram@ =~= pitch_histogram(history@));
    }
    histogram
}

impl NoteTracker {
    /// Computes the statistics over the completed notes.
    ///
    /// Polyphony takes the starts and ends of the notes in the order of their
    /// timestamps and, where timestamps are equal, in the order of the
    /// history, the start of a note before its own end. So a completed note
    /// counts at its start, even if it ends there; and of two notes of which
    /// one ends when the other starts, the one that is earlier in the history
    /// is taken first.
    pub fn get_stats(&self) -> (stats: ExpressionStats)
        ensures
            stats.describes(self@),
    {
        let n = self.history.len();
        let ghost h = self.history@;
        let mut velocity_total: u128 = 0;
        let mut least_velocity: u16 = LEVEL_FULL;
        let mut greatest_velocity: u16 = 0;
        let mut duration_total: u128 = 0;
        let mut shortest: u64 = u64::MAX;
        let mut longest: u64 = 0;
        let mut greatest_bend: u16 = 0;
        let mut pressure_total: u128 = 0;
        let mut timbre_total: u128 = 0;
        let mut i: usize = 0;
        while i < n
            invariant
                i <= n,
                n == self.history.len(),
                h == self.history@,
                velocity_total == total(h.take(i as int), Measure::Velocity),
                velocity_total <= i * 0xFFFF,
                least_velocity == least(h.take(i as int), Measure::Velocity, LEVEL_FULL as nat),
                greatest_velocity == greatest(h.take(i as int), Measure::Velocity, 0),
                duration_total == total(h.take(i as int), Measure::Duration),
                duration_total <= i * 0xFFFF_FFFF_FFFF_FFFF,
                shortest == least(h.take(i as int), Measure::Duration, u64::MAX as nat),
                longest == greatest(h.take(i as int), Measure::Duration, 0),
                greatest_bend == greatest(h.take(i as int), Measure::Bend, 0),
                pressure_total == total(h.take(i as int), Measure::Pressure),
                pressure_total <= i * 0xFFFF,
                timbre_total == total(h.take(i as int), Measure::Timbre),
                timbre_total <= i * 0xFFFF,
            decreases n - i,
        {
            proof {
                assert(h.take(i + 1).drop_last() =~= h.take(i as int));
                assert(h.take(i + 1).last() == h[i as int]);
            }
            let note = self.history[i];
            velocity_total = velocity_total + note.velocity as u128;
            if note.velocity < least_velocity {
                least_velocity = note.velocity;
            }
            if note.velocity > greatest_velocity {
                greatest_velocity = note.velocity;
            }
            let length: u64 = if note.last_update >= note.start_time {
                note.last_update - note.start_time
            } else {
                0
            };
            duration_total = duration_total + length as u128;
            if length < shortest {
                shortest = length;
            }
            if length > longest {
                longest = length;
            }
            let bend: u16 = if note.pitch_bend < 0 {
                (-(note.pitch_bend as i32)) as u16
            } else {
                note.pitch_bend as u16
            };
            if bend > greatest_bend {
                greatest_bend = bend;
            }
            pressure_total = pressure_total + note.pressure as u128;
            timbre_total = timbre_total + note.timbre as u128;
            i = i + 1;
        }
        proof {
            assert(h.take(n as int) =~= h);
        }
        let mut stats = ExpressionStats {
            note_count: n,
            active_notes: self.active_notes.len(),
            velocity_total,
            average_velocity: 0,
            velocity_range: (least_velocity, greatest_velocity),
            duration_total,
            average_duration: 0,
            shortest_note: shortest,
            longest_note: longest,
            max_pitch_bend: greatest_bend,
            pressure_total,
            average_pressure: 0,
            timbre_total,
            average_timbre: 0,
            polyphony: 0,
            scale_detection: String::new(),
            key_signature: String::new(),
        };
        if n > 0 {
            proof {
                lemma_mean_bound(velocity_total as nat, n as nat, 0xFFFF);
                lemma_mean_bound(duration_total as nat, n as nat, 0xFFFF_FFFF_FFFF_FFFF);
                lemma_mean_bound(pressure_total as nat, n as nat, 0xFFFF);
                lemma_mean_bound(timbre_total as nat, n as nat, 0xFFFF);
            }
            stats.average_velocity = (velocity_total / n as u128) as u64;
            stats.average_duration = (duration_total / n as u128) as u64;
            stats.average_pressure = (pressure_total / n as u128) as u64;
            stats.average_timbre = (timbre_total / n as u128) as u64;
            stats.polyphony = polyphony_of(&self.history);
            let histogram = pitch_histogram_of(&self.history);
            stats.scale_detection = detect_scale(&histogram);
            stats.key_signature = detect_key(&histogram);
        }
        stats
    }
}

} // verus!
