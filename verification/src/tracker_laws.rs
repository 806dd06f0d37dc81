//! Laws of the note and expression tracker.

use vstd::prelude::*;
use crate::note_tracker::{
    ended_by, ended_count, first_peak, fresh_note, major_steps, minor_steps, note_key,
    peak_sounding, polyphony, released, scale_matches, scale_name, sounding_at_start,
    started_by, started_count, NoteExpression, TrackerView,
};

verus! {

/// A note that is started and then ended is gone from the active notes, and
/// the history has grown by exactly its snapshot, which ends no earlier than
/// it starts.
pub proof fn lemma_note_on_then_off(
    v: TrackerView,
    note: u8,
    channel: u8,
    velocity: u8,
    started: u64,
    ended: u64,
)
    requires
        v.wf(),
        note <= 127,
        channel <= 15,
        1 <= velocity <= 127,
        started <= ended,
    ensures
        ({
            let after = v.note_on(note, channel, velocity, started).note_off(note, channel, ended);
            let snapshot = released(fresh_note(note, channel, velocity, started), ended);
            &&& after.wf()
            &&& !after.is_active(note, channel)
            &&& after.active == v.active.remove(note_key(note, channel))
            &&& after.history == v.history.push(snapshot)
            &&& snapshot.note == note
            &&& snapshot.channel == channel
            &&& snapshot.last_update >= snapshot.start_time
        }),
{
    let key = note_key(note, channel);
    let on = v.note_on(note, channel, velocity, started);
    assert(on.active.contains_key(key));
    assert(on.active.remove(key) =~= v.active.remove(key));
}

/// A note-on for a note that already sounds overwrites it: the active notes
/// hold one entry for the key, and the history does not change.
pub proof fn lemma_note_on_overwrites(
    v: TrackerView,
    note: u8,
    channel: u8,
    velocity: u8,
    timestamp: u64,
)
    requires
        v.wf(),
        note <= 127,
        channel <= 15,
        1 <= velocity <= 127,
    ensures
        ({
            let after = v.note_on(note, channel, velocity, timestamp);
            &&& after.is_active(note, channel)
            &&& after.active[note_key(note, channel)] == fresh_note(
                note,
                channel,
                velocity,
                timestamp,
            )
            &&& after.active.dom() == v.active.dom().insert(note_key(note, channel))
            &&& after.history == v.history
        }),
{
}

/// A pitch-bend update on a channel reaches every active note on that
/// channel and no other note.
pub proof fn lemma_pitch_bend_reaches_channel(
    v: TrackerView,
    channel: u8,
    value: i16,
    timestamp: u64,
)
    ensures
        ({
            let after = v.pitch_bend(channel, value, timestamp);
            &&& after.history == v.history
            &&& after.active.dom() == v.active.dom()
            &&& forall|k: u16| #[trigger]
                v.active.contains_key(k) ==> after.active[k] == (if v.active[k].channel
                    == channel {
                    NoteExpression { pitch_bend: value, last_update: timestamp, ..v.active[k] }
                } else {
                    v.active[k]
                })
        }),
{
}

/// A timbre update on a channel reaches every active note on that channel
/// and no other note.
pub proof fn lemma_timbre_reaches_channel(v: TrackerView, channel: u8, value: u16, timestamp: u64)
    ensures
        ({
            let after = v.timbre(channel, value, timestamp);
            &&& after.history == v.history
            &&& after.active.dom() == v.active.dom()
            &&& forall|k: u16| #[trigger]
                v.active.contains_key(k) ==> after.active[k] == (if v.active[k].channel
                    == channel {
                    NoteExpression { timbre: value, last_update: timestamp, ..v.active[k] }
                } else {
                    v.active[k]
                })
        }),
{
}

/// A pressure update reaches the one note it names and no other.
pub proof fn lemma_pressure_reaches_one_note(
    v: TrackerView,
    note: u8,
    channel: u8,
    value: u16,
    timestamp: u64,
)
    requires
        channel <= 15,
    ensures
        ({
            let after = v.pressure(note, channel, value, timestamp);
            let key = note_key(note, channel);
            &&& after.history == v.history
            &&& after.active.dom() == v.active.dom()
            &&& forall|k: u16| #[trigger]
                v.active.contains_key(k) ==> after.active[k] == (if k == key {
                    NoteExpression { pressure: value, last_update: timestamp, ..v.active[k] }
                } else {
                    v.active[k]
                })
        }),
{
    let after = v.pressure(note, channel, value, timestamp);
    assert(after.active.dom() =~= v.active.dom());
}

/// Every note of the history ends no earlier than it starts.
pub open spec fn ends_after_starts(h: Seq<NoteExpression>) -> bool {
    forall|i: int| 0 <= i < h.len() ==> (#[trigger] h[i]).start_time <= h[i].last_update
}

/// Whether the completed note `e` sounds at the instant `t`: from its start
/// up to, but not at, its end.
pub open spec fn sounds_at(e: NoteExpression, t: u64) -> bool {
    e.start_time <= t < e.last_update
}

/// How many of the first `n` notes of `h` sound at the instant `t`.
pub open spec fn sounding(h: Seq<NoteExpression>, t: u64, n: nat) -> nat
    decreases n,
{
    if n == 0 {
        0
    } else {
        sounding(h, t, (n - 1) as nat) + if sounds_at(h[n - 1], t) {
            1nat
        } else {
            0nat
        }
    }
}

/// How many of the first `n` notes have started and not ended by the start
/// of the note at `j`.
spec fn between_count(h: Seq<NoteExpression>, j: int, n: nat) -> nat
    decreases n,
{
    if n == 0 {
        0
    } else {
        between_count(h, j, (n - 1) as nat) + if started_by(h, n - 1, j) && !ended_by(h, n - 1, j) {
            1nat
        } else {
            0nat
        }
    }
}

/// Where notes end no earlier than they start, a note that has ended has
/// started, so the notes that have started are those that have ended and
/// those in between.
proof fn lemma_started_is_ended_and_between(h: Seq<NoteExpression>, j: int, n: nat)
    requires
        ends_after_starts(h),
        0 <= j < h.len(),
        n <= h.len(),
    ensures
        started_count(h, j, n) == ended_count(h, j, n) + between_count(h, j, n),
        started_count(h, j, n) <= n,
        j < n ==> between_count(h, j, n) >= 1,
    decreases n,
{
    if n > 0 {
        lemma_started_is_ended_and_between(h, j, (n - 1) as nat);
        assert(h[n - 1].start_time <= h[n - 1].last_update);
        assert(h[j].start_time <= h[j].last_update);
    }
}

/// The count at the start of the note at `j` is the number of notes in
/// between.
proof fn lemma_sounding_at_start(h: Seq<NoteExpression>, j: int)
    requires
        ends_after_starts(h),
        0 <= j < h.len(),
    ensures
        sounding_at_start(h, j) == between_count(h, j, h.len()),
        1 <= sounding_at_start(h, j) <= h.len(),
{
    lemma_started_is_ended_and_between(h, j, h.len());
}

/// The peak over the first `n` notes is at least the count at the start of
/// each of them.
proof fn lemma_peak_covers(h: Seq<NoteExpression>, n: nat, j: int)
    requires
        0 <= j < n <= h.len(),
    ensures
        sounding_at_start(h, j) <= peak_sounding(h, n),
    decreases n,
{
    if j < n - 1 {
        lemma_peak_covers(h, (n - 1) as nat, j);
    }
}

/// The peak over the first `n` notes is at most the largest count at the
/// start of one of them.
proof fn lemma_peak_bound(h: Seq<NoteExpression>, n: nat, cap: nat)
    requires
        n <= h.len(),
        forall|j: int| 0 <= j < n ==> #[trigger] sounding_at_start(h, j) <= cap,
    ensures
        peak_sounding(h, n) <= cap,
    decreases n,
{
    if n > 0 {
        lemma_peak_bound(h, (n - 1) as nat, cap);
    }
}

/// Among the first `n` notes, the index of one that sounds at `t` and whose
/// start is taken last, or -1 if none of them sounds at `t`.
spec fn latest_sounding(h: Seq<NoteExpression>, t: u64, n: nat) -> int
    decreases n,
{
    if n == 0 {
        -1
    } else {
        let rest = latest_sounding(h, t, (n - 1) as nat);
        if sounds_at(h[n - 1], t) && (rest < 0 || h[n - 1].start_time >= h[rest].start_time) {
            n - 1
        } else {
            rest
        }
    }
}

proof fn lemma_latest_sounding(h: Seq<NoteExpression>, t: u64, n: nat)
    requires
        n <= h.len(),
    ensures
        ({
            let j = latest_sounding(h, t, n);
            &&& -1 <= j < n
            &&& j < 0 ==> forall|i: int| 0 <= i < n ==> !sounds_at(#[trigger] h[i], t)
            &&& j >= 0 ==> sounds_at(h[j], t) && forall|i: int|
                0 <= i < n && sounds_at(#[trigger] h[i], t) ==> started_by(h, i, j)
        }),
    decreases n,
{
    if n > 0 {
        lemma_latest_sounding(h, t, (n - 1) as nat);
    }
}

/// If every note that sounds at `t` is in between at the start of the note
/// at `j`, no more notes sound at `t` than are in between there.
proof fn lemma_sounding_is_between(h: Seq<NoteExpression>, t: u64, j: int, n: nat)
    requires
        n <= h.len(),
        0 <= j < h.len(),
        forall|i: int|
            0 <= i < n && sounds_at(#[trigger] h[i], t) ==> started_by(h, i, j) && !ended_by(
                h,
                i,
                j,
            ),
    ensures
        sounding(h, t, n) <= between_count(h, j, n),
    decreases n,
{
    if n > 0 {
        lemma_sounding_is_between(h, t, j, (n - 1) as nat);
        if sounds_at(h[n - 1], t) {
            assert(started_by(h, n - 1, j) && !ended_by(h, n - 1, j));
        }
    }
}

/// No notes sound where none of them sounds.
proof fn lemma_none_sounding(h: Seq<NoteExpression>, t: u64, n: nat)
    requires
        n <= h.len(),
        forall|i: int| 0 <= i < n ==> !sounds_at(#[trigger] h[i], t),
    ensures
        sounding(h, t, n) == 0,
    decreases n,
{
    if n > 0 {
        lemma_none_sounding(h, t, (n - 1) as nat);
        assert(!sounds_at(h[n - 1], t));
    }
}

/// Polyphony counts every completed note: in a history whose notes end no
/// earlier than they start, it is at least one and at most the number of
/// notes, unless there are none.
pub proof fn lemma_polyphony_counts_every_note(h: Seq<NoteExpression>)
    requires
        ends_after_starts(h),
    ensures
        polyphony(h) <= h.len(),
        h.len() > 0 ==> polyphony(h) >= 1,
{
    assert forall|j: int| 0 <= j < h.len() implies #[trigger] sounding_at_start(h, j)
        <= h.len() by {
        lemma_sounding_at_start(h, j);
    }
    lemma_peak_bound(h, h.len(), h.len());
    if h.len() > 0 {
        lemma_sounding_at_start(h, 0);
        lemma_peak_covers(h, h.len(), 0);
    }
}

/// Polyphony bounds every instant: in a history whose notes end no earlier
/// than they start, at no time do more notes sound, each from its start up
/// to its end, than the polyphony says.
pub proof fn lemma_polyphony_bounds_every_instant(h: Seq<NoteExpression>, t: u64)
    requires
        ends_after_starts(h),
    ensures
        sounding(h, t, h.len()) <= polyphony(h),
{
    lemma_latest_sounding(h, t, h.len());
    let j = latest_sounding(h, t, h.len());
    if j < 0 {
        lemma_none_sounding(h, t, h.len());
    } else {
        assert forall|i: int| 0 <= i < h.len() && sounds_at(#[trigger] h[i], t) implies started_by(
            h,
            i,
            j,
        ) && !ended_by(h, i, j) by {}
        lemma_sounding_is_between(h, t, j, h.len());
        lemma_sounding_at_start(h, j);
        lemma_peak_covers(h, h.len(), j);
    }
}

/// Polyphony is reached: unless it is zero, as many notes as it says sound
/// at the start of some note.
pub proof fn lemma_polyphony_is_reached(h: Seq<NoteExpression>, n: nat)
    requires
        n <= h.len(),
    ensures
        peak_sounding(h, n) == 0 || exists|j: int|
            0 <= j < n && #[trigger] sounding_at_start(h, j) == peak_sounding(h, n),
    decreases n,
{
    if n > 0 {
        lemma_polyphony_is_reached(h, (n - 1) as nat);
        let rest = peak_sounding(h, (n - 1) as nat);
        let here = sounding_at_start(h, n - 1);
        if here > rest {
            assert(sounding_at_start(h, n - 1) == peak_sounding(h, n));
        } else if rest != 0 {
            let j = choose|j: int| 0 <= j < n - 1 && #[trigger] sounding_at_start(h, j) == rest;
            assert(0 <= j < n && sounding_at_start(h, j) == peak_sounding(h, n));
        }
    }
}

/// A note that ends at its own start counts: a history of one such note has
/// polyphony one.
pub proof fn lemma_a_note_without_length_counts(e: NoteExpression)
    requires
        e.start_time == e.last_update,
    ensures
        polyphony(seq![e]) == 1,
{
    let h = seq![e];
    assert(h[0] == e);
    reveal_with_fuel(started_count, 2);
    reveal_with_fuel(ended_count, 2);
    reveal_with_fuel(peak_sounding, 2);
    assert(started_count(h, 0, 1) == 1);
    assert(ended_count(h, 0, 1) == 0);
    assert(sounding_at_start(h, 0) == 1);
}

/// The two step tables hold the same numbers, one and two.
proof fn lemma_step_tables_agree(class: usize)
    ensures
        major_steps().contains(class) <==> (class == 1 || class == 2),
        minor_steps().contains(class) <==> (class == 1 || class == 2),
{
    let major = major_steps();
    let minor = minor_steps();
    assert(major[0] == 2 && major[2] == 1);
    assert(minor[0] == 2 && minor[1] == 1);
    if major.contains(class) {
        let j = choose|j: int| 0 <= j < major.len() && major[j] == class;
        assert(j == 0 || j == 1 || j == 2 || j == 3 || j == 4 || j == 5 || j == 6);
    }
    if minor.contains(class) {
        let j = choose|j: int| 0 <= j < minor.len() && minor[j] == class;
        assert(j == 0 || j == 1 || j == 2 || j == 3 || j == 4 || j == 5 || j == 6);
    }
}

proof fn lemma_scale_matches_agree(histogram: Seq<usize>, n: nat)
    ensures
        scale_matches(histogram, major_steps(), n) == scale_matches(histogram, minor_steps(), n),
    decreases n,
{
    if n > 0 {
        lemma_scale_matches_agree(histogram, (n - 1) as nat);
        lemma_step_tables_agree((n - 1) as usize);
    }
}

/// The scale heuristic cannot tell the scales apart: it holds pitch classes
/// against step sizes, and both step tables hold the same sizes, so it names
/// every histogram "Unknown".
pub proof fn lemma_scale_is_never_told(histogram: Seq<usize>)
    ensures
        scale_name(histogram) == "Unknown"@,
{
    lemma_scale_matches_agree(histogram, 12);
}

/// The key is a most frequent pitch class, and the lowest of them.
pub proof fn lemma_first_peak(histogram: Seq<usize>, n: nat)
    requires
        1 <= n <= histogram.len(),
    ensures
        ({
            let k = first_peak(histogram, n);
            &&& 0 <= k < n
            &&& forall|j: int| 0 <= j < n ==> #[trigger] histogram[j] <= histogram[k]
            &&& forall|j: int| 0 <= j < k ==> #[trigger] histogram[j] < histogram[k]
        }),
    decreases n,
{
    if n > 1 {
        lemma_first_peak(histogram, (n - 1) as nat);
    }
}

} // verus!
