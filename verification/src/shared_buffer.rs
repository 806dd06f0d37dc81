//! The ring transport: a fixed-capacity circular byte region that carries
//! framed MIDI events from one writer to one reader.
//!
//! A frame is laid out as
//! `[u32 total_size][u64 timestamp][u32 data_len][data][u32 name_len][name]`,
//! every integer little-endian. `total_size` counts everything after itself.
//! Cells are addressed modulo the capacity, so a frame may run over the end
//! of the region and continue at its start.

use vstd::prelude::*;
use std::time::{Duration, SystemTime, SystemTimeError};
use vstd::arithmetic::div_mod::*;
use vstd::string::*;
use vstd::utf8::*;
use crate::ring::{
    le_bytes, le_decode, le_encode, le_value, lemma_le_bytes_len, lemma_le_limits,
    lemma_le_value_bound, ring_get, ring_load, ring_put, ring_store,
};

verus! {

/// A MIDI event with its timestamp and the device it came from.
#[derive(Debug)]
pub struct MidiEvent {
    /// Raw MIDI bytes.
    pub data: Vec<u8>,
    /// Microseconds since the epoch.
    pub timestamp: u64,
    /// Name of the device that produced the event.
    pub device_name: String,
}

/// What an event is, apart from how it is stored.
pub struct EventView {
    pub data: Seq<u8>,
    pub timestamp: u64,
    pub device_name: Seq<char>,
}

impl View for MidiEvent {
    type V = EventView;

    open spec fn view(&self) -> EventView {
        EventView { data: self.data@, timestamp: self.timestamp, device_name: self.device_name@ }
    }
}

impl Clone for MidiEvent {
    fn clone(&self) -> (copy: Self)
        ensures
            copy@ == self@,
    {
        MidiEvent {
            data: self.data.clone(),
            timestamp: self.timestamp,
            device_name: self.device_name.clone(),
        }
    }
}

/// What a lossy UTF-8 decoding makes of bytes that are not valid UTF-8:
/// the valid sequences decoded, each invalid one replaced by U+FFFD.
pub uninterp spec fn utf8_lossy(bytes: Seq<u8>) -> Seq<char>;

/// The text read from `bytes`: their decoding where they are valid UTF-8,
/// else their lossy decoding.
pub open spec fn lossy_text(bytes: Seq<u8>) -> Seq<char> {
    if valid_utf8(bytes) {
        decode_utf8(bytes)
    } else {
        utf8_lossy(bytes)
    }
}

/// `String::from_utf8_lossy` of std, made into an owned `String`. On valid
/// UTF-8 the result is the decoded text, as the documentation of std says;
/// on other bytes it is named `utf8_lossy`.
#[verifier::external_body]
fn string_from_utf8_lossy(bytes: &Vec<u8>) -> (text: String)
    ensures
        text@ == (if valid_utf8(bytes@) {
            decode_utf8(bytes@)
        } else {
            utf8_lossy(bytes@)
        }),
{
    String::from_utf8_lossy(bytes.as_slice()).into_owned()
}

/// The system clock's points in time.
#[verifier::external_type_specification]
#[verifier::external_body]
pub struct ExSystemTime(SystemTime);

/// The error of a clock that stands before the point it is held against.
#[verifier::external_type_specification]
#[verifier::external_body]
pub struct ExSystemTimeError(SystemTimeError);

/// `SystemTime::now` of std: the system clock as it stands. Nothing is
/// claimed of it.
#[verifier::external_body]
fn system_now() -> (now: SystemTime) {
    SystemTime::now()
}

/// `SystemTime::duration_since` of std, held against the Unix epoch: the
/// time since the epoch, or an error for a clock that stands before it.
/// Nothing is claimed of either.
#[verifier::external_body]
fn since_epoch(now: &SystemTime) -> (span: Result<Duration, SystemTimeError>) {
    now.duration_since(SystemTime::UNIX_EPOCH)
}

/// `Duration::as_micros` of std: the whole microseconds of a span. Nothing
/// is claimed of their number.
#[verifier::external_body]
fn whole_micros(span: &Duration) -> (micros: u128) {
    span.as_micros()
}

/// The timestamp that a count of microseconds stands for: its low 64 bits.
pub open spec fn timestamp_of(micros: u128) -> u64 {
    (micros as int % 0x1_0000_0000_0000_0000) as u64
}

/// Turns a count of microseconds into a timestamp.
pub fn timestamp_from_micros(micros: u128) -> (stamp: u64)
    ensures
        stamp == timestamp_of(micros),
{
    (micros % 0x1_0000_0000_0000_0000) as u64
}

/// The timestamp that a reading of the clock stands for: that of its
/// microseconds, or zero for a clock that stands before the epoch.
pub open spec fn timestamp_of_reading(reading: Option<u128>) -> u64 {
    match reading {
        Some(micros) => timestamp_of(micros),
        None => 0,
    }
}

/// Turns a reading of the clock into a timestamp.
pub fn timestamp_from_clock(reading: Option<u128>) -> (stamp: u64)
    ensures
        stamp == timestamp_of_reading(reading),
{
    match reading {
        Some(micros) => timestamp_from_micros(micros),
        None => 0,
    }
}

/// The `total_size` field of the frame of `e`: the bytes that follow the
/// field itself.
pub open spec fn frame_body_len(e: EventView) -> nat {
    16 + e.data.len() + encode_utf8(e.device_name).len()
}

/// The bytes of the frame of `e`. Length fields hold their value modulo 2^32.
pub open spec fn frame(e: EventView) -> Seq<u8> {
    let name = encode_utf8(e.device_name);
    le_bytes(frame_body_len(e), 4) + le_bytes(e.timestamp as nat, 8) + le_bytes(e.data.len(), 4)
        + e.data + le_bytes(name.len(), 4) + name
}

/// The frame of `e` is its `total_size` field and as many bytes as the field
/// says.
pub proof fn lemma_frame_len(e: EventView)
    ensures
        frame(e).len() == frame_body_len(e) + 4,
{
    let name = encode_utf8(e.device_name);
    lemma_le_bytes_len(frame_body_len(e), 4);
    lemma_le_bytes_len(e.timestamp as nat, 8);
    lemma_le_bytes_len(e.data.len(), 4);
    lemma_le_bytes_len(name.len(), 4);
}

/// The state of a ring: its cells and the two cursors.
pub struct RingView {
    pub region: Seq<u8>,
    pub write_pos: int,
    pub read_pos: int,
}

impl RingView {
    /// The number of cells.
    pub open spec fn capacity(self) -> int {
        self.region.len() as int
    }

    /// Both cursors point at a cell (at 0 in a ring without cells).
    pub open spec fn wf(self) -> bool {
        &&& self.capacity() == 0 ==> self.write_pos == 0 && self.read_pos == 0
        &&& self.capacity() > 0 ==> 0 <= self.write_pos < self.capacity() && 0 <= self.read_pos
            < self.capacity()
    }

    /// The cells from the read cursor up to the write cursor.
    pub open spec fn used(self) -> int {
        if self.write_pos >= self.read_pos {
            self.write_pos - self.read_pos
        } else {
            self.capacity() - (self.read_pos - self.write_pos)
        }
    }

    /// The cells that a write may fill. Cursors that coincide count as an
    /// empty ring, so a write may fill every cell.
    pub open spec fn available(self) -> int {
        self.capacity() - self.used()
    }

    /// Whether the frame of `e` fits.
    pub open spec fn accepts(self, e: EventView) -> bool {
        frame_body_len(e) + 4 <= self.available()
    }

    /// The ring after an attempt to write `e`: with the frame laid in at the
    /// write cursor and the cursor moved past it, or unchanged if the frame
    /// does not fit.
    pub open spec fn write(self, e: EventView) -> RingView {
        if self.accepts(e) {
            RingView {
                region: ring_put(self.region, self.write_pos, frame(e)),
                write_pos: (self.write_pos + frame_body_len(e) + 4) % self.capacity(),
                read_pos: self.read_pos,
            }
        } else {
            self
        }
    }

    /// Cursors that coincide mean that nothing is waiting.
    pub open spec fn is_empty(self) -> bool {
        self.read_pos == self.write_pos
    }

    /// `len` bytes found `offset` cells after the read cursor.
    pub open spec fn field(self, offset: int, len: nat) -> Seq<u8> {
        ring_get(self.region, self.read_pos + offset, len)
    }

    /// The `data_len` field of the frame at the read cursor.
    pub open spec fn head_data_len(self) -> nat {
        le_value(self.field(12, 4))
    }

    /// The `name_len` field of the frame at the read cursor.
    pub open spec fn head_name_len(self) -> nat {
        le_value(self.field(16 + self.head_data_len() as int, 4))
    }

    /// The cells that the frame at the read cursor takes, going by its
    /// `data_len` and `name_len` fields.
    pub open spec fn head_len(self) -> nat {
        20 + self.head_data_len() + self.head_name_len()
    }

    /// The event that the frame at the read cursor holds.
    pub open spec fn head_event(self) -> EventView {
        EventView {
            data: self.field(16, self.head_data_len()),
            timestamp: le_value(self.field(4, 8)) as u64,
            device_name: lossy_text(
                self.field(20 + self.head_data_len() as int, self.head_name_len()),
            ),
        }
    }

    /// What a read returns: nothing from an empty ring, else the event at the
    /// read cursor.
    pub open spec fn read_result(self) -> Option<EventView> {
        if self.is_empty() {
            None
        } else {
            Some(self.head_event())
        }
    }

    /// The ring after a read: the read cursor moved past the frame it was at,
    /// or unchanged if the ring was empty.
    pub open spec fn read(self) -> RingView {
        if self.is_empty() {
            self
        } else {
            RingView {
                region: self.region,
                write_pos: self.write_pos,
                read_pos: (self.read_pos + self.head_len()) % self.capacity(),
            }
        }
    }
}

/// A walk of `a` steps and then `b` steps ends where a walk of `a + b` steps
/// ends.
pub proof fn lemma_ring_walk(start: int, a: int, b: int, cap: int)
    requires
        cap > 0,
    ensures
        ((start + a) % cap + b) % cap == (start + a + b) % cap,
{
    lemma_fundamental_div_mod(start + a, cap);
    let q = (start + a) / cap;
    lemma_mod_multiples_vanish(-q, start + a + b, cap);
    assert(cap * (-q) + (start + a + b) == (start + a) % cap + b) by (nonlinear_arith)
        requires
            start + a == cap * q + (start + a) % cap,
    ;
}

/// Walking from a cell or from any number that names the same cell meets the
/// same bytes.
pub proof fn lemma_ring_get_from_cell(region: Seq<u8>, start: int, len: nat)
    requires
        region.len() > 0,
    ensures
        ring_get(region, start % (region.len() as int), len) == ring_get(region, start, len),
{
    let cap = region.len() as int;
    assert forall|i: int| 0 <= i < len implies #[trigger] ring_get(region, start % cap, len)[i]
        == ring_get(region, start, len)[i] by {
        lemma_ring_walk(start, 0, i, cap);
    }
    assert(ring_get(region, start % cap, len) =~= ring_get(region, start, len));
}

/// A ring of framed MIDI events for one writer and one reader.
///
/// The ring takes one call at a time. It holds its region; `owns_buffer`
/// records whether it made the region itself or was handed it at
/// construction.
#[derive(Debug)]
pub struct SharedMidiBuffer {
    region: Vec<u8>,
    capacity: usize,
    write_pos: usize,
    read_pos: usize,
    owns_buffer: bool,
}

impl View for SharedMidiBuffer {
    type V = RingView;

    closed spec fn view(&self) -> RingView {
        RingView {
            region: self.region@,
            write_pos: self.write_pos as int,
            read_pos: self.read_pos as int,
        }
    }
}

impl SharedMidiBuffer {
    /// The capacity matches the region and both cursors point into it.
    pub closed spec fn wf(&self) -> bool {
        &&& self.capacity == self.region.len()
        &&& self@.wf()
    }

    /// Whether the ring allocated its region itself.
    pub closed spec fn owns_region(&self) -> bool {
        self.owns_buffer
    }

    /// Creates a ring that allocates and owns `capacity` zeroed cells.
    pub fn new(capacity: usize) -> (ring: Self)
        ensures
            ring.wf(),
            ring@.wf(),
            ring.owns_region(),
            ring@.region == Seq::new(capacity as nat, |i: int| 0u8),
            ring@.write_pos == 0,
            ring@.read_pos == 0,
    {
        let region = vec![0u8; capacity];
        proof {
            assert(region@ =~= Seq::new(capacity as nat, |i: int| 0u8));
        }
        SharedMidiBuffer { region, capacity, write_pos: 0, read_pos: 0, owns_buffer: true }
    }

    /// Creates a ring over a region that the caller supplies. Both cursors
    /// start at the first cell; the cells keep what they hold.
    pub fn from_raw(region: Vec<u8>) -> (ring: Self)
        ensures
            ring.wf(),
            ring@.wf(),
            !ring.owns_region(),
            ring@.region == region@,
            ring@.write_pos == 0,
            ring@.read_pos == 0,
    {
        let capacity = region.len();
        SharedMidiBuffer { region, capacity, write_pos: 0, read_pos: 0, owns_buffer: false }
    }

    /// Gives the ring up. A region that the caller supplied goes back to the
    /// caller; a region that the ring allocated is freed with the ring.
    pub fn release(self) -> (region: Option<Vec<u8>>)
        ensures
            match region {
                Some(cells) => !self.owns_region() && cells@ == self@.region,
                None => self.owns_region(),
            },
    {
        if self.owns_buffer {
            None
        } else {
            Some(self.region)
        }
    }

    /// The cells of the region, for the other side of the boundary to read.
    pub fn as_ptr(&self) -> (cells: &[u8])
        ensures
            cells@ == self@.region,
    {
        self.region.as_slice()
    }

    /// The cells of the region, for the other side of the boundary to fill.
    /// The cursors stay where they are.
    pub fn as_mut_ptr(&mut self) -> (cells: &mut [u8])
        requires
            old(self).wf(),
        ensures
            cells@ == old(self)@.region,
            final(cells)@.len() == cells@.len() ==> final(self).wf(),
            final(self).owns_region() == old(self).owns_region(),
            final(self)@.region == final(cells)@,
            final(self)@.write_pos == old(self)@.write_pos,
            final(self)@.read_pos == old(self)@.read_pos,
    {
        self.region.as_mut_slice()
    }

    /// The current time in microseconds since the epoch, for callers to stamp
    /// events with; zero while the system clock stands before the epoch.
    pub fn current_timestamp() -> u64 {
        let now = system_now();
        let reading = match since_epoch(&now) {
            Ok(span) => Some(whole_micros(&span)),
            Err(_) => None,
        };
        timestamp_from_clock(reading)
    }

    /// Writes `event` as one frame at the write cursor.
    ///
    /// Returns `false`, and changes nothing, when the frame with its size
    /// field is larger than the space available.
    ///
    /// The ring keeps no cell free, and cursors that coincide mean an empty
    /// ring. So a frame that takes exactly the space available is accepted
    /// and then reads as nothing: it brings the write cursor round to the
    /// read cursor, and what waited in the ring is lost to the reader. A
    /// writer that must not lose events keeps the frames that wait below the
    /// capacity.
    pub fn write(&mut self, event: &MidiEvent) -> (ok: bool)
        requires
            old(self).wf(),
        ensures
            final(self).wf(),
            old(self)@.wf(),
            final(self)@.wf(),
            final(self).owns_region() == old(self).owns_region(),
            ok == old(self)@.accepts(event@),
            final(self)@ == old(self)@.write(event@),
    {
        let name = event.device_name.as_str().as_bytes();
        let data_len = event.data.len();
        let name_len = name.len();
        let total: u128 = 16 + data_len as u128 + name_len as u128;
        let available: usize = if self.write_pos >= self.read_pos {
            self.capacity - (self.write_pos - self.read_pos)
        } else {
            self.read_pos - self.write_pos
        };
        if total + 4 > available as u128 {
            return false;
        }
        let mut bytes = le_encode(total as u64, 4);
        let mut stamp = le_encode(event.timestamp, 8);
        let mut data_size = le_encode(data_len as u64, 4);
        let mut name_size = le_encode(name_len as u64, 4);
        bytes.append(&mut stamp);
        bytes.append(&mut data_size);
        bytes.extend_from_slice(event.data.as_slice());
        bytes.append(&mut name_size);
        bytes.extend_from_slice(name);
        proof {
            lemma_frame_len(event@);
            assert(bytes@ =~= frame(event@));
        }
        let end = ring_store(&mut self.region, self.write_pos, bytes.as_slice());
        self.write_pos = end;
        true
    }

    /// Reads the frame at the read cursor and moves the cursor past it.
    ///
    /// Returns `None`, and changes nothing, when the cursors coincide.
    pub fn read(&mut self) -> (event: Option<MidiEvent>)
        requires
            old(self).wf(),
        ensures
            final(self).wf(),
            old(self)@.wf(),
            final(self)@.wf(),
            final(self).owns_region() == old(self).owns_region(),
            final(self)@ == old(self)@.read(),
            match event {
                Some(e) => old(self)@.read_result() == Some(e@),
                None => old(self)@.read_result().is_none(),
            },
    {
        if self.read_pos == self.write_pos {
            return None;
        }
        let ghost ring = self@;
        let ghost cap = self.capacity as int;
        let start = self.read_pos;
        let (_total, at_stamp) = ring_load(&self.region, start, 4);
        let (stamp, at_data_size) = ring_load(&self.region, at_stamp, 8);
        let (data_size, at_data) = ring_load(&self.region, at_data_size, 4);
        proof {
            lemma_ring_walk(start as int, 4, 8, cap);
            lemma_ring_walk(start as int, 12, 4, cap);
            lemma_ring_get_from_cell(ring.region, start + 4, 8);
            lemma_ring_get_from_cell(ring.region, start + 12, 4);
            lemma_le_value_bound(data_size@);
            lemma_le_value_bound(stamp@);
            lemma_le_limits();
        }
        let timestamp = le_decode(&stamp);
        let data_len = le_decode(&data_size);
        let (data, at_name_size) = ring_load(&self.region, at_data, data_len as usize);
        let (name_size, at_name) = ring_load(&self.region, at_name_size, 4);
        proof {
            lemma_ring_walk(start as int, 16, data_len as int, cap);
            lemma_ring_walk(start as int, 16 + data_len, 4, cap);
            lemma_ring_get_from_cell(ring.region, start + 16, data_len as nat);
            lemma_ring_get_from_cell(ring.region, start + 16 + data_len, 4);
            lemma_le_value_bound(name_size@);
        }
        let name_len = le_decode(&name_size);
        let (name, end) = ring_load(&self.region, at_name, name_len as usize);
        proof {
            lemma_ring_walk(start as int, 20 + data_len, name_len as int, cap);
            lemma_ring_get_from_cell(ring.region, start + 20 + data_len, name_len as nat);
        }
        self.read_pos = end;
        let device_name = string_from_utf8_lossy(&name);
        Some(MidiEvent { data, timestamp, device_name })
    }
}

} // verus!
