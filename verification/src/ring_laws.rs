//! Laws of the ring transport: while the frames that wait stay below the
//! capacity, the ring behaves as a first-in, first-out queue of events.

use vstd::prelude::*;
use vstd::arithmetic::div_mod::*;
use vstd::utf8::*;
use crate::ring::{
    le_bytes, le_value, lemma_le_bytes_len, lemma_le_limits, lemma_le_round_trip,
    lemma_ring_offset, ring_get, ring_put,
};
use crate::shared_buffer::{
    frame, frame_body_len, lemma_frame_len, lemma_ring_walk, lossy_text, EventView, RingView,
};

verus! {

/// An event whose frame can say its own lengths: the `total_size` field, and
/// with it the two other length fields, fits 32 bits.
pub open spec fn encodable(e: EventView) -> bool {
    frame_body_len(e) <= 0xFFFF_FFFF
}

/// The frames of the events of `q`, one after the other.
pub open spec fn frames(q: Seq<EventView>) -> Seq<u8>
    decreases q.len(),
{
    if q.len() == 0 {
        Seq::empty()
    } else {
        frame(q[0]) + frames(q.drop_first())
    }
}

/// The bytes between the read cursor and the write cursor.
pub open spec fn pending(v: RingView) -> Seq<u8> {
    ring_get(v.region, v.read_pos, v.used() as nat)
}

/// The ring holds exactly the events of `q`, oldest first.
pub open spec fn holds(v: RingView, q: Seq<EventView>) -> bool {
    v.wf() && pending(v) == frames(q)
}

/// The frames of a queue with one more event at its end.
pub proof fn lemma_frames_push(q: Seq<EventView>, e: EventView)
    ensures
        frames(q.push(e)) == frames(q) + frame(e),
    decreases q.len(),
{
    if q.len() == 0 {
        let one = q.push(e);
        assert(one.drop_first().len() == 0);
        assert(one[0] == e);
        assert(frames(one.drop_first()) =~= Seq::<u8>::empty());
        assert(frames(q) =~= Seq::<u8>::empty());
        assert(frames(one) =~= frames(q) + frame(e));
    } else {
        lemma_frames_push(q.drop_first(), e);
        assert(q.push(e).drop_first() =~= q.drop_first().push(e));
        assert(frames(q.push(e)) =~= frames(q) + frame(e));
    }
}

/// The write cursor stands `used` cells after the read cursor.
proof fn lemma_used_cursor(v: RingView)
    requires
        v.wf(),
        v.capacity() > 0,
    ensures
        0 <= v.used() < v.capacity(),
        v.write_pos == (v.read_pos + v.used()) % v.capacity(),
{
    let cap = v.capacity();
    if v.write_pos >= v.read_pos {
        lemma_fundamental_div_mod_converse_mod(v.read_pos + v.used(), cap, 0, v.write_pos);
    } else {
        lemma_fundamental_div_mod_converse_mod(v.read_pos + v.used(), cap, 1, v.write_pos);
    }
}

/// A write cursor that stands `u` cells after the read cursor means that `u`
/// cells are used.
proof fn lemma_used_is(v: RingView, u: int)
    requires
        v.wf(),
        v.capacity() > 0,
        0 <= u < v.capacity(),
        v.write_pos == (v.read_pos + u) % v.capacity(),
    ensures
        v.used() == u,
{
    let cap = v.capacity();
    lemma_fundamental_div_mod(v.read_pos + u, cap);
    let q = (v.read_pos + u) / cap;
    assert(q == 0 || q == 1) by (nonlinear_arith)
        requires
            v.read_pos + u == cap * q + v.write_pos,
            0 <= v.write_pos < cap,
            0 <= v.read_pos + u < 2 * cap,
    ;
    if q == 0 {
        assert(cap * q == 0);
    } else {
        assert(cap * q == cap);
    }
}

/// A field that lies within the pending bytes is a part of them.
proof fn lemma_field_of_pending(v: RingView, offset: int, len: nat)
    requires
        0 <= offset,
        offset + len <= v.used(),
    ensures
        v.field(offset, len) == pending(v).subrange(offset, offset + len),
{
    assert(v.field(offset, len) =~= pending(v).subrange(offset, offset + len));
}

/// Writing an event that leaves at least one cell free appends it to what
/// the ring holds.
pub proof fn lemma_write_appends(v: RingView, q: Seq<EventView>, e: EventView)
    requires
        holds(v, q),
        frames(q).len() + frame(e).len() < v.capacity(),
    ensures
        v.accepts(e),
        holds(v.write(e), q.push(e)),
{
    let cap = v.capacity();
    let u = v.used();
    let f = frame(e);
    let fl = f.len() as int;
    let r = v.read_pos;
    let w = v.write_pos;
    lemma_frame_len(e);
    lemma_used_cursor(v);
    assert(u == frames(q).len());
    let after = v.write(e);
    lemma_mod_bound(w + fl, cap);
    lemma_ring_walk(r, u, fl, cap);
    lemma_used_is(after, u + fl);
    lemma_frames_push(q, e);
    assert forall|i: int| 0 <= i < u + fl implies #[trigger] pending(after)[i] == (pending(v)
        + f)[i] by {
        let j = (r + i) % cap;
        lemma_mod_bound(r + i, cap);
        if i < u {
            let o = cap + i - u;
            lemma_ring_offset(w, o, j, cap);
            lemma_ring_walk(r, u, o, cap);
            lemma_mod_add_multiples_vanish(r + i, cap);
        } else {
            let o = i - u;
            lemma_ring_offset(w, o, j, cap);
            lemma_ring_walk(r, u, o, cap);
        }
    }
    assert(pending(after) =~= pending(v) + f);
}

/// An event that would fill the ring past its last free cell is refused, and
/// the ring stays as it was.
pub proof fn lemma_write_refused_when_full(v: RingView, q: Seq<EventView>, e: EventView)
    requires
        holds(v, q),
        frames(q).len() + frame(e).len() > v.capacity(),
    ensures
        !v.accepts(e),
        v.write(e) == v,
{
    lemma_frame_len(e);
}

/// A ring that holds no events is empty: a read returns nothing and leaves
/// the ring as it was.
pub proof fn lemma_read_empty(v: RingView)
    requires
        holds(v, Seq::empty()),
    ensures
        v.is_empty(),
        v.read_result().is_none(),
        v.read() == v,
{
    assert(frames(Seq::<EventView>::empty()).len() == 0);
}

/// An empty ring holds no events.
pub proof fn lemma_empty_holds_nothing(v: RingView)
    requires
        v.wf(),
        v.is_empty(),
    ensures
        holds(v, Seq::empty()),
{
    assert(pending(v) =~= frames(Seq::<EventView>::empty()));
}

/// Reading from a ring that holds events returns the oldest one and leaves
/// the others.
pub proof fn lemma_read_pops(v: RingView, q: Seq<EventView>)
    requires
        holds(v, q),
        q.len() > 0,
        encodable(q[0]),
    ensures
        v.read_result() == Some(q[0]),
        holds(v.read(), q.drop_first()),
{
    let e = q[0];
    let rest = frames(q.drop_first());
    let f = frame(e);
    let fl = f.len() as int;
    let name = encode_utf8(e.device_name);
    let dl = e.data.len();
    let nl = name.len();
    let di = dl as int;
    let ni = nl as int;
    let p = pending(v);
    lemma_frame_len(e);
    lemma_le_bytes_len(frame_body_len(e), 4);
    lemma_le_bytes_len(e.timestamp as nat, 8);
    lemma_le_bytes_len(dl, 4);
    lemma_le_bytes_len(nl, 4);
    lemma_le_limits();
    assert(p == f + rest);
    let u = v.used();
    assert(u == fl + rest.len());
    let cap = v.capacity();
    assert(cap > 0);
    lemma_used_cursor(v);
    let r = v.read_pos;

    lemma_field_of_pending(v, 12, 4);
    assert(p.subrange(12, 16) =~= le_bytes(dl, 4));
    lemma_le_round_trip(dl, 4);
    assert(v.head_data_len() == dl);

    lemma_field_of_pending(v, 16 + di, 4);
    assert(p.subrange(16 + di, 20 + di) =~= le_bytes(nl, 4));
    lemma_le_round_trip(nl, 4);
    assert(v.head_name_len() == nl);

    lemma_field_of_pending(v, 4, 8);
    assert(p.subrange(4, 12) =~= le_bytes(e.timestamp as nat, 8));
    lemma_le_round_trip(e.timestamp as nat, 8);

    lemma_field_of_pending(v, 16, dl);
    assert(p.subrange(16, 16 + di) =~= e.data);

    lemma_field_of_pending(v, 20 + di, nl);
    assert(p.subrange(20 + di, 20 + di + ni) =~= name);
    encode_utf8_valid_utf8(e.device_name);
    encode_utf8_decode_utf8(e.device_name);
    assert(lossy_text(name) == e.device_name);

    let got = v.head_event();
    assert(got.data == e.data);
    assert(got.timestamp == e.timestamp);
    assert(got.device_name == e.device_name);
    assert(got == e);

    let after = v.read();
    lemma_mod_bound(r + fl, cap);
    lemma_ring_walk(r, fl, u - fl, cap);
    lemma_used_is(after, u - fl);
    assert forall|i: int| 0 <= i < u - fl implies #[trigger] pending(after)[i] == rest[i] by {
        lemma_ring_walk(r, fl, i, cap);
        assert(p[fl + i] == rest[i]);
    }
    assert(pending(after) =~= rest);
}

/// The ring after the events of `es` have been written in turn.
pub open spec fn write_all(v: RingView, es: Seq<EventView>) -> RingView
    decreases es.len(),
{
    if es.len() == 0 {
        v
    } else {
        write_all(v.write(es[0]), es.drop_first())
    }
}

/// Every write of `es` in turn is accepted.
pub open spec fn all_accepted(v: RingView, es: Seq<EventView>) -> bool
    decreases es.len(),
{
    es.len() == 0 || (v.accepts(es[0]) && all_accepted(v.write(es[0]), es.drop_first()))
}

/// What `n` reads in turn return.
pub open spec fn read_all(v: RingView, n: nat) -> Seq<Option<EventView>>
    decreases n,
{
    if n == 0 {
        Seq::empty()
    } else {
        seq![v.read_result()] + read_all(v.read(), (n - 1) as nat)
    }
}

/// The ring after `n` reads.
pub open spec fn after_reads(v: RingView, n: nat) -> RingView
    decreases n,
{
    if n == 0 {
        v
    } else {
        after_reads(v.read(), (n - 1) as nat)
    }
}

/// Writing a run of events that leaves a cell free appends them all.
pub proof fn lemma_write_all_appends(v: RingView, q: Seq<EventView>, es: Seq<EventView>)
    requires
        holds(v, q),
        frames(q).len() + frames(es).len() < v.capacity(),
    ensures
        all_accepted(v, es),
        holds(write_all(v, es), q + es),
    decreases es.len(),
{
    if es.len() == 0 {
        assert(q + es =~= q);
    } else {
        lemma_write_appends(v, q, es[0]);
        lemma_frames_push(q, es[0]);
        lemma_write_all_appends(v.write(es[0]), q.push(es[0]), es.drop_first());
        assert(q.push(es[0]) + es.drop_first() =~= q + es);
    }
}

/// Reading as often as the ring holds events returns them oldest first and
/// leaves the ring empty.
pub proof fn lemma_read_all_pops(v: RingView, q: Seq<EventView>)
    requires
        holds(v, q),
        forall|i: int| 0 <= i < q.len() ==> encodable(#[trigger] q[i]),
    ensures
        read_all(v, q.len()) == q.map_values(|e: EventView| Some(e)),
        holds(after_reads(v, q.len()), Seq::empty()),
    decreases q.len(),
{
    let want = q.map_values(|e: EventView| Some(e));
    if q.len() == 0 {
        assert(read_all(v, 0) =~= want);
        assert(q =~= Seq::empty());
    } else {
        lemma_read_pops(v, q);
        let rest = q.drop_first();
        assert forall|i: int| 0 <= i < rest.len() implies encodable(#[trigger] rest[i]) by {
            assert(rest[i] == q[i + 1]);
        }
        lemma_read_all_pops(v.read(), rest);
        assert(read_all(v, q.len()) =~= want);
    }
}

/// Round trip. Events written to an empty ring, whose frames together leave
/// at least one cell free, are all accepted; as many reads return the same
/// events in the same order; and the ring is empty again after them.
pub proof fn lemma_round_trip(v: RingView, es: Seq<EventView>)
    requires
        v.wf(),
        v.is_empty(),
        forall|i: int| 0 <= i < es.len() ==> encodable(#[trigger] es[i]),
        frames(es).len() < v.capacity(),
    ensures
        all_accepted(v, es),
        read_all(write_all(v, es), es.len()) == es.map_values(|e: EventView| Some(e)),
        after_reads(write_all(v, es), es.len()).is_empty(),
        after_reads(write_all(v, es), es.len()).read_result().is_none(),
{
    let none = Seq::<EventView>::empty();
    lemma_empty_holds_nothing(v);
    assert(frames(none).len() == 0);
    lemma_write_all_appends(v, none, es);
    assert(none + es =~= es);
    lemma_read_all_pops(write_all(v, es), es);
    lemma_read_empty(after_reads(write_all(v, es), es.len()));
}

/// The limit of a ring that keeps no cell free: a frame that takes exactly
/// the space available is accepted, and brings the write cursor round to
/// the read cursor. Cursors that coincide mean an empty ring, so the next
/// read returns nothing, and the frame and all that waited before it are
/// lost to the reader.
pub proof fn lemma_exact_fit_reads_as_empty(v: RingView, e: EventView)
    requires
        v.wf(),
        frame_body_len(e) + 4 == v.available(),
    ensures
        v.accepts(e),
        v.write(e).wf(),
        v.write(e).is_empty(),
        v.write(e).read_result().is_none(),
        v.write(e).read() == v.write(e),
{
    let cap = v.capacity();
    let used = v.used();
    let len = frame_body_len(e) as int + 4;
    lemma_used_cursor(v);
    lemma_ring_walk(v.read_pos, used, len, cap);
    lemma_mod_add_multiples_vanish(v.read_pos, cap);
    lemma_small_mod(v.read_pos as nat, cap as nat);
}

} // verus!
