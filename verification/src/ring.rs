//! Byte-level arithmetic of the ring transport: little-endian integers and
//! walks around a circular region.

use vstd::prelude::*;
use vstd::arithmetic::div_mod::*;

verus! {

/// The number of values that `width` bytes can tell apart: 256 to the power
/// `width`.
pub open spec fn le_limit(width: nat) -> nat
    decreases width,
{
    if width == 0 {
        1
    } else {
        256 * le_limit((width - 1) as nat)
    }
}

/// The low `width` bytes of `x`, least significant first.
pub open spec fn le_bytes(x: nat, width: nat) -> Seq<u8>
    decreases width,
{
    if width == 0 {
        Seq::empty()
    } else {
        seq![(x % 256) as u8] + le_bytes(x / 256, (width - 1) as nat)
    }
}

/// The number that little-endian bytes stand for.
pub open spec fn le_value(b: Seq<u8>) -> nat
    decreases b.len(),
{
    if b.len() == 0 {
        0
    } else {
        b[0] as nat + 256 * le_value(b.drop_first())
    }
}

/// `le_bytes` yields exactly `width` bytes.
pub proof fn lemma_le_bytes_len(x: nat, width: nat)
    ensures
        le_bytes(x, width).len() == width,
    decreases width,
{
    if width > 0 {
        lemma_le_bytes_len(x / 256, (width - 1) as nat);
    }
}

/// Decoding undoes encoding for numbers that fit the width.
pub proof fn lemma_le_round_trip(x: nat, width: nat)
    requires
        x < le_limit(width),
    ensures
        le_value(le_bytes(x, width)) == x,
    decreases width,
{
    lemma_le_bytes_len(x, width);
    if width > 0 {
        let rest = le_bytes(x / 256, (width - 1) as nat);
        lemma_le_round_trip(x / 256, (width - 1) as nat);
        assert(le_bytes(x, width).drop_first() =~= rest);
    }
}

/// The value of `b` is below the limit of its width.
pub proof fn lemma_le_value_bound(b: Seq<u8>)
    ensures
        le_value(b) < le_limit(b.len()),
    decreases b.len(),
{
    if b.len() > 0 {
        lemma_le_value_bound(b.drop_first());
    }
}

/// Four bytes tell 2^32 values apart, eight bytes 2^64.
pub proof fn lemma_le_limits()
    ensures
        le_limit(4) == 0x1_0000_0000,
        le_limit(8) == 0x1_0000_0000_0000_0000,
{
    reveal_with_fuel(le_limit, 9);
}

/// Encodes the low `width` bytes of `x`, least significant first.
pub fn le_encode(x: u64, width: usize) -> (out: Vec<u8>)
    ensures
        out@ == le_bytes(x as nat, width as nat),
{
    let mut out: Vec<u8> = Vec::new();
    let mut rest: u64 = x;
    let mut i: usize = 0;
    while i < width
        invariant
            i <= width,
            out@ + le_bytes(rest as nat, (width - i) as nat) == le_bytes(x as nat, width as nat),
        decreases width - i,
    {
        let ghost before = out@;
        out.push((rest % 256) as u8);
        proof {
            let tail = le_bytes((rest / 256) as nat, (width - i - 1) as nat);
            assert(le_bytes(rest as nat, (width - i) as nat) == seq![(rest % 256) as u8] + tail);
            assert(out@ + tail =~= before + (seq![(rest % 256) as u8] + tail));
        }
        rest = rest / 256;
        i = i + 1;
    }
    proof {
        assert(out@ + le_bytes(rest as nat, 0) =~= out@);
    }
    out
}

/// Decodes up to eight little-endian bytes.
pub fn le_decode(bytes: &Vec<u8>) -> (x: u64)
    requires
        bytes.len() <= 8,
    ensures
        x == le_value(bytes@),
{
    let mut x: u64 = 0;
    let mut i: usize = bytes.len();
    proof {
        assert(bytes@.subrange(i as int, bytes.len() as int).len() == 0);
    }
    while i > 0
        invariant
            i <= bytes.len() <= 8,
            x == le_value(bytes@.subrange(i as int, bytes.len() as int)),
        decreases i,
    {
        proof {
            let now = bytes@.subrange(i - 1, bytes.len() as int);
            let was = bytes@.subrange(i as int, bytes.len() as int);
            assert(now.drop_first() =~= was);
            lemma_le_value_bound(now);
            lemma_le_limit_grows(now.len(), 8);
            lemma_le_limits();
        }
        i = i - 1;
        x = x * 256 + bytes[i] as u64;
    }
    proof {
        assert(bytes@.subrange(0, bytes.len() as int) =~= bytes@);
    }
    x
}

/// A wider field tells more values apart.
pub proof fn lemma_le_limit_grows(narrow: nat, wide: nat)
    requires
        narrow <= wide,
    ensures
        le_limit(narrow) <= le_limit(wide),
    decreases wide,
{
    if narrow < wide {
        lemma_le_limit_grows(narrow, (wide - 1) as nat);
    }
}

/// The `len` bytes met when walking the ring from cell `start`.
pub open spec fn ring_get(region: Seq<u8>, start: int, len: nat) -> Seq<u8> {
    Seq::new(len, |i: int| region[(start + i) % (region.len() as int)])
}

/// The region after `bytes` have been laid into the ring from cell `start`.
pub open spec fn ring_put(region: Seq<u8>, start: int, bytes: Seq<u8>) -> Seq<u8> {
    Seq::new(
        region.len(),
        |j: int|
            {
                let offset = (j - start) % (region.len() as int);
                if offset < bytes.len() {
                    bytes[offset]
                } else {
                    region[j]
                }
            },
    )
}

/// One step around a ring of `cap` cells.
pub proof fn lemma_ring_step(x: int, cap: int)
    requires
        cap > 0,
    ensures
        (x + 1) % cap == if x % cap + 1 == cap {
            0
        } else {
            x % cap + 1
        },
{
    lemma_fundamental_div_mod(x, cap);
    lemma_mod_bound(x, cap);
    let q = x / cap;
    let r = x % cap;
    if r + 1 == cap {
        assert(x + 1 == (q + 1) * cap + 0) by (nonlinear_arith)
            requires
                x == cap * q + r,
                r + 1 == cap,
        ;
        lemma_fundamental_div_mod_converse_mod(x + 1, cap, q + 1, 0);
    } else {
        assert(x + 1 == q * cap + (r + 1)) by (nonlinear_arith)
            requires
                x == cap * q + r,
        ;
        lemma_fundamental_div_mod_converse_mod(x + 1, cap, q, r + 1);
    }
}

/// Which cell a step of `offset` from `start` falls on, read backwards:
/// cell `j` lies `offset` steps after `start` exactly when `j` is the cell
/// reached from `start` in `offset` steps.
pub proof fn lemma_ring_offset(start: int, offset: int, j: int, cap: int)
    requires
        cap > 0,
        0 <= offset < cap,
        0 <= j < cap,
    ensures
        ((j - start) % cap == offset) <==> (j == (start + offset) % cap),
{
    lemma_mod_bound(j - start, cap);
    lemma_mod_bound(start + offset, cap);
    lemma_fundamental_div_mod(j - start, cap);
    lemma_fundamental_div_mod(start + offset, cap);
    if (j - start) % cap == offset {
        let q = (j - start) / cap;
        assert(start + offset == (-q) * cap + j) by (nonlinear_arith)
            requires
                j - start == cap * q + offset,
        ;
        lemma_fundamental_div_mod_converse_mod(start + offset, cap, -q, j);
    }
    if j == (start + offset) % cap {
        let q = (start + offset) / cap;
        assert(j - start == (-q) * cap + offset) by (nonlinear_arith)
            requires
                start + offset == cap * q + j,
        ;
        lemma_fundamental_div_mod_converse_mod(j - start, cap, -q, offset);
    }
}

/// Lays `bytes` into the ring from cell `start` and returns the cell after
/// the last byte.
pub fn ring_store(region: &mut Vec<u8>, start: usize, bytes: &[u8]) -> (end: usize)
    requires
        start < old(region).len(),
        bytes.len() <= old(region).len(),
    ensures
        final(region)@ == ring_put(old(region)@, start as int, bytes@),
        final(region).len() == old(region).len(),
        end as int == (start + bytes.len()) % (old(region).len() as int),
{
    let cap = region.len();
    let mut pos = start;
    let mut i: usize = 0;
    proof {
        lemma_small_mod(start as nat, cap as nat);
        assert(region@ =~= ring_put(old(region)@, start as int, bytes@.take(0)));
    }
    while i < bytes.len()
        invariant
            cap == region.len(),
            cap == old(region).len(),
            cap > 0,
            i <= bytes.len() <= cap,
            pos < cap,
            pos as int == (start + i) % (cap as int),
            region@ == ring_put(old(region)@, start as int, bytes@.take(i as int)),
        decreases bytes.len() - i,
    {
        region[pos] = bytes[i];
        proof {
            let next = ring_put(old(region)@, start as int, bytes@.take(i + 1));
            assert forall|j: int| 0 <= j < cap implies region@[j] == next[j] by {
                lemma_mod_bound(j - start, cap as int);
                lemma_ring_offset(start as int, i as int, j, cap as int);
            }
            assert(region@ =~= next);
            lemma_ring_step(start + i, cap as int);
        }
        pos = if pos + 1 == cap {
            0
        } else {
            pos + 1
        };
        i = i + 1;
    }
    proof {
        assert(bytes@.take(i as int) =~= bytes@);
    }
    pos
}

/// Copies `len` bytes out of the ring from cell `start` and returns them
/// with the cell after the last byte.
pub fn ring_load(region: &Vec<u8>, start: usize, len: usize) -> (out: (Vec<u8>, usize))
    requires
        start < region.len(),
    ensures
        out.0@ == ring_get(region@, start as int, len as nat),
        out.1 < region.len(),
        out.1 as int == (start + len) % (region.len() as int),
{
    let cap = region.len();
    let mut bytes: Vec<u8> = Vec::new();
    let mut pos = start;
    let mut i: usize = 0;
    proof {
        lemma_small_mod(start as nat, cap as nat);
    }
    while i < len
        invariant
            cap == region.len(),
            cap > 0,
            i <= len,
            pos < cap,
            pos as int == (start + i) % (cap as int),
            bytes@ == ring_get(region@, start as int, i as nat),
        decreases len - i,
    {
        bytes.push(region[pos]);
        proof {
            assert(bytes@ =~= ring_get(region@, start as int, (i + 1) as nat));
            lemma_ring_step(start + i, cap as int);
        }
        pos = if pos + 1 == cap {
            0
        } else {
            pos + 1
        };
        i = i + 1;
    }
    (bytes, pos)
}

} // verus!
