//! Levels that a kernel object publishes to its observers, as a bit set.
use vstd::prelude::*;

verus! {

/// A set of signal levels; one bit each.
pub type ObjectSignals = u64;

pub const NONE: u64 = 0;
pub const READABLE: u64 = 0x1;
pub const WRITABLE: u64 = 0x2;
pub const DATA: u64 = 0x4;
pub const PEER_ATTACHED: u64 = 0x8;
pub const PEER_CLOSED: u64 = 0x10;
pub const DONE: u64 = 0x20;
pub const REAPABLE: u64 = 0x40;
pub const EXECUTABLE: u64 = 0x80;

/// The terminal level; always the last bit.
pub const CLOSED: u64 = 0x100;

/// How many levels there are.
pub const COUNT: usize = 9;

/// Position of [`CLOSED`] among the bits.
pub const CLOSED_INDEX: usize = 8;

/// The level at position `i`.
pub open spec fn bit(i: int) -> ObjectSignals {
    1u64 << (i as u64)
}

/// `a` and `b` have a level in common.
pub open spec fn meets(a: ObjectSignals, b: ObjectSignals) -> bool {
    a & b != 0
}

/// The terminal level is set.
pub open spec fn closed(a: ObjectSignals) -> bool {
    meets(a, CLOSED)
}

/// The level at position `i`.
pub fn bit_at(i: usize) -> (r: ObjectSignals)
    requires
        i < COUNT,
    ensures
        r == bit(i as int),
{
    1u64 << (i as u64)
}

/// Whether `a` and `b` have a level in common.
pub fn intersects(a: ObjectSignals, b: ObjectSignals) -> (r: bool)
    ensures
        r == meets(a, b),
{
    a & b != 0
}

/// Whether every level of `b` is set in `a`.
pub fn contains(a: ObjectSignals, b: ObjectSignals) -> (r: bool)
    ensures
        r == (a & b == b),
        b == CLOSED ==> r == closed(a),
{
    assert(a & 0x100 == 0x100 <==> a & 0x100 != 0) by (bit_vector);
    a & b == b
}

/// [`CLOSED`] is the level at [`CLOSED_INDEX`], and meets itself alone among the
/// single levels.
pub proof fn closed_is_last()
    ensures
        bit(CLOSED_INDEX as int) == CLOSED,
        closed(CLOSED),
        meets(CLOSED, bit(CLOSED_INDEX as int)),
{
    assert(1u64 << 8u64 == 0x100u64 && 0x100u64 & 0x100u64 != 0) by (bit_vector);
}

/// Two sets that hold the same single level meet.
pub proof fn common_bit_meets(a: ObjectSignals, b: ObjectSignals, i: int)
    requires
        0 <= i < COUNT,
        meets(a, bit(i)),
        meets(b, bit(i)),
    ensures
        meets(a, b),
{
    let k = i as u64;
    assert(a & b != 0) by (bit_vector)
        requires
            k < 64,
            a & (1u64 << k) != 0,
            b & (1u64 << k) != 0,
    ;
}

/// The levels are single bits, each its own: the level at position `i` is two to the `i`, two
/// positions never meet, and a set meets a level exactly if it holds it.
pub proof fn levels_are_single_bits(i: int, j: int)
    requires
        0 <= i < COUNT,
        0 <= j < COUNT,
    ensures
        meets(bit(i), bit(j)) <==> i == j,
        bit(0) == READABLE && bit(1) == WRITABLE && bit(2) == DATA && bit(3) == PEER_ATTACHED,
        bit(4) == PEER_CLOSED && bit(5) == DONE && bit(6) == REAPABLE && bit(7) == EXECUTABLE,
        bit(8) == CLOSED,
        closed(bit(i)) <==> i == 8,
{
    let a = i as u64;
    let b = j as u64;
    assert(a < 64 && b < 64 ==> ((1u64 << a) & (1u64 << b) != 0 <==> a == b)) by (bit_vector);
    assert(1u64 << 0u64 == 0x1 && 1u64 << 1u64 == 0x2 && 1u64 << 2u64 == 0x4 && 1u64 << 3u64 == 0x8
        && 1u64 << 4u64 == 0x10 && 1u64 << 5u64 == 0x20 && 1u64 << 6u64 == 0x40 && 1u64 << 7u64
        == 0x80 && 1u64 << 8u64 == 0x100 && (a < 64 ==> ((1u64 << a) & 0x100 != 0 <==> a == 8)))
        by (bit_vector);
}

/// Meeting is mutual, and nothing meets the empty set.
pub proof fn meeting_is_mutual(a: ObjectSignals, b: ObjectSignals)
    ensures
        meets(a, b) <==> meets(b, a),
        !meets(a, NONE),
        meets(a, a) <==> a != NONE,
{
    assert(a & b == b & a && a & 0u64 == 0 && a & a == a) by (bit_vector);
}

} // verus!
