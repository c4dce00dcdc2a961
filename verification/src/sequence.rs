//! Comparison of 32-bit sequence numbers on the ring modulo 2^32.

use vstd::prelude::*;

verus! {

/// Number of steps from `from` forward to `to` on the sequence ring.
pub open spec fn ring_distance(from: u32, to: u32) -> int {
    (to - from) % 0x1_0000_0000
}

/// `lhs` lies strictly before `rhs` on the ring: the way from `rhs` forward
/// to `lhs` is longer than half the ring.
pub open spec fn spec_wrapping_lt(lhs: u32, rhs: u32) -> bool {
    ring_distance(rhs, lhs) > 0x8000_0000
}

/// `x` lies in the open interval between `start` and `end`.
pub open spec fn spec_between_wrapping(start: u32, x: u32, end: u32) -> bool {
    spec_wrapping_lt(start, x) && spec_wrapping_lt(x, end)
}

/// `x` lies in the closed interval from `low` to `high`, both ends included.
pub open spec fn spec_within_wrapping(low: u32, x: u32, high: u32) -> bool {
    spec_between_wrapping(low.wrapping_sub(1), x, high.wrapping_add(1))
}

/// The closed interval, read as distances from its lower end: `x` lies in
/// it where it is no further from `low` than `high` is, and the way from
/// `x` to `high` is then what is left of the interval. It holds for
/// intervals shorter than half the ring.
pub(crate) proof fn lemma_within_wrapping(low: u32, x: u32, high: u32)
    requires
        ring_distance(low, high) < 0x7fff_ffff,
    ensures
        spec_within_wrapping(low, x, high) <==> ring_distance(low, x) <= ring_distance(low, high),
        spec_within_wrapping(low, x, high) ==> ring_distance(x, high) == ring_distance(low, high)
            - ring_distance(low, x),
{
}

/// The window of `len` numbers that starts at `first`, read as distances
/// from `first`.
pub(crate) proof fn lemma_window(first: u32, x: u32, len: u32)
    requires
        0 < len < 0x7fff_ffff,
    ensures
        spec_between_wrapping(first.wrapping_sub(1), x, first.wrapping_add(len))
            <==> ring_distance(first, x) < len,
{
}

/// Order across the wrap: a number up to 2^31 - 1 steps ahead of `a`,
/// taken modulo 2^32, compares as later than `a`, and `a` never as later
/// than it.
pub proof fn law_wrapping_order(a: u32, k: u32)
    requires
        0 < k < 0x8000_0000,
    ensures
        spec_wrapping_lt(a, a.wrapping_add(k)),
        !spec_wrapping_lt(a.wrapping_add(k), a),
        a.wrapping_add(k).wrapping_sub(a) == k,
{
}

/// Whether `lhs` lies strictly before `rhs` on the ring.
pub fn wrapping_lt(lhs: u32, rhs: u32) -> (r: bool)
    ensures
        r == spec_wrapping_lt(lhs, rhs),
{
    lhs.wrapping_sub(rhs) > 0x8000_0000u32
}

/// Whether `x` lies strictly between `start` and `end` on the ring.
pub fn between_wrapping(start: u32, x: u32, end: u32) -> (r: bool)
    ensures
        r == spec_between_wrapping(start, x, end),
{
    wrapping_lt(start, x) && wrapping_lt(x, end)
}

} // verus!
