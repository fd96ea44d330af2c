//! Readings of a clock that always moves on, to seed random numbers with.

use vstd::prelude::*;

verus! {

/// The processor's time stamp, from its two halves.
pub fn cputicks(lo: u32, hi: u32) -> (r: u64)
    ensures
        r == hi * 0x1_0000_0000 + lo,
{
    hi as u64 * 0x1_0000_0000 + lo as u64
}

/// Nanoseconds on a clock that gives seconds and nanoseconds, modulo the word.
pub fn clock_ticks(sec: u64, nsec: u64) -> (r: u64)
    ensures
        r == sec.wrapping_mul(1_000_000_000).wrapping_add(nsec),
        sec * 1_000_000_000 + nsec <= u64::MAX ==> r == sec * 1_000_000_000 + nsec,
{
    sec.wrapping_mul(1_000_000_000).wrapping_add(nsec)
}

} // verus!
