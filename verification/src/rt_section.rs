//! The part of the program's code that belongs to the runtime.

use vstd::prelude::*;

verus! {

/// A run of code, from `start` up to before `end`.
pub struct Section {
    pub start: u64,
    pub end: u64,
}

impl Section {
    pub open spec fn holds(&self, pc: u64) -> bool {
        self.start <= pc < self.end
    }
}

pub fn is_in_runtime(s: &Section, pc: u64) -> (r: bool)
    ensures
        r == s.holds(pc),
{
    pc >= s.start && pc < s.end
}

/// The bounds of a section and its length.
pub fn section_bounds(s: &Section) -> (r: (u64, u64, u64))
    ensures
        r.0 == s.start,
        r.1 == s.end,
        s.start <= s.end ==> r.2 == s.end - s.start,
        s.start > s.end ==> r.2 == s.end - s.start + 0x1_0000_0000_0000_0000,
{
    (s.start, s.end, s.end.wrapping_sub(s.start))
}

/// A section holds the addresses from its start on, up to before its end: an
/// empty one none, and each other its first address and its last but not its
/// end.
pub proof fn law_section_holds_its_addresses(s: Section, pc: u64)
    ensures
        s.holds(pc) <==> s.start <= pc && pc < s.end,
        s.start < s.end ==> s.holds(s.start) && s.holds((s.end - 1) as u64),
        !s.holds(s.end),
{
}

} // verus!
