//! Readable words of memory, for walks along stack frames.

use vstd::prelude::*;

verus! {

/// A run of words that starts at an address; the rest cannot be read.
pub struct Memory<'a> {
    pub base: u64,
    pub words: &'a [u64],
}

impl<'a> Memory<'a> {
    /// The word at an address, if it is aligned to the run and inside it.
    pub open spec fn word(&self, addr: int) -> Option<u64> {
        let d = addr - self.base;
        if d >= 0 && d % 8 == 0 && d / 8 < self.words@.len() {
            Some(self.words@[d / 8])
        } else {
            None
        }
    }

    /// A frame record: the caller's frame, and the return address above it.
    pub open spec fn frame(&self, addr: u64) -> Option<(u64, u64)> {
        match (self.word(addr as int), self.word(addr + 8)) {
            (Some(next), Some(pc)) => Some((next, pc)),
            _ => None,
        }
    }

    pub fn read_frame(&self, addr: u64) -> (r: Option<(u64, u64)>)
        ensures
            r == self.frame(addr),
    {
        if addr < self.base {
            return None;
        }
        let d: u64 = addr - self.base;
        if d % 8 != 0 {
            return None;
        }
        let i: u64 = d / 8;
        let n: u64 = self.words.len() as u64;
        if i >= n || n - i < 2 {
            return None;
        }
        let k: usize = i as usize;
        Some((self.words[k], self.words[k + 1]))
    }
}

/// A frame record is two words that stand side by side, the caller's frame
/// first: record `i` of the run stands eight bytes above record `i - 1`.
pub proof fn law_frame_is_two_words(m: Memory, i: int, addr: u64)
    requires
        0 <= i,
        addr == m.base + 8 * i,
    ensures
        i + 1 < m.words@.len() ==> m.frame(addr) == Some((m.words@[i], m.words@[i + 1])),
        i + 1 >= m.words@.len() ==> m.frame(addr) is None,
{
}

} // verus!
