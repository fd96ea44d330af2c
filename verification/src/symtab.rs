//! The table of function symbols: disjoint address ranges in order.

use vstd::prelude::*;

use crate::gostr::cut_at_nul;
use crate::gostr;

verus! {

#[derive(Clone, Copy, Debug)]
pub struct SymRange {
    pub start: u64,
    pub end: u64,
    /// Offset of the symbol's name in the string table.
    pub name_off: u32,
}

pub struct SymTable {
    pub ranges: Vec<SymRange>,
}

/// Every range holds an address, and a later range starts no earlier than an
/// earlier one ends.
pub open spec fn ranges_disjoint(r: Seq<SymRange>) -> bool {
    &&& forall|i: int| 0 <= i < r.len() ==> (#[trigger] r[i]).start < r[i].end
    &&& forall|i: int, j: int|
        0 <= i < j < r.len() ==> (#[trigger] r[i]).end <= (#[trigger] r[j]).start
}

pub open spec fn holds(r: SymRange, pc: u64) -> bool {
    r.start <= pc < r.end
}

/// The range that contains `pc`.
pub open spec fn sym_at(r: Seq<SymRange>, pc: u64) -> Option<SymRange>
    decreases r.len(),
{
    if r.len() == 0 {
        None
    } else if holds(r.last(), pc) {
        Some(r.last())
    } else {
        sym_at(r.drop_last(), pc)
    }
}

proof fn lemma_sym_none(r: Seq<SymRange>, pc: u64)
    requires
        forall|i: int| 0 <= i < r.len() ==> !holds(#[trigger] r[i], pc),
    ensures
        sym_at(r, pc) is None,
    decreases r.len(),
{
    if r.len() > 0 {
        assert forall|i: int| 0 <= i < r.len() - 1 implies !holds(
            #[trigger] r.drop_last()[i],
            pc,
        ) by {
            assert(!holds(r[i], pc));
        }
        lemma_sym_none(r.drop_last(), pc);
    }
}

proof fn lemma_sym_at(r: Seq<SymRange>, pc: u64, i: int)
    requires
        ranges_disjoint(r),
        0 <= i < r.len(),
        holds(r[i], pc),
    ensures
        sym_at(r, pc) == Some(r[i]),
    decreases r.len(),
{
    if i < r.len() - 1 {
        assert(r[i].end <= r[r.len() - 1].start);
        let t = r.drop_last();
        assert(ranges_disjoint(t)) by {
            assert forall|a: int, b: int| 0 <= a < b < t.len() implies (#[trigger] t[a]).end <= (
            #[trigger] t[b]).start by {
                assert(r[a].end <= r[b].start);
            }
            assert forall|a: int| 0 <= a < t.len() implies (#[trigger] t[a]).start < t[a].end by {
                assert(r[a].start < r[a].end);
            }
        }
        lemma_sym_at(t, pc, i);
    }
}

impl SymTable {
    pub open spec fn wf(&self) -> bool {
        ranges_disjoint(self.ranges@)
    }

    /// The range that contains `pc`.
    pub fn lookup(&self, pc: u64) -> (r: Option<SymRange>)
        requires
            self.wf(),
        ensures
            r == sym_at(self.ranges@, pc),
    {
        let mut lo: usize = 0;
        let mut hi: usize = self.ranges.len();
        while lo < hi
            invariant
                self.wf(),
                lo <= hi <= self.ranges.len(),
                forall|i: int| 0 <= i < lo ==> (#[trigger] self.ranges[i]).start <= pc,
                forall|i: int| hi <= i < self.ranges.len() ==> (#[trigger] self.ranges[i]).start
                    > pc,
            decreases hi - lo,
        {
            let mid: usize = lo + (hi - lo) / 2;
            if self.ranges[mid].start <= pc {
                lo = mid + 1;
            } else {
                hi = mid;
            }
        }
        if lo == 0 {
            proof {
                lemma_sym_none(self.ranges@, pc);
            }
            return None;
        }
        let r = self.ranges[lo - 1];
        if pc < r.end {
            proof {
                lemma_sym_at(self.ranges@, pc, lo - 1);
            }
            return Some(r);
        }
        proof {
            assert forall|i: int| 0 <= i < self.ranges.len() implies !holds(
                #[trigger] self.ranges[i],
                pc,
            ) by {
                if i < lo - 1 {
                    assert(self.ranges[i].end <= self.ranges[lo - 1].start);
                }
            }
            lemma_sym_none(self.ranges@, pc);
        }
        None
    }
}

/// A range that was found contains the address.
pub proof fn lemma_sym_holds(r: Seq<SymRange>, pc: u64)
    ensures
        sym_at(r, pc) matches Some(x) ==> holds(x, pc),
    decreases r.len(),
{
    if r.len() > 0 {
        lemma_sym_holds(r.drop_last(), pc);
    }
}

/// The symbol that covers an address is unique.
pub proof fn law_symbol_is_unique(r: Seq<SymRange>, i: int, j: int, pc: u64)
    requires
        ranges_disjoint(r),
        0 <= i < r.len(),
        0 <= j < r.len(),
        holds(r[i], pc),
        holds(r[j], pc),
    ensures
        i == j,
        sym_at(r, pc) == Some(r[i]),
{
    lemma_sym_at(r, pc, i);
}

/// The name at an offset of the string table; nothing past its end.
pub open spec fn name_bytes(strtab: Seq<u8>, off: u32) -> Seq<u8> {
    if off <= strtab.len() {
        gostr::until_nul(strtab.subrange(off as int, strtab.len() as int))
    } else {
        Seq::empty()
    }
}

pub fn name_at(strtab: &[u8], off: u32) -> (r: Vec<u8>)
    ensures
        r@ == name_bytes(strtab@, off),
{
    if off as usize > strtab.len() {
        let out: Vec<u8> = Vec::new();
        assert(out@ =~= Seq::empty());
        return out;
    }
    cut_at_nul(strtab, off as usize, strtab.len())
}

/// No symbol is found exactly if no range has the address between its start and
/// its end.
pub proof fn law_every_symbol_is_found(r: Seq<SymRange>, pc: u64, i: int)
    requires
        ranges_disjoint(r),
        0 <= i < r.len(),
    ensures
        r[i].start <= pc && pc < r[i].end ==> sym_at(r, pc) == Some(r[i]),
        sym_at(r, pc) matches Some(x) ==> x.start <= pc && pc < x.end,
        (forall|k: int| 0 <= k < r.len() ==> pc < (#[trigger] r[k]).start || pc >= r[k].end)
            ==> sym_at(r, pc) is None,
{
    if r[i].start <= pc && pc < r[i].end {
        lemma_sym_at(r, pc, i);
    }
    lemma_sym_holds(r, pc);
    if forall|k: int| 0 <= k < r.len() ==> pc < (#[trigger] r[k]).start || pc >= r[k].end {
        lemma_sym_none(r, pc);
    }
}

/// A name is read whole from where it stands in the string table.
pub proof fn law_name_is_read(before: Seq<u8>, name: Seq<u8>, rest: Seq<u8>, off: u32)
    requires
        off == before.len(),
        forall|i: int| 0 <= i < name.len() ==> #[trigger] name[i] != 0,
    ensures
        name_bytes(before + (name + seq![0u8] + rest), off) == name,
        name_bytes(before + name, off) == name,
{
    let tail = name + seq![0u8] + rest;
    let t = before + tail;
    assert(t.subrange(off as int, t.len() as int) =~= tail);
    let u = before + name;
    assert(u.subrange(off as int, u.len() as int) =~= name);
    gostr::law_cut_at_the_first_nul(name, rest);
}

} // verus!
