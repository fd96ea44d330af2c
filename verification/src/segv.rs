//! The report of a stack overflow: where goroutines were started, which stack
//! a fault belongs to, and the text that is printed.

use vstd::prelude::*;

use crate::gostr::{append, copy_bytes, text, utoa};
use crate::memory::Memory;
use crate::symbolize::SymInfo;
use crate::gostr;

verus! {

pub const SPAWN_TABLE_SIZE: usize = 4096;

// ---- where goroutines were started ----

pub struct SpawnSlot {
    /// The goroutine; zero for a free slot.
    pub g: usize,
    pub file: Vec<u8>,
    pub line: u32,
    /// Whether the slot was ever taken: a search goes on behind such a slot,
    /// free or not.
    pub touched: bool,
}

pub struct SpawnTable {
    pub slots: Vec<SpawnSlot>,
}

/// The slot at which the search for a goroutine starts.
pub open spec fn hash_of(g: usize) -> int {
    (g as int / 32 * 0x9E3779B97F4A7C15) % 4096
}

/// Cutting a number to 64 bits keeps its low twelve.
proof fn lemma_low_bits(p: int)
    ensures
        (p % 0x1_0000_0000_0000_0000) % 4096 == p % 4096,
{
    vstd::arithmetic::div_mod::lemma_mod_mod(p, 4096, 0x10_0000_0000_0000);
}

fn hash_g(g: usize) -> (r: usize)
    ensures
        r == hash_of(g),
        r < SPAWN_TABLE_SIZE,
{
    let x: u64 = (g / 32) as u64;
    let h: u64 = x.wrapping_mul(0x9E3779B97F4A7C15);
    proof {
        let p = x as int * 0x9E3779B97F4A7C15;
        lemma_low_bits(p);
        assert(h as int == p % 0x1_0000_0000_0000_0000);
    }
    (h % 4096) as usize
}

/// The slot visited at step `k`.
pub open spec fn probe(g: usize, k: int) -> int {
    (hash_of(g) + k) % 4096
}

/// The step at which a slot is visited.
pub open spec fn step_of(g: usize, i: int) -> int {
    (i - hash_of(g)) % 4096
}

/// The first free slot from step `k` on.
pub open spec fn free_slot(slots: Seq<SpawnSlot>, g: usize, k: int) -> Option<int>
    decreases 4096 - k,
{
    if k >= 4096 {
        None
    } else if slots[probe(g, k)].g == 0 {
        Some(probe(g, k))
    } else {
        free_slot(slots, g, k + 1)
    }
}

/// The slot of a goroutine, searched from step `k` on up to the first slot
/// that was never taken.
pub open spec fn slot_of(slots: Seq<SpawnSlot>, g: usize, k: int) -> Option<int>
    decreases 4096 - k,
{
    if k >= 4096 {
        None
    } else if slots[probe(g, k)].g == g {
        Some(probe(g, k))
    } else if !slots[probe(g, k)].touched {
        None
    } else {
        slot_of(slots, g, k + 1)
    }
}

/// Where a goroutine was started, as far as the table knows.
pub open spec fn spawn_site(slots: Seq<SpawnSlot>, g: usize) -> Option<(Seq<u8>, u32)> {
    match slot_of(slots, g, 0) {
        Some(i) if slots[i].file@.len() > 0 => Some((slots[i].file@, slots[i].line)),
        _ => None,
    }
}

/// The slots are equal but for one.
pub open spec fn same_but(a: Seq<SpawnSlot>, b: Seq<SpawnSlot>, at: int) -> bool {
    &&& a.len() == b.len()
    &&& forall|i: int| 0 <= i < a.len() && i != at ==> #[trigger] a[i] == b[i]
}

/// Every slot on the way to slot `i` was taken once, so that a search for the
/// goroutine in it comes there.
pub open spec fn reached(slots: Seq<SpawnSlot>, i: int) -> bool {
    forall|k: int|
        0 <= k < step_of(slots[i].g, i) ==> slots[#[trigger] probe(slots[i].g, k)].touched
}

impl SpawnTable {
    pub open spec fn wf(&self) -> bool {
        &&& self.slots@.len() == SPAWN_TABLE_SIZE
        &&& forall|i: int|
            0 <= i < SPAWN_TABLE_SIZE ==> if (#[trigger] self.slots@[i]).g == 0 {
                self.slots@[i].file@.len() == 0
            } else {
                self.slots@[i].touched && reached(self.slots@, i)
            }
    }

    /// Whether some slot holds the goroutine.
    pub open spec fn holds(&self, g: usize) -> bool {
        exists|i: int| 0 <= i < SPAWN_TABLE_SIZE && (#[trigger] self.slots@[i]).g == g
    }

    pub fn new() -> (r: Self)
        ensures
            r.wf(),
            forall|i: int|
                0 <= i < SPAWN_TABLE_SIZE ==> (#[trigger] r.slots@[i]).g == 0
                    && r.slots@[i].file@.len() == 0 && r.slots@[i].line == 0
                    && !r.slots@[i].touched,
    {
        let mut slots: Vec<SpawnSlot> = Vec::new();
        while slots.len() < SPAWN_TABLE_SIZE
            invariant
                slots@.len() <= SPAWN_TABLE_SIZE,
                forall|i: int|
                    0 <= i < slots@.len() ==> (#[trigger] slots@[i]).g == 0
                        && slots@[i].file@.len() == 0 && slots@[i].line == 0
                        && !slots@[i].touched,
            decreases SPAWN_TABLE_SIZE - slots@.len(),
        {
            slots.push(SpawnSlot { g: 0, file: Vec::new(), line: 0, touched: false });
        }
        SpawnTable { slots }
    }
}

/// Taking or freeing one slot keeps the way to all others.
proof fn lemma_stays_reached(a: SpawnTable, b: SpawnTable, at: int)
    requires
        a.wf(),
        0 <= at < SPAWN_TABLE_SIZE,
        same_but(b.slots@, a.slots@, at),
        b.slots@[at].touched,
        if b.slots@[at].g == 0 {
            b.slots@[at].file@.len() == 0
        } else {
            reached(b.slots@, at)
        },
    ensures
        b.wf(),
{
    assert forall|i: int| 0 <= i < SPAWN_TABLE_SIZE implies if (#[trigger] b.slots@[i]).g == 0 {
        b.slots@[i].file@.len() == 0
    } else {
        b.slots@[i].touched && reached(b.slots@, i)
    } by {
        if i != at {
            assert(b.slots@[i] == a.slots@[i]);
            if b.slots@[i].g != 0 {
                let g = b.slots@[i].g;
                assert(reached(a.slots@, i));
                assert forall|k: int| 0 <= k < step_of(g, i) implies b.slots@[#[trigger] probe(
                    g,
                    k,
                )].touched by {
                    let p = probe(g, k);
                    assert(a.slots@[p].touched);
                    if p != at {
                        assert(b.slots@[p] == a.slots@[p]);
                    }
                }
            }
        }
    }
}

/// Every slot on the way to the first free one holds a goroutine.
proof fn lemma_way_to_free(slots: Seq<SpawnSlot>, g: usize, k: int)
    requires
        slots.len() == 4096,
        0 <= k <= 4096,
        forall|j: int| 0 <= j < k ==> slots[#[trigger] probe(g, j)].g != 0,
    ensures
        free_slot(slots, g, k) matches Some(i) ==> {
            &&& 0 <= i < 4096
            &&& slots[i].g == 0
            &&& forall|j: int| 0 <= j < step_of(g, i) ==> slots[#[trigger] probe(g, j)].g != 0
        },
    decreases 4096 - k,
{
    if k < 4096 {
        if slots[probe(g, k)].g != 0 {
            lemma_way_to_free(slots, g, k + 1);
        } else {
            assert(step_of(g, probe(g, k)) == k);
        }
    }
}

/// The slots after a goroutine's start was recorded.
pub open spec fn registers(
    before: Seq<SpawnSlot>,
    after: Seq<SpawnSlot>,
    g: usize,
    file: Seq<u8>,
    line: u32,
) -> bool {
    match free_slot(before, g, 0) {
        Some(i) if g != 0 => {
            &&& 0 <= i < SPAWN_TABLE_SIZE
            &&& same_but(after, before, i)
            &&& after[i].g == g
            &&& after[i].file@ == file
            &&& after[i].line == line
            &&& after[i].touched
        },
        _ => after == before,
    }
}

/// Records where a goroutine was started. A full table drops the record.
pub fn register(table: &mut SpawnTable, g: usize, file: &[u8], line: u32)
    requires
        old(table).wf(),
    ensures
        final(table).wf(),
        registers(old(table).slots@, final(table).slots@, g, file@, line),
        forall|h: usize|
            h != g ==> #[trigger] spawn_site(final(table).slots@, h) == spawn_site(
                old(table).slots@,
                h,
            ),
{
    if g == 0 {
        return;
    }
    let start: usize = hash_g(g);
    let mut k: usize = 0;
    while k < SPAWN_TABLE_SIZE
        invariant
            k <= SPAWN_TABLE_SIZE,
            start == hash_of(g),
            start < SPAWN_TABLE_SIZE,
            g != 0,
            table.wf(),
            old(table).wf(),
            table.slots@ == old(table).slots@,
            free_slot(old(table).slots@, g, 0) == free_slot(old(table).slots@, g, k as int),
        decreases SPAWN_TABLE_SIZE - k,
    {
        let at: usize = (start + k) % SPAWN_TABLE_SIZE;
        if table.slots[at].g == 0 {
            let ghost before = *table;
            let slot = SpawnSlot { g, file: copy_bytes(file), line, touched: true };
            table.slots.set(at, slot);
            proof {
                assert(at == probe(g, k as int));
                lemma_way_to_free(before.slots@, g, 0);
                assert forall|j: int| 0 <= j < step_of(g, at as int) implies table.slots@[
                #[trigger] probe(g, j)].touched by {
                    let p = probe(g, j);
                    assert(before.slots@[p].g != 0);
                }
                lemma_stays_reached(before, *table, at as int);
                assert forall|h: usize| h != g implies #[trigger] spawn_site(table.slots@, h)
                    == spawn_site(before.slots@, h) by {
                    law_register_keeps_others(before, *table, g, h, at as int);
                }
            }
            return;
        }
        k = k + 1;
    }
}

fn find(table: &SpawnTable, g: usize) -> (r: Option<usize>)
    requires
        table.wf(),
    ensures
        match (r, slot_of(table.slots@, g, 0)) {
            (Some(a), Some(b)) => a == b && a < SPAWN_TABLE_SIZE,
            (None, None) => true,
            _ => false,
        },
{
    let start: usize = hash_g(g);
    let mut k: usize = 0;
    while k < SPAWN_TABLE_SIZE
        invariant
            k <= SPAWN_TABLE_SIZE,
            start == hash_of(g),
            start < SPAWN_TABLE_SIZE,
            table.wf(),
            slot_of(table.slots@, g, 0) == slot_of(table.slots@, g, k as int),
        decreases SPAWN_TABLE_SIZE - k,
    {
        let at: usize = (start + k) % SPAWN_TABLE_SIZE;
        if table.slots[at].g == g {
            return Some(at);
        }
        if !table.slots[at].touched {
            return None;
        }
        k = k + 1;
    }
    None
}

/// The slots after a goroutine's start was forgotten.
pub open spec fn forgets(before: Seq<SpawnSlot>, after: Seq<SpawnSlot>, g: usize) -> bool {
    match slot_of(before, g, 0) {
        Some(i) if g != 0 => {
            &&& 0 <= i < SPAWN_TABLE_SIZE
            &&& same_but(after, before, i)
            &&& after[i].g == 0
            &&& after[i].file@.len() == 0
            &&& after[i].line == 0
            &&& after[i].touched
        },
        _ => after == before,
    }
}

/// Forgets where a goroutine was started. Its slot is free again, and searches
/// go on behind it as before.
pub fn unregister(table: &mut SpawnTable, g: usize)
    requires
        old(table).wf(),
    ensures
        final(table).wf(),
        forgets(old(table).slots@, final(table).slots@, g),
        forall|h: usize|
            h != g ==> #[trigger] spawn_site(final(table).slots@, h) == spawn_site(
                old(table).slots@,
                h,
            ),
{
    if g == 0 {
        return;
    }
    match find(table, g) {
        Some(i) => {
            let ghost before = *table;
            table.slots.set(i, SpawnSlot { g: 0, file: Vec::new(), line: 0, touched: true });
            proof {
                lemma_stays_reached(before, *table, i as int);
                assert forall|h: usize| h != g implies #[trigger] spawn_site(table.slots@, h)
                    == spawn_site(before.slots@, h) by {
                    law_unregister_keeps_others(before, *table, g, h, i as int);
                }
            }
        },
        None => {},
    }
}

/// Where a goroutine was started.
pub fn lookup(table: &SpawnTable, g: usize) -> (r: Option<(Vec<u8>, u32)>)
    requires
        table.wf(),
    ensures
        match (r, spawn_site(table.slots@, g)) {
            (Some((file, line)), Some((f, l))) => file@ == f && line == l,
            (None, None) => true,
            _ => false,
        },
{
    match find(table, g) {
        Some(i) => {
            if table.slots[i].file.len() == 0 {
                return None;
            }
            Some((copy_bytes(table.slots[i].file.as_slice()), table.slots[i].line))
        },
        None => None,
    }
}

proof fn lemma_slot_holds(slots: Seq<SpawnSlot>, g: usize, k: int)
    requires
        slots.len() == 4096,
        0 <= k,
    ensures
        slot_of(slots, g, k) matches Some(i) ==> 0 <= i < 4096 && slots[i].g == g,
    decreases 4096 - k,
{
    if k < 4096 {
        lemma_slot_holds(slots, g, k + 1);
    }
}

proof fn lemma_search_arrives(slots: Seq<SpawnSlot>, i: int, k: int)
    requires
        slots.len() == 4096,
        0 <= i < 4096,
        reached(slots, i),
        0 <= k <= step_of(slots[i].g, i),
    ensures
        slot_of(slots, slots[i].g, k) is Some,
    decreases 4096 - k,
{
    let g = slots[i].g;
    if k < step_of(g, i) {
        assert(slots[probe(g, k)].touched);
        lemma_search_arrives(slots, i, k + 1);
    } else {
        assert(probe(g, k) == i);
    }
}

/// A search finds a goroutine exactly if the table holds it.
pub proof fn law_search_finds_what_is_held(t: SpawnTable, g: usize)
    requires
        t.wf(),
        g != 0,
    ensures
        slot_of(t.slots@, g, 0) is Some <==> t.holds(g),
{
    lemma_slot_holds(t.slots@, g, 0);
    if t.holds(g) {
        let i = choose|i: int| 0 <= i < SPAWN_TABLE_SIZE && (#[trigger] t.slots@[i]).g == g;
        lemma_search_arrives(t.slots@, i, 0);
    }
}

/// In a well-formed table nothing is known of the goroutine zero.
proof fn lemma_nothing_of_zero(t: SpawnTable)
    requires
        t.wf(),
    ensures
        spawn_site(t.slots@, 0) is None,
{
    lemma_slot_holds(t.slots@, 0, 0);
}

/// A search that succeeds is not disturbed by a change of a slot that holds
/// another goroutine, or none, before and after.
proof fn lemma_search_undisturbed(a: Seq<SpawnSlot>, b: Seq<SpawnSlot>, h: usize, at: int, k: int)
    requires
        a.len() == 4096,
        0 <= k,
        0 <= at < 4096,
        same_but(b, a, at),
        a[at].g != h,
        b[at].g != h,
        b[at].touched,
        slot_of(a, h, k) is Some,
    ensures
        slot_of(b, h, k) == slot_of(a, h, k),
    decreases 4096 - k,
{
    let p = probe(h, k);
    assert(0 <= p < 4096);
    if p != at {
        assert(b[p] == a[p]);
    }
    if a[p].g != h {
        lemma_search_undisturbed(a, b, h, at, k + 1);
    }
}

/// A change of one slot from and to other goroutines leaves what is known of
/// this one.
proof fn lemma_others_undisturbed(a: SpawnTable, b: SpawnTable, h: usize, at: int)
    requires
        a.wf(),
        b.wf(),
        0 <= at < SPAWN_TABLE_SIZE,
        same_but(b.slots@, a.slots@, at),
        a.slots@[at].g != h,
        b.slots@[at].g != h,
        b.slots@[at].touched,
        h != 0,
    ensures
        spawn_site(b.slots@, h) == spawn_site(a.slots@, h),
{
    law_search_finds_what_is_held(a, h);
    law_search_finds_what_is_held(b, h);
    lemma_slot_holds(a.slots@, h, 0);
    if a.holds(h) {
        lemma_search_undisturbed(a.slots@, b.slots@, h, at, 0);
    } else if b.holds(h) {
        let i = choose|i: int| 0 <= i < SPAWN_TABLE_SIZE && (#[trigger] b.slots@[i]).g == h;
        assert(a.slots@[i].g == h);
    }
}

/// A goroutine that the table did not hold and that it had room for is found
/// with the place that was recorded.
pub proof fn law_registered_is_found(before: SpawnTable, after: SpawnTable, g: usize, at: int)
    requires
        before.wf(),
        after.wf(),
        g != 0,
        !before.holds(g),
        free_slot(before.slots@, g, 0) == Some(at),
        same_but(after.slots@, before.slots@, at),
        after.slots@[at].g == g,
        after.slots@[at].file@.len() > 0,
    ensures
        spawn_site(after.slots@, g) == Some((after.slots@[at].file@, after.slots@[at].line)),
{
    lemma_way_to_free(before.slots@, g, 0);
    law_search_finds_what_is_held(after, g);
    lemma_slot_holds(after.slots@, g, 0);
    let i = slot_of(after.slots@, g, 0)->0;
    if i != at {
        assert(after.slots@[i] == before.slots@[i]);
    }
}

/// Registering one goroutine does not change what is found of any other.
pub proof fn law_register_keeps_others(
    before: SpawnTable,
    after: SpawnTable,
    g: usize,
    other: usize,
    at: int,
)
    requires
        before.wf(),
        after.wf(),
        g != 0,
        other != g,
        free_slot(before.slots@, g, 0) == Some(at),
        same_but(after.slots@, before.slots@, at),
        after.slots@[at].g == g,
    ensures
        spawn_site(after.slots@, other) == spawn_site(before.slots@, other),
{
    lemma_way_to_free(before.slots@, g, 0);
    if other == 0 {
        lemma_nothing_of_zero(before);
        lemma_nothing_of_zero(after);
    } else {
        lemma_others_undisturbed(before, after, other, at);
    }
}

/// Forgetting one goroutine does not change what is found of any other.
pub proof fn law_unregister_keeps_others(
    before: SpawnTable,
    after: SpawnTable,
    g: usize,
    other: usize,
    at: int,
)
    requires
        before.wf(),
        after.wf(),
        g != 0,
        other != g,
        slot_of(before.slots@, g, 0) == Some(at),
        same_but(after.slots@, before.slots@, at),
        after.slots@[at].g == 0,
        after.slots@[at].touched,
    ensures
        spawn_site(after.slots@, other) == spawn_site(before.slots@, other),
{
    lemma_slot_holds(before.slots@, g, 0);
    if other == 0 {
        lemma_nothing_of_zero(before);
        lemma_nothing_of_zero(after);
    } else {
        lemma_others_undisturbed(before, after, other, at);
    }
}

/// A goroutine that occurs once in the table is not found after it was
/// forgotten.
pub proof fn law_forgotten_is_not_found(before: SpawnTable, after: SpawnTable, g: usize, at: int)
    requires
        before.wf(),
        after.wf(),
        g != 0,
        slot_of(before.slots@, g, 0) == Some(at),
        forall|i: int|
            0 <= i < SPAWN_TABLE_SIZE && i != at ==> (#[trigger] before.slots@[i]).g != g,
        same_but(after.slots@, before.slots@, at),
        after.slots@[at].g == 0,
    ensures
        spawn_site(after.slots@, g) is None,
{
    lemma_slot_holds(after.slots@, g, 0);
    if slot_of(after.slots@, g, 0) is Some {
        let i = slot_of(after.slots@, g, 0)->0;
        assert(after.slots@[i].g == g);
        assert(i != at);
        assert(after.slots@[i] == before.slots@[i]);
    }
}

// ---- numbers ----

pub open spec fn hex_digit(n: u8) -> u8 {
    if n < 10 {
        (48 + n) as u8
    } else {
        (97 + n - 10) as u8
    }
}

pub fn digit(n: u8) -> (r: u8)
    requires
        n < 16,
    ensures
        r == hex_digit(n),
{
    if n < 10 {
        48 + n
    } else {
        97 + (n - 10)
    }
}

/// The low `n` hexadecimal digits of a number.
pub open spec fn hex_digits(v: u64, n: nat) -> Seq<u8>
    decreases n,
{
    if n == 0 {
        Seq::empty()
    } else {
        hex_digits(v / 16, (n - 1) as nat).push(hex_digit((v % 16) as u8))
    }
}

pub fn low_digits(v: u64, n: usize) -> (r: Vec<u8>)
    ensures
        r@ == hex_digits(v, n as nat),
    decreases n,
{
    if n == 0 {
        return Vec::new();
    }
    let mut r = low_digits(v / 16, n - 1);
    r.push(digit((v % 16) as u8));
    r
}

/// A number as an address: sixteen hexadecimal digits.
pub open spec fn hex_text(v: u64) -> Seq<u8> {
    gostr::lit("0x") + hex_digits(v, 16)
}

pub fn write_hex(v: u64) -> (r: Vec<u8>)
    ensures
        r@ == hex_text(v),
{
    let mut out = text("0x");
    append(&mut out, low_digits(v, 16).as_slice());
    out
}

/// A number in as few hexadecimal digits as it needs.
pub open spec fn hex_compact(v: u64) -> Seq<u8>
    decreases v,
{
    if v < 16 {
        seq![hex_digit(v as u8)]
    } else {
        hex_compact(v / 16).push(hex_digit((v % 16) as u8))
    }
}

pub fn write_hex_compact(v: u64) -> (r: Vec<u8>)
    ensures
        r@ == hex_compact(v),
    decreases v,
{
    if v < 16 {
        let mut r: Vec<u8> = Vec::new();
        r.push(digit(v as u8));
        assert(r@ =~= hex_compact(v));
        return r;
    }
    let mut r = write_hex_compact(v / 16);
    r.push(digit((v % 16) as u8));
    r
}

// ---- which stack a fault belongs to ----

#[derive(Clone, Copy, Debug, PartialEq, Eq, Structural)]
pub enum Region {
    HomeOverflow { lo: u64, hi: u64 },
    GrownOverflow { lo: u64, hi: u64 },
    Unrelated,
}

/// The stacks of a goroutine: its own, the ones it has grown into, and the one
/// that it runs on.
pub struct GStacks {
    pub home_lo: u64,
    pub home_hi: u64,
    pub regions: Vec<(u64, u64)>,
    /// Zero when it was never set.
    pub active_lo: u64,
    pub active_hi: u64,
    /// The size of the guard below a stack: how far below it a fault still
    /// counts as an overflow.
    pub guard: u64,
}

impl GStacks {
    pub open spec fn wf(&self) -> bool {
        forall|i: int|
            0 <= i < self.regions@.len() ==> (#[trigger] self.regions@[i]).0 + self.regions@[i].1
                <= u64::MAX
    }
}

/// A fault that an overflow of the stack that starts at `lo` would cause: in
/// the guard below it, or in its lowest bytes.
pub open spec fn overflows(lo: u64, fault: u64, guard: u64) -> bool {
    if fault < lo {
        lo - fault <= guard
    } else {
        fault - lo < 32
    }
}

fn overflows_stack(lo: u64, fault: u64, guard: u64) -> (r: bool)
    ensures
        r == overflows(lo, fault, guard),
{
    if fault < lo {
        lo - fault <= guard
    } else {
        fault - lo < 32
    }
}

/// The first grown region from `i` on that the fault is an overflow of.
pub open spec fn grown_region(regions: Seq<(u64, u64)>, fault: u64, guard: u64, i: int) -> Option<
    int,
>
    decreases regions.len() - i,
{
    if i < 0 || i >= regions.len() {
        None
    } else if overflows(regions[i].0, fault, guard) {
        Some(i)
    } else {
        grown_region(regions, fault, guard, i + 1)
    }
}

pub open spec fn region_of(g: GStacks, fault: u64) -> Region {
    if overflows(g.home_lo, fault, g.guard) {
        Region::HomeOverflow { lo: g.home_lo, hi: g.home_hi }
    } else {
        match grown_region(g.regions@, fault, g.guard, 0) {
            Some(i) => Region::GrownOverflow {
                lo: g.regions@[i].0,
                hi: (g.regions@[i].0 + g.regions@[i].1) as u64,
            },
            None => if g.active_lo != 0 && g.active_lo != g.home_lo && overflows(
                g.active_lo,
                fault,
                g.guard,
            ) {
                Region::GrownOverflow { lo: g.active_lo, hi: g.active_hi }
            } else {
                Region::Unrelated
            },
        }
    }
}

/// Which stack of a goroutine a fault is an overflow of.
pub fn classify(g: &GStacks, fault_addr: u64) -> (r: Region)
    requires
        g.wf(),
    ensures
        r == region_of(*g, fault_addr),
{
    if overflows_stack(g.home_lo, fault_addr, g.guard) {
        return Region::HomeOverflow { lo: g.home_lo, hi: g.home_hi };
    }
    let mut i: usize = 0;
    while i < g.regions.len()
        invariant
            i <= g.regions@.len(),
            g.wf(),
            !overflows(g.home_lo, fault_addr, g.guard),
            grown_region(g.regions@, fault_addr, g.guard, 0) == grown_region(
                g.regions@,
                fault_addr,
                g.guard,
                i as int,
            ),
        decreases g.regions@.len() - i,
    {
        let (lo, size) = g.regions[i];
        assert(g.regions@[i as int].0 + g.regions@[i as int].1 <= u64::MAX);
        if overflows_stack(lo, fault_addr, g.guard) {
            return Region::GrownOverflow { lo, hi: lo + size };
        }
        i = i + 1;
    }
    if g.active_lo != 0 && g.active_lo != g.home_lo && overflows_stack(
        g.active_lo,
        fault_addr,
        g.guard,
    ) {
        return Region::GrownOverflow { lo: g.active_lo, hi: g.active_hi };
    }
    Region::Unrelated
}

/// A fault far from every stack of the goroutine is no overflow.
pub proof fn law_far_fault_is_unrelated(g: GStacks, fault: u64)
    requires
        !overflows(g.home_lo, fault, g.guard),
        !overflows(g.active_lo, fault, g.guard),
        forall|i: int|
            0 <= i < g.regions@.len() ==> !overflows((#[trigger] g.regions@[i]).0, fault, g.guard),
    ensures
        region_of(g, fault) == Region::Unrelated,
{
    lemma_no_grown_region(g.regions@, fault, g.guard, 0);
}

proof fn lemma_no_grown_region(regions: Seq<(u64, u64)>, fault: u64, guard: u64, i: int)
    requires
        forall|k: int|
            0 <= k < regions.len() ==> !overflows((#[trigger] regions[k]).0, fault, guard),
    ensures
        grown_region(regions, fault, guard, i) is None,
    decreases regions.len() - i,
{
    if 0 <= i < regions.len() {
        lemma_no_grown_region(regions, fault, guard, i + 1);
    }
}

// ---- the frame chain ----

pub const MAX_FRAMES: usize = 32;

/// A frame record at `fp` lies on the stack and is aligned.
pub open spec fn frame_ok(fp: u64, lo: u64, hi: u64) -> bool {
    fp != 0 && fp >= lo && fp + 16 <= hi && fp % 8 == 0
}

/// The return addresses along the frame chain, at most `n` of them. The chain
/// ends where a record is unsound, has no return address, or does not climb.
pub open spec fn callers(mem: Memory, fp: u64, lo: u64, hi: u64, n: nat) -> Seq<u64>
    decreases n,
{
    if n == 0 || !frame_ok(fp, lo, hi) {
        Seq::empty()
    } else {
        match mem.frame(fp) {
            None => Seq::empty(),
            Some((next, pc)) => if pc == 0 {
                Seq::empty()
            } else if next <= fp {
                seq![pc]
            } else {
                seq![pc] + callers(mem, next, lo, hi, (n - 1) as nat)
            },
        }
    }
}

pub fn walk_frames(
    mem: &Memory,
    initial_fp: u64,
    stack_lo: u64,
    stack_hi: u64,
    out: &mut [u64; MAX_FRAMES],
) -> (n: usize)
    ensures
        n <= MAX_FRAMES,
        final(out)@.subrange(0, n as int) == callers(
            *mem,
            initial_fp,
            stack_lo,
            stack_hi,
            MAX_FRAMES as nat,
        ),
        forall|i: int| n <= i < MAX_FRAMES ==> #[trigger] final(out)@[i] == old(out)@[i],
{
    let mut n: usize = 0;
    let mut fp: u64 = initial_fp;
    let ghost all = callers(*mem, initial_fp, stack_lo, stack_hi, MAX_FRAMES as nat);
    assert(out@.subrange(0, 0) + all =~= all);
    loop
        invariant_except_break
            n <= MAX_FRAMES,
            all == out@.subrange(0, n as int) + callers(
                *mem,
                fp,
                stack_lo,
                stack_hi,
                (MAX_FRAMES - n) as nat,
            ),
            forall|i: int| n <= i < MAX_FRAMES ==> #[trigger] out@[i] == old(out)@[i],
        ensures
            n <= MAX_FRAMES,
            out@.subrange(0, n as int) == all,
            forall|i: int| n <= i < MAX_FRAMES ==> #[trigger] out@[i] == old(out)@[i],
        decreases MAX_FRAMES - n,
    {
        let ghost before = out@.subrange(0, n as int);
        if n >= MAX_FRAMES || fp == 0 || fp < stack_lo || stack_hi < 16 || fp > stack_hi - 16 || fp
            % 8 != 0 {
            assert(before + Seq::<u64>::empty() =~= before);
            break;
        }
        let (next, pc) = match mem.read_frame(fp) {
            None => {
                assert(before + Seq::<u64>::empty() =~= before);
                break;
            },
            Some(f) => f,
        };
        if pc == 0 {
            assert(before + Seq::<u64>::empty() =~= before);
            break;
        }
        out[n] = pc;
        n = n + 1;
        assert(out@.subrange(0, n as int) =~= before + seq![pc]);
        if next <= fp {
            break;
        }
        assert(before + (seq![pc] + callers(
            *mem,
            next,
            stack_lo,
            stack_hi,
            (MAX_FRAMES - n) as nat,
        )) =~= (before + seq![pc]) + callers(
            *mem,
            next,
            stack_lo,
            stack_hi,
            (MAX_FRAMES - n) as nat,
        ));
        fp = next;
    }
    n
}

/// No return address of a walk is zero, and a walk has at most as many as
/// asked for.
pub proof fn law_callers_are_real(mem: Memory, fp: u64, lo: u64, hi: u64, n: nat)
    ensures
        callers(mem, fp, lo, hi, n).len() <= n,
        forall|i: int|
            0 <= i < callers(mem, fp, lo, hi, n).len() ==> #[trigger] callers(
                mem,
                fp,
                lo,
                hi,
                n,
            )[i] != 0,
    decreases n,
{
    if n > 0 && frame_ok(fp, lo, hi) {
        match mem.frame(fp) {
            None => {},
            Some((next, pc)) => {
                if pc != 0 && next > fp {
                    law_callers_are_real(mem, next, lo, hi, (n - 1) as nat);
                }
            },
        }
    }
}

// ---- the report ----

/// A frame as it is printed: what the symbol tables know of it, if anything.
pub struct Frame {
    pub known: bool,
    pub info: SymInfo,
}

impl Frame {
    pub open spec fn wf(&self) -> bool {
        self.info.fn_name_len <= 256 && self.info.file_len <= 512
    }
}

pub open spec fn frame_text(f: Frame) -> Seq<u8> {
    (if f.known && f.info.fn_name_len > 0 {
        f.info.fn_name@.subrange(0, f.info.fn_name_len as int) + gostr::lit("(...)\n")
    } else {
        gostr::lit("<unknown>(...)\n")
    }) + gostr::lit("\t") + (if f.known && f.info.file_len > 0 {
        f.info.file@.subrange(0, f.info.file_len as int) + gostr::lit(":")
            + gostr::dec_nat(f.info.line as nat)
    } else {
        gostr::lit("???:0")
    }) + gostr::lit(" +0x") + hex_compact(
        if f.known {
            f.info.fn_offset
        } else {
            0
        },
    ) + gostr::lit("\n")
}

fn push_prefix<const N: usize>(out: &mut Vec<u8>, bytes: &[u8; N], n: usize)
    requires
        n <= N,
    ensures
        final(out)@ == old(out)@ + bytes@.subrange(0, n as int),
{
    let mut i: usize = 0;
    assert(bytes@.subrange(0, 0) =~= Seq::empty());
    while i < n
        invariant
            i <= n <= N,
            out@ == old(out)@ + bytes@.subrange(0, i as int),
        decreases n - i,
    {
        out.push(bytes[i]);
        i = i + 1;
        assert(bytes@.subrange(0, i as int) =~= bytes@.subrange(0, i - 1).push(bytes@[i - 1]));
    }
}

/// The two lines of a frame.
pub fn write_frame(f: &Frame) -> (r: Vec<u8>)
    requires
        f.wf(),
    ensures
        r@ == frame_text(*f),
{
    let mut out: Vec<u8> = Vec::new();
    if f.known && f.info.fn_name_len > 0 {
        push_prefix(&mut out, &f.info.fn_name, f.info.fn_name_len);
        append(&mut out, text("(...)\n").as_slice());
    } else {
        append(&mut out, text("<unknown>(...)\n").as_slice());
    }
    append(&mut out, text("\t").as_slice());
    if f.known && f.info.file_len > 0 {
        push_prefix(&mut out, &f.info.file, f.info.file_len);
        append(&mut out, text(":").as_slice());
        append(&mut out, utoa(f.info.line as u64).as_slice());
    } else {
        append(&mut out, text("???:0").as_slice());
    }
    append(&mut out, text(" +0x").as_slice());
    let off: u64 = if f.known {
        f.info.fn_offset
    } else {
        0
    };
    append(&mut out, write_hex_compact(off).as_slice());
    append(&mut out, text("\n").as_slice());
    assert(out@ =~= frame_text(*f));
    out
}

pub open spec fn frames_text(frames: Seq<Frame>, n: nat) -> Seq<u8>
    decreases n,
{
    if n == 0 {
        Seq::empty()
    } else {
        frames_text(frames, (n - 1) as nat) + frame_text(frames[n - 1])
    }
}

pub open spec fn site_text(site: Option<(Seq<u8>, u32)>) -> Seq<u8> {
    match site {
        Some((file, line)) => file + gostr::lit(":") + gostr::dec_nat(line as nat)
            + gostr::lit(" (go!())\n"),
        None => gostr::lit("<unknown> (go!())\n"),
    }
}

pub open spec fn bounds_text(lo: u64, hi: u64, tail: Seq<u8>) -> Seq<u8> {
    gostr::lit("\tg.stack: ") + hex_text(lo) + gostr::lit("-") + hex_text(hi)
        + gostr::lit(" (") + gostr::dec_nat((hi - lo) as nat) + tail
}

pub open spec fn region_text(region: Region) -> Seq<u8> {
    match region {
        Region::HomeOverflow { lo, hi } => bounds_text(lo, hi, gostr::lit(" bytes, home)\n")),
        Region::GrownOverflow { lo, hi } => bounds_text(
            lo,
            hi,
            gostr::lit(" bytes, grown)\n"),
        ),
        Region::Unrelated => Seq::empty(),
    }
}

/// The bounds of the region that overflowed.
pub open spec fn region_bounds(region: Region) -> (u64, u64) {
    match region {
        Region::HomeOverflow { lo, hi } => (lo, hi),
        Region::GrownOverflow { lo, hi } => (lo, hi),
        Region::Unrelated => (0, 0),
    }
}

/// What is printed when a stack has overflowed. The first frame is the
/// faulting one.
pub struct Overflow {
    pub frames: Vec<Frame>,
    pub site: Option<(Vec<u8>, u32)>,
    pub region: Region,
    pub fault_addr: u64,
    pub pc: u64,
    pub sp: u64,
}

impl Overflow {
    pub open spec fn wf(&self) -> bool {
        &&& self.frames@.len() > 0
        &&& forall|i: int| 0 <= i < self.frames@.len() ==> (#[trigger] self.frames@[i]).wf()
        &&& region_bounds(self.region).0 <= region_bounds(self.region).1
    }
}

pub open spec fn site_view(site: Option<(Vec<u8>, u32)>) -> Option<(Seq<u8>, u32)> {
    match site {
        Some((file, line)) => Some((file@, line)),
        None => None,
    }
}

/// Puts together what is printed: the faulting frame before its callers, and
/// where the goroutine was started.
pub fn overflow(
    leaf: Frame,
    callers: Vec<Frame>,
    table: &SpawnTable,
    g: usize,
    region: Region,
    fault_addr: u64,
    pc: u64,
    sp: u64,
) -> (o: Overflow)
    requires
        table.wf(),
        leaf.wf(),
        forall|i: int| 0 <= i < callers@.len() ==> (#[trigger] callers@[i]).wf(),
        region_bounds(region).0 <= region_bounds(region).1,
    ensures
        o.wf(),
        o.frames@ == seq![leaf] + callers@,
        site_view(o.site) == spawn_site(table.slots@, g),
        o.region == region,
        o.fault_addr == fault_addr,
        o.pc == pc,
        o.sp == sp,
{
    let mut rest = callers;
    let mut frames: Vec<Frame> = Vec::new();
    frames.push(leaf);
    frames.append(&mut rest);
    assert(frames@ =~= seq![leaf] + callers@);
    Overflow { frames, site: lookup(table, g), region, fault_addr, pc, sp }
}

pub open spec fn remedy_text() -> Seq<u8> {
    gostr::lit("\nremedy:\n") + gostr::lit(
        "\tbump the spawn-site stack:    go!(stack(4 * MB), || ...)\n",
    ) + gostr::lit(
        "\tor raise all bare-go stacks:  runtime::debug::SetMaxStack(64 * MB)\n",
    ) + gostr::lit(
        "\tor wrap the recursion site:   runtime::sched::maybe_grow(64 * KB, 4 * MB, || ...)\n",
    )
}

pub open spec fn fault_text(o: Overflow) -> Seq<u8> {
    gostr::lit("\tfault: SIGSEGV at ") + hex_text(o.fault_addr) + gostr::lit(" (PC=")
        + hex_text(o.pc) + gostr::lit(" SP=") + hex_text(o.sp) + gostr::lit(")\n")
}

pub open spec fn report_text(o: Overflow) -> Seq<u8> {
    gostr::lit("\ngoish: runtime error: stack overflow\n\n") + gostr::lit(
        "goroutine 1 [running]:\n",
    ) + frames_text(o.frames@, o.frames@.len()) + (if o.frames@.len() == 1 {
        gostr::lit("\t(no frames recovered - RBP chain unavailable)\n")
    } else {
        Seq::empty()
    }) + gostr::lit("\ncreated by ") + site_text(site_view(o.site)) + region_text(o.region)
        + fault_text(o) + remedy_text()
}

fn write_bounds(out: &mut Vec<u8>, lo: u64, hi: u64, tail: &str)
    requires
        lo <= hi,
    ensures
        final(out)@ == old(out)@ + bounds_text(lo, hi, gostr::lit(tail)),
{
    append(out, text("\tg.stack: ").as_slice());
    append(out, write_hex(lo).as_slice());
    append(out, text("-").as_slice());
    append(out, write_hex(hi).as_slice());
    append(out, text(" (").as_slice());
    append(out, utoa(hi - lo).as_slice());
    append(out, text(tail).as_slice());
    assert(out@ =~= old(out)@ + bounds_text(lo, hi, gostr::lit(tail)));
}

fn write_fault(out: &mut Vec<u8>, o: &Overflow)
    ensures
        final(out)@ == old(out)@ + fault_text(*o),
{
    append(out, text("\tfault: SIGSEGV at ").as_slice());
    append(out, write_hex(o.fault_addr).as_slice());
    append(out, text(" (PC=").as_slice());
    append(out, write_hex(o.pc).as_slice());
    append(out, text(" SP=").as_slice());
    append(out, write_hex(o.sp).as_slice());
    append(out, text(")\n").as_slice());
    assert(out@ =~= old(out)@ + fault_text(*o));
}

fn write_remedy(out: &mut Vec<u8>)
    ensures
        final(out)@ == old(out)@ + remedy_text(),
{
    append(out, text("\nremedy:\n").as_slice());
    append(out, text("\tbump the spawn-site stack:    go!(stack(4 * MB), || ...)\n").as_slice());
    append(
        out,
        text("\tor raise all bare-go stacks:  runtime::debug::SetMaxStack(64 * MB)\n").as_slice(),
    );
    append(
        out,
        text(
            "\tor wrap the recursion site:   runtime::sched::maybe_grow(64 * KB, 4 * MB, || ...)\n",
        ).as_slice(),
    );
    assert(out@ =~= old(out)@ + remedy_text());
}

fn write_site(out: &mut Vec<u8>, site: &Option<(Vec<u8>, u32)>)
    ensures
        final(out)@ == old(out)@ + site_text(site_view(*site)),
{
    match site {
        Some((file, line)) => {
            append(out, file.as_slice());
            append(out, text(":").as_slice());
            append(out, utoa(*line as u64).as_slice());
            append(out, text(" (go!())\n").as_slice());
        },
        None => {
            append(out, text("<unknown> (go!())\n").as_slice());
        },
    }
    assert(out@ =~= old(out)@ + site_text(site_view(*site)));
}

/// The text of a stack overflow.
pub fn report(o: &Overflow) -> (r: Vec<u8>)
    requires
        o.wf(),
    ensures
        r@ == report_text(*o),
{
    let mut out = text("\ngoish: runtime error: stack overflow\n\n");
    append(&mut out, text("goroutine 1 [running]:\n").as_slice());
    let ghost head = out@;
    let mut i: usize = 0;
    assert(head + frames_text(o.frames@, 0) =~= head);
    while i < o.frames.len()
        invariant
            i <= o.frames@.len(),
            o.wf(),
            out@ == head + frames_text(o.frames@, i as nat),
        decreases o.frames@.len() - i,
    {
        let f = write_frame(&o.frames[i]);
        append(&mut out, f.as_slice());
        i = i + 1;
        assert(out@ =~= head + frames_text(o.frames@, i as nat));
    }
    if o.frames.len() == 1 {
        append(&mut out, text("\t(no frames recovered - RBP chain unavailable)\n").as_slice());
    }
    append(&mut out, text("\ncreated by ").as_slice());
    write_site(&mut out, &o.site);
    let ghost before_region = out@;
    match o.region {
        Region::HomeOverflow { lo, hi } => {
            write_bounds(&mut out, lo, hi, " bytes, home)\n");
        },
        Region::GrownOverflow { lo, hi } => {
            write_bounds(&mut out, lo, hi, " bytes, grown)\n");
        },
        Region::Unrelated => {},
    }
    assert(out@ =~= before_region + region_text(o.region));
    write_fault(&mut out, o);
    write_remedy(&mut out);
    assert(out@ =~= report_text(*o));
    out
}

/// What the handler of a segmentation fault does.
pub enum SegvAction {
    /// Restore the default action and let the fault happen again.
    Default,
    /// Print the report and exit with code 2. The first `n` of `frames` are
    /// the callers.
    Report { region: Region, frames: [u64; MAX_FRAMES], n: usize },
}

pub open spec fn segv_region(g: Option<GStacks>, fault_addr: u64) -> Region {
    match g {
        Some(g) => region_of(g, fault_addr),
        None => Region::Unrelated,
    }
}

/// Decides about a fault: an overflow of a stack of the running goroutine is
/// reported, with the callers found on that stack; anything else keeps its
/// default action.
pub fn goish_segv_sigtramp(g: &Option<GStacks>, fault_addr: u64, fp: u64, mem: &Memory) -> (r: SegvAction)
    requires
        *g matches Some(g) ==> g.wf(),
    ensures
        match r {
            SegvAction::Default => segv_region(*g, fault_addr) == Region::Unrelated,
            SegvAction::Report { region, frames, n } => {
                let (lo, hi) = region_bounds(region);
                &&& n <= MAX_FRAMES
                &&& region == segv_region(*g, fault_addr)
                &&& region != Region::Unrelated
                &&& frames@.subrange(0, n as int) == (if hi > lo {
                    callers(*mem, fp, lo, hi, MAX_FRAMES as nat)
                } else {
                    Seq::empty()
                })
            },
        },
{
    let stacks = match g {
        Some(s) => s,
        None => {
            return SegvAction::Default;
        },
    };
    let region = classify(stacks, fault_addr);
    let (lo, hi): (u64, u64) = match region {
        Region::HomeOverflow { lo, hi } => (lo, hi),
        Region::GrownOverflow { lo, hi } => (lo, hi),
        Region::Unrelated => {
            return SegvAction::Default;
        },
    };
    let mut frames: [u64; MAX_FRAMES] = [0u64;MAX_FRAMES];
    let n: usize = if hi > lo {
        walk_frames(mem, fp, lo, hi, &mut frames)
    } else {
        0
    };
    assert(n == 0 ==> frames@.subrange(0, 0) =~= Seq::empty());
    SegvAction::Report { region, frames, n }
}

// ---- what the numbers and the report come to ----

/// The value of a hexadecimal digit.
pub open spec fn hex_digit_value(c: u8) -> Option<nat> {
    if '0' as u8 <= c <= '9' as u8 {
        Some((c - '0' as u8) as nat)
    } else if 'a' as u8 <= c <= 'f' as u8 {
        Some((c - 'a' as u8 + 10) as nat)
    } else {
        None
    }
}

/// The number that hexadecimal digits stand for.
pub open spec fn hex_value(s: Seq<u8>) -> Option<nat>
    decreases s.len(),
{
    if s.len() == 0 {
        Some(0)
    } else {
        match (hex_value(s.drop_last()), hex_digit_value(s.last())) {
            (Some(v), Some(d)) => Some(16 * v + d),
            _ => None,
        }
    }
}

proof fn lemma_hex_digits(v: u64, n: nat)
    ensures
        hex_digits(v, n).len() == n,
        hex_value(hex_digits(v, n)) == Some((v as nat) % pow16(n)),
    decreases n,
{
    if n > 0 {
        lemma_hex_digits(v / 16, (n - 1) as nat);
        assert(hex_digits(v, n).drop_last() =~= hex_digits(v / 16, (n - 1) as nat));
        lemma_pow16(n);
        let p = pow16((n - 1) as nat) as int;
        vstd::arithmetic::div_mod::lemma_breakdown(v as int, 16, p);
        assert(16 * ((v as int / 16) % p) + v as int % 16 == v as int % (16 * p));
    } else {
        assert((v as nat) % 1 == 0);
    }
}

pub open spec fn pow16(n: nat) -> nat
    decreases n,
{
    if n == 0 {
        1
    } else {
        16 * pow16((n - 1) as nat)
    }
}

proof fn lemma_pow16(n: nat)
    ensures
        pow16(n) > 0,
    decreases n,
{
    if n > 0 {
        lemma_pow16((n - 1) as nat);
    }
}

/// An address in a report reads back as the address, in sixteen digits behind
/// a `0x`.
pub proof fn law_address_text_reads_back(v: u64)
    ensures
        hex_text(v).len() == 18,
        hex_text(v)[0] == '0' as u8 && hex_text(v)[1] == 'x' as u8,
        hex_value(hex_text(v).subrange(2, 18)) == Some(v as nat),
{
    lemma_hex_digits(v, 16);
    reveal_strlit("0x");
    gostr::lemma_plain_text("0x");
    assert(gostr::lit("0x") =~= seq![48u8, 120u8]);
    assert(hex_text(v).subrange(2, 18) =~= hex_digits(v, 16));
    assert(pow16(16) == 0x1_0000_0000_0000_0000) by {
        reveal_with_fuel(pow16, 17);
    }
}

/// An offset in a report reads back as the offset, and has no digit that it
/// does not need.
pub proof fn law_offset_text_reads_back(v: u64)
    ensures
        hex_value(hex_compact(v)) == Some(v as nat),
        hex_compact(v).len() > 0,
        hex_compact(v).len() > 1 ==> hex_compact(v)[0] != '0' as u8,
    decreases v,
{
    if v < 16 {
        let s = hex_compact(v);
        assert(s.drop_last() =~= Seq::<u8>::empty());
        assert(hex_value(s.drop_last()) == Some(0nat));
    } else {
        law_offset_text_reads_back(v / 16);
        let s = hex_compact(v);
        assert(s.drop_last() =~= hex_compact(v / 16));
        assert(s[0] == hex_compact(v / 16)[0]);
        if hex_compact(v / 16).len() == 1 {
            let t = hex_compact(v / 16);
            assert(t.drop_last() =~= Seq::<u8>::empty());
            assert(hex_value(t.drop_last()) == Some(0nat));
            assert(hex_digit_value(t.last()) == Some((v / 16) as nat));
        }
    }
}

/// The traceback is the texts of all frames, one after the other in their
/// order: that of two runs of frames is that of the first and then that of the
/// second, and that of one frame is its own.
pub proof fn law_traceback_is_in_order(a: Seq<Frame>, b: Seq<Frame>, f: Frame)
    ensures
        frames_text(Seq::empty(), 0) == Seq::<u8>::empty(),
        frames_text(seq![f], 1) == frame_text(f),
        frames_text(a + b, a.len() + b.len()) == frames_text(a, a.len()) + frames_text(b, b.len()),
{
    reveal_with_fuel(frames_text, 2);
    assert(frames_text(seq![f], 1) =~= frame_text(f));
    lemma_traceback(a, b, b.len());
}

proof fn lemma_traceback(a: Seq<Frame>, b: Seq<Frame>, n: nat)
    requires
        n <= b.len(),
    ensures
        frames_text(a + b, a.len() + n) == frames_text(a, a.len()) + frames_text(b, n),
    decreases n,
{
    if n == 0 {
        lemma_traceback_local(a + b, a, a.len());
        assert(frames_text(a, a.len()) + Seq::<u8>::empty() =~= frames_text(a, a.len()));
    } else {
        lemma_traceback(a, b, (n - 1) as nat);
        assert((a + b)[a.len() + n - 1] == b[n - 1]);
        assert(frames_text(a, a.len()) + frames_text(b, (n - 1) as nat) + frame_text(b[n - 1])
            =~= frames_text(a, a.len()) + (frames_text(b, (n - 1) as nat) + frame_text(b[n - 1])));
    }
}

proof fn lemma_traceback_local(a: Seq<Frame>, b: Seq<Frame>, n: nat)
    requires
        forall|i: int| 0 <= i < n ==> #[trigger] a[i] == b[i],
    ensures
        frames_text(a, n) == frames_text(b, n),
    decreases n,
{
    if n > 0 {
        lemma_traceback_local(a, b, (n - 1) as nat);
        assert(a[n - 1] == b[n - 1]);
    }
}

/// A frame is two lines: its function, and where in which file it is. What is
/// not known is marked so.
pub proof fn law_frame_shows_function_and_place(f: Frame, name: Seq<u8>, file: Seq<u8>)
    requires
        f.wf(),
        f.info.fn_name_len == name.len(),
        f.info.fn_name@.subrange(0, name.len() as int) == name,
        f.info.file_len == file.len(),
        f.info.file@.subrange(0, file.len() as int) == file,
    ensures
        frame_text(f) == (if f.known && name.len() > 0 {
            name
        } else {
            gostr::lit("<unknown>")
        }) + gostr::lit("(...)\n") + gostr::lit("\t") + (if f.known && file.len() > 0 {
            file + gostr::lit(":") + gostr::dec_nat(f.info.line as nat)
        } else {
            gostr::lit("???:0")
        }) + gostr::lit(" +0x") + (if f.known {
            hex_compact(f.info.fn_offset)
        } else {
            gostr::lit("0")
        }) + gostr::lit("\n"),
{
    reveal_strlit("<unknown>(...)\n");
    reveal_strlit("<unknown>");
    reveal_strlit("(...)\n");
    reveal_strlit("0");
    gostr::lemma_plain_text("<unknown>(...)\n");
    gostr::lemma_plain_text("<unknown>");
    gostr::lemma_plain_text("(...)\n");
    gostr::lemma_plain_text("0");
    assert(gostr::lit("<unknown>(...)\n") =~= gostr::lit("<unknown>") + gostr::lit("(...)\n"));
    assert(gostr::lit("0") =~= seq![48u8]);
    assert(hex_compact(0) =~= seq![48u8]);
}

/// The report names the overflow, shows the frames, says where the goroutine
/// was started, which stack overflowed with its bounds and size, where the
/// fault was, and what can be done, in this order.
pub proof fn law_report_shows_everything(o: Overflow, lo: u64, hi: u64, file: Seq<u8>, line: u32)
    requires
        o.wf(),
        site_view(o.site) == Some((file, line)),
        o.region == (Region::HomeOverflow { lo, hi }) || o.region == (Region::GrownOverflow {
            lo,
            hi,
        }),
    ensures
        report_text(o) == gostr::lit("\ngoish: runtime error: stack overflow\n\n") + gostr::lit(
            "goroutine 1 [running]:\n",
        ) + frames_text(o.frames@, o.frames@.len()) + (if o.frames@.len() == 1 {
            gostr::lit("\t(no frames recovered - RBP chain unavailable)\n")
        } else {
            Seq::empty()
        }) + gostr::lit("\ncreated by ") + (file + gostr::lit(":") + gostr::dec_nat(line as nat)
            + gostr::lit(" (go!())\n")) + (gostr::lit("\tg.stack: ") + hex_text(lo) + gostr::lit(
            "-",
        ) + hex_text(hi) + gostr::lit(" (") + gostr::dec_nat((hi - lo) as nat) + (if o.region
            is HomeOverflow {
            gostr::lit(" bytes, home)\n")
        } else {
            gostr::lit(" bytes, grown)\n")
        })) + (gostr::lit("\tfault: SIGSEGV at ") + hex_text(o.fault_addr) + gostr::lit(" (PC=")
            + hex_text(o.pc) + gostr::lit(" SP=") + hex_text(o.sp) + gostr::lit(")\n"))
            + remedy_text(),
{
}

/// A fault belongs to a stack exactly if it lies in the guard below it or in
/// its lowest 32 bytes.
pub proof fn law_guard_catches_the_overflow(lo: u64, fault: u64, guard: u64)
    ensures
        overflows(lo, fault, guard) <==> lo - guard <= fault < lo + 32,
{
}

/// A fault is put down to the goroutine's own stack first, then to a region
/// that it has grown into, then to the one that it runs on; and to some of them
/// whenever it belongs to one.
pub proof fn law_fault_is_put_down_to_its_stack(g: GStacks, fault: u64)
    ensures
        ({
            let r = region_of(g, fault);
            let home = g.home_lo - g.guard <= fault < g.home_lo + 32;
            let grown = exists|i: int|
                0 <= i < g.regions@.len() && g.regions@[i].0 - g.guard <= fault < (
                #[trigger] g.regions@[i]).0 + 32;
            let active = g.active_lo != 0 && g.active_lo != g.home_lo && g.active_lo - g.guard
                <= fault < g.active_lo + 32;
            &&& home ==> r == (Region::HomeOverflow { lo: g.home_lo, hi: g.home_hi })
            &&& !home && grown ==> exists|i: int|
                0 <= i < g.regions@.len() && g.regions@[i].0 - g.guard <= fault < (
                #[trigger] g.regions@[i]).0 + 32 && r == (Region::GrownOverflow {
                    lo: g.regions@[i].0,
                    hi: (g.regions@[i].0 + g.regions@[i].1) as u64,
                })
            &&& !home && !grown && active ==> r == (Region::GrownOverflow {
                lo: g.active_lo,
                hi: g.active_hi,
            })
            &&& !home && !grown && !active ==> r == Region::Unrelated
        }),
{
    lemma_grown_region(g.regions@, fault, g.guard, 0);
}

proof fn lemma_grown_region(regions: Seq<(u64, u64)>, fault: u64, guard: u64, i: int)
    requires
        0 <= i,
    ensures
        match grown_region(regions, fault, guard, i) {
            Some(k) => i <= k < regions.len() && regions[k].0 - guard <= fault < regions[k].0 + 32,
            None => forall|k: int|
                i <= k < regions.len() ==> !((#[trigger] regions[k]).0 - guard <= fault
                    < regions[k].0 + 32),
        },
    decreases regions.len() - i,
{
    if i < regions.len() {
        lemma_grown_region(regions, fault, guard, i + 1);
    }
}

/// A chain of frame records that lie on the stack, aligned and each above the
/// one before, is walked from record to record, at most as far as asked: the
/// return addresses come out in that order.
pub proof fn law_sound_chain_is_walked(
    mem: Memory,
    fps: Seq<u64>,
    pcs: Seq<u64>,
    last: u64,
    lo: u64,
    hi: u64,
    n: nat,
)
    requires
        fps.len() == pcs.len() > 0,
        last <= fps.last(),
        forall|i: int|
            0 <= i < fps.len() ==> {
                &&& lo <= #[trigger] fps[i] && fps[i] + 16 <= hi && fps[i] % 8 == 0 && fps[i] != 0
                &&& pcs[i] != 0
                &&& mem.frame(fps[i]) == Some(
                    (
                        if i + 1 < fps.len() {
                            fps[i + 1]
                        } else {
                            last
                        },
                        pcs[i],
                    ),
                )
            },
        forall|i: int| 0 <= i < fps.len() - 1 ==> #[trigger] fps[i] < fps[i + 1],
    ensures
        callers(mem, fps[0], lo, hi, n) == pcs.subrange(
            0,
            if n < pcs.len() {
                n as int
            } else {
                pcs.len() as int
            },
        ),
    decreases n,
{
    let out = callers(mem, fps[0], lo, hi, n);
    if n == 0 {
        assert(out =~= pcs.subrange(0, 0));
    } else if fps.len() == 1 {
        assert(out =~= pcs.subrange(0, 1));
    } else {
        let f2 = fps.subrange(1, fps.len() as int);
        let p2 = pcs.subrange(1, pcs.len() as int);
        assert forall|i: int| 0 <= i < f2.len() implies {
            &&& lo <= #[trigger] f2[i] && f2[i] + 16 <= hi && f2[i] % 8 == 0 && f2[i] != 0
            &&& p2[i] != 0
            &&& mem.frame(f2[i]) == Some(
                (
                    if i + 1 < f2.len() {
                        f2[i + 1]
                    } else {
                        last
                    },
                    p2[i],
                ),
            )
        } by {
            assert(f2[i] == fps[i + 1]);
        }
        assert forall|i: int| 0 <= i < f2.len() - 1 implies #[trigger] f2[i] < f2[i + 1] by {
            assert(fps[i + 1] < fps[i + 2]);
        }
        law_sound_chain_is_walked(mem, f2, p2, last, lo, hi, (n - 1) as nat);
        assert(fps[0] < fps[1]);
        assert(out =~= pcs.subrange(
            0,
            if n < pcs.len() {
                n as int
            } else {
                pcs.len() as int
            },
        ));
    }
}

/// A table with a free slot has room for every goroutine.
pub proof fn law_free_slot_is_found(slots: Seq<SpawnSlot>, g: usize, i: int, k: int)
    requires
        slots.len() == 4096,
        0 <= i < 4096,
        slots[i].g == 0,
        0 <= k <= step_of(g, i),
    ensures
        free_slot(slots, g, k) is Some,
    decreases 4096 - k,
{
    if slots[probe(g, k)].g != 0 {
        assert(probe(g, step_of(g, i)) == i);
        law_free_slot_is_found(slots, g, i, k + 1);
    }
}

/// While a slot of the table is free, a goroutine that was not in it is found
/// after it was registered, with the file and the line that were recorded, and
/// is not found once it was forgotten. Others are found as before.
pub proof fn law_spawn_site_is_remembered(
    t: SpawnTable,
    u: SpawnTable,
    v: SpawnTable,
    g: usize,
    file: Seq<u8>,
    line: u32,
    free: int,
)
    requires
        t.wf(),
        u.wf(),
        v.wf(),
        g != 0,
        !t.holds(g),
        0 <= free < 4096,
        t.slots@[free].g == 0,
        file.len() > 0,
        registers(t.slots@, u.slots@, g, file, line),
        forgets(u.slots@, v.slots@, g),
    ensures
        spawn_site(t.slots@, g) is None,
        spawn_site(u.slots@, g) == Some((file, line)),
        spawn_site(v.slots@, g) is None,
{
    law_free_slot_is_found(t.slots@, g, free, 0);
    let at = free_slot(t.slots@, g, 0)->0;
    law_search_finds_what_is_held(t, g);
    law_registered_is_found(t, u, g, at);
    lemma_slot_holds(u.slots@, g, 0);
    let i = slot_of(u.slots@, g, 0)->0;
    if i != at {
        assert(u.slots@[i] == t.slots@[i]);
    }
    assert forall|k: int| 0 <= k < SPAWN_TABLE_SIZE && k != at implies (#[trigger] u.slots@[k]).g
        != g by {
        assert(u.slots@[k] == t.slots@[k]);
    }
    law_forgotten_is_not_found(u, v, g, at);
}

} // verus!
