//! Threads: their storage, and the count of locks that forbids preemption.

use vstd::prelude::*;

use crate::gostr::{append, text};
use crate::memory::Memory;
use crate::segv::low_digits;
use crate::{gostr, segv};

verus! {

pub struct M {
    pub id: u32,
    /// The kernel's number of the thread; zero before it is known.
    pub procid: i32,
    /// The goroutine that runs on the thread.
    pub curg: Option<usize>,
    /// What to call once the goroutine has parked, and on which lock.
    pub waitunlockf: Option<usize>,
    pub waitlock: usize,
}

impl M {
    pub fn new(id: u32) -> (r: Self)
        ensures
            r == (M { id, procid: 0, curg: None, waitunlockf: None, waitlock: 0 }),
    {
        M { id, procid: 0, curg: None, waitunlockf: None, waitlock: 0 }
    }
}

/// Distance of the thread record from the start of its storage.
pub const M_OFFSET: usize = 8;

/// The storage of a thread, at a fixed address. Its first word points to the
/// thread record inside it.
pub struct MStorage {
    pub addr: usize,
    pub tls_self: usize,
    pub m: M,
    pub locks: u32,
    pub mprof_next: i64,
    /// When the current goroutine started to run; zero for none.
    pub start_running_ns: i64,
    pub current_p: Option<u32>,
    pub g0: Option<(usize, usize)>,
    /// Where the outermost lock was taken.
    pub first_lock_site: Option<usize>,
}

/// The storage of a thread that has not started.
pub open spec fn fresh_storage(id: u32, addr: usize) -> MStorage {
    MStorage {
        addr,
        tls_self: 0,
        m: M { id, procid: 0, curg: None, waitunlockf: None, waitlock: 0 },
        locks: 0,
        mprof_next: 0,
        start_running_ns: 0,
        current_p: None,
        g0: None,
        first_lock_site: None,
    }
}

impl MStorage {
    pub fn new(id: u32, addr: usize) -> (r: Self)
        ensures
            r == fresh_storage(id, addr),
    {
        MStorage {
            addr,
            tls_self: 0,
            m: M::new(id),
            locks: 0,
            mprof_next: 0,
            start_running_ns: 0,
            current_p: None,
            g0: None,
            first_lock_site: None,
        }
    }

    /// Makes the first word point to the thread record.
    pub fn init_tls_self(&mut self)
        requires
            old(self).addr + M_OFFSET <= usize::MAX,
        ensures
            *final(self) == (MStorage {
                tls_self: (old(self).addr + M_OFFSET) as usize,
                ..*old(self)
            }),
    {
        self.tls_self = self.addr + M_OFFSET;
    }

    /// What the thread pointer is set to.
    pub fn tls_base(&self) -> (r: usize)
        ensures
            r == self.addr,
    {
        self.addr
    }

    pub fn fs_base(&self) -> (r: usize)
        ensures
            r == self.addr,
    {
        self.tls_base()
    }
}

/// The storage that holds the thread record at an address.
pub fn current_m_storage(m_addr: usize) -> (r: usize)
    requires
        m_addr >= M_OFFSET,
    ensures
        r == m_addr - M_OFFSET,
{
    m_addr - M_OFFSET
}

/// The first word of a storage leads back to the storage.
pub proof fn law_tls_self_finds_storage(s: MStorage)
    requires
        s.addr + M_OFFSET <= usize::MAX,
    ensures
        (MStorage { tls_self: (s.addr + M_OFFSET) as usize, ..s }).tls_self - M_OFFSET == s.addr,
{
}

/// What is known of thread pointers: whether they are in use, and what the
/// main thread's was before.
pub struct Tls {
    pub ready: bool,
    pub pre_goish_fs_base: usize,
}

pub fn pre_goish_fs_base(t: &Tls) -> (r: usize)
    ensures
        r == t.pre_goish_fs_base,
{
    t.pre_goish_fs_base
}

pub fn mark_tls_ready(t: &mut Tls)
    ensures
        *final(t) == (Tls { ready: true, ..*old(t) }),
{
    t.ready = true;
}

pub fn is_tls_ready(t: &Tls) -> (r: bool)
    ensures
        r == t.ready,
{
    t.ready
}

/// A thread's storage after a lock was counted.
pub open spec fn acquired(t: Tls, s: MStorage) -> MStorage {
    if t.ready {
        MStorage { locks: s.locks.wrapping_add(1), ..s }
    } else {
        s
    }
}

/// Counts a lock. Before thread pointers are in use nothing happens.
pub fn acquirem(t: &Tls, s: &mut MStorage)
    ensures
        *final(s) == acquired(*t, *old(s)),
{
    if !is_tls_ready(t) {
        return;
    }
    s.locks = s.locks.wrapping_add(1);
}

/// Exit code after a release without a lock.
pub const UNDERFLOW_EXIT: i32 = 87;

pub enum Release {
    Done,
    /// There was no lock: report this on standard error and exit.
    Fatal { report: Vec<u8>, code: i32 },
}

/// The line of a caller in the report.
pub open spec fn pc_line(pc: u64) -> Seq<u8> {
    gostr::lit(" 0x") + segv::hex_digits(pc, 16) + gostr::lit("\n")
}

/// The report's lines: at most ten callers, following the frame chain upwards
/// while it is sound.
pub open spec fn caller_lines(mem: Memory, fp: u64, hops: nat) -> Seq<u8>
    decreases hops,
{
    if hops == 0 || fp == 0 || fp & 7 != 0 {
        Seq::empty()
    } else {
        match mem.frame(fp) {
            None => Seq::empty(),
            Some((next, pc)) => if pc == 0 {
                Seq::empty()
            } else if next <= fp || next - fp > 1048576 {
                pc_line(pc)
            } else {
                pc_line(pc) + caller_lines(mem, next, (hops - 1) as nat)
            },
        }
    }
}

fn push_pc(out: &mut Vec<u8>, pc: u64)
    ensures
        final(out)@ == old(out)@ + pc_line(pc),
{
    append(out, text(" 0x").as_slice());
    append(out, low_digits(pc, 16).as_slice());
    append(out, text("\n").as_slice());
    assert(out@ =~= old(out)@ + pc_line(pc));
}

fn underflow_report(mem: &Memory, fp: u64) -> (out: Vec<u8>)
    ensures
        out@ == gostr::lit("releasem UNDERFLOW, caller PCs:\n") + caller_lines(*mem, fp, 10),
{
    let mut out = text("releasem UNDERFLOW, caller PCs:\n");
    let ghost head = out@;
    let mut at: u64 = fp;
    let mut hops: u64 = 10;
    let ghost all = head + caller_lines(*mem, fp, 10);
    loop
        invariant_except_break
            hops <= 10,
            all == out@ + caller_lines(*mem, at, hops as nat),
        ensures
            out@ == all,
        decreases hops,
    {
        if hops == 0 || at == 0 || at & 7 != 0 {
            assert(out@ + Seq::<u8>::empty() =~= out@);
            break;
        }
        let (next, pc) = match mem.read_frame(at) {
            None => {
                assert(out@ + Seq::<u8>::empty() =~= out@);
                break;
            },
            Some(f) => f,
        };
        if pc == 0 {
            assert(out@ + Seq::<u8>::empty() =~= out@);
            break;
        }
        let ghost before = out@;
        push_pc(&mut out, pc);
        if next <= at || next - at > 1048576 {
            break;
        }
        assert(before + (pc_line(pc) + caller_lines(*mem, next, (hops - 1) as nat)) =~= out@
            + caller_lines(*mem, next, (hops - 1) as nat));
        at = next;
        hops = hops - 1;
    }
    out
}

/// What a release does: `s0` is the thread's storage before and `s1` after it,
/// and `fp` the frame from which callers are reported.
pub open spec fn released(
    t: Tls,
    s0: MStorage,
    s1: MStorage,
    mem: Memory,
    fp: u64,
    r: Release,
) -> bool {
    if !t.ready {
        r == Release::Done && s1 == s0
    } else {
        &&& s1 == (MStorage { locks: s0.locks.wrapping_sub(1), ..s0 })
        &&& match r {
            Release::Done => s0.locks > 0,
            Release::Fatal { report, code } => s0.locks == 0 && code == UNDERFLOW_EXIT
                && report@ == gostr::lit("releasem UNDERFLOW, caller PCs:\n") + caller_lines(
                mem,
                fp,
                10,
            ),
        }
    }
}

/// Counts a lock down. Releasing without a lock is fatal: the callers are
/// reported, from the frame at `fp`.
pub fn releasem(t: &Tls, s: &mut MStorage, mem: &Memory, fp: u64) -> (r: Release)
    ensures
        released(*t, *old(s), *final(s), *mem, fp, r),
{
    if !is_tls_ready(t) {
        return Release::Done;
    }
    if s.locks == 0 {
        s.locks = u32::MAX;
        return Release::Fatal { report: underflow_report(mem, fp), code: UNDERFLOW_EXIT };
    }
    s.locks = s.locks - 1;
    Release::Done
}

/// A lock that is counted and released leaves the count as it was.
pub proof fn law_lock_count_balances(locks: u32)
    requires
        locks < u32::MAX,
    ensures
        locks.wrapping_add(1) > 0,
        locks.wrapping_add(1) - 1 == locks,
{
}

pub fn current_m_locks(t: &Tls, s: &MStorage) -> (r: u32)
    ensures
        r == (if t.ready {
            s.locks
        } else {
            0
        }),
{
    if !is_tls_ready(t) {
        return 0;
    }
    s.locks
}

pub fn set_first_lock_site(t: &Tls, s: &mut MStorage, site: usize)
    ensures
        *final(s) == (if t.ready {
            MStorage { first_lock_site: Some(site), ..*old(s) }
        } else {
            *old(s)
        }),
{
    if !is_tls_ready(t) {
        return;
    }
    s.first_lock_site = Some(site);
}

pub fn first_lock_site(t: &Tls, s: &MStorage) -> (r: Option<usize>)
    ensures
        r == (if t.ready {
            s.first_lock_site
        } else {
            None
        }),
{
    if !is_tls_ready(t) {
        return None;
    }
    s.first_lock_site
}

/// Prepares the main thread's storage: remembers the thread pointer that was
/// set before, and puts the new one into use once the kernel has taken it.
/// Returns whether it did.
pub fn setup_main_tls(t: &mut Tls, s: &mut MStorage, saved_base: usize, planted: i64, tid: i32) -> (ok:
    bool)
    requires
        old(s).addr + M_OFFSET <= usize::MAX,
    ensures
        ok == (planted == 0),
        final(t).pre_goish_fs_base == (if saved_base != 0 {
            saved_base
        } else {
            old(t).pre_goish_fs_base
        }),
        final(t).ready == (old(t).ready || planted == 0),
        *final(s) == (MStorage {
            tls_self: (old(s).addr + M_OFFSET) as usize,
            m: M {
                procid: if planted == 0 {
                    tid
                } else {
                    old(s).m.procid
                },
                ..old(s).m
            },
            ..*old(s)
        }),
{
    if saved_base != 0 {
        t.pre_goish_fs_base = saved_base;
    }
    s.init_tls_self();
    if planted != 0 {
        return false;
    }
    mark_tls_ready(t);
    s.m.procid = tid;
    true
}

/// Where the process was entered: below its argument vector, aligned.
pub open spec fn entry_sp(argv: usize) -> usize {
    let below = if argv >= 8 {
        (argv - 8) as int
    } else {
        0
    };
    (below - below % 16) as usize
}

/// The stack of the main thread's scheduler: the main stack, cut at the
/// process's entry when that lies inside it.
pub open spec fn main_g0(base: usize, size: usize, argv: Option<usize>) -> (usize, usize) {
    match argv {
        Some(a) if base < entry_sp(a) < base + size => (base, (entry_sp(a) - base) as usize),
        _ => (base, size),
    }
}

pub fn setup_main_g0(s: &mut MStorage, base: usize, size: usize, argv: Option<usize>)
    requires
        base + size <= usize::MAX,
    ensures
        *final(s) == (MStorage { g0: Some(main_g0(base, size, argv)), ..*old(s) }),
{
    let mut len: usize = size;
    match argv {
        Some(a) => {
            let below: usize = if a >= 8 {
                a - 8
            } else {
                0
            };
            let entry: usize = below - below % 16;
            if entry > base && entry < base + size {
                len = entry - base;
            }
        },
        None => {},
    }
    s.g0 = Some((base, len));
}

/// Assumed size of a main stack that could not be found.
pub const FALLBACK_STACK: usize = 8388608;

/// The main stack: what was found, or a region of the assumed size that holds
/// the stack pointer.
pub fn main_stack_bounds(found: Option<(usize, usize)>, sp: usize) -> (r: (usize, usize))
    requires
        found is None ==> 0 < sp <= usize::MAX - FALLBACK_STACK,
    ensures
        match found {
            Some(f) => r == f,
            None => r.1 == FALLBACK_STACK && r.0 % FALLBACK_STACK == 0 && r.0 < sp <= r.0
                + FALLBACK_STACK,
        },
{
    match found {
        Some(f) => f,
        None => {
            let k: usize = (sp + FALLBACK_STACK - 1) / FALLBACK_STACK;
            (k * FALLBACK_STACK - FALLBACK_STACK, FALLBACK_STACK)
        },
    }
}

/// libpthread's bounds of a stack hold its stack pointer.
pub fn stack_bounds_ok(top: usize, size: usize, sp: usize) -> (r: bool)
    ensures
        r == (size > 0 && size <= top && top - size <= sp < top),
{
    size > 0 && size <= top && top - size <= sp && sp < top
}

// ---- laws ----

/// A lock that is counted and released leaves the storage as it was, and no
/// release of a counted lock is fatal. One without a lock ends the process with
/// code 87 and a report of the callers.
pub proof fn law_release_undoes_acquire(
    t: Tls,
    s: MStorage,
    after: MStorage,
    mem: Memory,
    fp: u64,
    r: Release,
)
    requires
        s.locks < u32::MAX,
        released(t, acquired(t, s), after, mem, fp, r),
    ensures
        r == Release::Done,
        after == s,
        t.ready ==> acquired(t, s).locks == s.locks + 1,
        !t.ready ==> acquired(t, s) == s,
{
}

/// A release without a lock is fatal.
pub proof fn law_release_without_lock_is_fatal(
    t: Tls,
    s: MStorage,
    after: MStorage,
    mem: Memory,
    fp: u64,
    r: Release,
)
    requires
        t.ready,
        s.locks == 0,
        released(t, s, after, mem, fp, r),
    ensures
        r matches Release::Fatal { report, code } && code == 87 && report@ == gostr::lit(
            "releasem UNDERFLOW, caller PCs:\n",
        ) + caller_lines(mem, fp, 10),
{
}

/// The lines of callers, one after the other.
pub open spec fn lines_of(pcs: Seq<u64>) -> Seq<u8>
    decreases pcs.len(),
{
    if pcs.len() == 0 {
        Seq::empty()
    } else {
        pc_line(pcs[0]) + lines_of(pcs.subrange(1, pcs.len() as int))
    }
}

/// A sound chain of frames is reported whole, the innermost caller first, as
/// far as the limit goes. Each frame lies above the one before, at most a
/// megabyte away; the last one leads nowhere.
pub proof fn law_callers_are_reported(
    mem: Memory,
    fps: Seq<u64>,
    pcs: Seq<u64>,
    last: u64,
    hops: nat,
)
    requires
        0 < fps.len() == pcs.len() <= hops,
        last <= fps.last(),
        forall|i: int| 0 <= i < fps.len() ==> (#[trigger] fps[i]) & 7 == 0 && fps[i] != 0,
        forall|i: int| 0 <= i < pcs.len() ==> #[trigger] pcs[i] != 0,
        forall|i: int|
            0 <= i < fps.len() - 1 ==> mem.frame(#[trigger] fps[i]) == Some((fps[i + 1], pcs[i]))
                && fps[i] < fps[i + 1] <= fps[i] + 1048576,
        mem.frame(fps.last()) == Some((last, pcs.last())),
    ensures
        caller_lines(mem, fps[0], hops) == lines_of(pcs),
    decreases fps.len(),
{
    assert(fps[0] & 7 == 0);
    assert(pcs[0] != 0);
    let rest = pcs.subrange(1, pcs.len() as int);
    if fps.len() == 1 {
        assert(rest =~= Seq::empty());
        assert(lines_of(rest) =~= Seq::empty());
        assert(pc_line(pcs[0]) + Seq::<u8>::empty() =~= pc_line(pcs[0]));
    } else {
        let up = fps.subrange(1, fps.len() as int);
        assert forall|i: int| 0 <= i < up.len() implies (#[trigger] up[i]) & 7 == 0 && up[i] != 0 by {
            assert(up[i] == fps[i + 1]);
        }
        assert forall|i: int| 0 <= i < rest.len() implies #[trigger] rest[i] != 0 by {
            assert(rest[i] == pcs[i + 1]);
        }
        assert forall|i: int| 0 <= i < up.len() - 1 implies mem.frame(#[trigger] up[i]) == Some(
            (up[i + 1], rest[i]),
        ) && up[i] < up[i + 1] <= up[i] + 1048576 by {
            assert(up[i] == fps[i + 1]);
        }
        law_callers_are_reported(mem, up, rest, last, (hops - 1) as nat);
        assert(mem.frame(fps[0]) == Some((fps[1], pcs[0])));
    }
}

/// No more callers are reported than the limit, and none from a frame that is
/// missing or not aligned, or whose caller is unknown.
pub proof fn law_report_ends(mem: Memory, fp: u64, hops: nat)
    ensures
        caller_lines(mem, fp, 0).len() == 0,
        caller_lines(mem, 0, hops).len() == 0,
        fp & 7 != 0 ==> caller_lines(mem, fp, hops).len() == 0,
        mem.frame(fp) is None ==> caller_lines(mem, fp, hops).len() == 0,
        mem.frame(fp) matches Some((next, pc)) && pc == 0 ==> caller_lines(mem, fp, hops).len() == 0,
{
}

/// A caller's line shows its address: after a blank and `0x`, sixteen digits
/// that read back as the address, and a line end.
pub proof fn law_caller_line_reads_back(pc: u64)
    ensures
        pc_line(pc) == seq![32u8] + segv::hex_text(pc) + seq![10u8],
        segv::hex_value(segv::hex_text(pc).subrange(2, 18)) == Some(pc as nat),
{
    segv::law_address_text_reads_back(pc);
    reveal_strlit(" 0x");
    reveal_strlit("0x");
    reveal_strlit("\n");
    gostr::lemma_plain_text(" 0x");
    gostr::lemma_plain_text("0x");
    gostr::lemma_plain_text("\n");
    assert(gostr::lit(" 0x") =~= seq![32u8] + gostr::lit("0x"));
    assert(gostr::lit("\n") =~= seq![10u8]);
    assert(pc_line(pc) =~= seq![32u8] + segv::hex_text(pc) + seq![10u8]);
}

/// The process was entered at a multiple of sixteen, at least eight bytes below
/// its argument vector and as close to it as can be.
pub proof fn law_entry_is_below_the_arguments(argv: usize)
    requires
        argv >= 24,
    ensures
        entry_sp(argv) % 16 == 0,
        entry_sp(argv) + 8 <= argv,
        argv < entry_sp(argv) + 24,
{
}

/// The scheduler's stack begins where the main stack does, and ends at the
/// process's entry where that is inside, else where the main stack ends.
pub proof fn law_scheduler_stack_is_cut_at_the_entry(base: usize, size: usize, argv: usize)
    requires
        base + size <= usize::MAX,
    ensures
        main_g0(base, size, None) == (base, size),
        main_g0(base, size, Some(argv)).0 == base,
        base < entry_sp(argv) < base + size ==> base + main_g0(base, size, Some(argv)).1
            == entry_sp(argv),
        !(base < entry_sp(argv) < base + size) ==> main_g0(base, size, Some(argv)).1 == size,
{
}

} // verus!
