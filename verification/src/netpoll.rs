//! The network poller: descriptors with a read and a write parking slot, kept
//! in a slab and spread over shards, each of which has its own kernel poller.
//!
//! Every function is one atomic step of the poller. Waiting for events and
//! talking to the kernel is the caller's part: a function says which request
//! to make, and another takes the answer.

use vstd::prelude::*;

use crate::syscall::Target;
use crate::syscall;

verus! {

/// No waiter and no pending notification.
pub const PD_NIL: usize = 0;

/// Ready: the next wait returns at once.
pub const PD_READY: usize = 1;

/// A goroutine is about to park.
pub const PD_WAIT: usize = 2;

/// Upper bound on the number of shards.
pub const MAX_SHARDS: usize = 64;

pub const EPOLLIN: u32 = 0x1;

pub const EPOLLOUT: u32 = 0x4;

pub const EPOLLERR: u32 = 0x8;

pub const EPOLLHUP: u32 = 0x10;

pub const EPOLLRDHUP: u32 = 0x2000;

pub const EPOLLET: u32 = 0x8000_0000;

/// The read side, as a mode.
pub const MODE_READ: u8 = 114;

/// A registered descriptor. `rg` and `wg` hold one of the three states above,
/// or a goroutine (any larger number) that is parked there.
#[derive(Clone, Copy, Debug, PartialEq, Eq, Structural)]
pub struct PollDesc {
    pub fd: i32,
    /// Where the descriptor stands in the slab.
    pub slot: u32,
    pub rg: usize,
    pub wg: usize,
    /// Deadlines: zero for none, negative once expired.
    pub rd: i64,
    pub wd: i64,
    pub rseq: u32,
    pub wseq: u32,
    /// Generation; its low bits tag the kernel's events.
    pub fdseq: u32,
    pub shard: u32,
    /// Whether a disconnect of the peer is watched for, and what to run then.
    pub watch_on: bool,
    pub watch_hook: Option<u64>,
    /// Whether the kernel has accepted the registration.
    pub accepted: bool,
}

#[derive(Clone, Copy, Debug, PartialEq, Eq, Structural)]
pub enum BlockResult {
    Ready,
    Timedout,
    Aborted,
}

#[derive(Clone, Copy, Debug, PartialEq, Eq, Structural)]
pub struct Shard {
    pub epfd: i32,
    pub efd: i32,
    /// A wake-up is in flight.
    pub wake_sig: bool,
    /// Somebody blocks on this shard.
    pub claimed: bool,
}

/// An event of the kernel.
#[derive(Clone, Copy, Debug, PartialEq, Eq, Structural)]
pub struct EpollEvent {
    pub events: u32,
    pub data: u64,
}

pub struct Netpoll {
    pub shards: Vec<Shard>,
    pub shard_rr: usize,
    pub break_rr: usize,
    pub slots: Vec<Option<PollDesc>>,
    /// Slots that can be used again.
    pub free: Vec<u32>,
    pub live: usize,
    pub total_opens: usize,
    pub recycled: usize,
}

// ---- one descriptor ----

pub open spec fn fresh_desc(fd: i32) -> PollDesc {
    PollDesc {
        fd,
        slot: u32::MAX,
        rg: PD_NIL,
        wg: PD_NIL,
        rd: 0,
        wd: 0,
        rseq: 0,
        wseq: 0,
        fdseq: 1,
        shard: 0,
        watch_on: false,
        watch_hook: None,
        accepted: false,
    }
}

impl PollDesc {
    pub fn new(fd: i32) -> (r: Self)
        ensures
            r == fresh_desc(fd),
    {
        PollDesc {
            fd,
            slot: u32::MAX,
            rg: PD_NIL,
            wg: PD_NIL,
            rd: 0,
            wd: 0,
            rseq: 0,
            wseq: 0,
            fdseq: 1,
            shard: 0,
            watch_on: false,
            watch_hook: None,
            accepted: false,
        }
    }
}

/// The parking slot of a mode.
pub open spec fn slot_of(pd: PollDesc, mode: u8) -> usize {
    if mode == MODE_READ {
        pd.rg
    } else {
        pd.wg
    }
}

pub open spec fn with_slot(pd: PollDesc, mode: u8, v: usize) -> PollDesc {
    if mode == MODE_READ {
        PollDesc { rg: v, ..pd }
    } else {
        PollDesc { wg: v, ..pd }
    }
}

pub open spec fn deadline_of(pd: PollDesc, mode: u8) -> i64 {
    if mode == MODE_READ {
        pd.rd
    } else {
        pd.wd
    }
}

pub open spec fn with_deadline(pd: PollDesc, mode: u8, d: i64) -> PollDesc {
    if mode == MODE_READ {
        PollDesc { rd: d, ..pd }
    } else {
        PollDesc { wd: d, ..pd }
    }
}

fn slot(pd: &PollDesc, mode: u8) -> (r: usize)
    ensures
        r == slot_of(*pd, mode),
{
    if mode == MODE_READ {
        pd.rg
    } else {
        pd.wg
    }
}

fn set_slot(pd: &mut PollDesc, mode: u8, v: usize)
    ensures
        *final(pd) == with_slot(*old(pd), mode, v),
{
    if mode == MODE_READ {
        pd.rg = v;
    } else {
        pd.wg = v;
    }
}

fn deadline(pd: &PollDesc, mode: u8) -> (r: i64)
    ensures
        r == deadline_of(*pd, mode),
{
    if mode == MODE_READ {
        pd.rd
    } else {
        pd.wd
    }
}

fn put_deadline(pd: &mut PollDesc, mode: u8, d: i64)
    ensures
        *final(pd) == with_deadline(*old(pd), mode, d),
{
    if mode == MODE_READ {
        pd.rd = d;
    } else {
        pd.wd = d;
    }
}

/// Watches for a disconnect; the hook runs once.
pub fn arm_watch(pd: &mut PollDesc, hook: u64)
    ensures
        *final(pd) == (PollDesc { watch_on: true, watch_hook: Some(hook), ..*old(pd) }),
{
    pd.watch_hook = Some(hook);
    pd.watch_on = true;
}

pub fn disarm_watch(pd: &mut PollDesc)
    ensures
        *final(pd) == (PollDesc { watch_on: false, watch_hook: None, ..*old(pd) }),
{
    pd.watch_on = false;
    pd.watch_hook = None;
}

pub const EINTR: i64 = 4;

#[derive(Clone, Copy, Debug, PartialEq, Eq, Structural)]
pub enum Probe {
    Connected,
    Disconnected,
    /// The peek was interrupted: peek again.
    Again,
}

pub open spec fn probed(t: Target, n: i64) -> Probe {
    if n > 0 || n == -syscall::numbers_of(t).eagain {
        Probe::Connected
    } else if n == -EINTR {
        Probe::Again
    } else {
        Probe::Disconnected
    }
}

/// What peeking at one byte says: data or nothing yet, and the peer is there;
/// the end of the stream or a failure, and it is gone.
pub fn watch_probe_disconnected(t: Target, n: i64) -> (r: Probe)
    ensures
        r == probed(t, n),
{
    if n > 0 || n == -t.numbers().eagain {
        Probe::Connected
    } else if n == -EINTR {
        Probe::Again
    } else {
        Probe::Disconnected
    }
}

// ---- waiting ----

#[derive(Debug)]
pub enum BlockStep {
    Return(BlockResult),
    /// Park the goroutine, with `netpoll_block_commit` as its commit.
    Park,
}

/// The descriptor after the start of a wait, and what comes of it.
pub open spec fn blocked(pd: PollDesc, mode: u8) -> (PollDesc, BlockStep) {
    if deadline_of(pd, mode) < 0 {
        (pd, BlockStep::Return(BlockResult::Timedout))
    } else if slot_of(pd, mode) == PD_READY {
        (with_slot(pd, mode, PD_NIL), BlockStep::Return(BlockResult::Ready))
    } else {
        (with_slot(pd, mode, PD_WAIT), BlockStep::Park)
    }
}

/// The descriptor after the commit of a park, and whether the goroutine parks.
pub open spec fn committed(pd: PollDesc, mode: u8, g: usize) -> (PollDesc, bool) {
    if slot_of(pd, mode) == PD_WAIT {
        (with_slot(pd, mode, g), true)
    } else {
        (pd, false)
    }
}

/// The descriptor after the end of a wait, and how it ended.
pub open spec fn resumed(pd: PollDesc, mode: u8) -> (PollDesc, BlockResult) {
    (
        with_slot(pd, mode, PD_NIL),
        if slot_of(pd, mode) == PD_READY {
            BlockResult::Ready
        } else if deadline_of(pd, mode) < 0 {
            BlockResult::Timedout
        } else {
            BlockResult::Aborted
        },
    )
}

/// Starts a wait. An expired deadline and a pending notification end it at
/// once; otherwise the goroutine parks. Nobody else may wait in this mode.
pub fn block(pd: &mut PollDesc, mode: u8) -> (r: BlockStep)
    requires
        deadline_of(*old(pd), mode) >= 0 ==> slot_of(*old(pd), mode) <= PD_READY,
    ensures
        (*final(pd), r) == blocked(*old(pd), mode),
{
    if deadline(pd, mode) < 0 {
        return BlockStep::Return(BlockResult::Timedout);
    }
    if slot(pd, mode) == PD_READY {
        set_slot(pd, mode, PD_NIL);
        return BlockStep::Return(BlockResult::Ready);
    }
    set_slot(pd, mode, PD_WAIT);
    BlockStep::Park
}

/// Commits a park: stores the goroutine, unless a notification came first.
pub fn netpoll_block_commit(pd: &mut PollDesc, mode: u8, g: usize) -> (r: bool)
    requires
        g > PD_WAIT,
    ensures
        (*final(pd), r) == committed(*old(pd), mode, g),
{
    if slot(pd, mode) == PD_WAIT {
        set_slot(pd, mode, g);
        true
    } else {
        false
    }
}

/// Ends a wait after the goroutine runs again.
pub fn block_resume(pd: &mut PollDesc, mode: u8) -> (r: BlockResult)
    requires
        slot_of(*old(pd), mode) <= PD_WAIT,
    ensures
        (*final(pd), r) == resumed(*old(pd), mode),
{
    let old_state: usize = slot(pd, mode);
    set_slot(pd, mode, PD_NIL);
    if old_state == PD_READY {
        return BlockResult::Ready;
    }
    if deadline(pd, mode) < 0 {
        BlockResult::Timedout
    } else {
        BlockResult::Aborted
    }
}

/// A notification (`ioready`) or a deadline wakes a mode: the descriptor after
/// it, and the goroutine that was parked there.
pub open spec fn unblocked(pd: PollDesc, mode: u8, ioready: bool) -> (PollDesc, Option<usize>) {
    let state = slot_of(pd, mode);
    if state == PD_READY || (state == PD_NIL && !ioready) {
        (pd, None)
    } else {
        (
            with_slot(
                pd,
                mode,
                if ioready {
                    PD_READY
                } else {
                    PD_NIL
                },
            ),
            if state > PD_WAIT {
                Some(state)
            } else {
                None
            },
        )
    }
}

pub fn unblock(pd: &mut PollDesc, mode: u8, ioready: bool) -> (r: Option<usize>)
    ensures
        (*final(pd), r) == unblocked(*old(pd), mode, ioready),
{
    let state: usize = slot(pd, mode);
    if state == PD_READY || (state == PD_NIL && !ioready) {
        return None;
    }
    let next: usize = if ioready {
        PD_READY
    } else {
        PD_NIL
    };
    set_slot(pd, mode, next);
    if state > PD_WAIT {
        Some(state)
    } else {
        None
    }
}

/// A notification is not lost: after one, a wait in that mode returns ready
/// without parking, and a parked goroutine is woken exactly once.
pub proof fn law_notification_is_not_lost(pd: PollDesc, mode: u8)
    ensures
        ({
            let (after, woken) = unblocked(pd, mode, true);
            &&& slot_of(after, mode) == PD_READY
            &&& woken == (if slot_of(pd, mode) > PD_WAIT {
                Some(slot_of(pd, mode))
            } else {
                None
            })
            &&& unblocked(after, mode, true).1 is None
        }),
{
}

/// Waking one mode leaves the other alone.
pub proof fn law_modes_are_independent(pd: PollDesc, ioready: bool)
    ensures
        unblocked(pd, MODE_READ, ioready).0.wg == pd.wg,
        unblocked(pd, 119, ioready).0.rg == pd.rg,
{
}

// ---- the slab ----

/// A slot is free exactly when it is listed as free, and it is listed once.
pub open spec fn slab_wf(slots: Seq<Option<PollDesc>>, free: Seq<u32>) -> bool {
    &&& forall|i: int|
        0 <= i < free.len() ==> (#[trigger] free[i]) < slots.len() && slots[free[i] as int] is None
    &&& forall|i: int, j: int|
        0 <= i < j < free.len() ==> (#[trigger] free[i]) != (#[trigger] free[j])
    &&& forall|s: int|
        0 <= s < slots.len() && (#[trigger] slots[s]) is None ==> free.contains(s as u32)
}

/// Every descriptor stands on one of the first `n` shards.
pub open spec fn on_shards(slots: Seq<Option<PollDesc>>, n: nat) -> bool {
    forall|s: int|
        0 <= s < slots.len() && (#[trigger] slots[s]) is Some ==> slots[s]->0.shard < n
}

pub open spec fn is_accepted(slot: Option<PollDesc>) -> bool {
    slot matches Some(pd) && pd.accepted
}

/// How many of the first `n` slots hold a descriptor that the kernel has
/// accepted.
pub open spec fn accepted_in(slots: Seq<Option<PollDesc>>, n: nat) -> nat
    decreases n,
{
    if n == 0 {
        0
    } else {
        accepted_in(slots, (n - 1) as nat) + if is_accepted(slots[n - 1]) {
            1nat
        } else {
            0nat
        }
    }
}

proof fn lemma_accepted_local(a: Seq<Option<PollDesc>>, b: Seq<Option<PollDesc>>, n: nat)
    requires
        forall|i: int| 0 <= i < n ==> is_accepted(#[trigger] a[i]) == is_accepted(b[i]),
    ensures
        accepted_in(a, n) == accepted_in(b, n),
    decreases n,
{
    if n > 0 {
        lemma_accepted_local(a, b, (n - 1) as nat);
        assert(is_accepted(a[n - 1]) == is_accepted(b[n - 1]));
    }
}

proof fn lemma_accepted_update(a: Seq<Option<PollDesc>>, i: int, v: Option<PollDesc>, n: nat)
    requires
        0 <= i < n <= a.len(),
    ensures
        accepted_in(a.update(i, v), n) + (if is_accepted(a[i]) {
            1int
        } else {
            0int
        }) == accepted_in(a, n) + (if is_accepted(v) {
            1int
        } else {
            0int
        }),
    decreases n,
{
    if i == n - 1 {
        lemma_accepted_local(a.update(i, v), a, (n - 1) as nat);
    } else {
        lemma_accepted_update(a, i, v, (n - 1) as nat);
    }
}

/// None is counted exactly if there is none.
proof fn lemma_accepted_none(a: Seq<Option<PollDesc>>, n: nat)
    requires
        n <= a.len(),
    ensures
        accepted_in(a, n) <= n,
        accepted_in(a, n) == 0 <==> forall|i: int| 0 <= i < n ==> !is_accepted(#[trigger] a[i]),
    decreases n,
{
    if n > 0 {
        lemma_accepted_none(a, (n - 1) as nat);
        if is_accepted(a[n - 1]) {
            assert(!(forall|i: int| 0 <= i < n ==> !is_accepted(#[trigger] a[i])));
        }
    }
}

pub open spec fn bump(x: usize) -> usize {
    if x == usize::MAX {
        0
    } else {
        (x + 1) as usize
    }
}

pub open spec fn bump32(x: u32) -> u32 {
    if x == u32::MAX {
        0
    } else {
        (x + 1) as u32
    }
}

fn inc(x: usize) -> (r: usize)
    ensures
        r == bump(x),
{
    if x == usize::MAX {
        0
    } else {
        x + 1
    }
}

fn inc32(x: u32) -> (r: u32)
    ensures
        r == bump32(x),
{
    if x == u32::MAX {
        0
    } else {
        x + 1
    }
}

impl Netpoll {
    pub open spec fn wf(&self) -> bool {
        &&& self.shards@.len() <= MAX_SHARDS
        &&& slab_wf(self.slots@, self.free@)
        &&& self.slots@.len() <= u32::MAX
        &&& on_shards(self.slots@, self.shards@.len())
        &&& self.live == accepted_in(self.slots@, self.slots@.len())
    }

    /// A poller without shards or descriptors.
    pub fn new() -> (r: Netpoll)
        ensures
            r.wf(),
            r.shards@.len() == 0,
            r.slots@.len() == 0,
            r.live == 0 && r.total_opens == 0 && r.recycled == 0,
            r.shard_rr == 0 && r.break_rr == 0,
    {
        Netpoll {
            shards: Vec::new(),
            shard_rr: 0,
            break_rr: 0,
            slots: Vec::new(),
            free: Vec::new(),
            live: 0,
            total_opens: 0,
            recycled: 0,
        }
    }

    /// The descriptor in a slot, if there is one.
    pub open spec fn at(&self, idx: u32) -> Option<PollDesc> {
        if idx < self.slots@.len() {
            self.slots@[idx as int]
        } else {
            None
        }
    }

    /// Everything but the slab is as before.
    pub open spec fn same_but_slab(&self, other: Netpoll) -> bool {
        &&& self.shards == other.shards
        &&& self.shard_rr == other.shard_rr
        &&& self.break_rr == other.break_rr
        &&& self.live == other.live
        &&& self.total_opens == other.total_opens
    }

    /// Puts a descriptor into the slot that became free last, or into a new
    /// one.
    fn registry_insert(&mut self, pd: PollDesc) -> (idx: u32)
        requires
            old(self).wf(),
            old(self).free@.len() == 0 ==> old(self).slots@.len() < u32::MAX,
            pd.shard < old(self).shards@.len(),
            !pd.accepted,
        ensures
            final(self).wf(),
            old(self).at(idx) is None,
            final(self).at(idx) == Some(pd),
            forall|i: u32| i != idx ==> #[trigger] final(self).at(i) == old(self).at(i),
            inserted(*old(self), *final(self), idx),
            final(self).same_but_slab(*old(self)),
            final(self).recycled == (if old(self).free@.len() > 0 {
                bump(old(self).recycled)
            } else {
                old(self).recycled
            }),
    {
        if self.free.len() > 0 {
            let ghost f0 = self.free@;
            let ghost s0 = self.slots@;
            let last: usize = self.free.len() - 1;
            let idx: u32 = self.free[last];
            let _popped = self.free.pop();
            self.slots.set(idx as usize, Some(pd));
            self.recycled = inc(self.recycled);
            proof {
                let f1 = self.free@;
                let s1 = self.slots@;
                assert forall|s: int| 0 <= s < s1.len() && (#[trigger] s1[s]) is None implies
                    f1.contains(s as u32) by {
                    assert(s0[s] is None);
                    let k = choose|k: int| 0 <= k < f0.len() && f0[k] == s as u32;
                    assert(k != f0.len() - 1);
                    assert(f1[k] == s as u32);
                }
                assert forall|i: int| 0 <= i < f1.len() implies (#[trigger] f1[i]) < s1.len()
                    && s1[f1[i] as int] is None by {
                    assert(f0[i] != f0[f0.len() - 1]);
                }
                lemma_accepted_update(s0, idx as int, Some(pd), s0.len());
                assert(f1 =~= f0.drop_last());
            }
            idx
        } else {
            let idx: u32 = self.slots.len() as u32;
            let ghost s0 = self.slots@;
            self.slots.push(Some(pd));
            proof {
                assert forall|s: int|
                    0 <= s < self.slots@.len() && (#[trigger] self.slots@[s])
                        is None implies self.free@.contains(s as u32) by {
                    assert(s0[s] is None);
                }
                lemma_accepted_local(self.slots@, s0, s0.len());
            }
            idx
        }
    }

    /// Takes a descriptor out of its slot, which is then free. One that the
    /// kernel had accepted is no longer counted.
    fn registry_remove(&mut self, idx: u32) -> (r: Option<PollDesc>)
        requires
            old(self).wf(),
        ensures
            final(self).wf(),
            r == old(self).at(idx),
            final(self).at(idx) is None,
            forall|i: u32| i != idx ==> #[trigger] final(self).at(i) == old(self).at(i),
            final(self).slots@.len() == old(self).slots@.len(),
            final(self).free@ == (if r is Some {
                old(self).free@.push(idx)
            } else {
                old(self).free@
            }),
            final(self).live == old(self).live - (if is_accepted(r) {
                1int
            } else {
                0int
            }),
            final(self).shards == old(self).shards,
            final(self).shard_rr == old(self).shard_rr,
            final(self).break_rr == old(self).break_rr,
            final(self).total_opens == old(self).total_opens,
            final(self).recycled == old(self).recycled,
    {
        if idx as usize >= self.slots.len() {
            return None;
        }
        let removed = self.slots[idx as usize];
        if let Some(pd) = removed {
            let ghost f0 = self.free@;
            let ghost s0 = self.slots@;
            self.slots.set(idx as usize, None);
            self.free.push(idx);
            proof {
                lemma_accepted_update(s0, idx as int, None, s0.len());
                let f1 = self.free@;
                let s1 = self.slots@;
                assert forall|i: int, j: int| 0 <= i < j < f1.len() implies (#[trigger] f1[i]) != (
                #[trigger] f1[j]) by {
                    if j == f0.len() {
                        assert(s0[f0[i] as int] is None);
                    }
                }
                assert forall|s: int| 0 <= s < s1.len() && (#[trigger] s1[s]) is None implies
                    f1.contains(s as u32) by {
                    if s == idx {
                        assert(f1[f0.len() as int] == idx);
                    } else {
                        assert(s0[s] is None);
                        let k = choose|k: int| 0 <= k < f0.len() && f0[k] == s as u32;
                        assert(f1[k] == s as u32);
                    }
                }
            }
            if pd.accepted {
                self.live = self.live - 1;
            }
        }
        removed
    }

    /// The descriptor in a slot.
    pub fn registry_get(&self, idx: u32) -> (r: Option<PollDesc>)
        ensures
            r == self.at(idx),
    {
        if idx as usize >= self.slots.len() {
            return None;
        }
        self.slots[idx as usize]
    }
}

/// The slot that a new descriptor takes: the one that became free last, else a
/// new one behind all others.
pub open spec fn inserted(before: Netpoll, after: Netpoll, idx: u32) -> bool {
    if before.free@.len() > 0 {
        &&& idx == before.free@.last()
        &&& after.free@ == before.free@.drop_last()
        &&& after.slots@.len() == before.slots@.len()
    } else {
        &&& idx == before.slots@.len()
        &&& after.free@ == before.free@
        &&& after.slots@.len() == before.slots@.len() + 1
    }
}

/// Nothing leaks: with no registration under way, the count of descriptors is
/// zero exactly when every one of them has been closed.
pub proof fn law_count_is_zero_when_all_closed(np: Netpoll)
    requires
        np.wf(),
        forall|i: u32| (#[trigger] np.at(i)) matches Some(pd) ==> pd.accepted,
    ensures
        np.live == 0 <==> forall|i: u32| (#[trigger] np.at(i)) is None,
{
    lemma_accepted_none(np.slots@, np.slots@.len());
    if np.live == 0 {
        assert forall|i: u32| (#[trigger] np.at(i)) is None by {
            if i < np.slots@.len() {
                assert(!is_accepted(np.slots@[i as int]));
            }
        }
    }
    if forall|i: u32| (#[trigger] np.at(i)) is None {
        assert forall|i: int| 0 <= i < np.slots@.len() implies !is_accepted(
            #[trigger] np.slots@[i],
        ) by {
            assert(np.at(i as u32) is None);
        }
    }
}

// ---- counters ----

/// Descriptors that are registered.
pub fn live_count(np: &Netpoll) -> (r: usize)
    ensures
        r == np.live,
{
    np.live
}

/// Registrations that succeeded so far.
pub fn total_opens_count(np: &Netpoll) -> (r: usize)
    ensures
        r == np.total_opens,
{
    np.total_opens
}

/// Registrations that used a slot again.
pub fn recycled_count(np: &Netpoll) -> (r: usize)
    ensures
        r == np.recycled,
{
    np.recycled
}

/// Size of a descriptor in memory.
pub const POLL_DESC_BYTES: usize = 88;

/// Memory that the registered descriptors take.
pub fn live_bytes(np: &Netpoll) -> (r: usize)
    requires
        np.live * POLL_DESC_BYTES <= usize::MAX,
    ensures
        r == np.live * POLL_DESC_BYTES,
{
    np.live * POLL_DESC_BYTES
}

// ---- event data ----

pub const SLOT_MASK: u64 = 0xFFFF_FFFF;

pub const FDSEQ_MASK: u64 = 0xFFFF;

/// Set in the data of a descriptor's events, clear in that of a wake-up.
pub const SLAB_DISCRIMINATOR: u64 = 0x1_0000_0000_0000;

pub open spec fn packed(slot: u32, fdseq: u32) -> u64 {
    SLAB_DISCRIMINATOR | (slot as u64) | (((fdseq as u64) & FDSEQ_MASK) << 32)
}

pub open spec fn data_slot(data: u64) -> u32 {
    (data & SLOT_MASK) as u32
}

pub open spec fn data_tag(data: u64) -> u32 {
    ((data >> 32) & FDSEQ_MASK) as u32
}

pub fn pack_event_data(slot: u32, fdseq: u32) -> (r: u64)
    ensures
        r == packed(slot, fdseq),
{
    SLAB_DISCRIMINATOR | (slot as u64) | (((fdseq as u64) & FDSEQ_MASK) << 32)
}

pub fn unpack_slot(data: u64) -> (r: u32)
    ensures
        r == data_slot(data),
{
    (data & SLOT_MASK) as u32
}

pub fn unpack_tag(data: u64) -> (r: u32)
    ensures
        r == data_tag(data),
{
    ((data >> 32) & FDSEQ_MASK) as u32
}

/// Event data holds the slot and the low bits of the generation, and is never
/// mistaken for the wake-up of a shard.
pub proof fn law_event_data_round_trip(slot: u32, fdseq: u32)
    ensures
        data_slot(packed(slot, fdseq)) == slot,
        data_tag(packed(slot, fdseq)) == fdseq & 0xFFFF,
        packed(slot, fdseq) & SLAB_DISCRIMINATOR != 0,
        forall|shard: u64| shard < MAX_SHARDS ==> #[trigger] (shard & SLAB_DISCRIMINATOR) == 0,
{
    assert(({
        let d = 0x1_0000_0000_0000u64 | (slot as u64) | (((fdseq as u64) & 0xFFFF) << 32);
        &&& (d & 0xFFFF_FFFF) as u32 == slot
        &&& ((d >> 32) & 0xFFFF) as u32 == fdseq & 0xFFFF
        &&& d & 0x1_0000_0000_0000 != 0
    })) by (bit_vector);
    assert(forall|shard: u64| shard < 64 ==> #[trigger] (shard & 0x1_0000_0000_0000) == 0)
        by (bit_vector);
}

// ---- shards ----

pub open spec fn clamp_shards(n: usize) -> usize {
    if n < 1 {
        1
    } else if n > MAX_SHARDS {
        MAX_SHARDS
    } else {
        n
    }
}

/// How many shards to make, one for each processor within bounds; nothing when
/// there are some already.
pub fn init(np: &Netpoll, num_ps: usize) -> (r: Option<usize>)
    ensures
        r == (if np.shards@.len() > 0 {
            None
        } else {
            Some(clamp_shards(num_ps))
        }),
{
    if np.shards.len() > 0 {
        return None;
    }
    if num_ps < 1 {
        Some(1)
    } else if num_ps > MAX_SHARDS {
        Some(MAX_SHARDS)
    } else {
        Some(num_ps)
    }
}

/// Puts shards that were made into service; each is a kernel poller and what
/// wakes it.
pub fn init_done(np: &mut Netpoll, made: &Vec<(i32, i32)>)
    requires
        old(np).wf(),
        old(np).shards@.len() == 0,
        made@.len() <= MAX_SHARDS,
    ensures
        final(np).wf(),
        final(np).shards@ == Seq::new(
            made@.len(),
            |i: int| Shard { epfd: made@[i].0, efd: made@[i].1, wake_sig: false, claimed: false },
        ),
        final(np).slots == old(np).slots,
        same_counters(*final(np), *old(np)),
{
    let mut i: usize = 0;
    while i < made.len()
        invariant
            i <= made.len() <= MAX_SHARDS,
            np.wf(),
            np.slots == old(np).slots,
            same_counters(*np, *old(np)),
            np.shards@ == Seq::new(
                i as nat,
                |k: int|
                    Shard { epfd: made@[k].0, efd: made@[k].1, wake_sig: false, claimed: false },
            ),
        decreases made.len() - i,
    {
        np.shards.push(
            Shard { epfd: made[i].0, efd: made[i].1, wake_sig: false, claimed: false },
        );
        i = i + 1;
        assert(np.shards@ =~= Seq::new(
            i as nat,
            |k: int| Shard { epfd: made@[k].0, efd: made@[k].1, wake_sig: false, claimed: false },
        ));
    }
}

/// A registration to be made with the kernel.
pub struct OpenRequest {
    pub slot: u32,
    pub epfd: i32,
    pub fd: i32,
    pub event: EpollEvent,
}

/// What the kernel is asked to report of a descriptor: everything, on edges.
pub open spec fn interest() -> u32 {
    EPOLLIN | EPOLLOUT | EPOLLRDHUP | EPOLLET
}

/// `after` and `r` follow from reserving a slot for a descriptor.
pub open spec fn opens(np: Netpoll, after: Netpoll, fd: i32, r: OpenRequest) -> bool {
    &&& ({
        let shard = np.shard_rr as int % np.shards@.len() as int;
        &&& r.fd == fd
        &&& r.epfd == np.shards@[shard].epfd
        &&& r.event == (EpollEvent { events: interest(), data: packed(r.slot, 1) })
        &&& after.at(r.slot) == Some(
            PollDesc { slot: r.slot, shard: shard as u32, ..fresh_desc(fd) },
        )
    })
    &&& np.at(r.slot) is None
    &&& forall|i: u32| i != r.slot ==> #[trigger] after.at(i) == np.at(i)
    &&& inserted(np, after, r.slot)
    &&& after.shards == np.shards
    &&& after.shard_rr == bump(np.shard_rr)
    &&& after.break_rr == np.break_rr
    &&& after.live == np.live
    &&& after.total_opens == np.total_opens
    &&& after.recycled == (if np.free@.len() > 0 {
        bump(np.recycled)
    } else {
        np.recycled
    })
}

/// Reserves a slot for `fd` on the next shard in turn. The kernel's answer
/// goes to `open_done`.
pub fn open(np: &mut Netpoll, fd: i32) -> (r: OpenRequest)
    requires
        old(np).wf(),
        old(np).shards@.len() > 0,
        old(np).free@.len() == 0 ==> old(np).slots@.len() < u32::MAX,
    ensures
        final(np).wf(),
        opens(*old(np), *final(np), fd, r),
{
    let shard: usize = np.shard_rr % np.shards.len();
    np.shard_rr = inc(np.shard_rr);
    let mut pd = PollDesc::new(fd);
    pd.shard = shard as u32;
    let idx: u32 = np.registry_insert(pd);
    pd.slot = idx;
    let ghost before_set = *np;
    np.slots.set(idx as usize, Some(pd));
    proof {
        law_descriptor_is_put_back(before_set, *np, idx as int, pd);
        assert forall|i: u32| i != idx implies #[trigger] np.at(i) == old(np).at(i) by {
            assert(before_set.at(i) == old(np).at(i));
        }
    }
    let event = EpollEvent {
        events: EPOLLIN | EPOLLOUT | EPOLLRDHUP | EPOLLET,
        data: pack_event_data(idx, 1),
    };
    OpenRequest { slot: idx, epfd: np.shards[shard].epfd, fd, event }
}

proof fn lemma_replace_keeps_slab(
    slots: Seq<Option<PollDesc>>,
    free: Seq<u32>,
    idx: int,
    pd: PollDesc,
)
    requires
        slab_wf(slots, free),
        0 <= idx < slots.len(),
        slots[idx] is Some,
    ensures
        slab_wf(slots.update(idx, Some(pd)), free),
{
    let s1 = slots.update(idx, Some(pd));
    assert forall|i: int| 0 <= i < free.len() implies (#[trigger] free[i]) < s1.len()
        && s1[free[i] as int] is None by {
        assert(slots[free[i] as int] is None);
    }
    assert forall|s: int| 0 <= s < s1.len() && (#[trigger] s1[s]) is None implies free.contains(
        s as u32,
    ) by {
        assert(slots[s] is None);
    }
}

/// A descriptor that was worked on by itself can be put back: while its shard
/// and its registration are the same, the poller stays well-formed.
pub proof fn law_descriptor_is_put_back(before: Netpoll, after: Netpoll, idx: int, pd: PollDesc)
    requires
        before.wf(),
        0 <= idx < before.slots@.len(),
        before.slots@[idx] matches Some(old_pd) && old_pd.shard == pd.shard && old_pd.accepted
            == pd.accepted,
        after.slots@ == before.slots@.update(idx, Some(pd)),
        after.free@ == before.free@,
        after.shards@.len() == before.shards@.len(),
        after.live == before.live,
    ensures
        after.wf(),
{
    lemma_replace_keeps_slab(before.slots@, before.free@, idx, pd);
    lemma_accepted_local(after.slots@, before.slots@, before.slots@.len());
}

/// What is done to a descriptor leaves its slot, its shard, its generation and
/// its registration as they are, so that it can be put back.
pub proof fn law_descriptor_stays_in_place(
    pd: PollDesc,
    mode: u8,
    value: usize,
    ioready: bool,
    deadline_ns: i64,
    now: i64,
    hook: Option<u64>,
)
    ensures
        same_place(with_slot(pd, mode, value), pd),
        same_place(unblocked(pd, mode, ioready).0, pd),
        same_place(deadline_set(pd, deadline_ns, mode).0, pd),
        same_place(expire(pd, mode, now).0, pd),
        same_place(PollDesc { watch_on: hook is Some, watch_hook: hook, ..pd }, pd),
{
}

pub open spec fn same_place(a: PollDesc, b: PollDesc) -> bool {
    &&& a.fd == b.fd
    &&& a.slot == b.slot
    &&& a.shard == b.shard
    &&& a.fdseq == b.fdseq
    &&& a.accepted == b.accepted
}

/// `after` and `ok` follow the kernel's answer to a registration.
pub open spec fn answered(np: Netpoll, after: Netpoll, slot: u32, r: i64, ok: Option<u32>) -> bool {
    &&& ok == (if r < 0 {
        None
    } else {
        Some(slot)
    })
    &&& after.at(slot) == (if r < 0 {
        None
    } else {
        Some(PollDesc { accepted: true, ..np.at(slot)->0 })
    })
    &&& forall|i: u32| i != slot ==> #[trigger] after.at(i) == np.at(i)
    &&& after.shards == np.shards
    &&& after.live == np.live + (if r < 0 {
        0int
    } else {
        1int
    })
    &&& after.slots@.len() == np.slots@.len()
    &&& after.free@ == (if r < 0 {
        np.free@.push(slot)
    } else {
        np.free@
    })
    &&& after.total_opens == (if r < 0 {
        np.total_opens
    } else {
        bump(np.total_opens)
    })
    &&& after.recycled == np.recycled
    &&& after.shard_rr == np.shard_rr
    &&& after.break_rr == np.break_rr
}

/// Takes the kernel's answer to a registration: a refused one gives its slot
/// back.
pub fn open_done(np: &mut Netpoll, slot: u32, r: i64) -> (ok: Option<u32>)
    requires
        old(np).wf(),
        old(np).at(slot) matches Some(pd) && !pd.accepted,
    ensures
        final(np).wf(),
        answered(*old(np), *final(np), slot, r, ok),
{
    if r < 0 {
        let _gone = np.registry_remove(slot);
        return None;
    }
    match np.registry_get(slot) {
        Some(pd) => {
            let ghost before = *np;
            let accepted = PollDesc { accepted: true, ..pd };
            np.slots.set(slot as usize, Some(accepted));
            proof {
                let s0 = before.slots@;
                lemma_replace_keeps_slab(s0, before.free@, slot as int, accepted);
                lemma_accepted_update(s0, slot as int, Some(accepted), s0.len());
                lemma_accepted_none(np.slots@, s0.len());
            }
            np.live = np.live + 1;
        },
        None => {},
    }
    np.total_opens = inc(np.total_opens);
    Some(slot)
}

/// What is left of a descriptor that was closed.
pub struct Closed {
    /// The kernel poller to take it off.
    pub epfd: i32,
    /// The descriptor, its generations moved on.
    pub desc: PollDesc,
}

pub open spec fn retired(pd: PollDesc) -> PollDesc {
    PollDesc {
        fdseq: bump32(pd.fdseq),
        rseq: bump32(pd.rseq),
        wseq: bump32(pd.wseq),
        ..pd
    }
}

/// `after` and `r` follow from taking a descriptor off the poller.
pub open spec fn closes(np: Netpoll, after: Netpoll, slot: u32, r: Closed) -> bool {
    &&& r.desc == retired(np.at(slot)->0)
    &&& r.epfd == np.shards@[np.at(slot)->0.shard as int].epfd
    &&& after.at(slot) is None
    &&& forall|i: u32| i != slot ==> #[trigger] after.at(i) == np.at(i)
    &&& after.live == np.live - 1
    &&& after.slots@.len() == np.slots@.len()
    &&& after.free@ == np.free@.push(slot)
    &&& after.shards == np.shards
    &&& after.total_opens == np.total_opens
    &&& after.recycled == np.recycled
    &&& after.shard_rr == np.shard_rr
    &&& after.break_rr == np.break_rr
}

/// Takes a descriptor off the poller and frees its slot. The file itself stays
/// open.
pub fn close(np: &mut Netpoll, slot: u32) -> (r: Closed)
    requires
        old(np).wf(),
        old(np).at(slot) matches Some(pd) && pd.accepted,
    ensures
        final(np).wf(),
        closes(*old(np), *final(np), slot, r),
{
    let mut desc = PollDesc::new(0);
    match np.registry_get(slot) {
        Some(pd) => {
            desc = pd;
        },
        None => {},
    }
    let epfd: i32 = np.shards[desc.shard as usize].epfd;
    desc.fdseq = inc32(desc.fdseq);
    desc.rseq = inc32(desc.rseq);
    desc.wseq = inc32(desc.wseq);
    let _gone = np.registry_remove(slot);
    Closed { epfd, desc }
}

// ---- events ----

/// What a batch of events led to: goroutines to run, hooks to call, how often
/// the shard's wake-up has to be read empty, and the shards whose wake-up was
/// seen without blocking. Where seeing a wake-up takes it back, those have to
/// be sent again for the poller that they were meant for.
pub struct PollOut {
    pub ready: Vec<usize>,
    pub hooks: Vec<u64>,
    pub drains: usize,
    pub relays: Vec<usize>,
}

#[verifier::ext_equal]
pub struct PollState {
    pub slots: Seq<Option<PollDesc>>,
    pub shards: Seq<Shard>,
    pub ready: Seq<usize>,
    pub hooks: Seq<u64>,
    pub drains: nat,
    pub relays: Seq<usize>,
}

pub open spec fn push_some(s: Seq<usize>, g: Option<usize>) -> Seq<usize> {
    match g {
        Some(x) => s.push(x),
        None => s,
    }
}

/// Whether an event concerns the read side, or the write side.
pub open spec fn read_event(bits: u32) -> bool {
    bits & (EPOLLIN | EPOLLRDHUP | EPOLLHUP | EPOLLERR) != 0
}

pub open spec fn write_event(bits: u32) -> bool {
    bits & (EPOLLOUT | EPOLLHUP | EPOLLERR) != 0
}

/// The descriptor that an event is about: the one in its slot, if the event
/// carries the tag of its generation.
pub open spec fn event_desc(slots: Seq<Option<PollDesc>>, data: u64) -> Option<PollDesc> {
    let i = data_slot(data);
    if i < slots.len() && slots[i as int] is Some && data_tag(data) == slots[i as int]->0.fdseq
        & 0xFFFF {
        slots[i as int]
    } else {
        None
    }
}

/// The hook of a watched descriptor whose peer turned out to be gone.
pub open spec fn fires_hook(pd: PollDesc, bits: u32, gone: bool) -> bool {
    read_event(bits) && pd.watch_on && gone
}

/// The descriptor after an event, with the goroutines it woke: the reader
/// before the writer.
pub open spec fn desc_after(pd: PollDesc, bits: u32, gone: bool) -> (
    PollDesc,
    Option<usize>,
    Option<usize>,
) {
    let pd1 = if fires_hook(pd, bits, gone) {
        PollDesc { watch_on: false, watch_hook: None, ..pd }
    } else {
        pd
    };
    let (pd2, reader) = if read_event(bits) {
        unblocked(pd1, MODE_READ, true)
    } else {
        (pd1, None)
    };
    let (pd3, writer) = if write_event(bits) {
        unblocked(pd2, 119, true)
    } else {
        (pd2, None)
    };
    (pd3, reader, writer)
}

/// One event of shard `s`. A wake-up is read empty by a blocking poll only, so
/// that it is not taken from the poller that it was meant for; another poll
/// relays it.
pub open spec fn on_event(st: PollState, s: int, delay_ms: i32, e: EpollEvent, gone: bool) -> PollState {
    if e.events == 0 {
        st
    } else if e.data & SLAB_DISCRIMINATOR == 0 {
        if delay_ms != 0 {
            PollState {
                shards: st.shards.update(s, Shard { wake_sig: false, ..st.shards[s] }),
                drains: st.drains + 1,
                ..st
            }
        } else {
            PollState { relays: st.relays.push(s as usize), ..st }
        }
    } else {
        match event_desc(st.slots, e.data) {
            None => st,
            Some(pd) => {
                let (after, reader, writer) = desc_after(pd, e.events, gone);
                PollState {
                    slots: st.slots.update(data_slot(e.data) as int, Some(after)),
                    ready: push_some(push_some(st.ready, reader), writer),
                    hooks: if fires_hook(pd, e.events, gone) && pd.watch_hook is Some {
                        st.hooks.push(pd.watch_hook->0)
                    } else {
                        st.hooks
                    },
                    ..st
                }
            },
        }
    }
}

/// The first `n` events, each with what a probe of its descriptor said.
pub open spec fn on_events(
    st: PollState,
    s: int,
    delay_ms: i32,
    events: Seq<EpollEvent>,
    gone: Seq<bool>,
    n: nat,
) -> PollState
    decreases n,
{
    if n == 0 {
        st
    } else {
        on_event(
            on_events(st, s, delay_ms, events, gone, (n - 1) as nat),
            s,
            delay_ms,
            events[n - 1],
            gone[n - 1],
        )
    }
}

/// A stale event changes nothing: its slot is free, or holds a descriptor of
/// another generation.
pub proof fn law_stale_event_is_ignored(
    st: PollState,
    s: int,
    delay_ms: i32,
    e: EpollEvent,
    gone: bool,
)
    requires
        e.data & SLAB_DISCRIMINATOR != 0,
        data_slot(e.data) < st.slots.len() ==> match st.slots[data_slot(e.data) as int] {
            None => true,
            Some(pd) => data_tag(e.data) != pd.fdseq & 0xFFFF,
        },
    ensures
        on_event(st, s, delay_ms, e, gone) == st,
{
}

/// An event that was sent for a descriptor before it was closed no longer
/// finds it, even where the slot still holds it.
pub proof fn law_closing_outdates_events(pd: PollDesc, slot: u32, slots: Seq<Option<PollDesc>>)
    requires
        slot < slots.len(),
        slots[slot as int] == Some(retired(pd)),
    ensures
        event_desc(slots, packed(slot, pd.fdseq)) is None,
{
    law_event_data_round_trip(slot, pd.fdseq);
    let f = pd.fdseq;
    let g = bump32(f);
    assert(g & 0xFFFF != f & 0xFFFF) by (bit_vector)
        requires
            f == 0xFFFF_FFFF ==> g == 0,
            f < 0xFFFF_FFFF ==> g == f + 1,
    ;
}

/// Whether the peer of an event's descriptor has to be probed before the event
/// is handled.
pub fn needs_probe(np: &Netpoll, e: &EpollEvent) -> (r: bool)
    ensures
        r == (e.data & SLAB_DISCRIMINATOR != 0 && read_event(e.events) && (event_desc(
            np.slots@,
            e.data,
        ) matches Some(pd) && pd.watch_on)),
{
    if e.data & SLAB_DISCRIMINATOR == 0 {
        return false;
    }
    if e.events & (EPOLLIN | EPOLLRDHUP | EPOLLHUP | EPOLLERR) == 0 {
        return false;
    }
    match np.registry_get(unpack_slot(e.data)) {
        None => false,
        Some(pd) => unpack_tag(e.data) == pd.fdseq & 0xFFFF && pd.watch_on,
    }
}

/// The kernel poller to wait on for a shard, numbered from any number; nothing
/// when there is none.
pub fn poll_target(np: &Netpoll, shard: usize) -> (r: Option<i32>)
    ensures
        r == (if np.shards@.len() == 0 || np.shards@[shard as int % np.shards@.len() as int].epfd < 0 {
            None
        } else {
            Some(np.shards@[shard as int % np.shards@.len() as int].epfd)
        }),
{
    if np.shards.len() == 0 {
        return None;
    }
    let s: usize = shard % np.shards.len();
    let epfd: i32 = np.shards[s].epfd;
    if epfd < 0 {
        None
    } else {
        Some(epfd)
    }
}

spec fn state_of(np: Netpoll, out: PollOut) -> PollState {
    PollState {
        slots: np.slots@,
        shards: np.shards@,
        ready: out.ready@,
        hooks: out.hooks@,
        drains: out.drains as nat,
        relays: out.relays@,
    }
}

fn handle_event(
    np: &mut Netpoll,
    out: &mut PollOut,
    s: usize,
    delay_ms: i32,
    e: EpollEvent,
    gone: bool,
)
    requires
        old(np).wf(),
        s < old(np).shards@.len(),
        old(out).drains < usize::MAX,
    ensures
        final(np).wf(),
        state_of(*final(np), *final(out)) == on_event(
            state_of(*old(np), *old(out)),
            s as int,
            delay_ms,
            e,
            gone,
        ),
        final(np).shards@.len() == old(np).shards@.len(),
        final(np).free == old(np).free,
        final(np).live == old(np).live,
        final(np).total_opens == old(np).total_opens,
        final(np).recycled == old(np).recycled,
        final(np).shard_rr == old(np).shard_rr,
        final(np).break_rr == old(np).break_rr,
        final(out).drains <= old(out).drains + 1,
{
    if e.events == 0 {
        return;
    }
    if e.data & SLAB_DISCRIMINATOR == 0 {
        if delay_ms != 0 {
            let mut sh = np.shards[s];
            sh.wake_sig = false;
            np.shards.set(s, sh);
            out.drains = out.drains + 1;
        } else {
            out.relays.push(s);
        }
        return;
    }
    let idx: u32 = unpack_slot(e.data);
    let mut pd = match np.registry_get(idx) {
        None => {
            return;
        },
        Some(pd) => pd,
    };
    if unpack_tag(e.data) != pd.fdseq & 0xFFFF {
        return;
    }
    let ghost pd0 = pd;
    if e.events & (EPOLLIN | EPOLLRDHUP | EPOLLHUP | EPOLLERR) != 0 {
        if pd.watch_on && gone {
            match pd.watch_hook {
                Some(h) => {
                    out.hooks.push(h);
                },
                None => {},
            }
            pd.watch_hook = None;
            pd.watch_on = false;
        }
        match unblock(&mut pd, MODE_READ, true) {
            Some(g) => {
                out.ready.push(g);
            },
            None => {},
        }
    }
    if e.events & (EPOLLOUT | EPOLLHUP | EPOLLERR) != 0 {
        match unblock(&mut pd, 119, true) {
            Some(g) => {
                out.ready.push(g);
            },
            None => {},
        }
    }
    let ghost before = *np;
    np.slots.set(idx as usize, Some(pd));
    proof {
        assert(pd == desc_after(pd0, e.events, gone).0);
        law_descriptor_is_put_back(before, *np, idx as int, pd);
    }
}

pub open spec fn start_state(np: Netpoll) -> PollState {
    PollState {
        slots: np.slots@,
        shards: np.shards@,
        ready: Seq::empty(),
        hooks: Seq::empty(),
        drains: 0,
        relays: Seq::empty(),
    }
}

/// The poller's own fields that no event touches.
pub open spec fn same_counters(a: Netpoll, b: Netpoll) -> bool {
    &&& a.free == b.free
    &&& a.live == b.live
    &&& a.total_opens == b.total_opens
    &&& a.recycled == b.recycled
    &&& a.shard_rr == b.shard_rr
    &&& a.break_rr == b.break_rr
}

/// Handles the events that the kernel reported for a shard, in order. `gone`
/// holds what probing said of the descriptors that need it.
pub fn poll_shard(
    np: &mut Netpoll,
    shard: usize,
    delay_ms: i32,
    events: &Vec<EpollEvent>,
    gone: &Vec<bool>,
) -> (out: PollOut)
    requires
        old(np).wf(),
        gone@.len() == events@.len(),
    ensures
        final(np).wf(),
        same_counters(*final(np), *old(np)),
        final(np).shards@.len() == old(np).shards@.len(),
        ({
            let n = old(np).shards@.len();
            let st = if n == 0 {
                start_state(*old(np))
            } else {
                on_events(
                    start_state(*old(np)),
                    shard as int % n as int,
                    delay_ms,
                    events@,
                    gone@,
                    events@.len(),
                )
            };
            &&& final(np).slots@ == st.slots
            &&& final(np).shards@ == st.shards
            &&& out.ready@ == st.ready
            &&& out.hooks@ == st.hooks
            &&& out.drains == st.drains
            &&& out.relays@ == st.relays
        }),
{
    let mut out = PollOut { ready: Vec::new(), hooks: Vec::new(), drains: 0, relays: Vec::new() };
    assert(state_of(*np, out) =~= start_state(*np));
    if np.shards.len() == 0 {
        return out;
    }
    let s: usize = shard % np.shards.len();
    let mut i: usize = 0;
    while i < events.len()
        invariant
            i <= events.len(),
            gone.len() == events.len(),
            np.wf(),
            s < np.shards@.len(),
            s == shard as int % old(np).shards@.len() as int,
            np.shards@.len() == old(np).shards@.len(),
            same_counters(*np, *old(np)),
            out.drains <= i,
            state_of(*np, out) == on_events(
                start_state(*old(np)),
                s as int,
                delay_ms,
                events@,
                gone@,
                i as nat,
            ),
        decreases events.len() - i,
    {
        handle_event(np, &mut out, s, delay_ms, events[i], gone[i]);
        i = i + 1;
    }
    out
}

/// The events of a shard and what probing said.
pub struct Batch {
    pub events: Vec<EpollEvent>,
    pub gone: Vec<bool>,
}

/// The first `n` shards polled in turn without blocking.
pub open spec fn polled(st: PollState, batches: Seq<Batch>, n: nat) -> PollState
    decreases n,
{
    if n == 0 {
        st
    } else {
        let prev = polled(st, batches, (n - 1) as nat);
        let b = batches[n - 1];
        let next = on_events(
            PollState {
                ready: Seq::empty(),
                hooks: Seq::empty(),
                drains: 0,
                relays: Seq::empty(),
                ..prev
            },
            n - 1,
            0,
            b.events@,
            b.gone@,
            b.events@.len(),
        );
        PollState {
            ready: prev.ready + next.ready,
            hooks: prev.hooks + next.hooks,
            relays: prev.relays + next.relays,
            drains: 0,
            ..next
        }
    }
}

fn append_ready(out: &mut Vec<usize>, more: &Vec<usize>)
    ensures
        final(out)@ == old(out)@ + more@,
{
    let mut i: usize = 0;
    while i < more.len()
        invariant
            i <= more.len(),
            out@ == old(out)@ + more@.subrange(0, i as int),
        decreases more.len() - i,
    {
        out.push(more[i]);
        i = i + 1;
        assert(out@ =~= old(out)@ + more@.subrange(0, i as int));
    }
    assert(more@.subrange(0, i as int) =~= more@);
}

fn append_hooks(out: &mut Vec<u64>, more: &Vec<u64>)
    ensures
        final(out)@ == old(out)@ + more@,
{
    let mut i: usize = 0;
    while i < more.len()
        invariant
            i <= more.len(),
            out@ == old(out)@ + more@.subrange(0, i as int),
        decreases more.len() - i,
    {
        out.push(more[i]);
        i = i + 1;
        assert(out@ =~= old(out)@ + more@.subrange(0, i as int));
    }
    assert(more@.subrange(0, i as int) =~= more@);
}

/// Handles the events of every shard, in turn, without blocking.
pub fn poll_all(np: &mut Netpoll, batches: &Vec<Batch>) -> (out: PollOut)
    requires
        old(np).wf(),
        batches@.len() == old(np).shards@.len(),
        forall|i: int|
            0 <= i < batches@.len() ==> (#[trigger] batches@[i]).gone@.len()
                == batches@[i].events@.len(),
    ensures
        final(np).wf(),
        same_counters(*final(np), *old(np)),
        ({
            let st = polled(start_state(*old(np)), batches@, batches@.len());
            &&& final(np).slots@ == st.slots
            &&& final(np).shards@ == st.shards
            &&& out.ready@ == st.ready
            &&& out.hooks@ == st.hooks
            &&& out.drains == 0
            &&& out.relays@ == st.relays
        }),
{
    let mut out = PollOut { ready: Vec::new(), hooks: Vec::new(), drains: 0, relays: Vec::new() };
    let mut i: usize = 0;
    assert(state_of(*np, out) =~= start_state(*np));
    while i < batches.len()
        invariant
            i <= batches.len(),
            batches@.len() == old(np).shards@.len(),
            np.shards@.len() == old(np).shards@.len(),
            np.wf(),
            same_counters(*np, *old(np)),
            out.drains == 0,
            forall|k: int|
                0 <= k < batches@.len() ==> (#[trigger] batches@[k]).gone@.len()
                    == batches@[k].events@.len(),
            state_of(*np, out) == polled(start_state(*old(np)), batches@, i as nat),
        decreases batches.len() - i,
    {
        let ghost prev = state_of(*np, out);
        let ghost st0 = start_state(*np);
        let got = poll_shard(np, i, 0, &batches[i].events, &batches[i].gone);
        append_ready(&mut out.ready, &got.ready);
        append_hooks(&mut out.hooks, &got.hooks);
        append_ready(&mut out.relays, &got.relays);
        proof {
            assert(st0 =~= (PollState {
                ready: Seq::empty(),
                hooks: Seq::empty(),
                drains: 0,
                relays: Seq::empty(),
                ..prev
            }));
            assert(i as int % np.shards@.len() as int == i) by {
                vstd::arithmetic::div_mod::lemma_small_mod(i as nat, np.shards@.len());
            }
            assert(state_of(*np, out) =~= polled(start_state(*old(np)), batches@, (i + 1) as nat));
        }
        i = i + 1;
    }
    out
}

// ---- wake-ups ----

/// A wake-up to send: eight bytes to that file.
#[derive(Debug)]
pub enum BreakAction {
    Nothing,
    Write(i32),
}

/// `after` and `r` follow from waking whoever blocks on a shard.
pub open spec fn breaks(np: Netpoll, after: Netpoll, shard: usize, r: BreakAction) -> bool {
    let n = np.shards@.len();
    let s = shard as int % n as int;
    if n == 0 || np.shards@[s].wake_sig || np.shards@[s].efd < 0 {
        r == BreakAction::Nothing && after.shards@ == np.shards@
    } else {
        &&& r == BreakAction::Write(np.shards@[s].efd)
        &&& after.shards@ == np.shards@.update(
            s,
            Shard { wake_sig: true, ..np.shards@[s] },
        )
    }
}

/// Wakes whoever blocks on a shard. While a wake-up is in flight another is
/// not sent.
pub fn break_shard(np: &mut Netpoll, shard: usize) -> (r: BreakAction)
    requires
        old(np).wf(),
    ensures
        final(np).wf(),
        final(np).slots == old(np).slots,
        same_counters(*final(np), *old(np)),
        breaks(*old(np), *final(np), shard, r),
{
    if np.shards.len() == 0 {
        return BreakAction::Nothing;
    }
    let s: usize = shard % np.shards.len();
    let mut sh = np.shards[s];
    if sh.wake_sig || sh.efd < 0 {
        return BreakAction::Nothing;
    }
    sh.wake_sig = true;
    np.shards.set(s, sh);
    BreakAction::Write(sh.efd)
}

/// Whether the answer to a wake-up is in order: all eight bytes, or a refusal
/// that only says that one is pending or that the call was interrupted.
pub fn break_ok(t: Target, n: i64) -> (r: bool)
    ensures
        r == (n == 8 || n == -syscall::numbers_of(t).eagain || n == -EINTR),
{
    n == 8 || n == -t.numbers().eagain || n == -EINTR
}

/// The first unclaimed shard at or after `start`, going round once from `k`
/// steps on.
pub open spec fn first_unclaimed(shards: Seq<Shard>, start: int, k: int) -> Option<int>
    decreases shards.len() - k,
{
    let n = shards.len() as int;
    if k >= n || k < 0 {
        None
    } else if !shards[(start + k) % n].claimed {
        Some((start + k) % n)
    } else {
        first_unclaimed(shards, start, k + 1)
    }
}

/// Claims a shard to block on, preferably that one.
pub fn try_claim_shard(np: &mut Netpoll, prefer: usize) -> (r: Option<usize>)
    requires
        old(np).wf(),
    ensures
        final(np).wf(),
        final(np).slots == old(np).slots,
        same_counters(*final(np), *old(np)),
        ({
            let n = old(np).shards@.len() as int;
            match (if n == 0 {
                None
            } else {
                first_unclaimed(old(np).shards@, prefer as int % n, 0)
            }) {
                None => r is None && final(np).shards@ == old(np).shards@,
                Some(s) => {
                    &&& r is Some && r->0 == s && 0 <= s < n
                    &&& !old(np).shards@[s].claimed
                    &&& final(np).shards@ == old(np).shards@.update(
                        s,
                        Shard { claimed: true, ..old(np).shards@[s] },
                    )
                },
            }
        }),
{
    let n: usize = np.shards.len();
    if n == 0 {
        return None;
    }
    let start: usize = prefer % n;
    let mut k: usize = 0;
    while k < n
        invariant
            k <= n,
            n == np.shards@.len(),
            0 < n <= MAX_SHARDS,
            start < n,
            start == prefer as int % n as int,
            *np == *old(np),
            np.wf(),
            first_unclaimed(np.shards@, start as int, 0) == first_unclaimed(
                np.shards@,
                start as int,
                k as int,
            ),
        decreases n - k,
    {
        let s: usize = (start + k) % n;
        if !np.shards[s].claimed {
            let mut sh = np.shards[s];
            sh.claimed = true;
            np.shards.set(s, sh);
            return Some(s);
        }
        k = k + 1;
    }
    None
}

pub fn release_shard(np: &mut Netpoll, shard: usize)
    requires
        old(np).wf(),
    ensures
        final(np).wf(),
        final(np).slots == old(np).slots,
        same_counters(*final(np), *old(np)),
        final(np).shards@ == (if old(np).shards@.len() == 0 {
            old(np).shards@
        } else {
            let s = shard as int % old(np).shards@.len() as int;
            old(np).shards@.update(s, Shard { claimed: false, ..old(np).shards@[s] })
        }),
{
    if np.shards.len() == 0 {
        return;
    }
    let s: usize = shard % np.shards.len();
    let mut sh = np.shards[s];
    sh.claimed = false;
    np.shards.set(s, sh);
}

proof fn lemma_first_unclaimed(shards: Seq<Shard>, start: int, k: int)
    requires
        0 <= start,
        0 <= k,
    ensures
        first_unclaimed(shards, start, k) matches Some(s) ==> 0 <= s < shards.len()
            && !shards[s].claimed,
    decreases shards.len() - k,
{
    if k < shards.len() && shards[(start + k) % (shards.len() as int)].claimed {
        lemma_first_unclaimed(shards, start, k + 1);
    }
}

/// A claimed shard is not claimed again before it was released: a claim hands
/// out an unclaimed shard only, and marks it.
pub proof fn law_claims_are_exclusive(shards: Seq<Shard>, start: int)
    requires
        0 <= start,
    ensures
        first_unclaimed(shards, start, 0) matches Some(s) ==> first_unclaimed(
            shards.update(s, Shard { claimed: true, ..shards[s] }),
            start,
            0,
        ) != Some(s),
{
    lemma_first_unclaimed(shards, start, 0);
    if let Some(s) = first_unclaimed(shards, start, 0) {
        lemma_first_unclaimed(
            shards.update(s, Shard { claimed: true, ..shards[s] }),
            start,
            0,
        );
    }
}

/// The first claimed shard at or after `start`, going round once from `k`
/// steps on.
pub open spec fn first_claimed(shards: Seq<Shard>, start: int, k: int) -> Option<int>
    decreases shards.len() - k,
{
    let n = shards.len() as int;
    if k >= n || k < 0 {
        None
    } else if shards[(start + k) % n].claimed {
        Some((start + k) % n)
    } else {
        first_claimed(shards, start, k + 1)
    }
}

/// Wakes one of those who block, taking turns.
pub fn break_one_claimed(np: &mut Netpoll) -> (r: BreakAction)
    requires
        old(np).wf(),
    ensures
        final(np).wf(),
        final(np).slots == old(np).slots,
        ({
            let n = old(np).shards@.len() as int;
            if n == 0 {
                r == BreakAction::Nothing && *final(np) == *old(np)
            } else {
                &&& same_counters(
                    *final(np),
                    (Netpoll { break_rr: bump(old(np).break_rr), ..*old(np) }),
                )
                &&& match first_claimed(old(np).shards@, old(np).break_rr as int % n, 0) {
                    None => r == BreakAction::Nothing && final(np).shards@ == old(np).shards@,
                    Some(s) => {
                        let sh = old(np).shards@[s];
                        &&& 0 <= s < n && sh.claimed
                        &&& if sh.wake_sig || sh.efd < 0 {
                            r == BreakAction::Nothing && final(np).shards@ == old(np).shards@
                        } else {
                            &&& r == BreakAction::Write(sh.efd)
                            &&& final(np).shards@ == old(np).shards@.update(
                                s,
                                Shard { wake_sig: true, ..sh },
                            )
                        }
                    },
                }
            }
        }),
{
    let n: usize = np.shards.len();
    if n == 0 {
        return BreakAction::Nothing;
    }
    let start: usize = np.break_rr % n;
    np.break_rr = inc(np.break_rr);
    let mut k: usize = 0;
    while k < n
        invariant
            k <= n,
            n == np.shards@.len(),
            0 < n <= MAX_SHARDS,
            start < n,
            start == old(np).break_rr as int % n as int,
            np.shards == old(np).shards,
            np.slots == old(np).slots,
            same_counters(*np, (Netpoll { break_rr: bump(old(np).break_rr), ..*old(np) })),
            np.wf(),
            first_claimed(np.shards@, start as int, 0) == first_claimed(
                np.shards@,
                start as int,
                k as int,
            ),
        decreases n - k,
    {
        let s: usize = (start + k) % n;
        if np.shards[s].claimed {
            proof {
                vstd::arithmetic::div_mod::lemma_small_mod(s as nat, n as nat);
            }
            return break_shard(np, s);
        }
        k = k + 1;
    }
    BreakAction::Nothing
}

// ---- deadlines ----

/// The descriptor after its deadline was set, and the goroutine that a
/// deadline in the past wakes.
pub open spec fn deadline_set(pd: PollDesc, deadline_ns: i64, mode: u8) -> (
    PollDesc,
    Option<usize>,
) {
    if deadline_ns < 0 {
        unblocked(with_deadline(pd, mode, (-1) as i64), mode, false)
    } else {
        (with_deadline(pd, mode, deadline_ns), None)
    }
}

/// Sets a deadline: zero for none, negative for one that is past.
pub fn set_deadline(pd: &mut PollDesc, deadline_ns: i64, mode: u8) -> (r: Option<usize>)
    ensures
        (*final(pd), r) == deadline_set(*old(pd), deadline_ns, mode),
{
    if deadline_ns < 0 {
        put_deadline(pd, mode, -1);
        return unblock(pd, mode, false);
    }
    put_deadline(pd, mode, deadline_ns);
    None
}

/// One mode of a descriptor at time `now`: a deadline that has come is marked
/// as expired, and its waiter wakes.
pub open spec fn expire(pd: PollDesc, mode: u8, now: i64) -> (PollDesc, Option<usize>) {
    let d = deadline_of(pd, mode);
    if d > 0 && d <= now {
        unblocked(with_deadline(pd, mode, (-1) as i64), mode, false)
    } else {
        (pd, None)
    }
}

/// The first `n` slots at time `now`, with the goroutines that wake.
pub open spec fn expired(slots: Seq<Option<PollDesc>>, now: i64, n: nat) -> (
    Seq<Option<PollDesc>>,
    Seq<usize>,
)
    decreases n,
{
    if n == 0 {
        (slots, Seq::empty())
    } else {
        let (s, woken) = expired(slots, now, (n - 1) as nat);
        match s[n - 1] {
            None => (s, woken),
            Some(pd) => {
                let (p1, reader) = expire(pd, MODE_READ, now);
                let (p2, writer) = expire(p1, 119, now);
                (s.update(n - 1, Some(p2)), push_some(push_some(woken, reader), writer))
            },
        }
    }
}

fn expire_mode(pd: &mut PollDesc, mode: u8, now: i64) -> (r: Option<usize>)
    ensures
        (*final(pd), r) == expire(*old(pd), mode, now),
{
    let d: i64 = deadline(pd, mode);
    if d > 0 && d <= now {
        put_deadline(pd, mode, -1);
        return unblock(pd, mode, false);
    }
    None
}

/// Expires every deadline that has come and returns the goroutines to run.
pub fn fire_expired_deadlines(np: &mut Netpoll, now: i64) -> (woken: Vec<usize>)
    requires
        old(np).wf(),
    ensures
        final(np).wf(),
        final(np).shards == old(np).shards,
        same_counters(*final(np), *old(np)),
        (final(np).slots@, woken@) == expired(old(np).slots@, now, old(np).slots@.len()),
{
    let mut woken: Vec<usize> = Vec::new();
    let mut i: usize = 0;
    assert(woken@ =~= Seq::empty());
    while i < np.slots.len()
        invariant
            i <= np.slots@.len(),
            np.slots@.len() == old(np).slots@.len(),
            np.wf(),
            np.shards == old(np).shards,
            same_counters(*np, *old(np)),
            (np.slots@, woken@) == expired(old(np).slots@, now, i as nat),
        decreases np.slots@.len() - i,
    {
        match np.slots[i] {
            None => {},
            Some(p) => {
                let mut pd = p;
                match expire_mode(&mut pd, MODE_READ, now) {
                    Some(g) => {
                        woken.push(g);
                    },
                    None => {},
                }
                match expire_mode(&mut pd, 119, now) {
                    Some(g) => {
                        woken.push(g);
                    },
                    None => {},
                }
                let ghost before = *np;
                np.slots.set(i, Some(pd));
                proof {
                    law_descriptor_is_put_back(before, *np, i as int, pd);
                }
            },
        }
        i = i + 1;
    }
    woken
}

/// After the deadlines of a moment were fired, firing them again at that
/// moment wakes nobody.
pub proof fn law_deadline_fires_once(pd: PollDesc, mode: u8, now: i64)
    ensures
        ({
            let (after, _woken) = expire(pd, mode, now);
            expire(after, mode, now) == (after, None::<usize>)
        }),
{
}

/// A wait after an expired deadline times out without parking.
pub proof fn law_expired_deadline_times_out(pd: PollDesc, mode: u8, now: i64)
    requires
        0 < deadline_of(pd, mode) <= now,
    ensures
        deadline_of(expire(pd, mode, now).0, mode) < 0,
        expire(pd, mode, now).1 == (if slot_of(pd, mode) > PD_WAIT {
            Some(slot_of(pd, mode))
        } else {
            None
        }),
{
}

// ---- what events, deadlines and claims come to ----

/// Waking a mode: a parked goroutine, which is any number above the three
/// states, is handed out; what is left says whether there was a notification.
/// A notification that is already there stays, and nobody is handed out.
pub proof fn law_waking_hands_out_the_parked(pd: PollDesc, mode: u8, ioready: bool)
    ensures
        ({
            let was = if mode == 114 {
                pd.rg
            } else {
                pd.wg
            };
            let (after, woken) = unblocked(pd, mode, ioready);
            let is = if mode == 114 {
                after.rg
            } else {
                after.wg
            };
            &&& woken == (if was >= 3 {
                Some(was)
            } else {
                None
            })
            &&& ioready ==> is == 1
            &&& !ioready ==> is == (if was == 1 {
                1usize
            } else {
                0usize
            })
            &&& mode == 114 ==> after == (PollDesc { rg: is, ..pd })
            &&& mode != 114 ==> after == (PollDesc { wg: is, ..pd })
        }),
{
}

/// What the bits of an event say of the two sides.
proof fn lemma_event_sides(bits: u32)
    ensures
        read_event(bits) == (bits & 0x1 != 0 || bits & 0x2000 != 0 || bits & 0x10 != 0 || bits & 0x8
            != 0),
        write_event(bits) == (bits & 0x4 != 0 || bits & 0x10 != 0 || bits & 0x8 != 0),
{
    assert((bits & (0x1u32 | 0x2000u32 | 0x10u32 | 0x8u32) != 0) == (bits & 0x1 != 0 || bits & 0x2000 != 0
        || bits & 0x10 != 0 || bits & 0x8 != 0) && (bits & (0x4u32 | 0x10u32 | 0x8u32) != 0) == (bits & 0x4
        != 0 || bits & 0x10 != 0 || bits & 0x8 != 0)) by (bit_vector);
}

/// An event on a live descriptor wakes both sides that it concerns, each
/// whatever the other does. Input, a half-closed peer, a hang-up and an error
/// concern the reader; output, a hang-up and an error concern the writer. A
/// parked goroutine of a side that is concerned is made ready, the reader
/// before the writer, and its side is left notified; a side that is not
/// concerned stays as it is. A watched peer that is gone is reported once.
pub proof fn law_event_wakes_both_sides(
    st: PollState,
    s: int,
    delay_ms: i32,
    e: EpollEvent,
    gone: bool,
    pd: PollDesc,
)
    requires
        e.events != 0,
        e.data & 0x1_0000_0000_0000 != 0,
        (e.data & 0xffff_ffff) < st.slots.len(),
        st.slots[(e.data & 0xffff_ffff) as int] == Some(pd),
        (e.data >> 32) & 0xffff == pd.fdseq & 0xffff,
    ensures
        ({
            let reads = e.events & 0x1 != 0 || e.events & 0x2000 != 0 || e.events & 0x10 != 0
                || e.events & 0x8 != 0;
            let writes = e.events & 0x4 != 0 || e.events & 0x10 != 0 || e.events & 0x8 != 0;
            let at = (e.data & 0xffff_ffff) as int;
            let fires = reads && pd.watch_on && gone;
            let after = on_event(st, s, delay_ms, e, gone);
            let now = after.slots[at]->0;
            &&& after.slots == st.slots.update(at, Some(now))
            &&& now == (PollDesc {
                rg: if reads {
                    1
                } else {
                    pd.rg
                },
                wg: if writes {
                    1
                } else {
                    pd.wg
                },
                watch_on: pd.watch_on && !fires,
                watch_hook: if fires {
                    None
                } else {
                    pd.watch_hook
                },
                ..pd
            })
            &&& after.ready == st.ready + (if reads && pd.rg >= 3 {
                seq![pd.rg]
            } else {
                Seq::empty()
            }) + (if writes && pd.wg >= 3 {
                seq![pd.wg]
            } else {
                Seq::empty()
            })
            &&& after.hooks == (if fires && pd.watch_hook is Some {
                st.hooks.push(pd.watch_hook->0)
            } else {
                st.hooks
            })
            &&& after.shards == st.shards && after.drains == st.drains && after.relays == st.relays
        }),
{
    lemma_event_sides(e.events);
    let d = e.data;
    assert(d & 0xffff_ffff <= 0xffff_ffff && (d >> 32) & 0xffff <= 0xffff) by (bit_vector);
    assert(data_slot(d) == (d & 0xffff_ffff));
    assert(event_desc(st.slots, d) == Some(pd));
    let after = on_event(st, s, delay_ms, e, gone);
    let reads = read_event(e.events);
    let writes = write_event(e.events);
    let r = if reads && pd.rg >= 3 {
        seq![pd.rg]
    } else {
        Seq::<usize>::empty()
    };
    let w = if writes && pd.wg >= 3 {
        seq![pd.wg]
    } else {
        Seq::<usize>::empty()
    };
    assert(after.ready =~= st.ready + r + w);
}

/// A wake-up of a shard: a poll that blocks takes it back and reads it empty,
/// another one relays it; nobody is woken by it.
pub proof fn law_wake_up_is_for_the_blocking_poll(
    st: PollState,
    s: int,
    delay_ms: i32,
    e: EpollEvent,
    gone: bool,
)
    requires
        0 <= s < st.shards.len() <= 64,
        e.events != 0,
        e.data & 0x1_0000_0000_0000 == 0,
    ensures
        ({
            let after = on_event(st, s, delay_ms, e, gone);
            &&& after.slots == st.slots && after.ready == st.ready && after.hooks == st.hooks
            &&& delay_ms != 0 ==> after.drains == st.drains + 1 && after.relays == st.relays
                && !after.shards[s].wake_sig
            &&& delay_ms == 0 ==> after.drains == st.drains && after.shards == st.shards
                && after.relays == st.relays.push(s as usize)
            &&& after.shards.len() == st.shards.len()
            &&& forall|k: int|
                0 <= k < st.shards.len() ==> (#[trigger] after.shards[k]).claimed
                    == st.shards[k].claimed && after.shards[k].epfd == st.shards[k].epfd
                    && after.shards[k].efd == st.shards[k].efd && (k != s ==> after.shards[k]
                    == st.shards[k])
        }),
{
}

/// A batch of one event is that event.
pub proof fn law_batch_of_one(st: PollState, s: int, delay_ms: i32, e: EpollEvent, gone: bool)
    ensures
        on_events(st, s, delay_ms, seq![e], seq![gone], 1) == on_event(st, s, delay_ms, e, gone),
        on_events(st, s, delay_ms, Seq::empty(), Seq::empty(), 0) == st,
{
    reveal_with_fuel(on_events, 2);
}

/// Two batches one after the other are one batch: every event is handled, in
/// its order.
pub proof fn law_batches_follow_each_other(
    st: PollState,
    s: int,
    delay_ms: i32,
    a: Seq<EpollEvent>,
    ga: Seq<bool>,
    b: Seq<EpollEvent>,
    gb: Seq<bool>,
    n: nat,
)
    requires
        a.len() == ga.len(),
        b.len() == gb.len(),
        n <= b.len(),
    ensures
        on_events(st, s, delay_ms, a + b, ga + gb, a.len() + n) == on_events(
            on_events(st, s, delay_ms, a, ga, a.len()),
            s,
            delay_ms,
            b,
            gb,
            n,
        ),
    decreases n,
{
    if n == 0 {
        lemma_events_local(st, s, delay_ms, a + b, ga + gb, a, ga, a.len());
    } else {
        law_batches_follow_each_other(st, s, delay_ms, a, ga, b, gb, (n - 1) as nat);
        assert((a + b)[a.len() + n - 1] == b[n - 1]);
        assert((ga + gb)[a.len() + n - 1] == gb[n - 1]);
    }
}

proof fn lemma_events_local(
    st: PollState,
    s: int,
    delay_ms: i32,
    a: Seq<EpollEvent>,
    ga: Seq<bool>,
    b: Seq<EpollEvent>,
    gb: Seq<bool>,
    n: nat,
)
    requires
        forall|i: int| 0 <= i < n ==> #[trigger] a[i] == b[i],
        forall|i: int| 0 <= i < n ==> #[trigger] ga[i] == gb[i],
    ensures
        on_events(st, s, delay_ms, a, ga, n) == on_events(st, s, delay_ms, b, gb, n),
    decreases n,
{
    if n > 0 {
        lemma_events_local(st, s, delay_ms, a, ga, b, gb, (n - 1) as nat);
        assert(a[n - 1] == b[n - 1] && ga[n - 1] == gb[n - 1]);
    }
}

/// A sweep of all shards handles the batch of each, in order, as a poll of that
/// shard without blocking would, and hands on all that it led to.
pub proof fn law_sweep_handles_every_shard(st: PollState, batches: Seq<Batch>, n: nat)
    requires
        n < batches.len(),
        st.drains == 0,
    ensures
        ({
            let before = polled(st, batches, n);
            let clean = PollState {
                ready: Seq::empty(),
                hooks: Seq::empty(),
                relays: Seq::empty(),
                drains: 0,
                ..before
            };
            let own = on_events(
                clean,
                n as int,
                0,
                batches[n as int].events@,
                batches[n as int].gone@,
                batches[n as int].events@.len(),
            );
            let after = polled(st, batches, n + 1);
            &&& polled(st, batches, 0) == st
            &&& after.slots == own.slots && after.shards == own.shards
            &&& after.ready == before.ready + own.ready
            &&& after.hooks == before.hooks + own.hooks
            &&& after.relays == before.relays + own.relays
        }),
{
}

/// A deadline is due from its moment on. It then counts as expired, its parked
/// goroutine is woken without a notification, and nothing else changes. No
/// deadline and an expired one are never due.
pub proof fn law_due_deadline_wakes(pd: PollDesc, now: i64)
    ensures
        0 < pd.rd <= now ==> expire(pd, 114, now) == (
            PollDesc {
                rd: (-1) as i64,
                rg: if pd.rg == 1 {
                    1
                } else {
                    0
                },
                ..pd
            },
            if pd.rg >= 3 {
                Some(pd.rg)
            } else {
                None
            },
        ),
        0 < pd.wd <= now ==> expire(pd, 119, now) == (
            PollDesc {
                wd: (-1) as i64,
                wg: if pd.wg == 1 {
                    1
                } else {
                    0
                },
                ..pd
            },
            if pd.wg >= 3 {
                Some(pd.wg)
            } else {
                None
            },
        ),
        pd.rd <= 0 || pd.rd > now ==> expire(pd, 114, now) == (pd, None::<usize>),
        pd.wd <= 0 || pd.wd > now ==> expire(pd, 119, now) == (pd, None::<usize>),
{
}

/// Setting a deadline: one that is past wakes its side at once and stays
/// expired, zero and later moments only take its place.
pub proof fn law_deadline_is_set(pd: PollDesc, d: i64)
    ensures
        d >= 0 ==> deadline_set(pd, d, 114) == (PollDesc { rd: d, ..pd }, None::<usize>),
        d >= 0 ==> deadline_set(pd, d, 119) == (PollDesc { wd: d, ..pd }, None::<usize>),
        d < 0 ==> deadline_set(pd, d, 114).0.rd == -1 && deadline_set(pd, d, 114).1 == (if pd.rg
            >= 3 {
            Some(pd.rg)
        } else {
            None
        }) && deadline_set(pd, d, 114).0.wg == pd.wg && deadline_set(pd, d, 114).0.wd == pd.wd,
        d < 0 ==> deadline_set(pd, d, 119).0.wd == -1 && deadline_set(pd, d, 119).1 == (if pd.wg
            >= 3 {
            Some(pd.wg)
        } else {
            None
        }) && deadline_set(pd, d, 119).0.rg == pd.rg && deadline_set(pd, d, 119).0.rd == pd.rd,
{
}

/// Firing the deadlines of a moment reaches every descriptor, both of its
/// sides, and wakes every goroutine that one of them concerns.
pub proof fn law_every_due_deadline_fires(
    slots: Seq<Option<PollDesc>>,
    now: i64,
    n: nat,
    i: int,
)
    requires
        0 <= i < n <= slots.len(),
    ensures
        ({
            let (after, woken) = expired(slots, now, n);
            &&& after.len() == slots.len()
            &&& forall|k: int| n <= k < slots.len() ==> #[trigger] after[k] == slots[k]
            &&& slots[i] is None ==> after[i] is None
            &&& slots[i] matches Some(pd) ==> {
                let read_due = 0 < pd.rd <= now;
                let write_due = 0 < pd.wd <= now;
                &&& after[i] is Some
                &&& after[i]->0.rd == (if read_due {
                    -1
                } else {
                    pd.rd as int
                })
                &&& after[i]->0.wd == (if write_due {
                    -1
                } else {
                    pd.wd as int
                })
                &&& read_due && pd.rg >= 3 ==> after[i]->0.rg == 0 && woken.contains(pd.rg)
                &&& write_due && pd.wg >= 3 ==> after[i]->0.wg == 0 && woken.contains(pd.wg)
                &&& !read_due ==> after[i]->0.rg == pd.rg
                &&& !write_due ==> after[i]->0.wg == pd.wg
            }
        }),
    decreases n,
{
    lemma_expired_len(slots, now, (n - 1) as nat);
    let (prev, w0) = expired(slots, now, (n - 1) as nat);
    let (after, woken) = expired(slots, now, n);
    if i < n - 1 {
        law_every_due_deadline_fires(slots, now, (n - 1) as nat, i);
        assert(after[i] == prev[i]);
        assert forall|g: usize| w0.contains(g) implies woken.contains(g) by {
            let k = choose|k: int| 0 <= k < w0.len() && w0[k] == g;
            assert(woken[k] == g);
        }
    } else {
        assert(prev[i] == slots[i]);
        if let Some(pd) = slots[i] {
            let (p1, reader) = expire(pd, 114, now);
            let (p2, writer) = expire(p1, 119, now);
            let w1 = push_some(w0, reader);
            if let Some(g) = reader {
                assert(w1[w0.len() as int] == g);
                assert(woken[w0.len() as int] == g);
            }
            if let Some(g) = writer {
                assert(woken[w1.len() as int] == g);
            }
        }
    }
}

proof fn lemma_expired_len(slots: Seq<Option<PollDesc>>, now: i64, n: nat)
    requires
        n <= slots.len(),
    ensures
        expired(slots, now, n).0.len() == slots.len(),
        forall|k: int| n <= k < slots.len() ==> #[trigger] expired(slots, now, n).0[k] == slots[k],
    decreases n,
{
    if n > 0 {
        lemma_expired_len(slots, now, (n - 1) as nat);
    }
}

/// Nobody but a goroutine that a due deadline concerns is woken.
pub proof fn law_only_due_deadlines_wake(slots: Seq<Option<PollDesc>>, now: i64, n: nat, g: usize)
    requires
        n <= slots.len(),
        expired(slots, now, n).1.contains(g),
    ensures
        exists|i: int|
            0 <= i < n && (#[trigger] slots[i] matches Some(pd) && (pd.rg == g && 0 < pd.rd <= now
                || pd.wg == g && 0 < pd.wd <= now)),
        g >= 3,
    decreases n,
{
    if n > 0 {
        lemma_expired_len(slots, now, (n - 1) as nat);
        let (prev, w0) = expired(slots, now, (n - 1) as nat);
        let woken = expired(slots, now, n).1;
        let k = choose|k: int| 0 <= k < woken.len() && woken[k] == g;
        if k < w0.len() {
            assert(w0[k] == g);
            law_only_due_deadlines_wake(slots, now, (n - 1) as nat, g);
            let i = choose|i: int|
                0 <= i < n - 1 && (#[trigger] slots[i] matches Some(pd) && (pd.rg == g && 0
                    < pd.rd <= now || pd.wg == g && 0 < pd.wd <= now));
            assert(slots[i] is Some);
        } else {
            assert(prev[n - 1] == slots[n - 1]);
            assert(slots[n - 1] is Some);
        }
    }
}

/// A claim takes the preferred shard if it is free, and fails only when every
/// shard is taken; a break reaches a shard that is taken whenever there is one.
pub proof fn law_claims_and_breaks_find_their_shard(shards: Seq<Shard>, start: int)
    requires
        0 <= start < shards.len(),
    ensures
        !shards[start].claimed ==> first_unclaimed(shards, start, 0) == Some(start),
        first_unclaimed(shards, start, 0) is None <==> forall|i: int|
            0 <= i < shards.len() ==> (#[trigger] shards[i]).claimed,
        shards[start].claimed ==> first_claimed(shards, start, 0) == Some(start),
        first_claimed(shards, start, 0) is None <==> forall|i: int|
            0 <= i < shards.len() ==> !(#[trigger] shards[i]).claimed,
        first_claimed(shards, start, 0) matches Some(i) ==> 0 <= i < shards.len()
            && shards[i].claimed,
{
    let n = shards.len() as int;
    assert((start + 0) % n == start) by {
        vstd::arithmetic::div_mod::lemma_small_mod(start as nat, n as nat);
    }
    lemma_claim_search(shards, start, 0);
    lemma_first_unclaimed(shards, start, 0);
    if first_unclaimed(shards, start, 0) is None {
        assert forall|i: int| 0 <= i < n implies (#[trigger] shards[i]).claimed by {
            let k = lemma_steps_to(start, i, n);
            assert(shards[(start + k) % n].claimed);
        }
    }
    if first_claimed(shards, start, 0) is None {
        assert forall|i: int| 0 <= i < n implies !(#[trigger] shards[i]).claimed by {
            let k = lemma_steps_to(start, i, n);
            assert(!shards[(start + k) % n].claimed);
        }
    }
}

proof fn lemma_steps_to(start: int, i: int, n: int) -> (k: int)
    requires
        0 <= start < n,
        0 <= i < n,
    ensures
        0 <= k < n,
        (start + k) % n == i,
{
    let k = if i >= start {
        i - start
    } else {
        i - start + n
    };
    vstd::arithmetic::div_mod::lemma_small_mod(i as nat, n as nat);
    if i < start {
        vstd::arithmetic::div_mod::lemma_mod_add_multiples_vanish(i, n);
    }
    k
}

proof fn lemma_claim_search(shards: Seq<Shard>, start: int, k: int)
    requires
        0 <= start < shards.len(),
        0 <= k,
    ensures
        first_unclaimed(shards, start, k) is None ==> forall|j: int|
            k <= j < shards.len() ==> (shards[#[trigger] ((start + j) % (shards.len() as int))]).claimed,
        first_claimed(shards, start, k) is None ==> forall|j: int|
            k <= j < shards.len() ==> !(shards[#[trigger] ((start + j) % (
            shards.len() as int))]).claimed,
        first_claimed(shards, start, k) matches Some(i) ==> 0 <= i < shards.len()
            && shards[i].claimed,
    decreases shards.len() - k,
{
    if k < shards.len() {
        lemma_claim_search(shards, start, k + 1);
    }
}


/// A wait from its start to its end, on a side where nobody waits and nothing
/// is pending. A notification that comes before the park is committed makes the
/// goroutine stay; one that comes afterwards hands it out; either way the wait
/// ends ready, and the side is then as at the start. A deadline that comes to a
/// parked goroutine hands it out, and the wait has timed out. A wait without
/// either, when the goroutine is woken otherwise, was aborted.
pub proof fn law_wait_ends_as_it_was_woken(pd: PollDesc, mode: u8, g: usize)
    requires
        mode == 114 || mode == 119,
        g >= 3,
        mode == 114 ==> pd.rg == 0 && pd.rd >= 0,
        mode == 119 ==> pd.wg == 0 && pd.wd >= 0,
    ensures
        ({
            let waiting = blocked(pd, mode).0;
            let early = unblocked(waiting, mode, true).0;
            let parked = committed(waiting, mode, g).0;
            let late = unblocked(parked, mode, true);
            let past = deadline_set(parked, (-5) as i64, mode);
            &&& blocked(pd, mode).1 == BlockStep::Park
            &&& unblocked(waiting, mode, true).1 is None
            &&& committed(early, mode, g) == (early, false)
            &&& resumed(early, mode) == (pd, BlockResult::Ready)
            &&& committed(waiting, mode, g).1
            &&& late.1 == Some(g)
            &&& resumed(late.0, mode) == (pd, BlockResult::Ready)
            &&& past.1 == Some(g)
            &&& resumed(past.0, mode).1 == BlockResult::Timedout
            &&& blocked(resumed(past.0, mode).0, mode).1 == BlockStep::Return(
                BlockResult::Timedout,
            )
            &&& resumed(unblocked(parked, mode, false).0, mode) == (pd, BlockResult::Aborted)
            &&& blocked(unblocked(pd, mode, true).0, mode) == (
                pd,
                BlockStep::Return(BlockResult::Ready),
            )
        }),
{
}

/// A peer is there while there is data or nothing yet, and gone at the end of
/// the stream or after a failure; an interrupted look says nothing.
pub proof fn law_peer_is_gone_at_the_end(t: Target, n: i64)
    ensures
        n > 0 ==> probed(t, n) == Probe::Connected,
        probed(t, 0) == Probe::Disconnected,
        probed(t, (-4) as i64) == Probe::Again,
        probed(Target::DarwinArm64, (-35) as i64) == Probe::Connected,
        t != Target::DarwinArm64 ==> probed(t, (-11) as i64) == Probe::Connected,
        n < 0 && n != -4 && n != -11 && n != -35 ==> probed(t, n) == Probe::Disconnected,
{
}

/// What is asked for of a descriptor: readable, writable, its peer's end, and
/// edges only.
pub proof fn law_interest()
    ensures
        interest() == 0x1 + 0x4 + 0x2000 + 0x8000_0000,
{
    assert(0x1u32 | 0x4u32 | 0x2000u32 | 0x8000_0000u32 == 0x8000_2005u32) by (bit_vector);
}

/// There is a shard for each processor, but one at least and 64 at most.
pub proof fn law_shards_are_bounded(n: usize)
    ensures
        1 <= n <= 64 ==> clamp_shards(n) == n,
        n == 0 ==> clamp_shards(n) == 1,
        n > 64 ==> clamp_shards(n) == 64,
{
}

/// A registration: the descriptor is fresh in a slot of its own on the next
/// shard in turn, and its events find it from the request until it is closed. A
/// refusal gives the slot back, and so does closing; what is registered
/// otherwise stays.
pub proof fn law_registration_lasts_until_the_close(
    np: Netpoll,
    np1: Netpoll,
    fd: i32,
    req: OpenRequest,
    rc: i64,
    np2: Netpoll,
    ok: Option<u32>,
    np3: Netpoll,
    closed: Closed,
    other: u32,
)
    requires
        np.wf(),
        np1.wf(),
        np2.wf(),
        np.shards@.len() > 0,
        opens(np, np1, fd, req),
        answered(np1, np2, req.slot, rc, ok),
        rc >= 0 ==> closes(np2, np3, req.slot, closed),
        other != req.slot,
    ensures
        req.fd == fd,
        req.epfd == np.shards@[np.shard_rr as int % np.shards@.len() as int].epfd,
        np.at(req.slot) is None,
        event_desc(np1.slots@, req.event.data) is Some,
        rc < 0 ==> ok is None && np2.at(req.slot) is None && np2.live == np.live,
        rc >= 0 ==> {
            &&& ok == Some(req.slot)
            &&& event_desc(np2.slots@, req.event.data) matches Some(pd) && pd.fd == fd && pd.slot
                == req.slot && pd.accepted
            &&& np2.live == np.live + 1
            &&& closed.epfd == req.epfd
            &&& closed.desc.fd == fd
            &&& np3.at(req.slot) is None
            &&& np3.live == np.live
            &&& event_desc(np3.slots@, req.event.data) is None
            &&& np3.at(other) == np.at(other)
        },
        np2.at(other) == np.at(other),
{
    law_event_data_round_trip(req.slot, 1);
    assert(1u32 & 0xFFFFu32 == 1u32) by (bit_vector);
    assert(np1.at(other) == np.at(other));
    assert(np2.at(other) == np1.at(other));
    if rc >= 0 {
        assert(np3.at(other) == np2.at(other));
    }
}

/// A wake-up in flight is not sent again: the first break writes to the shard's
/// descriptor, the next one does nothing.
pub proof fn law_wake_up_is_sent_once(
    np: Netpoll,
    np1: Netpoll,
    np2: Netpoll,
    shard: usize,
    r1: BreakAction,
    r2: BreakAction,
)
    requires
        shard < np.shards@.len(),
        !np.shards@[shard as int].wake_sig,
        np.shards@[shard as int].efd >= 0,
        breaks(np, np1, shard, r1),
        breaks(np1, np2, shard, r2),
    ensures
        r1 == BreakAction::Write(np.shards@[shard as int].efd),
        np1.shards@[shard as int].wake_sig,
        r2 == BreakAction::Nothing,
        np2.shards@ == np1.shards@,
{
    vstd::arithmetic::div_mod::lemma_small_mod(shard as nat, np.shards@.len());
}

/// A poll starts from the poller's own descriptors and shards, with nothing to
/// run, to call, to read empty or to send again.
pub proof fn law_poll_starts_with_nothing(np: Netpoll)
    ensures
        start_state(np).slots == np.slots@,
        start_state(np).shards == np.shards@,
        start_state(np).ready.len() == 0 && start_state(np).hooks.len() == 0,
        start_state(np).relays.len() == 0 && start_state(np).drains == 0,
{
}

/// Counters and generations go up by one, and from the largest number back to
/// zero.
pub proof fn law_counters_go_round(x: usize, y: u32)
    ensures
        x < usize::MAX ==> bump(x) == x + 1,
        bump(usize::MAX) == 0,
        y < u32::MAX ==> bump32(y) == y + 1,
        bump32(u32::MAX) == 0,
{
}

} // verus!
