//! Locks that are taken by spinning, and the point at which a goroutine yields
//! when it was asked to.

use vstd::prelude::*;

use crate::m::{acquirem, current_m_locks, is_tls_ready, releasem, set_first_lock_site, MStorage, Release, Tls};
use crate::memory::Memory;
use crate::m;

verus! {

/// Counts a lock on the thread, and remembers where the outermost one was
/// taken.
fn bump_m_locks(t: &Tls, s: &mut MStorage, site: usize)
    ensures
        *final(s) == bumped(*t, *old(s), site),
{
    if current_m_locks(t, s) == 0 {
        set_first_lock_site(t, s, site);
    }
    acquirem(t, s);
}

/// A thread's storage after it has taken a lock.
pub open spec fn bumped(t: Tls, s: MStorage, site: usize) -> MStorage {
    if !t.ready {
        s
    } else {
        MStorage {
            locks: s.locks.wrapping_add(1),
            first_lock_site: if s.locks == 0 {
                Some(site)
            } else {
                s.first_lock_site
            },
            ..s
        }
    }
}

/// The goroutine that runs on a thread.
pub struct Running {
    pub stack_lo: usize,
    pub stack_hi: usize,
    /// Asks it to yield.
    pub preempt: bool,
}

/// Whether a goroutine yields at this point: it was asked to, its thread holds
/// no lock, and it runs on its own stack.
pub open spec fn yields(enabled: bool, t: Tls, locks: u32, g: Option<Running>, sp: usize) -> bool {
    enabled && t.ready && locks == 0 && match g {
        Some(g) => g.stack_lo <= sp < g.stack_hi && g.preempt,
        None => false,
    }
}

/// Whether the running goroutine is to yield now; its request is then taken
/// back.
pub fn cooperative_preempt_check(
    enabled: bool,
    t: &Tls,
    s: &MStorage,
    g: &mut Option<Running>,
    sp: usize,
) -> (r: bool)
    ensures
        r == yields(enabled, *t, s.locks, *old(g), sp),
        match *old(g) {
            None => *final(g) == *old(g),
            Some(x) => *final(g) == Some(Running { preempt: x.preempt && !r, ..x }),
        },
{
    if !enabled {
        return false;
    }
    if !is_tls_ready(t) {
        return false;
    }
    if current_m_locks(t, s) != 0 {
        return false;
    }
    match g {
        None => false,
        Some(x) => {
            if sp < x.stack_lo || sp >= x.stack_hi {
                return false;
            }
            let asked = x.preempt;
            x.preempt = false;
            asked
        },
    }
}

/// What giving a lock back does to the thread and to its goroutine: the lock is
/// no longer counted, and unless that was fatal the goroutine yields if it is
/// to, its request then taken back.
pub open spec fn gives_back(
    t: Tls,
    s0: MStorage,
    s1: MStorage,
    mem: Memory,
    fp: u64,
    g0: Option<Running>,
    g1: Option<Running>,
    coop_preempt: bool,
    sp: usize,
    r: (Release, bool),
) -> bool {
    &&& m::released(t, s0, s1, mem, fp, r.0)
    &&& r.1 == (r.0 is Done && yields(coop_preempt, t, s1.locks, g0, sp))
    &&& match g0 {
        None => g1 == g0,
        Some(x) => g1 == Some(Running { preempt: x.preempt && !r.1, ..x }),
    }
}

fn give_back(
    t: &Tls,
    s: &mut MStorage,
    mem: &Memory,
    fp: u64,
    g: &mut Option<Running>,
    coop_preempt: bool,
    sp: usize,
) -> (r: (Release, bool))
    ensures
        gives_back(*t, *old(s), *final(s), *mem, fp, *old(g), *final(g), coop_preempt, sp, r),
{
    let done = releasem(t, s, mem, fp);
    match done {
        Release::Done => {
            let yielding = cooperative_preempt_check(coop_preempt, t, s, g, sp);
            (done, yielding)
        },
        _ => (done, false),
    }
}

/// A lock and what it guards. The lock itself is known by its address.
pub struct SpinLock<T> {
    pub locked: bool,
    pub atom: usize,
    pub data: T,
}

/// Proof that a lock is held, until it is given back.
pub struct Guard {
    pub atom: usize,
}

impl<T: Default> Default for SpinLock<T> {
    /// A free lock around a default value, not yet at an address.
    fn default() -> (r: Self)
        ensures
            !r.locked,
            r.atom == 0,
            T::default.ensures((), r.data),
    {
        SpinLock::new(T::default(), 0)
    }
}

impl<T> SpinLock<T> {
    pub fn new(data: T, atom: usize) -> (r: Self)
        ensures
            r == (SpinLock { locked: false, atom, data }),
    {
        SpinLock { locked: false, atom, data }
    }

    /// One attempt to take the lock. The thread counts the lock even while it
    /// still spins, so the count is raised before the first attempt.
    pub fn try_lock(&mut self) -> (r: Option<Guard>)
        ensures
            *final(self) == (SpinLock { locked: true, ..*old(self) }),
            r == (if old(self).locked {
                None
            } else {
                Some(Guard { atom: old(self).atom })
            }),
    {
        if self.locked {
            None
        } else {
            self.locked = true;
            Some(Guard { atom: self.atom })
        }
    }

    /// Takes a free lock.
    pub fn lock(&mut self, t: &Tls, s: &mut MStorage, site: usize) -> (r: Guard)
        requires
            !old(self).locked,
        ensures
            *final(self) == (SpinLock { locked: true, ..*old(self) }),
            *final(s) == bumped(*t, *old(s), site),
            r.atom == old(self).atom,
    {
        bump_m_locks(t, s, site);
        self.locked = true;
        Guard { atom: self.atom }
    }

    /// Gives the lock back. The thread then counts one lock less; to have
    /// counted none is fatal. After that the running goroutine yields if it is
    /// to: the second result says so, and its request is then taken back.
    pub fn unlock(
        &mut self,
        guard: Guard,
        t: &Tls,
        s: &mut MStorage,
        mem: &Memory,
        fp: u64,
        g: &mut Option<Running>,
        coop_preempt: bool,
        sp: usize,
    ) -> (r: (Release, bool))
        requires
            guard.atom == old(self).atom,
        ensures
            *final(self) == (SpinLock { locked: false, ..*old(self) }),
            gives_back(*t, *old(s), *final(s), *mem, fp, *old(g), *final(g), coop_preempt, sp, r),
    {
        self.locked = false;
        give_back(t, s, mem, fp, g, coop_preempt, sp)
    }

    /// The address by which the lock can be given back without its guard.
    pub fn lock_atom(&self) -> (r: usize)
        ensures
            r == self.atom,
    {
        self.atom
    }

    pub fn into_inner(self) -> (r: T)
        ensures
            r == self.data,
    {
        self.data
    }
}

/// Takes the lock at an address.
pub fn raw_lock(locked: &mut bool, t: &Tls, s: &mut MStorage, site: usize)
    requires
        !*old(locked),
    ensures
        *final(locked),
        *final(s) == bumped(*t, *old(s), site),
{
    bump_m_locks(t, s, site);
    *locked = true;
}

/// Gives back the lock at an address. The thread then counts one lock less; to
/// have counted none is fatal. After that the running goroutine yields if it
/// is to: the second result says so, and its request is then taken back.
pub fn raw_unlock(
    locked: &mut bool,
    t: &Tls,
    s: &mut MStorage,
    mem: &Memory,
    fp: u64,
    g: &mut Option<Running>,
    coop_preempt: bool,
    sp: usize,
) -> (r: (Release, bool))
    ensures
        !*final(locked),
        gives_back(*t, *old(s), *final(s), *mem, fp, *old(g), *final(g), coop_preempt, sp, r),
{
    *locked = false;
    give_back(t, s, mem, fp, g, coop_preempt, sp)
}

/// Taking and giving back a lock leaves the thread's count as it was.
pub proof fn law_lock_and_unlock_balance(t: Tls, s: MStorage, site: usize)
    requires
        s.locks < u32::MAX,
        t.ready,
    ensures
        bumped(t, s, site).locks > 0,
        bumped(t, s, site).locks - 1 == s.locks,
{
}

/// A goroutine never yields while its thread holds a lock.
pub proof fn law_no_yield_under_lock(enabled: bool, t: Tls, locks: u32, g: Option<Running>, sp: usize)
    requires
        locks > 0,
    ensures
        !yields(enabled, t, locks, g, sp),
{
}

/// A lock counts on its thread, and the outermost one leaves its place.
pub proof fn law_outermost_lock_leaves_its_place(t: Tls, s: MStorage, site: usize)
    requires
        s.locks < u32::MAX,
    ensures
        !t.ready ==> bumped(t, s, site) == s,
        t.ready && s.locks == 0 ==> bumped(t, s, site) == (MStorage {
            locks: 1,
            first_lock_site: Some(site),
            ..s
        }),
        t.ready && s.locks > 0 ==> bumped(t, s, site) == (MStorage {
            locks: (s.locks + 1) as u32,
            ..s
        }),
{
}

/// A goroutine yields exactly if this is enabled, threads have their storage, no
/// lock is held, and it was asked to while it runs on its own stack.
pub proof fn law_when_a_goroutine_yields(
    enabled: bool,
    t: Tls,
    locks: u32,
    lo: usize,
    hi: usize,
    preempt: bool,
    sp: usize,
)
    ensures
        yields(
            enabled,
            t,
            locks,
            Some(Running { stack_lo: lo, stack_hi: hi, preempt }),
            sp,
        ) <==> enabled && t.ready && locks == 0 && lo <= sp && sp < hi && preempt,
        !yields(enabled, t, locks, None, sp),
{
}

/// Giving back the only lock of a thread lets a goroutine that was asked to
/// yield do so, and its request is gone; giving back an inner lock does not, and
/// the request stays.
pub proof fn law_yield_waits_for_the_last_lock(
    t: Tls,
    s: MStorage,
    site: usize,
    after: MStorage,
    mem: Memory,
    fp: u64,
    g: Running,
    h: Option<Running>,
    sp: usize,
    r: (Release, bool),
)
    requires
        t.ready,
        s.locks < u32::MAX,
        g.preempt,
        g.stack_lo <= sp < g.stack_hi,
        gives_back(t, bumped(t, s, site), after, mem, fp, Some(g), h, true, sp, r),
    ensures
        r.0 == Release::Done,
        after.locks == s.locks,
        s.locks == 0 ==> r.1 && h == Some(Running { preempt: false, ..g }),
        s.locks > 0 ==> !r.1 && h == Some(g),
{
}

} // verus!
