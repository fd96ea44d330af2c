//! The processor profile: stacks sampled by a timer.

use vstd::prelude::*;

use crate::memory::Memory;
use crate::segv::{walk_frames, MAX_FRAMES};
use crate::segv;

verus! {

/// How many samples are kept.
pub const RING: usize = 8192;

/// A sampled stack: the first `depth` addresses.
#[derive(Clone, Copy, Debug)]
pub struct Sample {
    pub pcs: [u64; MAX_FRAMES],
    pub depth: usize,
}

impl Sample {
    pub open spec fn wf(&self) -> bool {
        self.depth <= MAX_FRAMES
    }

    pub open spec fn stack(&self) -> Seq<u64> {
        self.pcs@.subrange(0, self.depth as int)
    }

    pub fn empty() -> (r: Self)
        ensures
            r.depth == 0,
    {
        Sample { pcs: [0u64;MAX_FRAMES], depth: 0 }
    }
}

pub struct Profile {
    /// The kept samples, by slot; sample `n` is in slot `n % RING`.
    pub ring: Vec<Sample>,
    /// How many samples were taken.
    pub written: usize,
    pub active: bool,
    pub period_ns: u64,
}

impl Profile {
    pub open spec fn wf(&self) -> bool {
        &&& self.ring@.len() == RING
        &&& forall|i: int| 0 <= i < RING ==> (#[trigger] self.ring@[i]).wf()
    }

    pub fn new() -> (r: Self)
        ensures
            r.wf(),
            r.written == 0,
            !r.active,
            r.period_ns == 0,
            forall|i: int| 0 <= i < RING ==> (#[trigger] r.ring@[i]).depth == 0,
    {
        let mut ring: Vec<Sample> = Vec::new();
        while ring.len() < RING
            invariant
                ring@.len() <= RING,
                forall|i: int| 0 <= i < ring@.len() ==> (#[trigger] ring@[i]).depth == 0,
            decreases RING - ring@.len(),
        {
            ring.push(Sample::empty());
        }
        Profile { ring, written: 0, active: false, period_ns: 0 }
    }
}

/// The stack of a sample: where the thread was, then its callers, cut to the
/// most frames that a sample has.
pub open spec fn stack_of(pc: u64, callers: Seq<u64>) -> Seq<u64> {
    seq![pc] + callers.subrange(
        0,
        if callers.len() < MAX_FRAMES {
            callers.len() as int
        } else {
            MAX_FRAMES - 1
        },
    )
}

fn sampled_stack(pc: u64, rest: &[u64; MAX_FRAMES], n: usize) -> (r: Sample)
    requires
        n <= MAX_FRAMES,
    ensures
        r.wf(),
        r.stack() == stack_of(pc, rest@.subrange(0, n as int)),
{
    let mut pcs: [u64; MAX_FRAMES] = [0u64;MAX_FRAMES];
    pcs[0] = pc;
    let ghost callers = rest@.subrange(0, n as int);
    let mut depth: usize = 1;
    assert(pcs@.subrange(0, 1) =~= seq![pc] + callers.subrange(0, 0));
    while depth - 1 < n && depth < MAX_FRAMES
        invariant
            1 <= depth <= MAX_FRAMES,
            n <= MAX_FRAMES,
            depth - 1 <= n,
            callers == rest@.subrange(0, n as int),
            pcs@.subrange(0, depth as int) == seq![pc] + callers.subrange(0, depth - 1),
        decreases MAX_FRAMES - depth,
    {
        let ghost before = pcs@.subrange(0, depth as int);
        pcs[depth] = rest[depth - 1];
        depth = depth + 1;
        assert(pcs@.subrange(0, depth as int) =~= before.push(callers[depth - 2]));
        assert(pcs@.subrange(0, depth as int) =~= seq![pc] + callers.subrange(0, depth - 1));
    }
    Sample { pcs, depth }
}

/// The bounds of the stack that a sample may be walked on: those of the
/// goroutine's active stack, if it has a sound one.
pub fn stack_bounds(tls_ready: bool, active: Option<(u64, u64)>) -> (r: Option<(u64, u64)>)
    ensures
        r == (match active {
            Some((lo, hi)) if tls_ready && lo != 0 && hi > lo => Some((lo, hi)),
            _ => None,
        }),
{
    if !tls_ready {
        return None;
    }
    match active {
        None => None,
        Some((lo, hi)) => {
            if lo == 0 || hi <= lo {
                None
            } else {
                Some((lo, hi))
            }
        },
    }
}

/// `q` and `taken` follow the signal that asks for a sample.
pub open spec fn samples(
    p: Profile,
    q: Profile,
    pc: u64,
    fp: u64,
    bounds: Option<(u64, u64)>,
    mem: Memory,
    taken: bool,
) -> bool {
    &&& taken == (p.active && bounds is Some)
    &&& q.active == p.active
    &&& q.period_ns == p.period_ns
    &&& if taken {
        let (lo, hi) = bounds->0;
        let slot = p.written as int % RING as int;
        &&& q.written == p.written.wrapping_add(1)
        &&& q.ring@[slot].stack() == stack_of(
            pc,
            segv::callers(mem, fp, lo, hi, MAX_FRAMES as nat),
        )
        &&& forall|i: int| 0 <= i < RING && i != slot ==> #[trigger] q.ring@[i] == p.ring@[i]
    } else {
        q == p
    }
}

/// Takes a sample of an interrupted thread, and says whether it did: it does
/// not when nothing is profiled or the stack is not known.
pub fn goish_prof_sigtramp(
    p: &mut Profile,
    pc: u64,
    fp: u64,
    bounds: Option<(u64, u64)>,
    mem: &Memory,
) -> (taken: bool)
    requires
        old(p).wf(),
    ensures
        final(p).wf(),
        samples(*old(p), *final(p), pc, fp, bounds, *mem, taken),
{
    if !p.active {
        return false;
    }
    let (lo, hi): (u64, u64) = match bounds {
        None => {
            return false;
        },
        Some(b) => b,
    };
    let mut rest: [u64; MAX_FRAMES] = [0u64;MAX_FRAMES];
    let n: usize = walk_frames(mem, fp, lo, hi, &mut rest);
    let stack = sampled_stack(pc, &rest, n);
    let slot: usize = p.written % RING;
    p.ring.set(slot, stack);
    p.written = p.written.wrapping_add(1);
    true
}

/// Every sample starts with where the thread was, and has a bounded number of
/// frames.
pub proof fn law_sample_starts_at_leaf(pc: u64, callers: Seq<u64>)
    ensures
        stack_of(pc, callers)[0] == pc,
        1 <= stack_of(pc, callers).len() <= MAX_FRAMES,
{
}

/// What starting the profile asks of the kernel.
#[derive(Clone, Copy, Debug, PartialEq, Eq, Structural)]
pub enum StartStep {
    /// The rate is not sound.
    Refused,
    /// Install the handler; go on with `handler_installed`.
    InstallHandler,
    /// Arm the timer, again and again after that many microseconds; go on with
    /// `timer_armed`.
    ArmTimer { usec: i64 },
}

/// `q` and `r` follow from starting the profile.
pub open spec fn starts(p: Profile, q: Profile, hz: i64, r: StartStep) -> bool {
    &&& q.ring == p.ring
    &&& q.active == p.active
    &&& if hz <= 0 {
        r == StartStep::Refused && q == p
    } else {
        &&& r == StartStep::InstallHandler
        &&& q.period_ns == 1_000_000_000int / hz as int
        &&& q.written == 0
    }
}

/// `q` and `r` follow the kernel's answer about the handler.
pub open spec fn installs(p: Profile, q: Profile, rc: i64, r: StartStep) -> bool {
    &&& q.ring == p.ring
    &&& q.written == p.written
    &&& q.period_ns == p.period_ns
    &&& if rc != 0 {
        r == StartStep::Refused && q.active == p.active
    } else {
        r == (StartStep::ArmTimer { usec: (p.period_ns / 1_000) as i64 }) && q.active
    }
}

/// Starts the profile at a number of samples per second.
pub fn start(p: &mut Profile, hz: i64) -> (r: StartStep)
    requires
        old(p).wf(),
    ensures
        final(p).wf(),
        starts(*old(p), *final(p), hz, r),
{
    if hz <= 0 {
        return StartStep::Refused;
    }
    let period: i64 = 1_000_000_000 / hz;
    p.period_ns = period as u64;
    p.written = 0;
    StartStep::InstallHandler
}

/// Takes the kernel's answer about the handler. Samples are taken from then
/// on, since the timer may fire as soon as it is armed.
pub fn handler_installed(p: &mut Profile, rc: i64) -> (r: StartStep)
    requires
        old(p).wf(),
        old(p).period_ns <= 1_000_000_000,
    ensures
        final(p).wf(),
        installs(*old(p), *final(p), rc, r),
{
    if rc != 0 {
        return StartStep::Refused;
    }
    p.active = true;
    StartStep::ArmTimer { usec: (p.period_ns / 1_000) as i64 }
}

/// Takes the kernel's answer about the timer, and says whether the profile has
/// started.
pub fn timer_armed(p: &mut Profile, rc: i64) -> (started: bool)
    requires
        old(p).wf(),
    ensures
        final(p).wf(),
        started == (rc == 0),
        *final(p) == (if rc == 0 {
            *old(p)
        } else {
            Profile { active: false, ..*old(p) }
        }),
{
    if rc != 0 {
        p.active = false;
        return false;
    }
    true
}

/// Stops the profile; the timer is to be disarmed then.
pub fn stop(p: &mut Profile)
    ensures
        *final(p) == (Profile { active: false, ..*old(p) }),
{
    p.active = false;
}

/// How many samples were taken, kept or not.
pub fn taken(p: &Profile) -> (r: usize)
    ensures
        r == p.written,
{
    p.written
}

pub fn period_ns(p: &Profile) -> (r: u64)
    ensures
        r == p.period_ns,
{
    p.period_ns
}

/// How many slots hold samples.
pub open spec fn kept(written: usize) -> nat {
    if written < RING {
        written as nat
    } else {
        RING as nat
    }
}

/// The slots among the first `n` that hold a stack.
pub open spec fn recorded(ring: Seq<Sample>, n: nat) -> Seq<int>
    decreases n,
{
    if n == 0 {
        Seq::empty()
    } else if ring[n - 1].depth > 0 {
        recorded(ring, (n - 1) as nat).push(n - 1)
    } else {
        recorded(ring, (n - 1) as nat)
    }
}

/// The slots of the recorded stacks, in the order in which they are visited.
pub fn for_each(p: &Profile) -> (slots: Vec<usize>)
    requires
        p.wf(),
    ensures
        slots@.map_values(|s: usize| s as int) == recorded(p.ring@, kept(p.written)),
        forall|i: int| 0 <= i < slots@.len() ==> #[trigger] slots@[i] < RING,
{
    let n: usize = if p.written < RING {
        p.written
    } else {
        RING
    };
    let mut slots: Vec<usize> = Vec::new();
    let mut i: usize = 0;
    assert(slots@.map_values(|s: usize| s as int) =~= Seq::empty());
    while i < n
        invariant
            i <= n <= RING,
            p.wf(),
            slots@.map_values(|s: usize| s as int) == recorded(p.ring@, i as nat),
            forall|k: int| 0 <= k < slots@.len() ==> #[trigger] slots@[k] < RING,
        decreases n - i,
    {
        if p.ring[i].depth > 0 {
            let ghost before = slots@;
            slots.push(i);
            assert(slots@.map_values(|s: usize| s as int) =~= before.map_values(
                |s: usize| s as int,
            ).push(i as int));
        }
        i = i + 1;
    }
    slots
}

/// A sample holds where the thread was and then every caller, in order, as far
/// as there is room.
pub proof fn law_sample_keeps_the_callers(pc: u64, callers: Seq<u64>, i: int)
    requires
        0 <= i < callers.len(),
    ensures
        stack_of(pc, callers).len() == (if callers.len() < 32 {
            callers.len() + 1
        } else {
            32
        }),
        i < 31 ==> stack_of(pc, callers)[i + 1] == callers[i],
{
}

/// The slots that are visited are, in ascending order, those that hold a stack
/// and no others; of a long profile all slots are looked at.
pub proof fn law_visits_every_recorded_slot(ring: Seq<Sample>, n: nat, written: usize)
    requires
        n <= ring.len(),
    ensures
        forall|i: int| 0 <= i < n && ring[i].depth > 0 <==> #[trigger] recorded(ring, n).contains(i),
        forall|a: int, b: int|
            0 <= a < b < recorded(ring, n).len() ==> #[trigger] recorded(ring, n)[a]
                < #[trigger] recorded(ring, n)[b],
        kept(written) == (if written <= 8192 {
            written as nat
        } else {
            8192
        }),
    decreases n,
{
    if n > 0 {
        law_visits_every_recorded_slot(ring, (n - 1) as nat, written);
        let before = recorded(ring, (n - 1) as nat);
        let after = recorded(ring, n);
        assert forall|i: int| 0 <= i < n && ring[i].depth > 0 <==> #[trigger] after.contains(
            i,
        ) by {
            if before.contains(i) {
                let k = choose|k: int| 0 <= k < before.len() && before[k] == i;
                assert(after[k] == i);
            }
            if i == n - 1 && ring[i].depth > 0 {
                assert(after[before.len() as int] == i);
            }
            if after.contains(i) {
                let k = choose|k: int| 0 <= k < after.len() && after[k] == i;
                if k < before.len() {
                    assert(before[k] == i);
                    assert(before.contains(i));
                }
            }
        }
        assert forall|a: int, b: int| 0 <= a < b < after.len() implies #[trigger] after[a]
            < #[trigger] after[b] by {
            if b == before.len() {
                assert(before.contains(before[a]));
            }
        }
    }
}

/// A sample of a known stack goes to the next slot in turn: where the thread was
/// and the callers found on that stack. The other slots stay. Nothing is
/// recorded while nothing is profiled, or of a stack that is not known.
pub proof fn law_sample_is_recorded(
    p: Profile,
    q: Profile,
    pc: u64,
    fp: u64,
    lo: u64,
    hi: u64,
    mem: Memory,
    taken: bool,
    i: int,
)
    requires
        p.wf(),
        q.wf(),
        p.written < usize::MAX,
        samples(p, q, pc, fp, Some((lo, hi)), mem, taken),
        0 <= i < 8192,
    ensures
        taken == p.active,
        q.active == p.active && q.period_ns == p.period_ns,
        !p.active ==> q == p,
        p.active ==> {
            let s = q.ring@[p.written as int % 8192];
            let found = segv::callers(mem, fp, lo, hi, 32);
            &&& q.written == p.written + 1
            &&& s.pcs@[0] == pc
            &&& found.len() < 32 ==> s.depth == found.len() + 1
            &&& found.len() >= 32 ==> s.depth == 32
            &&& forall|k: int| 0 < k < s.depth ==> #[trigger] s.pcs@[k] == found[k - 1]
            &&& i != p.written as int % 8192 ==> q.ring@[i] == p.ring@[i]
        },
{
    if p.active {
        let slot = p.written as int % 8192;
        let s = q.ring@[slot];
        let found = segv::callers(mem, fp, lo, hi, 32);
        assert(s.wf());
        assert(s.stack() == stack_of(pc, found));
        assert(s.stack().len() == s.depth);
        assert(s.stack()[0] == pc);
        assert forall|k: int| 0 < k < s.depth implies #[trigger] s.pcs@[k] == found[k - 1] by {
            assert(s.stack()[k] == s.pcs@[k]);
            assert(stack_of(pc, found)[k] == found[k - 1]);
        }
    }
}

/// The period is the longest whole number of nanoseconds with which the wanted
/// number of samples fits into a second. The timer gets it in microseconds, once
/// the handler is installed, and samples are taken from then on.
pub proof fn law_profile_runs_at_its_rate(
    p: Profile,
    q: Profile,
    r: Profile,
    hz: i64,
    rc: i64,
    s1: StartStep,
    s2: StartStep,
)
    requires
        starts(p, q, hz, s1),
        installs(q, r, rc, s2),
    ensures
        hz <= 0 ==> s1 == StartStep::Refused && q == p,
        hz > 0 ==> s1 == StartStep::InstallHandler && q.written == 0 && q.period_ns * hz
            <= 1_000_000_000 && 1_000_000_000 < (q.period_ns + 1) * hz,
        hz > 0 && rc == 0 ==> r.active && (s2 matches StartStep::ArmTimer { usec } && usec * 1_000
            <= q.period_ns < (usec + 1) * 1_000),
        rc != 0 ==> s2 == StartStep::Refused && r.active == q.active,
{
    if hz > 0 {
        vstd::arithmetic::div_mod::lemma_fundamental_div_mod(1_000_000_000, hz as int);
        let d = 1_000_000_000int / hz as int;
        let m = 1_000_000_000int % hz as int;
        assert(d * hz <= 1_000_000_000 && 1_000_000_000 < (d + 1) * hz && 0 <= d <= 1_000_000_000)
            by (nonlinear_arith)
            requires
                1_000_000_000 == hz * d + m,
                0 <= m < hz,
                hz > 0,
        ;
    }
}

} // verus!
