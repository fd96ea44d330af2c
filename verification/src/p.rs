//! Processors and their run queues.
//!
//! A run queue is a ring of goroutines with one more slot for the goroutine to
//! run next. Every function is one atomic step.

use vstd::prelude::*;

use crate::m::{is_tls_ready, MStorage, Tls};
use crate::steal::{RandomOrder, MAX_PS};

verus! {

pub const P_IDLE: u32 = 0;

pub const P_RUNNING: u32 = 1;

pub const P_SYSCALL: u32 = 2;

pub const P_DEAD: u32 = 3;

pub const LOCAL_RUNQ_SIZE: usize = 256;

/// No cached span.
pub const NIL_SPAN: u16 = 0;

pub const NUM_SIZE_CLASSES: usize = 68;

/// A processor. Goroutines are numbers other than zero.
pub struct P {
    pub id: u32,
    pub status: u32,
    /// The thread that runs on this processor.
    pub m: Option<u32>,
    pub runqhead: u32,
    pub runqtail: u32,
    pub runq: Vec<usize>,
    /// The goroutine to run next; zero for none.
    pub runnext: usize,
    /// The span that each size class allocates from.
    pub mcache: Vec<u16>,
}

pub open spec fn ring_len(head: u32, tail: u32) -> int {
    if tail >= head {
        tail - head
    } else {
        tail - head + 0x1_0000_0000
    }
}

/// No size class has a cached span.
pub open spec fn no_spans(mcache: Seq<u16>) -> bool {
    mcache.len() == NUM_SIZE_CLASSES && forall|c: int|
        0 <= c < NUM_SIZE_CLASSES ==> #[trigger] mcache[c] == NIL_SPAN
}

impl P {
    pub open spec fn len(&self) -> int {
        ring_len(self.runqhead, self.runqtail)
    }

    /// The queued goroutines, first to run first, without the next one.
    pub open spec fn queue(&self) -> Seq<usize> {
        Seq::new(
            self.len() as nat,
            |i: int| self.runq@[(self.runqhead + i) % 256],
        )
    }

    pub open spec fn wf(&self) -> bool {
        &&& self.runq@.len() == LOCAL_RUNQ_SIZE
        &&& self.mcache@.len() == NUM_SIZE_CLASSES
        &&& self.queue().len() == self.len() <= LOCAL_RUNQ_SIZE
        &&& forall|i: int| 0 <= i < self.queue().len() ==> #[trigger] self.queue()[i] != 0
    }

    /// Everything but the run queue is as it was.
    pub open spec fn same_but_queue(&self, other: P) -> bool {
        &&& self.id == other.id
        &&& self.status == other.status
        &&& self.m == other.m
        &&& self.mcache == other.mcache
    }

    /// Everything but the cached spans is as it was.
    pub open spec fn same_but_cache(&self, other: P) -> bool {
        &&& self.id == other.id
        &&& self.status == other.status
        &&& self.m == other.m
        &&& self.runqhead == other.runqhead
        &&& self.runqtail == other.runqtail
        &&& self.runq == other.runq
        &&& self.runnext == other.runnext
    }

    /// An idle processor with nothing to run.
    pub fn new(id: u32) -> (r: Self)
        ensures
            r.wf(),
            r.id == id,
            r.status == P_IDLE,
            r.m is None,
            r.runnext == 0,
            r.queue() == Seq::<usize>::empty(),
            r.runqhead == 0 && r.runqtail == 0,
            no_spans(r.mcache@),
    {
        let mut runq: Vec<usize> = Vec::new();
        while runq.len() < LOCAL_RUNQ_SIZE
            invariant
                runq.len() <= LOCAL_RUNQ_SIZE,
            decreases LOCAL_RUNQ_SIZE - runq.len(),
        {
            runq.push(0);
        }
        let mut mcache: Vec<u16> = Vec::new();
        while mcache.len() < NUM_SIZE_CLASSES
            invariant
                mcache.len() <= NUM_SIZE_CLASSES,
                forall|c: int| 0 <= c < mcache.len() ==> #[trigger] mcache@[c] == NIL_SPAN,
            decreases NUM_SIZE_CLASSES - mcache.len(),
        {
            mcache.push(NIL_SPAN);
        }
        let r = P {
            id,
            status: P_IDLE,
            m: None,
            runqhead: 0,
            runqtail: 0,
            runq,
            runnext: 0,
            mcache,
        };
        assert(r.queue() =~= Seq::empty());
        r
    }
}

fn ring_count(head: u32, tail: u32) -> (n: u32)
    requires
        ring_len(head, tail) <= LOCAL_RUNQ_SIZE,
    ensures
        n == ring_len(head, tail),
{
    if tail >= head {
        tail - head
    } else {
        (u32::MAX - head) + tail + 1
    }
}

pub open spec fn ring_add(x: u32, n: int) -> u32 {
    if x + n > u32::MAX {
        (x + n - 0x1_0000_0000) as u32
    } else {
        (x + n) as u32
    }
}

fn ring_plus(x: u32, n: u32) -> (r: u32)
    ensures
        r == ring_add(x, n as int),
{
    if x > u32::MAX - n {
        x - (u32::MAX - n) - 1
    } else {
        x + n
    }
}

/// What `runqput` queues: the goroutine itself, or the one that it displaced
/// from the next slot.
pub open spec fn put_tail(p: P, gp: usize, next: bool) -> Option<usize> {
    if !next {
        Some(gp)
    } else if p.runnext == 0 {
        None
    } else {
        Some(p.runnext)
    }
}

/// `q` and `spilled` follow from making a goroutine runnable on `p`.
pub open spec fn puts(p: P, q: P, gp: usize, next: bool, spilled: Option<Vec<usize>>) -> bool {
    &&& q.runnext == (if next {
        gp
    } else {
        p.runnext
    })
    &&& match put_tail(p, gp, next) {
        None => {
            &&& q.queue() == p.queue() && spilled is None
            &&& q.runqhead == p.runqhead
            &&& q.runqtail == p.runqtail
        },
        Some(g) => if p.len() < LOCAL_RUNQ_SIZE {
            &&& q.queue() == p.queue().push(g) && spilled is None
            &&& q.runqhead == p.runqhead
            &&& q.runqtail == ring_add(p.runqtail, 1)
        } else {
            &&& q.queue() == p.queue().subrange(128, 256)
            &&& q.runqhead == ring_add(p.runqhead, 128)
            &&& q.runqtail == p.runqtail
            &&& spilled matches Some(b) && b@ == p.queue().subrange(
                0,
                128,
            ).push(g)
        },
    }
}

/// `q` and `r` follow from taking the goroutine to run off `p`.
pub open spec fn gets(p: P, q: P, r: Option<usize>) -> bool {
    &&& q.runnext == 0
    &&& q.runqtail == p.runqtail
    &&& if p.runnext != 0 {
        &&& r == Some(p.runnext) && q.queue() == p.queue()
        &&& q.runqhead == p.runqhead
    } else if p.len() == 0 {
        &&& r is None && q.queue() == p.queue()
        &&& q.runqhead == p.runqhead
    } else {
        &&& r == Some(p.queue()[0])
        &&& q.queue() == p.queue().subrange(1, p.len())
        &&& q.runqhead == ring_add(p.runqhead, 1)
    }
}

impl P {
    fn push_tail(&mut self, gp: usize)
        requires
            old(self).wf(),
            old(self).len() < LOCAL_RUNQ_SIZE,
            gp != 0,
        ensures
            final(self).wf(),
            final(self).queue() == old(self).queue().push(gp),
            final(self).runnext == old(self).runnext,
            final(self).same_but_queue(*old(self)),
            final(self).runqhead == old(self).runqhead,
            final(self).runqtail == ring_add(old(self).runqtail, 1),
    {
        let ghost q = self.queue();
        let ghost n = self.len();
        let ghost h = self.runqhead as int;
        let slot: usize = self.runqtail as usize % LOCAL_RUNQ_SIZE;
        proof {
            assert(slot == (h + n) % 256);
        }
        self.runq.set(slot, gp);
        self.runqtail = ring_plus(self.runqtail, 1);
        proof {
            assert(self.len() == n + 1);
            assert forall|i: int| 0 <= i < n implies #[trigger] self.queue()[i] == q[i] by {
                assert((h + i) % 256 != (h + n) % 256);
            }
            assert(self.queue()[n] == gp);
            assert(self.queue() =~= q.push(gp));
            assert forall|i: int| 0 <= i < self.queue().len() implies #[trigger] self.queue()[i]
                != 0 by {
                if i < n {
                    assert(q[i] != 0);
                }
            }
        }
    }

    /// Takes the first `n` goroutines off the queue.
    fn drop_head(&mut self, n: u32)
        requires
            old(self).wf(),
            n <= old(self).len(),
        ensures
            final(self).wf(),
            final(self).queue() == old(self).queue().subrange(n as int, old(self).len()),
            final(self).runnext == old(self).runnext,
            final(self).same_but_queue(*old(self)),
            final(self).runqhead == ring_add(old(self).runqhead, n as int),
            final(self).runqtail == old(self).runqtail,
    {
        let ghost q = self.queue();
        let ghost h = self.runqhead as int;
        let ghost l = self.len();
        self.runqhead = ring_plus(self.runqhead, n);
        proof {
            assert(self.len() == l - n);
            assert forall|i: int| 0 <= i < l - n implies #[trigger] self.queue()[i] == q[i
                + n] by {
                assert((self.runqhead + i) % 256 == (h + (i + n)) % 256);
            }
            assert(self.queue() =~= q.subrange(n as int, l));
            assert forall|i: int| 0 <= i < self.queue().len() implies #[trigger] self.queue()[i]
                != 0 by {
                assert(q[i + n] != 0);
            }
        }
    }

    fn item(&self, i: u32) -> (g: usize)
        requires
            self.wf(),
            i < self.len(),
        ensures
            g == self.queue()[i as int],
            g != 0,
    {
        let slot: usize = ring_plus(self.runqhead, i) as usize % LOCAL_RUNQ_SIZE;
        proof {
            assert(slot == (self.runqhead + i) % 256);
            assert(self.queue()[i as int] != 0);
        }
        self.runq[slot]
    }

    /// The first `n` goroutines.
    fn head(&self, n: u32) -> (batch: Vec<usize>)
        requires
            self.wf(),
            n <= self.len(),
        ensures
            batch@ == self.queue().subrange(0, n as int),
    {
        let mut batch: Vec<usize> = Vec::new();
        let mut i: u32 = 0;
        while i < n
            invariant
                self.wf(),
                i <= n <= self.len(),
                batch@ == self.queue().subrange(0, i as int),
            decreases n - i,
        {
            batch.push(self.item(i));
            i = i + 1;
            assert(batch@ =~= self.queue().subrange(0, i as int));
        }
        batch
    }

    /// Makes a goroutine runnable here: as the next one, which displaces the
    /// one that was next to the tail, or at the tail. A full queue gives half
    /// of itself and the goroutine to the global queue, as a batch.
    pub fn runqput(&mut self, gp: usize, next: bool) -> (spilled: Option<Vec<usize>>)
        requires
            old(self).wf(),
            gp != 0,
        ensures
            final(self).wf(),
            final(self).same_but_queue(*old(self)),
            puts(*old(self), *final(self), gp, next, spilled),
    {
        let mut g: usize = gp;
        if next {
            let oldnext: usize = self.runnext;
            let ghost before = *self;
            self.runnext = gp;
            assert(self.queue() =~= before.queue());
            if oldnext == 0 {
                return None;
            }
            g = oldnext;
        }
        if (ring_count(self.runqhead, self.runqtail) as usize) < LOCAL_RUNQ_SIZE {
            self.push_tail(g);
            return None;
        }
        let (h, t): (u32, u32) = (self.runqhead, self.runqtail);
        self.runqputslow(g, h, t)
    }

    /// Moves half of a full queue, and `gp`, into a batch. `h` and `t` are
    /// the ends that were seen full; when the head has moved since, nothing
    /// happens and the put has to be tried again.
    fn runqputslow(&mut self, gp: usize, h: u32, t: u32) -> (r: Option<Vec<usize>>)
        requires
            old(self).wf(),
            ring_len(h, t) == LOCAL_RUNQ_SIZE,
            t == old(self).runqtail,
        ensures
            final(self).wf(),
            final(self).same_but_queue(*old(self)),
            final(self).runnext == old(self).runnext,
            if old(self).runqhead != h {
                r is None && *final(self) == *old(self)
            } else {
                &&& final(self).queue() == old(self).queue().subrange(128, 256)
                &&& final(self).runqhead == ring_add(old(self).runqhead, 128)
                &&& final(self).runqtail == old(self).runqtail
                &&& r matches Some(batch) && batch@ == old(self).queue().subrange(0, 128).push(gp)
            },
    {
        if self.runqhead != h {
            return None;
        }
        let n: u32 = ring_count(h, t) / 2;
        let mut batch = self.head(n);
        self.drop_head(n);
        batch.push(gp);
        Some(batch)
    }

    /// Takes the goroutine to run: the next one, else the first of the queue.
    pub fn runqget(&mut self) -> (r: Option<usize>)
        requires
            old(self).wf(),
        ensures
            final(self).wf(),
            final(self).same_but_queue(*old(self)),
            gets(*old(self), *final(self), r),
    {
        let next: usize = self.runnext;
        if next != 0 {
            let ghost before = *self;
            self.runnext = 0;
            assert(self.queue() =~= before.queue());
            return Some(next);
        }
        if ring_count(self.runqhead, self.runqtail) == 0 {
            return None;
        }
        let gp: usize = self.item(0);
        self.drop_head(1);
        Some(gp)
    }

    pub fn runq_has_work(&self) -> (r: bool)
        requires
            self.wf(),
        ensures
            r == (self.runnext != 0 || self.queue().len() > 0),
    {
        if self.runnext != 0 {
            return true;
        }
        self.runqhead != self.runqtail
    }

    pub fn runq_len(&self) -> (n: usize)
        requires
            self.wf(),
        ensures
            n == self.queue().len() + (if self.runnext != 0 {
                1int
            } else {
                0int
            }),
    {
        let extra: usize = if self.runnext != 0 {
            1
        } else {
            0
        };
        extra + ring_count(self.runqhead, self.runqtail) as usize
    }

    pub fn runqempty(&self) -> (r: bool)
        requires
            self.wf(),
        ensures
            r == (self.runnext == 0 && self.queue().len() == 0),
    {
        self.runqhead == self.runqtail && self.runnext == 0
    }

    /// Whether the thief should yield first: it is about to take the next
    /// goroutine of a processor that is running, which may run it itself.
    pub fn steal_should_yield(&self, steal_runnext_g: bool) -> (r: bool)
        requires
            self.wf(),
        ensures
            r == (self.queue().len() == 0 && steal_runnext_g && self.runnext != 0 && self.status
                == P_RUNNING),
    {
        self.runqhead == self.runqtail && steal_runnext_g && self.runnext != 0 && self.status
            == P_RUNNING
    }

    /// What a thief reads before it commits: the head that it saw and the
    /// first half of the queue, rounded up.
    pub fn runqgrab_read(&self) -> (r: (u32, Vec<usize>))
        requires
            self.wf(),
        ensures
            r.0 == self.runqhead,
            r.1@ == self.queue().subrange(0, grab_count(self.len())),
    {
        let len: u32 = ring_count(self.runqhead, self.runqtail);
        (self.runqhead, self.head(len - len / 2))
    }

    /// Takes `n` goroutines off the queue if its head is still the one that
    /// was seen, and says whether it was.
    pub fn runqgrab_commit(&mut self, h: u32, n: u32) -> (ok: bool)
        requires
            old(self).wf(),
            old(self).runqhead == h ==> n <= old(self).len(),
        ensures
            final(self).wf(),
            ok == (old(self).runqhead == h),
            if ok {
                &&& final(self).queue() == old(self).queue().subrange(n as int, old(self).len())
                &&& final(self).runnext == old(self).runnext
                &&& final(self).runqhead == ring_add(h, n as int)
                &&& final(self).runqtail == old(self).runqtail
                &&& final(self).same_but_queue(*old(self))
            } else {
                *final(self) == *old(self)
            },
    {
        if self.runqhead != h {
            return false;
        }
        self.drop_head(n);
        true
    }

    /// Takes half of the queue, rounded up, for a thief; from an empty queue
    /// the next goroutine, if that is allowed.
    pub fn runqgrab(&mut self, steal_runnext_g: bool) -> (batch: Vec<usize>)
        requires
            old(self).wf(),
        ensures
            final(self).wf(),
            final(self).same_but_queue(*old(self)),
            batch@.len() <= 128,
            forall|i: int| 0 <= i < batch@.len() ==> #[trigger] batch@[i] != 0,
            batch@ == stolen(*old(self), steal_runnext_g),
            final(self).runqtail == old(self).runqtail,
            final(self).runqhead == (if old(self).len() > 0 {
                ring_add(old(self).runqhead, batch@.len() as int)
            } else {
                old(self).runqhead
            }),
            if old(self).len() > 0 {
                &&& final(self).queue() == old(self).queue().subrange(
                    grab_count(old(self).len()),
                    old(self).len(),
                )
                &&& final(self).runnext == old(self).runnext
            } else {
                &&& final(self).queue() == old(self).queue()
                &&& final(self).runnext == (if steal_runnext_g {
                    0
                } else {
                    old(self).runnext
                })
            },
    {
        let (h, mut batch) = self.runqgrab_read();
        if batch.len() == 0 {
            assert(batch@ =~= Seq::empty());
            if steal_runnext_g && self.runnext != 0 {
                let ghost before = *self;
                batch.push(self.runnext);
                self.runnext = 0;
                assert(self.queue() =~= before.queue());
                assert(batch@ =~= seq![before.runnext]);
            }
            return batch;
        }
        proof {
            assert forall|i: int| 0 <= i < batch@.len() implies #[trigger] batch@[i] != 0 by {
                assert(self.queue()[i] != 0);
            }
        }
        let n: u32 = batch.len() as u32;
        let _ok = self.runqgrab_commit(h, n);
        batch
    }

    /// Steals from another processor: runs the last goroutine that was taken
    /// and queues the others.
    pub fn runqsteal(&mut self, target: &mut P, steal_runnext_g: bool) -> (r: Option<usize>)
        requires
            old(self).wf(),
            old(target).wf(),
            old(self).len() + stolen(*old(target), steal_runnext_g).len() <= LOCAL_RUNQ_SIZE,
        ensures
            final(self).wf(),
            final(target).wf(),
            final(self).runnext == old(self).runnext,
            final(self).same_but_queue(*old(self)),
            final(target).same_but_queue(*old(target)),
            final(self).runqhead == old(self).runqhead,
            final(target).runqtail == old(target).runqtail,
            steals(*old(self), *old(target), *final(self), *final(target), steal_runnext_g, r),
    {
        let batch = target.runqgrab(steal_runnext_g);
        let ghost taken = stolen(*old(target), steal_runnext_g);
        assert(batch@ =~= taken);
        let n: usize = batch.len();
        if n == 0 {
            return None;
        }
        let mut i: usize = 0;
        while i < n - 1
            invariant
                0 < n == batch@.len(),
                i <= n - 1,
                self.wf(),
                old(self).len() + n <= LOCAL_RUNQ_SIZE,
                self.len() == old(self).len() + i,
                self.runqhead == old(self).runqhead,
                self.runqtail == ring_add(old(self).runqtail, i as int),
                self.runnext == old(self).runnext,
                self.same_but_queue(*old(self)),
                forall|k: int| 0 <= k < batch@.len() ==> #[trigger] batch@[k] != 0,
                self.queue() == old(self).queue() + batch@.subrange(0, i as int),
            decreases n - i,
        {
            assert(batch@[i as int] != 0);
            let ghost q = self.queue();
            self.push_tail(batch[i]);
            proof {
                assert(self.queue().len() == self.len());
                assert(q.len() == old(self).len() + i);
                assert(batch@.subrange(0, i + 1) =~= batch@.subrange(0, i as int).push(
                    batch@[i as int],
                ));
                assert(self.queue() =~= old(self).queue() + batch@.subrange(0, i + 1));
            }
            i = i + 1;
        }
        proof {
            assert(batch@.subrange(0, n - 1) =~= taken.drop_last());
            if old(target).len() > 0 {
                assert(old(target).queue() =~= taken + target.queue());
            }
        }
        Some(batch[n - 1])
    }
}

/// The processors after a theft, and the goroutine that the thief runs.
pub open spec fn steals(
    thief: P,
    victim: P,
    thief2: P,
    victim2: P,
    steal_runnext_g: bool,
    r: Option<usize>,
) -> bool {
    let taken = stolen(victim, steal_runnext_g);
    if taken.len() == 0 {
        &&& r is None
        &&& thief2.queue() == thief.queue()
        &&& thief2.runqtail == thief.runqtail
        &&& victim2.queue() == victim.queue()
        &&& victim2.runqhead == victim.runqhead
        &&& victim2.runnext == victim.runnext
    } else {
        &&& r == Some(taken.last())
        &&& thief2.queue() == thief.queue() + taken.drop_last()
        &&& thief2.runqtail == ring_add(thief.runqtail, taken.len() - 1)
        &&& if victim.len() > 0 {
            &&& victim.queue() == taken + victim2.queue()
            &&& victim2.runqhead == ring_add(
                victim.runqhead,
                taken.len() as int,
            )
            &&& victim2.runnext == victim.runnext
        } else {
            &&& victim2.queue() == victim.queue()
            &&& victim2.runqhead == victim.runqhead
            &&& victim2.runnext == 0
        }
    }
}

/// How much of a queue of that length a thief takes.
pub open spec fn grab_count(len: int) -> int {
    len - len / 2
}

/// What a thief takes from a processor.
pub open spec fn stolen(p: P, steal_runnext_g: bool) -> Seq<usize> {
    if p.len() > 0 {
        p.queue().subrange(0, grab_count(p.len()))
    } else if steal_runnext_g && p.runnext != 0 {
        seq![p.runnext]
    } else {
        Seq::empty()
    }
}

/// A queue with work never gives nothing to a thief, and never gives more than
/// half, rounded up.
pub proof fn law_steal_takes_half(p: P, steal_runnext_g: bool)
    requires
        p.wf(),
    ensures
        p.len() > 0 ==> stolen(p, steal_runnext_g).len() > 0 && stolen(p, steal_runnext_g).len()
            == (p.len() + 1) / 2,
{
}

/// Stealing loses nobody and runs nobody twice: the two queues and the
/// goroutine that the thief runs are, together, the two queues before.
pub proof fn law_steal_loses_nobody(
    victim: Seq<usize>,
    thief: Seq<usize>,
    taken: Seq<usize>,
    rest: Seq<usize>,
)
    requires
        victim == taken + rest,
        taken.len() > 0,
    ensures
        (thief + taken.drop_last()).to_multiset().insert(taken.last()).add(rest.to_multiset())
            == thief.to_multiset().add(victim.to_multiset()),
{
    broadcast use vstd::seq_lib::group_to_multiset_ensures;

    let front = taken.drop_last();
    vstd::seq_lib::lemma_multiset_commutative(thief, front);
    vstd::seq_lib::lemma_multiset_commutative(taken, rest);
    assert(taken =~= front.push(taken.last()));
    assert(taken.to_multiset() =~= front.to_multiset().insert(taken.last()));
    assert((thief + front).to_multiset().insert(taken.last()).add(rest.to_multiset())
        =~= thief.to_multiset().add(victim.to_multiset()));
}

/// A batch that a thief has read stays what it would take while the owner only
/// puts: when the queue has grown at its tail, its first goroutines are still
/// those of the batch.
pub proof fn law_grab_survives_puts(before: P, after: P, put: Seq<usize>)
    requires
        before.wf(),
        after.wf(),
        after.queue() == before.queue() + put,
    ensures
        after.queue().subrange(0, grab_count(before.len())) == before.queue().subrange(
            0,
            grab_count(before.len()),
        ),
        grab_count(before.len()) <= after.len(),
{
    assert(after.queue().len() == after.len());
    assert(after.queue().subrange(0, grab_count(before.len())) =~= before.queue().subrange(
        0,
        grab_count(before.len()),
    ));
}

/// A batch is committed at most once: after a commit the head is no longer the
/// one that other thieves have seen.
pub proof fn law_batch_commits_once(h: u32, n: int)
    requires
        0 < n <= LOCAL_RUNQ_SIZE,
    ensures
        ring_add(h, n) != h,
{
}

/// Spilling a full queue loses nobody: the batch without its last, followed by
/// what stays, is the queue as it was.
pub proof fn law_spill_loses_nobody(q: Seq<usize>, g: usize)
    requires
        q.len() == LOCAL_RUNQ_SIZE,
    ensures
        q.subrange(0, 128).push(g).drop_last() + q.subrange(128, 256) == q,
{
    assert(q.subrange(0, 128).push(g).drop_last() + q.subrange(128, 256) =~= q);
}

/// Queueing at the tail and taking from the head keeps the order: what is
/// queued behind others comes out behind them.
pub proof fn law_queue_is_first_in_first_out(q: Seq<usize>, g: usize)
    requires
        q.len() > 0,
    ensures
        q.push(g)[0] == q[0],
        q.push(g).subrange(1, q.len() as int + 1) == q.subrange(1, q.len() as int).push(g),
{
    assert(q.push(g).subrange(1, q.len() as int + 1) =~= q.subrange(1, q.len() as int).push(g));
}

// ---- the cache of spans ----

/// What an allocation from the cache needs next.
#[derive(Clone, Copy, Debug, PartialEq, Eq, Structural)]
pub enum McacheStep {
    /// Nothing fits, or there is no memory.
    Null,
    /// Allocate a slot in this span; answer with `mcache_alloced`.
    AllocIn(u16),
    /// Allocate a slot in this span; what comes back is the result.
    AllocLast(u16),
    /// Give the span back, if there is one, and fetch a fresh one for the
    /// class; answer with `mcache_cached`.
    Refill { full: u16, class: usize },
    /// The address that was allocated.
    Done(usize),
}

/// How an allocation in a size class starts.
pub open spec fn cache_step(cache: Seq<u16>, class: Option<usize>) -> McacheStep {
    match class {
        Some(c) if c >= 1 => if cache[c as int] != NIL_SPAN {
            McacheStep::AllocIn(cache[c as int])
        } else {
            McacheStep::Refill { full: NIL_SPAN, class: c }
        },
        _ => McacheStep::Null,
    }
}

/// `q` and `r` follow the answer of a cached span.
pub open spec fn allocated(p: P, q: P, class: usize, addr: usize, r: McacheStep) -> bool {
    if addr != 0 {
        r == McacheStep::Done(addr) && q == p
    } else {
        &&& r == (McacheStep::Refill { full: p.mcache@[class as int], class })
        &&& q.mcache@ == p.mcache@.update(class as int, NIL_SPAN)
        &&& q.same_but_cache(p)
    }
}

/// `q` and `r` follow from fetching a fresh span.
pub open spec fn refilled(p: P, q: P, class: usize, span: u16, r: McacheStep) -> bool {
    if span == NIL_SPAN {
        r == McacheStep::Null && q == p
    } else {
        &&& r == McacheStep::AllocLast(span)
        &&& q.same_but_cache(p)
        &&& q.mcache@ == p.mcache@.update(class as int, span)
    }
}

impl P {
    /// Starts an allocation in a size class.
    pub fn mcache_alloc(&self, class: Option<usize>) -> (r: McacheStep)
        requires
            self.mcache@.len() == NUM_SIZE_CLASSES,
            class matches Some(c) ==> c < NUM_SIZE_CLASSES,
        ensures
            r == cache_step(self.mcache@, class),
    {
        match class {
            Some(c) => {
                if c < 1 {
                    return McacheStep::Null;
                }
                let idx: u16 = self.mcache[c];
                if idx != NIL_SPAN {
                    McacheStep::AllocIn(idx)
                } else {
                    McacheStep::Refill { full: NIL_SPAN, class: c }
                }
            },
            None => McacheStep::Null,
        }
    }

    /// Takes the answer of a cached span: a full one leaves the cache.
    pub fn mcache_alloced(&mut self, class: usize, addr: usize) -> (r: McacheStep)
        requires
            old(self).mcache@.len() == NUM_SIZE_CLASSES,
            class < NUM_SIZE_CLASSES,
        ensures
            allocated(*old(self), *final(self), class, addr, r),
    {
        if addr != 0 {
            return McacheStep::Done(addr);
        }
        let full: u16 = self.mcache[class];
        self.mcache.set(class, NIL_SPAN);
        McacheStep::Refill { full, class }
    }

    /// Takes a fresh span into the cache.
    pub fn mcache_cached(&mut self, class: usize, span: u16) -> (r: McacheStep)
        requires
            old(self).mcache@.len() == NUM_SIZE_CLASSES,
            class < NUM_SIZE_CLASSES,
        ensures
            refilled(*old(self), *final(self), class, span, r),
    {
        if span == NIL_SPAN {
            return McacheStep::Null;
        }
        self.mcache.set(class, span);
        McacheStep::AllocLast(span)
    }

    /// Empties the cache and returns the spans that it held, by class.
    pub fn mcache_flush(&mut self) -> (spans: Vec<u16>)
        requires
            old(self).mcache@.len() == NUM_SIZE_CLASSES,
        ensures
            spans@ == cached_spans(old(self).mcache@, NUM_SIZE_CLASSES as nat),
            final(self).mcache@.len() == NUM_SIZE_CLASSES,
            forall|c: int|
                1 <= c < NUM_SIZE_CLASSES ==> #[trigger] final(self).mcache@[c] == NIL_SPAN,
            final(self).mcache@[0] == old(self).mcache@[0],
            final(self).same_but_cache(*old(self)),
    {
        let mut spans: Vec<u16> = Vec::new();
        let mut class: usize = 1;
        let ghost start = self.mcache@;
        assert(spans@ =~= cached_spans(start, 1)) by {
            reveal_with_fuel(cached_spans, 2);
        }
        while class < NUM_SIZE_CLASSES
            invariant
                1 <= class <= NUM_SIZE_CLASSES,
                start == old(self).mcache@,
                start.len() == NUM_SIZE_CLASSES,
                self.mcache@.len() == NUM_SIZE_CLASSES,
                spans@ == cached_spans(start, class as nat),
                forall|c: int| 1 <= c < class ==> #[trigger] self.mcache@[c] == NIL_SPAN,
                forall|c: int| class <= c < NUM_SIZE_CLASSES ==> #[trigger] self.mcache@[c]
                    == start[c],
                self.mcache@[0] == start[0],
                self.same_but_cache(*old(self)),
            decreases NUM_SIZE_CLASSES - class,
        {
            let idx: u16 = self.mcache[class];
            assert(idx == start[class as int]);
            if idx != NIL_SPAN {
                self.mcache.set(class, NIL_SPAN);
                spans.push(idx);
            }
            class = class + 1;
        }
        spans
    }
}

/// The spans cached for the classes below `n`, class zero aside.
pub open spec fn cached_spans(cache: Seq<u16>, n: nat) -> Seq<u16>
    decreases n,
{
    if n <= 1 {
        Seq::empty()
    } else if cache[n - 1] != NIL_SPAN {
        cached_spans(cache, (n - 1) as nat).push(cache[n - 1])
    } else {
        cached_spans(cache, (n - 1) as nat)
    }
}

impl P {
    /// The thread that the processor is bound to.
    pub fn bound_m(&self) -> (r: Option<u32>)
        ensures
            r == self.m,
    {
        self.m
    }
}

// ---- all processors ----

pub struct AllPs {
    pub ps: Vec<P>,
    pub steal_order: RandomOrder,
}

impl AllPs {
    pub open spec fn wf(&self) -> bool {
        &&& self.ps@.len() <= MAX_PS
        &&& forall|i: int|
            0 <= i < self.ps@.len() ==> (#[trigger] self.ps@[i]).wf() && self.ps@[i].id == i
        &&& self.steal_order.wf()
        &&& self.steal_order.count == self.ps@.len()
    }

    pub fn new() -> (r: Self)
        ensures
            r.wf(),
            r.ps@.len() == 0,
    {
        AllPs { ps: Vec::new(), steal_order: RandomOrder::new() }
    }
}

/// Makes the processors, at most the limit. Once there are some, nothing more
/// happens.
pub fn bootstrap_ps(all: &mut AllPs, n: usize)
    requires
        old(all).wf(),
    ensures
        final(all).wf(),
        if old(all).ps@.len() > 0 {
            *final(all) == *old(all)
        } else {
            &&& final(all).ps@.len() == (if n <= MAX_PS {
                n as int
            } else {
                MAX_PS as int
            })
            &&& forall|i: int|
                0 <= i < final(all).ps@.len() ==> (#[trigger] final(all).ps@[i]).status == P_IDLE
                    && final(all).ps@[i].queue().len() == 0 && final(all).ps@[i].runnext == 0
                    && final(all).ps@[i].m is None && no_spans(final(all).ps@[i].mcache@)
                    && final(all).ps@[i].runqhead == 0 && final(all).ps@[i].runqtail == 0
        },
{
    if all.ps.len() > 0 {
        return;
    }
    let count: usize = if n <= MAX_PS {
        n
    } else {
        MAX_PS
    };
    let mut i: usize = 0;
    while i < count
        invariant
            i <= count <= MAX_PS,
            all.ps@.len() == i,
            forall|k: int|
                0 <= k < i ==> (#[trigger] all.ps@[k]).wf() && all.ps@[k].id == k
                    && all.ps@[k].status == P_IDLE && all.ps@[k].queue().len() == 0
                    && all.ps@[k].runnext == 0 && all.ps@[k].m is None && no_spans(
                    all.ps@[k].mcache@,
                ) && all.ps@[k].runqhead == 0 && all.ps@[k].runqtail == 0,
        decreases count - i,
    {
        all.ps.push(P::new(i as u32));
        i = i + 1;
    }
    all.steal_order.reset(count as u32);
}

pub fn num_ps(all: &AllPs) -> (r: usize)
    ensures
        r == all.ps@.len(),
{
    all.ps.len()
}

/// The processor of that number.
pub fn p_at(all: &AllPs, i: usize) -> (r: Option<&P>)
    ensures
        match r {
            Some(p) => i < all.ps@.len() && *p == all.ps@[i as int],
            None => i >= all.ps@.len(),
        },
{
    if i >= all.ps.len() {
        return None;
    }
    Some(&all.ps[i])
}

/// The numbers of all processors, in the order in which they are visited.
pub fn for_each_p(all: &AllPs) -> (ids: Vec<u32>)
    requires
        all.wf(),
    ensures
        ids@ == Seq::new(all.ps@.len(), |i: int| all.ps@[i].id),
{
    let mut ids: Vec<u32> = Vec::new();
    let mut i: usize = 0;
    while i < all.ps.len()
        invariant
            i <= all.ps@.len(),
            ids@ == Seq::new(i as nat, |k: int| all.ps@[k].id),
        decreases all.ps@.len() - i,
    {
        ids.push(all.ps[i].id);
        i = i + 1;
        assert(ids@ =~= Seq::new(i as nat, |k: int| all.ps@[k].id));
    }
    ids
}

/// `t` and `q` follow from giving the processor `p` to the thread of `s`.
pub open spec fn acquires(tls: Tls, s: MStorage, t: MStorage, p: P, q: P) -> bool {
    if tls.ready {
        &&& q == (P { status: P_RUNNING, m: Some(s.m.id), ..p })
        &&& t == (MStorage { current_p: Some(p.id), ..s })
    } else {
        q == p && t == s
    }
}

/// Gives an idle processor to a thread. Before threads have their own storage
/// nothing happens.
pub fn acquirep(tls: &Tls, storage: &mut MStorage, p: &mut P)
    requires
        tls.ready ==> old(p).status == P_IDLE,
    ensures
        acquires(*tls, *old(storage), *final(storage), *old(p), *final(p)),
{
    if !is_tls_ready(tls) {
        return;
    }
    p.status = P_RUNNING;
    p.m = Some(storage.m.id);
    storage.current_p = Some(p.id);
}

/// `t`, `after` and `r` follow from taking its processor from the thread of `s`.
pub open spec fn releases(
    tls: Tls,
    s: MStorage,
    t: MStorage,
    all: AllPs,
    after: AllPs,
    r: (Option<u32>, Vec<u16>),
) -> bool {
    if !tls.ready {
        &&& r.0 is None && r.1@.len() == 0
        &&& t == s && after == all
    } else {
        &&& r.0 == s.current_p
        &&& t == (MStorage { current_p: None, ..s })
        &&& match s.current_p {
            None => after.ps@ == all.ps@ && r.1@.len() == 0,
            Some(id) => {
                let p0 = all.ps@[id as int];
                let p1 = after.ps@[id as int];
                &&& p1.status == P_IDLE && p1.m is None && p1.id == p0.id
                &&& forall|c: int|
                    1 <= c < NUM_SIZE_CLASSES ==> #[trigger] p1.mcache@[c] == NIL_SPAN
                &&& p1.queue() == p0.queue() && p1.runnext == p0.runnext
                &&& p1.runqhead == p0.runqhead && p1.runqtail == p0.runqtail
                &&& r.1@ == cached_spans(p0.mcache@, NUM_SIZE_CLASSES as nat)
                &&& forall|i: int|
                    0 <= i < all.ps@.len() && i != id ==> #[trigger] after.ps@[i]
                        == all.ps@[i]
            },
        }
    }
}

/// Takes its processor from a thread: the processor is idle again, and the
/// spans that it had cached go back.
pub fn releasep(tls: &Tls, storage: &mut MStorage, all: &mut AllPs) -> (r: (
    Option<u32>,
    Vec<u16>,
))
    requires
        old(all).wf(),
        old(storage).current_p matches Some(id) ==> id < old(all).ps@.len(),
    ensures
        final(all).wf(),
        final(all).ps@.len() == old(all).ps@.len(),
        final(all).steal_order == old(all).steal_order,
        releases(*tls, *old(storage), *final(storage), *old(all), *final(all), r),
{
    let none: Vec<u16> = Vec::new();
    if !is_tls_ready(tls) {
        return (None, none);
    }
    match storage.current_p {
        None => (None, none),
        Some(id) => {
            storage.current_p = None;
            let i: usize = id as usize;
            let ghost p0 = all.ps@[id as int];
            let spans = all.ps[i].mcache_flush();
            all.ps[i].m = None;
            all.ps[i].status = P_IDLE;
            proof {
                let p1 = all.ps@[id as int];
                assert(p1.queue() =~= p0.queue());
            }
            (Some(id), spans)
        },
    }
}

/// The processor of a thread.
pub fn current_p(tls: &Tls, storage: &MStorage) -> (r: Option<u32>)
    ensures
        r == (if tls.ready {
            storage.current_p
        } else {
            None
        }),
{
    if !is_tls_ready(tls) {
        return None;
    }
    storage.current_p
}

// ---- laws ----

/// The goroutines of a processor, in the order in which it will run them.
pub open spec fn schedule(p: P) -> Seq<usize> {
    if p.runnext != 0 {
        seq![p.runnext] + p.queue()
    } else {
        p.queue()
    }
}

/// A goroutine that is put as the next one runs before all others, and they
/// keep their order but for the one that was next, which goes to the end. One
/// that is put at the tail runs after all others.
pub proof fn law_put_takes_its_place(p: P, q: P, gp: usize, next: bool, spilled: Option<Vec<usize>>)
    requires
        p.wf(),
        q.wf(),
        gp != 0,
        puts(p, q, gp, next, spilled),
        p.queue().len() < 256,
    ensures
        spilled is None,
        !next ==> schedule(q) == schedule(p).push(gp),
        next && p.runnext == 0 ==> schedule(q) == seq![gp] + schedule(p),
        next && p.runnext != 0 ==> schedule(q) == seq![gp] + p.queue().push(p.runnext),
{
    assert(p.queue().len() == p.len());
    if !next {
        assert(schedule(q) =~= schedule(p).push(gp));
    }
}

/// The goroutine to run is the first of the order, and the others follow.
pub proof fn law_get_takes_the_first(p: P, q: P, r: Option<usize>)
    requires
        p.wf(),
        q.wf(),
        gets(p, q, r),
    ensures
        r is None <==> schedule(p).len() == 0,
        r matches Some(g) ==> schedule(p) == seq![g] + schedule(q),
        r is None ==> schedule(q).len() == 0,
{
    assert(p.queue().len() == p.len());
    if let Some(g) = r {
        assert(schedule(p) =~= seq![g] + schedule(q));
    }
}

/// A put loses nobody, whether or not the queue was full: what was there and
/// the new goroutine are in the order and the spilled batch, once each. A full
/// queue spills its first half.
pub proof fn law_put_loses_nobody(p: P, q: P, gp: usize, next: bool, spilled: Option<Vec<usize>>)
    requires
        p.wf(),
        q.wf(),
        gp != 0,
        puts(p, q, gp, next, spilled),
    ensures
        schedule(q).to_multiset().add(match spilled {
            Some(b) => b@.to_multiset(),
            None => Seq::<usize>::empty().to_multiset(),
        }) == schedule(p).to_multiset().insert(gp),
        spilled matches Some(b) ==> b@.len() == 129 && q.queue().len() == 128 && p.queue() == b@.drop_last()
            + q.queue(),
        next ==> q.runnext == gp,
        spilled is Some <==> p.queue().len() == 256 && (!next || p.runnext != 0),
{
    broadcast use vstd::seq_lib::group_to_multiset_ensures;

    assert(p.queue().len() == p.len());
    let none = Seq::<usize>::empty();
    let pq = p.queue();
    let qq = q.queue();
    lemma_schedule(p);
    lemma_schedule(q);
    match spilled {
        None => {
            assert(none.to_multiset() =~= vstd::multiset::Multiset::empty());
            assert(schedule(q).to_multiset().add(none.to_multiset()) =~= schedule(
                p,
            ).to_multiset().insert(gp));
        },
        Some(b) => {
            assert(b@.drop_last() =~= pq.subrange(0, 128));
            assert(pq =~= b@.drop_last() + qq);
            vstd::seq_lib::lemma_multiset_commutative(b@.drop_last(), qq);
            assert(b@ =~= b@.drop_last().push(b@.last()));
            assert(b@.to_multiset() =~= b@.drop_last().to_multiset().insert(b@.last()));
            assert(schedule(q).to_multiset().add(b@.to_multiset()) =~= schedule(
                p,
            ).to_multiset().insert(gp));
        },
    }
}

proof fn lemma_schedule(p: P)
    ensures
        p.runnext != 0 ==> schedule(p).to_multiset() == p.queue().to_multiset().insert(p.runnext),
{
    broadcast use vstd::seq_lib::group_to_multiset_ensures;

    if p.runnext != 0 {
        assert(schedule(p) =~= p.queue().insert(0, p.runnext));
    }
}

/// A theft moves the first half of the victim's queue, rounded up, to the thief
/// in its order, but for the last goroutine, which the thief runs at once; the
/// rest stays where it was. From an empty queue the next goroutine is taken,
/// if that is allowed.
pub proof fn law_theft_moves_the_first_half(
    thief: P,
    victim: P,
    thief2: P,
    victim2: P,
    steal_runnext_g: bool,
    r: Option<usize>,
)
    requires
        thief.wf(),
        victim.wf(),
        victim2.wf(),
        thief2.wf(),
        steals(thief, victim, thief2, victim2, steal_runnext_g, r),
    ensures
        victim.queue().len() > 0 ==> {
            let n = (victim.queue().len() + 1) / 2;
            &&& r == Some(victim.queue()[n - 1])
            &&& thief2.queue() == thief.queue() + victim.queue().subrange(0, n - 1)
            &&& victim2.queue() == victim.queue().subrange(n as int, victim.queue().len() as int)
            &&& victim2.runnext == victim.runnext
        },
        victim.queue().len() == 0 ==> thief2.queue() == thief.queue() && victim2.queue().len() == 0,
        victim.queue().len() == 0 && steal_runnext_g && victim.runnext != 0 ==> r == Some(victim.runnext)
            && victim2.runnext == 0,
        victim.queue().len() == 0 && !(steal_runnext_g && victim.runnext != 0) ==> r is None
            && victim2.runnext == victim.runnext,
{
    let v = victim.queue();
    assert(v.len() == victim.len());
    let taken = stolen(victim, steal_runnext_g);
    if v.len() > 0 {
        let n = ((v.len() + 1) / 2) as int;
        assert(taken.len() == n);
        assert(taken.drop_last() =~= v.subrange(0, n - 1));
        assert((taken + victim2.queue()).subrange(n, v.len() as int) =~= victim2.queue());
    } else if taken.len() > 0 {
        assert(taken.drop_last() =~= Seq::empty());
        assert(thief.queue() + taken.drop_last() =~= thief.queue());
    }
}

/// The queue is what stands in the ring from the head on, and a turn of the
/// ring's counters keeps its length.
pub proof fn law_ring_positions(head: u32, n: int, m: int)
    requires
        0 <= n <= 256,
        0 <= m <= 256,
    ensures
        ring_len(head, ring_add(head, n)) == n,
        ring_add(ring_add(head, n), m) == ring_add(head, n + m),
        (ring_add(head, n) - head - n) % 0x1_0000_0000 == 0,
        m <= n ==> ring_len(ring_add(head, m), ring_add(head, n)) == n - m,
{
}

/// The spans of a cache are those of the classes from 1 on that have one, in
/// the order of the classes.
pub proof fn law_cached_spans(cache: Seq<u16>, n: nat)
    requires
        1 <= n <= cache.len(),
    ensures
        cached_spans(cache, n) == cache.subrange(1, n as int).filter(|x: u16| x != 0),
    decreases n,
{
    reveal(Seq::filter);
    if n > 1 {
        law_cached_spans(cache, (n - 1) as nat);
        assert(cache.subrange(1, n as int).drop_last() =~= cache.subrange(1, n - 1));
    } else {
        assert(cache.subrange(1, 1).filter(|x: u16| x != 0) =~= Seq::empty());
    }
}

/// Work on the queue leaves the processor's number, its status, its thread and
/// its cache alone; work on the cache leaves everything else.
pub proof fn law_the_rest_stays(p: P, q: P)
    ensures
        q.same_but_queue(p) ==> q.id == p.id && q.status == p.status && q.m == p.m && q.mcache
            == p.mcache,
        q.same_but_cache(p) && q.mcache == p.mcache ==> q == p,
        no_spans(p.mcache@) ==> p.mcache@.len() == 68 && cached_spans(p.mcache@, 68).len() == 0,
{
    if no_spans(p.mcache@) {
        lemma_nothing_cached(p.mcache@, 68);
    }
}

proof fn lemma_nothing_cached(cache: Seq<u16>, n: nat)
    requires
        n <= cache.len(),
        forall|c: int| 0 <= c < cache.len() ==> #[trigger] cache[c] == 0,
    ensures
        cached_spans(cache, n).len() == 0,
    decreases n,
{
    if n > 1 {
        lemma_nothing_cached(cache, (n - 1) as nat);
    }
}

/// An allocation uses the cached span of its class. A full one leaves the cache
/// and is given back, and the fresh span takes its place and is the one that is
/// used next time; other classes keep theirs.
pub proof fn law_full_span_is_replaced(
    p: P,
    q: P,
    u: P,
    class: usize,
    other: usize,
    span: u16,
    r1: McacheStep,
    r2: McacheStep,
)
    requires
        p.mcache@.len() == 68,
        1 <= class < 68,
        other < 68,
        other != class,
        p.mcache@[class as int] != 0,
        span != 0,
        allocated(p, q, class, 0, r1),
        refilled(q, u, class, span, r2),
    ensures
        cache_step(p.mcache@, Some(class)) == McacheStep::AllocIn(p.mcache@[class as int]),
        r1 == (McacheStep::Refill { full: p.mcache@[class as int], class }),
        cache_step(q.mcache@, Some(class)) == (McacheStep::Refill { full: 0, class }),
        r2 == McacheStep::AllocLast(span),
        cache_step(u.mcache@, Some(class)) == McacheStep::AllocIn(span),
        u.mcache@[other as int] == p.mcache@[other as int],
{
}

/// An address that was allocated is the result; what fits no class, or finds no
/// memory, has none. Neither changes the cache.
pub proof fn law_allocation_ends(p: P, q: P, class: usize, addr: usize, r: McacheStep)
    ensures
        addr != 0 && allocated(p, q, class, addr, r) ==> r == McacheStep::Done(addr) && q == p,
        refilled(p, q, class, 0, r) ==> r == McacheStep::Null && q == p,
        cache_step(p.mcache@, None) == McacheStep::Null,
        cache_step(p.mcache@, Some(0)) == McacheStep::Null,
{
}

/// A processor that a thread got and gave back is idle and without a thread
/// again, with the work that it had; the cached spans are returned.
pub proof fn law_processor_is_given_back(
    tls: Tls,
    s: MStorage,
    t: MStorage,
    u: MStorage,
    p: P,
    all: AllPs,
    after: AllPs,
    r: (Option<u32>, Vec<u16>),
    other: int,
)
    requires
        tls.ready,
        p.id < all.ps@.len(),
        acquires(tls, s, t, p, all.ps@[p.id as int]),
        releases(tls, t, u, all, after, r),
    ensures
        all.ps@[p.id as int].status == 1 && all.ps@[p.id as int].m == Some(s.m.id),
        t.current_p == Some(p.id),
        r.0 == Some(p.id),
        u.current_p is None,
        after.ps@[p.id as int].status == 0 && after.ps@[p.id as int].m is None,
        after.ps@[p.id as int].runnext == p.runnext,
        after.ps@[p.id as int].queue() == p.queue(),
        0 <= other < all.ps@.len() && other != p.id ==> after.ps@[other] == all.ps@[other],
        p.mcache@.len() == 68 ==> r.1@ == p.mcache@.subrange(1, 68).filter(|x: u16| x != 0),
{
    let q = all.ps@[p.id as int];
    assert(q.queue() =~= p.queue());
    if p.mcache@.len() == 68 {
        law_cached_spans(p.mcache@, 68);
    }
}

} // verus!
