//! The monitor: timers, goroutines that run for too long, and how long to
//! sleep in between.

use vstd::prelude::*;

use crate::m::MStorage;
use crate::netpoll::{Batch, Netpoll, PollOut};
use crate::signal::{Delivery, Signals};
use crate::{m, netpoll, signal};

verus! {

/// Nanoseconds from the clock's seconds and nanoseconds, modulo the word.
pub fn monotonic_ns(sec: i64, nsec: i64) -> (r: i64)
    ensures
        r == sec.wrapping_mul(1_000_000_000).wrapping_add(nsec),
        i64::MIN <= sec * 1_000_000_000 <= i64::MAX && i64::MIN <= sec * 1_000_000_000 + nsec
            <= i64::MAX ==> r == sec * 1_000_000_000 + nsec,
{
    sec.wrapping_mul(1_000_000_000).wrapping_add(nsec)
}

// ---- timers that can be cancelled ----

pub const TIMER_ARMED: u8 = 0;

pub const TIMER_FIRED: u8 = 1;

pub const TIMER_CANCELLED: u8 = 2;

/// The state of a sleep that can be cancelled, and the goroutine that sleeps.
#[derive(Clone, Copy, Debug, PartialEq, Eq, Structural)]
pub struct TimerToken {
    pub state: u8,
    pub g: Option<usize>,
}

impl TimerToken {
    pub fn new() -> (r: Self)
        ensures
            r == (TimerToken { state: TIMER_ARMED, g: None }),
    {
        TimerToken { state: TIMER_ARMED, g: None }
    }

    /// Arms the token for another sleep.
    pub fn rearm(&mut self)
        ensures
            *final(self) == (TimerToken { state: TIMER_ARMED, g: None }),
    {
        self.g = None;
        self.state = TIMER_ARMED;
    }

    /// Moves an armed token to another state and says whether it was armed.
    pub fn settle(&mut self, to: u8) -> (won: bool)
        ensures
            won == (old(self).state == TIMER_ARMED),
            *final(self) == settled(*old(self), to),
    {
        if self.state == TIMER_ARMED {
            self.state = to;
            true
        } else {
            false
        }
    }
}

/// A token after an attempt to move it out of the armed state.
pub open spec fn settled(t: TimerToken, to: u8) -> TimerToken {
    if t.state == TIMER_ARMED {
        TimerToken { state: to, ..t }
    } else {
        t
    }
}

/// Of firing and cancelling, whichever comes first wins, and the other then
/// changes nothing.
pub proof fn law_timer_settles_once(t: TimerToken, first: u8, second: u8)
    requires
        first == TIMER_FIRED || first == TIMER_CANCELLED,
        t.state == TIMER_ARMED,
    ensures
        settled(settled(t, first), second) == settled(t, first),
        settled(t, first).state == first,
{
}

/// A sleeping goroutine; `cancel` is the number of its token.
#[derive(Clone, Copy, Debug, PartialEq, Eq, Structural)]
pub struct TimerEntry {
    pub deadline_ns: i64,
    pub g: usize,
    pub cancel: Option<usize>,
}

/// The sleepers and what wakes the monitor.
pub struct Timers {
    /// The latest deadline first, the earliest last; of equal deadlines the
    /// one that came first is behind.
    pub heap: Vec<TimerEntry>,
    pub tokens: Vec<TimerToken>,
    /// Counts what the monitor is to wake up for.
    pub park: u32,
    pub scan_ticks: u64,
    pub force_preempts: u64,
}

pub open spec fn sorted(heap: Seq<TimerEntry>) -> bool {
    forall|i: int, j: int|
        0 <= i < j < heap.len() ==> (#[trigger] heap[i]).deadline_ns >= (
        #[trigger] heap[j]).deadline_ns
}

impl Timers {
    pub open spec fn wf(&self) -> bool {
        &&& sorted(self.heap@)
        &&& forall|i: int|
            0 <= i < self.heap@.len() ==> match (#[trigger] self.heap@[i]).cancel {
                Some(t) => t < self.tokens@.len(),
                None => true,
            }
    }

    /// The earliest deadline.
    pub open spec fn next_deadline(&self) -> Option<i64> {
        earliest(self.heap@)
    }

    pub fn new() -> (r: Self)
        ensures
            r.wf(),
            r.heap@.len() == 0,
            r.tokens@.len() == 0,
            r.park == 0 && r.scan_ticks == 0 && r.force_preempts == 0,
    {
        Timers {
            heap: Vec::new(),
            tokens: Vec::new(),
            park: 0,
            scan_ticks: 0,
            force_preempts: 0,
        }
    }

    /// Makes a token and returns its number.
    pub fn new_token(&mut self) -> (t: usize)
        requires
            old(self).wf(),
        ensures
            final(self).wf(),
            t == old(self).tokens@.len(),
            final(self).tokens@ == old(self).tokens@.push(
                TimerToken { state: TIMER_ARMED, g: None },
            ),
            final(self).heap == old(self).heap,
            final(self).park == old(self).park,
            final(self).scan_ticks == old(self).scan_ticks,
            final(self).force_preempts == old(self).force_preempts,
    {
        let t: usize = self.tokens.len();
        self.tokens.push(TimerToken::new());
        t
    }

    fn top(&self) -> (r: Option<i64>)
        ensures
            r == self.next_deadline(),
    {
        let n: usize = self.heap.len();
        if n == 0 {
            None
        } else {
            Some(self.heap[n - 1].deadline_ns)
        }
    }
}

pub open spec fn earliest(heap: Seq<TimerEntry>) -> Option<i64> {
    if heap.len() == 0 {
        None
    } else {
        Some(heap.last().deadline_ns)
    }
}

/// Position of a new deadline from `i` on: before the first that is not later.
pub open spec fn place(heap: Seq<TimerEntry>, deadline: i64, i: int) -> int
    decreases heap.len() - i,
{
    if i < 0 || i >= heap.len() {
        heap.len() as int
    } else if heap[i].deadline_ns <= deadline {
        i
    } else {
        place(heap, deadline, i + 1)
    }
}

/// The sleepers with one more.
pub open spec fn queued(heap: Seq<TimerEntry>, e: TimerEntry) -> Seq<TimerEntry> {
    heap.insert(place(heap, e.deadline_ns, 0), e)
}

proof fn lemma_place(heap: Seq<TimerEntry>, deadline: i64, i: int)
    requires
        0 <= i <= heap.len(),
    ensures
        i <= place(heap, deadline, i) <= heap.len(),
        forall|k: int|
            i <= k < place(heap, deadline, i) ==> (#[trigger] heap[k]).deadline_ns > deadline,
        place(heap, deadline, i) < heap.len() ==> heap[place(heap, deadline, i)].deadline_ns
            <= deadline,
    decreases heap.len() - i,
{
    if i < heap.len() && heap[i].deadline_ns > deadline {
        lemma_place(heap, deadline, i + 1);
    }
}

/// Adding a sleeper keeps the order, and the new earliest deadline is the
/// earlier one of its own and the earliest before.
pub proof fn law_queueing_keeps_order(heap: Seq<TimerEntry>, e: TimerEntry)
    requires
        sorted(heap),
    ensures
        sorted(queued(heap, e)),
        queued(heap, e).len() == heap.len() + 1,
        earliest(queued(heap, e)) == Some(
            match earliest(heap) {
                Some(d) if d <= e.deadline_ns => d,
                _ => e.deadline_ns,
            },
        ),
{
    lemma_place(heap, e.deadline_ns, 0);
    let p = place(heap, e.deadline_ns, 0);
    let q = queued(heap, e);
    assert forall|i: int, j: int| 0 <= i < j < q.len() implies (#[trigger] q[i]).deadline_ns >= (
    #[trigger] q[j]).deadline_ns by {
        if i < p && j > p {
            assert(q[i] == heap[i] && q[j] == heap[j - 1]);
        } else if i < p && j < p {
            assert(q[i] == heap[i] && q[j] == heap[j]);
        } else if i < p {
            assert(q[i] == heap[i]);
        } else if i == p {
            assert(q[j] == heap[j - 1]);
            if j - 1 > p {
                assert(heap[p].deadline_ns >= heap[j - 1].deadline_ns);
            }
        } else {
            assert(q[i] == heap[i - 1] && q[j] == heap[j - 1]);
        }
    }
    if p == heap.len() {
        assert(q.last() == e);
        if heap.len() > 0 {
            assert(heap.last().deadline_ns > e.deadline_ns);
        }
    } else {
        assert(q.last() == heap.last());
        if p < heap.len() - 1 {
            assert(heap[p].deadline_ns >= heap.last().deadline_ns);
        }
    }
}

/// Wakes the monitor: its next sleep ends at once. A wake-up of its futex has
/// to follow.
pub fn wake(t: &mut Timers)
    ensures
        *final(t) == (Timers { park: old(t).park.wrapping_add(1), ..*old(t) }),
{
    t.park = t.park.wrapping_add(1);
}

/// A wake-up is noticed: the count is no longer the one that the monitor had
/// seen before it.
pub proof fn law_wake_is_noticed(sample: u32)
    ensures
        sample.wrapping_add(1) != sample,
{
}

/// Whether the monitor has to be woken for a deadline: it is the earliest.
pub open spec fn needs_wake(heap: Seq<TimerEntry>, deadline: i64) -> bool {
    match earliest(heap) {
        Some(d) => deadline < d,
        None => true,
    }
}

fn enqueue(t: &mut Timers, e: TimerEntry) -> (woken: bool)
    requires
        old(t).wf(),
        e.cancel matches Some(k) ==> k < old(t).tokens@.len(),
    ensures
        final(t).wf(),
        woken == needs_wake(old(t).heap@, e.deadline_ns),
        final(t).heap@ == queued(old(t).heap@, e),
        final(t).tokens == old(t).tokens,
        final(t).park == (if woken {
            old(t).park.wrapping_add(1)
        } else {
            old(t).park
        }),
        final(t).scan_ticks == old(t).scan_ticks,
        final(t).force_preempts == old(t).force_preempts,
{
    let need = match t.top() {
        Some(d) => e.deadline_ns < d,
        None => true,
    };
    let mut i: usize = 0;
    while i < t.heap.len() && t.heap[i].deadline_ns > e.deadline_ns
        invariant
            i <= t.heap@.len(),
            place(t.heap@, e.deadline_ns, 0) == place(t.heap@, e.deadline_ns, i as int),
        decreases t.heap@.len() - i,
    {
        i = i + 1;
    }
    proof {
        law_queueing_keeps_order(t.heap@, e);
    }
    let ghost before = t.heap@;
    t.heap.insert(i, e);
    assert forall|k: int| 0 <= k < t.heap@.len() implies match (#[trigger] t.heap@[k]).cancel {
        Some(x) => x < t.tokens@.len(),
        None => true,
    } by {
        if k < i {
            assert(t.heap@[k] == before[k]);
        } else if k > i {
            assert(t.heap@[k] == before[k - 1]);
        }
    }
    if need {
        wake(t);
    }
    need
}

/// What a goroutine that wants to sleep does.
#[derive(Clone, Copy, Debug, PartialEq, Eq, Structural)]
pub enum Sleep {
    /// Nothing: there is no time to wait, or no goroutine.
    Return,
    /// Park; first wake the monitor's futex, if asked to.
    Park { wake: bool },
}

/// `u` and `r` follow a goroutine's wish to sleep for a time.
pub open spec fn parks(
    t: Timers,
    u: Timers,
    ns: i64,
    now: i64,
    g: Option<usize>,
    r: Sleep,
) -> bool {
    match g {
        Some(gp) if ns > 0 => {
            let e = TimerEntry { deadline_ns: now.wrapping_add(ns), g: gp, cancel: None };
            &&& r == (Sleep::Park { wake: needs_wake(t.heap@, e.deadline_ns) })
            &&& u.heap@ == queued(t.heap@, e)
            &&& u.tokens == t.tokens
            &&& u.park == (if needs_wake(t.heap@, e.deadline_ns) {
                t.park.wrapping_add(1)
            } else {
                t.park
            })
            &&& u.scan_ticks == t.scan_ticks
            &&& u.force_preempts == t.force_preempts
        },
        _ => r == Sleep::Return && u == t,
    }
}

/// Puts the running goroutine to sleep for a time.
pub fn timer_park(t: &mut Timers, ns: i64, now: i64, g: Option<usize>) -> (r: Sleep)
    requires
        old(t).wf(),
    ensures
        final(t).wf(),
        parks(*old(t), *final(t), ns, now, g, r),
{
    if ns <= 0 {
        return Sleep::Return;
    }
    let gp: usize = match g {
        Some(x) => x,
        None => {
            return Sleep::Return;
        },
    };
    let woken = enqueue(t, TimerEntry { deadline_ns: now.wrapping_add(ns), g: gp, cancel: None });
    Sleep::Park { wake: woken }
}

/// What a sleep that can be cancelled does.
#[derive(Clone, Copy, Debug, PartialEq, Eq, Structural)]
pub enum CancellableSleep {
    /// It is over; whether the timer fired.
    Done(bool),
    /// Without a goroutine: sleep that long, and then see whether the timer
    /// fired, with `timer_slept`.
    Block { sec: i64, nsec: i64 },
    /// Park, then see whether the timer fired, with `timer_resumed`; first
    /// wake the monitor's futex, if asked to.
    Park { wake: bool },
}

/// `u` and `r` follow a goroutine's wish to sleep for a time, with a token.
pub open spec fn parks_cancellable(
    t: Timers,
    u: Timers,
    ns: i64,
    now: i64,
    g: Option<usize>,
    tok: usize,
    r: CancellableSleep,
) -> bool {
    let token = t.tokens@[tok as int];
    match g {
        None if ns > 0 => {
            &&& r == (CancellableSleep::Block {
                sec: (ns / 1_000_000_000) as i64,
                nsec: ns % 1_000_000_000,
            })
            &&& u == t
        },
        Some(gp) if ns > 0 => if token.state != TIMER_ARMED {
            &&& r == CancellableSleep::Done(token.state == TIMER_FIRED)
            &&& u == t
        } else {
            let e = TimerEntry {
                deadline_ns: now.wrapping_add(ns),
                g: gp,
                cancel: Some(tok),
            };
            let woken = needs_wake(t.heap@, e.deadline_ns);
            &&& r == (CancellableSleep::Park { wake: woken })
            &&& u.heap@ == queued(t.heap@, e)
            &&& u.tokens@ == t.tokens@.update(
                tok as int,
                TimerToken { g: Some(gp), ..token },
            )
            &&& u.park == (if woken {
                t.park.wrapping_add(1)
            } else {
                t.park
            })
        },
        _ => {
            &&& r == CancellableSleep::Done(token.state == TIMER_ARMED)
            &&& u.tokens@ == t.tokens@.update(
                tok as int,
                settled(token, TIMER_FIRED),
            )
            &&& u.heap == t.heap
            &&& u.park == t.park
        },
    }
}

/// Puts the running goroutine to sleep for a time, unless its token is settled.
pub fn timer_park_cancellable(t: &mut Timers, ns: i64, now: i64, g: Option<usize>, tok: usize) -> (r:
    CancellableSleep)
    requires
        old(t).wf(),
        tok < old(t).tokens@.len(),
    ensures
        final(t).wf(),
        final(t).scan_ticks == old(t).scan_ticks,
        final(t).force_preempts == old(t).force_preempts,
        parks_cancellable(*old(t), *final(t), ns, now, g, tok, r),
{
    let gp: usize = match g {
        Some(x) => x,
        None => {
            if ns > 0 {
                return CancellableSleep::Block {
                    sec: ns / 1_000_000_000,
                    nsec: ns % 1_000_000_000,
                };
            }
            return CancellableSleep::Done(timer_slept(t, tok));
        },
    };
    if ns <= 0 {
        return CancellableSleep::Done(timer_slept(t, tok));
    }
    let mut token = t.tokens[tok];
    if token.state != TIMER_ARMED {
        return CancellableSleep::Done(token.state == TIMER_FIRED);
    }
    token.g = Some(gp);
    t.tokens.set(tok, token);
    let woken = enqueue(
        t,
        TimerEntry { deadline_ns: now.wrapping_add(ns), g: gp, cancel: Some(tok) },
    );
    CancellableSleep::Park { wake: woken }
}

/// Fires a token whose time is over, and says whether it was armed.
pub fn timer_slept(t: &mut Timers, tok: usize) -> (fired: bool)
    requires
        old(t).wf(),
        tok < old(t).tokens@.len(),
    ensures
        final(t).wf(),
        fired == (old(t).tokens@[tok as int].state == TIMER_ARMED),
        final(t).tokens@ == old(t).tokens@.update(
            tok as int,
            settled(old(t).tokens@[tok as int], TIMER_FIRED),
        ),
        final(t).heap == old(t).heap,
        final(t).park == old(t).park,
        final(t).scan_ticks == old(t).scan_ticks,
        final(t).force_preempts == old(t).force_preempts,
{
    let mut token = t.tokens[tok];
    let won = token.settle(TIMER_FIRED);
    t.tokens.set(tok, token);
    won
}

/// Whether the timer of a goroutine that runs again fired.
pub fn timer_resumed(t: &Timers, tok: usize) -> (fired: bool)
    requires
        tok < t.tokens@.len(),
    ensures
        fired == (t.tokens@[tok as int].state == TIMER_FIRED),
{
    t.tokens[tok].state == TIMER_FIRED
}

/// `u` and `r` follow an attempt to cancel a sleep.
pub open spec fn cancels(
    t: Timers,
    u: Timers,
    tok: usize,
    r: (bool, Option<usize>),
) -> bool {
    let token = t.tokens@[tok as int];
    &&& r.0 == (token.state == TIMER_ARMED)
    &&& r.1 == (if token.state == TIMER_ARMED {
        token.g
    } else {
        None
    })
    &&& u.tokens@ == t.tokens@.update(
        tok as int,
        settled(token, TIMER_CANCELLED),
    )
}

/// Cancels a sleep: whether this came before the timer fired or another
/// cancel, and the goroutine to run if it sleeps already.
pub fn timer_cancel(t: &mut Timers, tok: usize) -> (r: (bool, Option<usize>))
    requires
        old(t).wf(),
        tok < old(t).tokens@.len(),
    ensures
        final(t).wf(),
        cancels(*old(t), *final(t), tok, r),
        final(t).heap == old(t).heap,
        final(t).park == old(t).park,
        final(t).scan_ticks == old(t).scan_ticks,
        final(t).force_preempts == old(t).force_preempts,
{
    let mut token = t.tokens[tok];
    let won = token.settle(TIMER_CANCELLED);
    let g = token.g;
    t.tokens.set(tok, token);
    if won {
        (true, g)
    } else {
        (false, None)
    }
}

// ---- expired timers ----

/// The sleepers, the tokens and the goroutines to run after the deadlines up
/// to `now` have expired.
pub open spec fn expire_timers(
    heap: Seq<TimerEntry>,
    tokens: Seq<TimerToken>,
    now: i64,
) -> (Seq<TimerEntry>, Seq<TimerToken>, Seq<usize>)
    decreases heap.len(),
{
    if heap.len() == 0 || heap.last().deadline_ns > now {
        (heap, tokens, Seq::empty())
    } else {
        let e = heap.last();
        let (fires, next_tokens) = match e.cancel {
            None => (true, tokens),
            Some(t) => (
                tokens[t as int].state == TIMER_ARMED,
                tokens.update(t as int, settled(tokens[t as int], TIMER_FIRED)),
            ),
        };
        let (h, ts, ready) = expire_timers(heap.drop_last(), next_tokens, now);
        (h, ts, if fires {
            seq![e.g] + ready
        } else {
            ready
        })
    }
}

/// Ends the sleeps whose deadline has come, the earliest first. A sleep that
/// was cancelled is passed over.
pub fn fire_timers(t: &mut Timers, now: i64) -> (ready: Vec<usize>)
    requires
        old(t).wf(),
    ensures
        final(t).wf(),
        (final(t).heap@, final(t).tokens@, ready@) == expire_timers(
            old(t).heap@,
            old(t).tokens@,
            now,
        ),
        final(t).tokens@.len() == old(t).tokens@.len(),
        final(t).park == old(t).park,
        final(t).scan_ticks == old(t).scan_ticks,
        final(t).force_preempts == old(t).force_preempts,
{
    let mut ready: Vec<usize> = Vec::new();
    let ghost all = expire_timers(old(t).heap@, old(t).tokens@, now);
    assert(ready@ + all.2 =~= all.2);
    while t.heap.len() > 0 && t.heap[t.heap.len() - 1].deadline_ns <= now
        invariant
            t.wf(),
            all == expire_timers(old(t).heap@, old(t).tokens@, now),
            ({
                let rest = expire_timers(t.heap@, t.tokens@, now);
                all == (rest.0, rest.1, ready@ + rest.2)
            }),
            t.tokens@.len() == old(t).tokens@.len(),
            t.park == old(t).park,
            t.scan_ticks == old(t).scan_ticks,
            t.force_preempts == old(t).force_preempts,
        decreases t.heap@.len(),
    {
        let ghost heap = t.heap@;
        let ghost tokens = t.tokens@;
        let ghost before = ready@;
        let n: usize = t.heap.len();
        let e = t.heap[n - 1];
        assert(heap[n - 1] == e);
        let _last = t.heap.pop();
        assert(t.heap@ =~= heap.drop_last());
        match e.cancel {
            None => {
                ready.push(e.g);
            },
            Some(k) => {
                let mut token = t.tokens[k];
                let won = token.settle(TIMER_FIRED);
                t.tokens.set(k, token);
                if won {
                    ready.push(e.g);
                }
            },
        }
        proof {
            let rest = expire_timers(t.heap@, t.tokens@, now);
            let whole = expire_timers(heap, tokens, now);
            assert(before + whole.2 =~= ready@ + rest.2);
        }
    }
    assert(ready@ + Seq::<usize>::empty() =~= ready@);
    ready
}

/// After the timers have fired, no sleeper's deadline is in the past.
pub proof fn law_no_due_sleeper_stays(heap: Seq<TimerEntry>, tokens: Seq<TimerToken>, now: i64)
    requires
        sorted(heap),
    ensures
        ({
            let h = expire_timers(heap, tokens, now).0;
            &&& h.len() <= heap.len()
            &&& h == heap.subrange(0, h.len() as int)
            &&& forall|i: int| 0 <= i < h.len() ==> (#[trigger] h[i]).deadline_ns > now
            &&& forall|i: int| h.len() <= i < heap.len() ==> (#[trigger] heap[i]).deadline_ns <= now
        }),
    decreases heap.len(),
{
    let h = expire_timers(heap, tokens, now).0;
    if heap.len() == 0 || heap.last().deadline_ns > now {
        assert(h =~= heap.subrange(0, h.len() as int));
        assert forall|i: int| 0 <= i < h.len() implies (#[trigger] h[i]).deadline_ns > now by {
            if i < heap.len() - 1 {
                assert(heap[i].deadline_ns >= heap[heap.len() - 1].deadline_ns);
            }
        }
    } else {
        let e = heap.last();
        let next_tokens = match e.cancel {
            None => tokens,
            Some(t) => tokens.update(t as int, settled(tokens[t as int], TIMER_FIRED)),
        };
        let rest = heap.drop_last();
        assert forall|i: int, j: int| 0 <= i < j < rest.len() implies (
        #[trigger] rest[i]).deadline_ns >= (#[trigger] rest[j]).deadline_ns by {
            assert(heap[i].deadline_ns >= heap[j].deadline_ns);
        }
        law_no_due_sleeper_stays(rest, next_tokens, now);
        assert(h =~= heap.subrange(0, h.len() as int));
        assert forall|i: int| h.len() <= i < heap.len() implies (
        #[trigger] heap[i]).deadline_ns <= now by {
            if i < rest.len() {
                assert(rest[i] == heap[i]);
            }
        }
    }
}

/// A cancelled sleep never wakes its goroutine: when its deadline comes, the
/// others wake as if it had not been there.
pub proof fn law_cancelled_sleep_is_passed_over(
    heap: Seq<TimerEntry>,
    tokens: Seq<TimerToken>,
    now: i64,
)
    requires
        heap.len() > 0,
        heap.last().deadline_ns <= now,
        heap.last().cancel matches Some(t) && t < tokens.len() && tokens[t as int].state
            == TIMER_CANCELLED,
    ensures
        expire_timers(heap, tokens, now) == expire_timers(heap.drop_last(), tokens, now),
{
    let t = heap.last().cancel->0 as int;
    assert(tokens.update(t, settled(tokens[t], TIMER_FIRED)) =~= tokens);
}

// ---- goroutines that run for too long ----

pub const FORCE_PREEMPT_NS: i64 = 10_000_000;

pub const SYSMON_IDLE_NS: i64 = 60_000_000_000;

/// The least time to sleep before a deadline.
pub const NAP_MIN_NS: i64 = 1_000;

/// A request to preempt a goroutine: its flag is to be set, and the thread to
/// be signalled, if it is known.
#[derive(Clone, Copy, Debug, PartialEq, Eq, Structural)]
pub struct PreemptRequest {
    pub g: usize,
    pub tid: Option<i32>,
}

/// The request that a thread calls for, if any.
pub open spec fn overdue(m: MStorage, now: i64) -> Option<PreemptRequest> {
    if m.start_running_ns == 0 || now.wrapping_sub(m.start_running_ns) < FORCE_PREEMPT_NS {
        None
    } else {
        match m.m.curg {
            None => None,
            Some(g) => Some(
                PreemptRequest {
                    g,
                    tid: if m.m.procid > 0 {
                        Some(m.m.procid)
                    } else {
                        None
                    },
                },
            ),
        }
    }
}

/// The requests for the first `n` threads.
pub open spec fn overdue_all(ms: Seq<MStorage>, now: i64, n: nat) -> Seq<PreemptRequest>
    decreases n,
{
    if n == 0 {
        Seq::empty()
    } else {
        let before = overdue_all(ms, now, (n - 1) as nat);
        match overdue(ms[n - 1], now) {
            Some(r) => before.push(r),
            None => before,
        }
    }
}

/// How many of the first `n` requests send a signal, on top of a count.
pub open spec fn signals_after(count: u64, reqs: Seq<PreemptRequest>, n: nat) -> u64
    decreases n,
{
    if n == 0 {
        count
    } else {
        let before = signals_after(count, reqs, (n - 1) as nat);
        if reqs[n - 1].tid is Some {
            before.wrapping_add(1)
        } else {
            before
        }
    }
}

/// Finds the goroutines that have been running for too long.
pub fn check_force_preempt(t: &mut Timers, enabled: bool, now: i64, ms: &Vec<MStorage>) -> (reqs: Vec<
    PreemptRequest,
>)
    requires
        old(t).wf(),
    ensures
        final(t).wf(),
        final(t).heap == old(t).heap,
        final(t).tokens == old(t).tokens,
        final(t).park == old(t).park,
        if enabled {
            &&& reqs@ == overdue_all(ms@, now, ms@.len())
            &&& final(t).scan_ticks == old(t).scan_ticks.wrapping_add(1)
            &&& final(t).force_preempts == signals_after(
                old(t).force_preempts,
                reqs@,
                reqs@.len(),
            )
        } else {
            &&& reqs@ == Seq::<PreemptRequest>::empty()
            &&& *final(t) == *old(t)
        },
{
    let mut reqs: Vec<PreemptRequest> = Vec::new();
    assert(reqs@ =~= Seq::empty());
    if !enabled {
        return reqs;
    }
    t.scan_ticks = t.scan_ticks.wrapping_add(1);
    let mut i: usize = 0;
    while i < ms.len()
        invariant
            i <= ms@.len(),
            reqs@ == overdue_all(ms@, now, i as nat),
            t.heap == old(t).heap,
            t.tokens == old(t).tokens,
            t.park == old(t).park,
            t.scan_ticks == old(t).scan_ticks.wrapping_add(1),
            t.force_preempts == signals_after(old(t).force_preempts, reqs@, reqs@.len()),
        decreases ms@.len() - i,
    {
        let start: i64 = ms[i].start_running_ns;
        if start != 0 && now.wrapping_sub(start) >= FORCE_PREEMPT_NS {
            match ms[i].m.curg {
                None => {},
                Some(g) => {
                    let ghost before = reqs@;
                    let tid: i32 = ms[i].m.procid;
                    if tid > 0 {
                        reqs.push(PreemptRequest { g, tid: Some(tid) });
                        t.force_preempts = t.force_preempts.wrapping_add(1);
                    } else {
                        reqs.push(PreemptRequest { g, tid: None });
                    }
                    proof {
                        lemma_signals_prefix(
                            old(t).force_preempts,
                            before,
                            reqs@,
                            before.len(),
                        );
                    }
                },
            }
        }
        i = i + 1;
    }
    reqs
}

proof fn lemma_signals_prefix(
    count: u64,
    a: Seq<PreemptRequest>,
    b: Seq<PreemptRequest>,
    n: nat,
)
    requires
        n <= a.len(),
        n <= b.len(),
        forall|i: int| 0 <= i < n ==> a[i] == b[i],
    ensures
        signals_after(count, a, n) == signals_after(count, b, n),
    decreases n,
{
    if n > 0 {
        lemma_signals_prefix(count, a, b, (n - 1) as nat);
    }
}

pub fn force_preempt_scan_ticks(t: &Timers) -> (r: u64)
    ensures
        r == t.scan_ticks,
{
    t.scan_ticks
}

pub fn force_preempt_signals_sent(t: &Timers) -> (r: u64)
    ensures
        r == t.force_preempts,
{
    t.force_preempts
}

// ---- the loop ----

/// How long the monitor sleeps: until the next deadline, but no less than a
/// microsecond, and never past the next look at long-running goroutines.
pub open spec fn nap(next: Option<i64>, now: i64) -> int {
    let wait = match next {
        Some(d) => if d - now > NAP_MIN_NS {
            d - now
        } else {
            NAP_MIN_NS as int
        },
        None => SYSMON_IDLE_NS as int,
    };
    if wait < FORCE_PREEMPT_NS {
        wait
    } else {
        FORCE_PREEMPT_NS as int
    }
}

pub fn nap_ns(next: Option<i64>, now: i64) -> (r: i64)
    ensures
        r == nap(next, now),
        NAP_MIN_NS <= r <= FORCE_PREEMPT_NS,
{
    let wait: i128 = match next {
        Some(d) => {
            let w: i128 = d as i128 - now as i128;
            if w > NAP_MIN_NS as i128 {
                w
            } else {
                NAP_MIN_NS as i128
            }
        },
        None => SYSMON_IDLE_NS as i128,
    };
    if wait < FORCE_PREEMPT_NS as i128 {
        wait as i64
    } else {
        FORCE_PREEMPT_NS
    }
}

/// What one turn of the monitor does, in this order.
pub struct Tick {
    /// Signals to hand to channels.
    pub deliveries: Vec<Delivery>,
    pub preempts: Vec<PreemptRequest>,
    /// Goroutines whose input or output is ready, and hooks to call.
    pub polled: PollOut,
    /// Goroutines whose deadline for input or output has passed.
    pub expired: Vec<usize>,
    /// Goroutines whose sleep is over.
    pub slept: Vec<usize>,
    /// How long to sleep then, unless `sample` is no longer the count of
    /// wake-ups.
    pub nap: i64,
    pub sample: u32,
}

/// One turn of the monitor.
pub fn sysmon_tick(
    t: &mut Timers,
    sigs: &mut Signals,
    np: &mut Netpoll,
    async_preempt: bool,
    now: i64,
    ms: &Vec<MStorage>,
    batches: &Vec<Batch>,
) -> (r: Tick)
    requires
        old(t).wf(),
        old(sigs).wf(),
        old(np).wf(),
        batches@.len() == old(np).shards@.len(),
        forall|i: int|
            0 <= i < batches@.len() ==> (#[trigger] batches@[i]).gone@.len()
                == batches@[i].events@.len(),
    ensures
        final(t).wf(),
        final(sigs).wf(),
        final(np).wf(),
        r.sample == old(t).park,
        final(t).park == old(t).park,
        r.deliveries@ == signal::deliveries(*old(sigs), signal::MAX_SIG as nat),
        final(sigs).last_seen@ == old(sigs).count@.update(0, old(sigs).last_seen@[0]),
        final(sigs).count == old(sigs).count,
        final(sigs).registry == old(sigs).registry,
        r.preempts@ == (if async_preempt {
            overdue_all(ms@, now, ms@.len())
        } else {
            Seq::empty()
        }),
        final(t).scan_ticks == (if async_preempt {
            old(t).scan_ticks.wrapping_add(1)
        } else {
            old(t).scan_ticks
        }),
        final(t).force_preempts == (if async_preempt {
            signals_after(old(t).force_preempts, r.preempts@, r.preempts@.len())
        } else {
            old(t).force_preempts
        }),
        netpoll::same_counters(*final(np), *old(np)),
        ({
            let st = netpoll::polled(
                netpoll::start_state(*old(np)),
                batches@,
                batches@.len(),
            );
            &&& r.polled.ready@ == st.ready
            &&& r.polled.hooks@ == st.hooks
            &&& r.polled.relays@ == st.relays
            &&& r.polled.drains == 0
            &&& final(np).shards@ == st.shards
            &&& (final(np).slots@, r.expired@) == netpoll::expired(
                st.slots,
                now,
                st.slots.len(),
            )
        }),
        (final(t).heap@, final(t).tokens@, r.slept@) == expire_timers(
            old(t).heap@,
            old(t).tokens@,
            now,
        ),
        r.nap == nap(earliest(final(t).heap@), now),
{
    let sample: u32 = t.park;
    let deliveries = signal::dispatch_pending(sigs);
    let preempts = check_force_preempt(t, async_preempt, now, ms);
    let polled = netpoll::poll_all(np, batches);
    let expired = netpoll::fire_expired_deadlines(np, now);
    let slept = fire_timers(t, now);
    let next = t.top();
    let nap: i64 = nap_ns(next, now);
    Tick { deliveries, preempts, polled, expired, slept, nap, sample }
}

/// Size of the monitor's stack.
pub const SYSMON_STACK: usize = 65536;

/// The number of the monitor's thread.
pub const SYSMON_ID: u32 = 0xffff_ffff;

/// Makes the storage of the monitor's thread.
pub fn start_sysmon(addr: usize) -> (s: MStorage)
    requires
        addr + m::M_OFFSET <= usize::MAX,
    ensures
        s == (MStorage {
            tls_self: (addr + m::M_OFFSET) as usize,
            ..m::fresh_storage(SYSMON_ID, addr)
        }),
{
    let mut s = MStorage::new(SYSMON_ID, addr);
    s.init_tls_self();
    s
}

// ---- laws ----

/// A new sleeper stands between those with a later deadline, which are before
/// it, and all others, which are behind it and so wake before it.
pub proof fn law_sleeper_takes_its_place(heap: Seq<TimerEntry>, e: TimerEntry) -> (p: int)
    requires
        sorted(heap),
    ensures
        0 <= p <= heap.len(),
        queued(heap, e) == heap.subrange(0, p) + seq![e] + heap.subrange(p, heap.len() as int),
        forall|k: int| 0 <= k < p ==> (#[trigger] heap[k]).deadline_ns > e.deadline_ns,
        forall|k: int| p <= k < heap.len() ==> (#[trigger] heap[k]).deadline_ns <= e.deadline_ns,
{
    lemma_place(heap, e.deadline_ns, 0);
    let p = place(heap, e.deadline_ns, 0);
    assert(queued(heap, e) =~= heap.subrange(0, p) + seq![e] + heap.subrange(p, heap.len() as int));
    assert forall|k: int| p <= k < heap.len() implies (#[trigger] heap[k]).deadline_ns
        <= e.deadline_ns by {
        if k > p {
            assert(heap[p].deadline_ns >= heap[k].deadline_ns);
        }
    }
    p
}

/// The earliest deadline is that of a sleeper, and none is before it.
pub proof fn law_earliest_is_least(heap: Seq<TimerEntry>, i: int)
    requires
        sorted(heap),
        0 <= i < heap.len(),
    ensures
        earliest(heap) matches Some(d) && d <= heap[i].deadline_ns,
        earliest(heap) == Some(heap[heap.len() - 1].deadline_ns),
        earliest(Seq::empty()) is None,
{
    if i < heap.len() - 1 {
        assert(heap[i].deadline_ns >= heap[heap.len() - 1].deadline_ns);
    }
}

/// The monitor is woken exactly for a deadline that is before all others.
pub proof fn law_monitor_is_woken_for_the_earliest(heap: Seq<TimerEntry>, deadline: i64)
    requires
        sorted(heap),
    ensures
        needs_wake(heap, deadline) <==> forall|i: int|
            0 <= i < heap.len() ==> deadline < (#[trigger] heap[i]).deadline_ns,
{
    if heap.len() > 0 {
        let last = heap.len() - 1;
        if deadline < heap[last].deadline_ns {
            assert forall|i: int| 0 <= i < heap.len() implies deadline < (
            #[trigger] heap[i]).deadline_ns by {
                if i < last {
                    assert(heap[i].deadline_ns >= heap[last].deadline_ns);
                }
            }
        }
    }
}

proof fn lemma_sorted_front(heap: Seq<TimerEntry>)
    requires
        sorted(heap),
        heap.len() > 0,
    ensures
        sorted(heap.drop_last()),
{
    let rest = heap.drop_last();
    assert forall|i: int, j: int| 0 <= i < j < rest.len() implies (#[trigger] rest[i]).deadline_ns
        >= (#[trigger] rest[j]).deadline_ns by {
        assert(heap[i].deadline_ns >= heap[j].deadline_ns);
    }
}

/// A sleeper that nobody cancelled runs when its deadline has come. Its token,
/// if it has one, must be armed and its own.
pub proof fn law_due_sleeper_runs(
    heap: Seq<TimerEntry>,
    tokens: Seq<TimerToken>,
    now: i64,
    i: int,
)
    requires
        sorted(heap),
        forall|k: int|
            0 <= k < heap.len() ==> ((#[trigger] heap[k]).cancel matches Some(t) ==> t < tokens.len()),
        0 <= i < heap.len(),
        heap[i].deadline_ns <= now,
        heap[i].cancel matches Some(t) ==> tokens[t as int].state == 0 && forall|
            k: int,
        |
            0 <= k < heap.len() && k != i ==> (#[trigger] heap[k]).cancel != Some(t),
    ensures
        expire_timers(heap, tokens, now).2.contains(heap[i].g),
    decreases heap.len(),
{
    let e = heap.last();
    if i < heap.len() - 1 {
        assert(heap[i].deadline_ns >= heap[heap.len() - 1].deadline_ns);
    }
    let next_tokens = match e.cancel {
        None => tokens,
        Some(t) => tokens.update(t as int, settled(tokens[t as int], TIMER_FIRED)),
    };
    let rest = heap.drop_last();
    let later = expire_timers(rest, next_tokens, now).2;
    let all = expire_timers(heap, tokens, now).2;
    if i == heap.len() - 1 {
        assert(all == seq![e.g] + later);
        assert(all[0] == e.g);
    } else {
        lemma_sorted_front(heap);
        assert(rest[i] == heap[i]);
        assert(e == heap[heap.len() - 1]);
        assert forall|k: int| 0 <= k < rest.len() implies ((#[trigger] rest[k]).cancel matches Some(t)
            ==> t < next_tokens.len()) by {
            assert(rest[k] == heap[k]);
        }
        if let Some(t) = heap[i].cancel {
            assert(heap[heap.len() - 1].cancel != Some(t));
            assert forall|k: int| 0 <= k < rest.len() && k != i implies (#[trigger] rest[k]).cancel
                != Some(t) by {
                assert(rest[k] == heap[k]);
            }
        }
        law_due_sleeper_runs(rest, next_tokens, now, i);
        let k = choose|k: int| 0 <= k < later.len() && later[k] == heap[i].g;
        if all == seq![e.g] + later {
            assert(all[k + 1] == heap[i].g);
        } else {
            assert(all[k] == heap[i].g);
        }
    }
}

/// What runs has slept, and its deadline has come.
pub proof fn law_only_due_sleepers_run(
    heap: Seq<TimerEntry>,
    tokens: Seq<TimerToken>,
    now: i64,
    k: int,
) -> (i: int)
    requires
        0 <= k < expire_timers(heap, tokens, now).2.len(),
    ensures
        0 <= i < heap.len(),
        heap[i].deadline_ns <= now,
        heap[i].g == expire_timers(heap, tokens, now).2[k],
    decreases heap.len(),
{
    let e = heap.last();
    let (fires, next_tokens) = match e.cancel {
        None => (true, tokens),
        Some(t) => (
            tokens[t as int].state == TIMER_ARMED,
            tokens.update(t as int, settled(tokens[t as int], TIMER_FIRED)),
        ),
    };
    let later = expire_timers(heap.drop_last(), next_tokens, now).2;
    if fires && k == 0 {
        heap.len() - 1
    } else if fires {
        assert((seq![e.g] + later)[k] == later[k - 1]);
        law_only_due_sleepers_run(heap.drop_last(), next_tokens, now, k - 1)
    } else {
        law_only_due_sleepers_run(heap.drop_last(), next_tokens, now, k)
    }
}

/// Sleepers without tokens run in the order of their deadlines: those that are
/// due run, from the last to the first, and the others stay.
pub proof fn law_sleepers_run_in_order(
    later: Seq<TimerEntry>,
    due: Seq<TimerEntry>,
    tokens: Seq<TimerToken>,
    now: i64,
)
    requires
        later.len() > 0 ==> later.last().deadline_ns > now,
        forall|i: int| 0 <= i < due.len() ==> (#[trigger] due[i]).deadline_ns <= now && due[i].cancel is None,
    ensures
        expire_timers(later + due, tokens, now) == (
            later,
            tokens,
            Seq::new(due.len(), |i: int| due[due.len() - 1 - i].g),
        ),
    decreases due.len(),
{
    let heap = later + due;
    let order = Seq::new(due.len(), |i: int| due[due.len() - 1 - i].g);
    if due.len() == 0 {
        assert(heap =~= later);
        assert(order =~= Seq::empty());
    } else {
        let front = due.drop_last();
        assert(heap.last() == due[due.len() - 1]);
        assert(heap.drop_last() =~= later + front);
        law_sleepers_run_in_order(later, front, tokens, now);
        assert(order =~= seq![due.last().g] + Seq::new(
            front.len(),
            |i: int| front[front.len() - 1 - i].g,
        ));
    }
}

/// A goroutine that goes to sleep for a time runs again once that time is
/// over.
pub proof fn law_sleep_ends(t: Timers, u: Timers, ns: i64, now: i64, g: usize, r: Sleep, then: i64)
    requires
        t.wf(),
        u.wf(),
        parks(t, u, ns, now, Some(g), r),
        now + ns <= i64::MAX,
    ensures
        ns <= 0 ==> r == Sleep::Return && u == t,
        ns > 0 ==> r is Park && sorted(u.heap@) && u.heap@.len() == t.heap@.len() + 1,
        ns > 0 && then >= now + ns ==> expire_timers(u.heap@, u.tokens@, then).2.contains(g),
        ns > 0 ==> exists|i: int|
            0 <= i < u.heap@.len() && #[trigger] u.heap@[i] == (TimerEntry {
                deadline_ns: (now + ns) as i64,
                g,
                cancel: None,
            }),
{
    if ns > 0 {
        let e = TimerEntry { deadline_ns: (now + ns) as i64, g, cancel: None };
        law_queueing_keeps_order(t.heap@, e);
        let p = law_sleeper_takes_its_place(t.heap@, e);
        assert(u.heap@[p] == e);
        if then >= now + ns {
            law_due_sleeper_runs(u.heap@, u.tokens@, then, p);
        }
    }
}

/// A sleep with an armed token is entered under that token and with the
/// goroutine on it, so that a cancel finds the goroutine; a settled token says
/// at once whether the timer fired.
pub proof fn law_cancellable_sleep(
    t: Timers,
    u: Timers,
    v: Timers,
    ns: i64,
    now: i64,
    g: usize,
    tok: usize,
    r: CancellableSleep,
    c: (bool, Option<usize>),
)
    requires
        t.wf(),
        tok < t.tokens@.len(),
        parks_cancellable(t, u, ns, now, Some(g), tok, r),
        cancels(u, v, tok, c),
        ns > 0,
        now + ns <= i64::MAX,
    ensures
        t.tokens@[tok as int].state == 0 ==> {
            &&& r is Park
            &&& exists|i: int|
                0 <= i < u.heap@.len() && #[trigger] u.heap@[i] == (TimerEntry {
                    deadline_ns: (now + ns) as i64,
                    g,
                    cancel: Some(tok),
                })
            &&& u.tokens@[tok as int] == (TimerToken { state: 0, g: Some(g) })
            &&& c == (true, Some(g))
            &&& v.tokens@[tok as int].state == 2
        },
        t.tokens@[tok as int].state == 1 ==> r == CancellableSleep::Done(true) && c == (
            false,
            None::<usize>,
        ),
        t.tokens@[tok as int].state == 2 ==> r == CancellableSleep::Done(false) && c == (
            false,
            None::<usize>,
        ),
{
    if t.tokens@[tok as int].state == 0 {
        let e = TimerEntry { deadline_ns: (now + ns) as i64, g, cancel: Some(tok) };
        let p = law_sleeper_takes_its_place(t.heap@, e);
        assert(u.heap@[p] == e);
    }
}

/// Without a goroutine the thread itself sleeps, in whole seconds and a rest
/// below one; a sleep of no time fires its token at once.
pub proof fn law_sleep_without_goroutine(
    t: Timers,
    u: Timers,
    ns: i64,
    now: i64,
    tok: usize,
    r: CancellableSleep,
)
    requires
        t.wf(),
        tok < t.tokens@.len(),
        parks_cancellable(t, u, ns, now, None, tok, r),
    ensures
        ns > 0 ==> (r matches CancellableSleep::Block { sec, nsec } && 0 <= nsec < 1_000_000_000
            && sec * 1_000_000_000 + nsec == ns) && u == t,
        ns <= 0 && t.tokens@[tok as int].state == 0 ==> r == CancellableSleep::Done(true)
            && u.tokens@[tok as int].state == 1,
        ns <= 0 && t.tokens@[tok as int].state != 0 ==> r == CancellableSleep::Done(false)
            && u.tokens@[tok as int] == t.tokens@[tok as int],
{
}

/// A goroutine is preempted once it has run for ten milliseconds, and not
/// before; its thread is signalled if its number is known.
pub proof fn law_long_runs_are_preempted(m: MStorage, now: i64)
    requires
        i64::MIN <= now - m.start_running_ns <= i64::MAX,
    ensures
        overdue(m, now) is Some <==> m.start_running_ns != 0 && now - m.start_running_ns
            >= 10_000_000 && m.m.curg is Some,
        overdue(m, now) matches Some(r) ==> Some(r.g) == m.m.curg && (m.m.procid > 0 ==> r.tid
            == Some(m.m.procid)) && (m.m.procid <= 0 ==> r.tid is None),
{
}

/// Every thread is looked at, in order.
pub proof fn law_every_thread_is_looked_at(a: Seq<MStorage>, b: Seq<MStorage>, now: i64)
    ensures
        overdue_all(a + b, now, a.len() + b.len()) == overdue_all(a, now, a.len()) + overdue_all(
            b,
            now,
            b.len(),
        ),
        a.len() == 1 ==> overdue_all(a, now, 1) == (match overdue(a[0], now) {
            Some(r) => seq![r],
            None => Seq::empty(),
        }),
    decreases b.len(),
{
    if b.len() == 0 {
        lemma_overdue_front(a, b, now, a.len());
        assert(overdue_all(a, now, a.len()) + Seq::<PreemptRequest>::empty() =~= overdue_all(
            a,
            now,
            a.len(),
        ));
    } else {
        let c = b.drop_last();
        law_every_thread_is_looked_at(a, c, now);
        lemma_overdue_front(a + c, seq![b.last()], now, (a + c).len());
        lemma_overdue_front(c, seq![b.last()], now, c.len());
        assert(a + c + seq![b.last()] =~= a + b);
        assert(c + seq![b.last()] =~= b);
        let before = overdue_all(a, now, a.len());
        let middle = overdue_all(c, now, c.len());
        if let Some(r) = overdue(b.last(), now) {
            assert((before + middle).push(r) =~= before + middle.push(r));
        }
    }
    if a.len() == 1 {
        assert(overdue_all(a, now, 0) =~= Seq::empty());
        if let Some(r) = overdue(a[0], now) {
            assert(Seq::<PreemptRequest>::empty().push(r) =~= seq![r]);
        }
    }
}

proof fn lemma_overdue_front(a: Seq<MStorage>, b: Seq<MStorage>, now: i64, n: nat)
    requires
        n <= a.len(),
    ensures
        overdue_all(a + b, now, n) == overdue_all(a, now, n),
    decreases n,
{
    if n > 0 {
        lemma_overdue_front(a, b, now, (n - 1) as nat);
    }
}

/// The count of signals grows by the number of requests whose thread is known.
pub proof fn law_signals_are_counted(count: u64, reqs: Seq<PreemptRequest>)
    requires
        count + reqs.len() <= u64::MAX,
    ensures
        signals_after(count, reqs, reqs.len()) == count + reqs.filter(
            |r: PreemptRequest| r.tid is Some,
        ).len(),
    decreases reqs.len(),
{
    reveal(Seq::filter);
    if reqs.len() > 0 {
        let front = reqs.drop_last();
        law_signals_are_counted(count, front);
        lemma_signals_prefix(count, reqs, front, front.len());
        let known = |r: PreemptRequest| r.tid is Some;
        assert(front.filter(known).len() <= front.len()) by {
            front.lemma_filter_len(known);
        }
    }
}

/// The monitor sleeps exactly until the next deadline where that is between a
/// microsecond and ten milliseconds away, and else for the nearer one of these
/// two; without a deadline it sleeps for ten milliseconds.
pub proof fn law_monitor_sleeps_until_the_deadline(d: i64, now: i64)
    ensures
        1_000 <= d - now <= 10_000_000 ==> now + nap(Some(d), now) == d,
        d - now < 1_000 ==> nap(Some(d), now) == 1_000,
        d - now > 10_000_000 ==> nap(Some(d), now) == 10_000_000,
        nap(None, now) == 10_000_000,
{
}

} // verus!
