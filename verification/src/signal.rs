//! Signals: how many have arrived, and which channels want to hear of them.

use vstd::prelude::*;

verus! {

pub const MAX_SIG: usize = 64;

/// The two signals that cannot be caught.
pub const SIGKILL: i32 = 9;

pub const SIGSTOP: i32 = 19;

/// A channel, known by a number, and the signals it wants: bit `s` for signal
/// `s`.
#[derive(Clone, Copy, Debug, PartialEq, Eq, Structural)]
pub struct Registration {
    pub target: u64,
    pub sigs: u64,
}

pub struct Signals {
    /// How many have arrived, by signal.
    pub count: Vec<i64>,
    /// How many of them have been handed on.
    pub last_seen: Vec<i64>,
    pub registry: Vec<Registration>,
}

/// No channel has two registrations.
pub open spec fn one_each(reg: Seq<Registration>) -> bool {
    forall|i: int, j: int|
        0 <= i < j < reg.len() ==> (#[trigger] reg[i]).target != (#[trigger] reg[j]).target
}

impl Signals {
    pub open spec fn wf(&self) -> bool {
        &&& self.count@.len() == MAX_SIG
        &&& self.last_seen@.len() == MAX_SIG
        &&& one_each(self.registry@)
    }

    pub fn new() -> (r: Self)
        ensures
            r.wf(),
            r.count@ == Seq::new(MAX_SIG as nat, |i: int| 0i64),
            r.last_seen@ == Seq::new(MAX_SIG as nat, |i: int| 0i64),
            r.registry@.len() == 0,
    {
        let mut count: Vec<i64> = Vec::new();
        let mut last_seen: Vec<i64> = Vec::new();
        while count.len() < MAX_SIG
            invariant
                count@.len() == last_seen@.len(),
                count@.len() <= MAX_SIG,
                forall|i: int| 0 <= i < count@.len() ==> #[trigger] count@[i] == 0,
                forall|i: int| 0 <= i < last_seen@.len() ==> #[trigger] last_seen@[i] == 0,
            decreases MAX_SIG - count@.len(),
        {
            count.push(0);
            last_seen.push(0);
        }
        assert(count@ =~= Seq::new(MAX_SIG as nat, |i: int| 0i64));
        assert(last_seen@ =~= Seq::new(MAX_SIG as nat, |i: int| 0i64));
        Signals { count, last_seen, registry: Vec::new() }
    }
}

/// `after` and `wake` follow the arrival of a signal.
pub open spec fn arrives(s: Signals, after: Signals, sig: i32, wake: bool) -> bool {
    &&& wake == (0 <= sig < MAX_SIG)
    &&& after.last_seen == s.last_seen
    &&& after.registry == s.registry
    &&& after.count@ == (if 0 <= sig < MAX_SIG {
        s.count@.update(sig as int, s.count@[sig as int].wrapping_add(1))
    } else {
        s.count@
    })
}

/// Counts a signal that has arrived, and says whether the monitor is to be
/// woken for it.
pub fn goish_sigtramp(s: &mut Signals, sig: i32) -> (wake: bool)
    requires
        old(s).wf(),
    ensures
        final(s).wf(),
        arrives(*old(s), *final(s), sig, wake),
{
    if sig < 0 || sig >= MAX_SIG as i32 {
        return false;
    }
    let i: usize = sig as usize;
    let n: i64 = s.count[i].wrapping_add(1);
    s.count.set(i, n);
    true
}

/// How many of a signal have arrived since they were last asked for.
pub fn drain_count(s: &mut Signals, sig: i32) -> (n: i64)
    requires
        old(s).wf(),
    ensures
        final(s).wf(),
        final(s).count == old(s).count,
        final(s).registry == old(s).registry,
        if 0 <= sig < MAX_SIG {
            &&& n == old(s).count@[sig as int].wrapping_sub(old(s).last_seen@[sig as int])
            &&& final(s).last_seen@ == old(s).last_seen@.update(
                sig as int,
                old(s).count@[sig as int],
            )
        } else {
            n == 0 && final(s).last_seen@ == old(s).last_seen@
        },
{
    if sig < 0 || sig >= MAX_SIG as i32 {
        return 0;
    }
    let i: usize = sig as usize;
    let now: i64 = s.count[i];
    let prev: i64 = s.last_seen[i];
    s.last_seen.set(i, now);
    now.wrapping_sub(prev)
}

/// A signal that arrived once is drained once: right after it has been asked
/// for, none is left.
pub proof fn law_drained_once(count: i64, last: i64)
    ensures
        count.wrapping_sub(count) == 0,
        last < i64::MAX ==> last.wrapping_add(1).wrapping_sub(last) == 1,
{
}

// ---- sets of signals ----

/// The signals of a list that are tracked, in order.
pub open spec fn tracked_sigs(sigs: Seq<i32>, n: nat) -> Seq<i32>
    decreases n,
{
    if n == 0 {
        Seq::empty()
    } else {
        let before = tracked_sigs(sigs, (n - 1) as nat);
        if 0 <= sigs[n - 1] < MAX_SIG {
            before.push(sigs[n - 1])
        } else {
            before
        }
    }
}

/// The signals below `n` that can be caught, in order.
pub open spec fn catchable(n: nat) -> Seq<i32>
    decreases n,
{
    if n <= 1 {
        Seq::empty()
    } else {
        let before = catchable((n - 1) as nat);
        let s = (n - 1) as i32;
        if s == SIGKILL || s == SIGSTOP {
            before
        } else {
            before.push(s)
        }
    }
}

/// What a request for signals asks for: an empty list asks for all that can be
/// caught.
pub open spec fn wanted(sigs: Seq<i32>) -> Seq<i32> {
    if sigs.len() == 0 {
        catchable(MAX_SIG as nat)
    } else {
        tracked_sigs(sigs, sigs.len())
    }
}

/// The bits of the first `n` signals of a list.
pub open spec fn bits_of(sigs: Seq<i32>, n: nat) -> u64
    decreases n,
{
    if n == 0 {
        0
    } else {
        bits_of(sigs, (n - 1) as nat) | (1u64 << (sigs[n - 1] as u64))
    }
}

/// Whether a set of signals holds one.
pub open spec fn has(bits: u64, s: int) -> bool {
    bits & (1u64 << (s as u64)) != 0
}

/// The set of a list holds exactly the signals of the list.
pub proof fn law_bits_are_the_list(sigs: Seq<i32>, n: nat, s: int)
    requires
        n <= sigs.len(),
        0 <= s < MAX_SIG,
        forall|i: int| 0 <= i < sigs.len() ==> 0 <= #[trigger] sigs[i] < MAX_SIG,
    ensures
        has(bits_of(sigs, n), s) <==> exists|i: int| 0 <= i < n && #[trigger] sigs[i] == s,
    decreases n,
{
    let w = s as u64;
    if n == 0 {
        assert(0u64 & (1u64 << w) == 0) by (bit_vector);
    } else {
        law_bits_are_the_list(sigs, (n - 1) as nat, s);
        let b = bits_of(sigs, (n - 1) as nat);
        let x = sigs[n - 1] as u64;
        assert(x < 64);
        assert((b | (1u64 << x)) & (1u64 << w) != 0 <==> (b & (1u64 << w) != 0 || x == w))
            by (bit_vector)
            requires
                x < 64,
                w < 64,
        ;
        if has(bits_of(sigs, n), s) {
            if x == w {
                assert(sigs[n - 1] == s);
            } else {
                let i = choose|i: int| 0 <= i < n - 1 && #[trigger] sigs[i] == s;
                assert(sigs[i] == s);
            }
        }
        if exists|i: int| 0 <= i < n && #[trigger] sigs[i] == s {
            let i = choose|i: int| 0 <= i < n && #[trigger] sigs[i] == s;
            if i < n - 1 {
                assert(sigs[i] == s);
            }
        }
    }
}

/// A request without signals asks for every signal but the two that cannot be
/// caught.
pub proof fn law_empty_request_wants_all(n: nat, s: i32)
    requires
        n <= MAX_SIG,
    ensures
        catchable(n).contains(s) <==> 1 <= s < n && s != SIGKILL && s != SIGSTOP,
        forall|i: int| 0 <= i < catchable(n).len() ==> 0 <= #[trigger] catchable(n)[i] < MAX_SIG,
    decreases n,
{
    if n > 1 {
        law_empty_request_wants_all((n - 1) as nat, s);
        let before = catchable((n - 1) as nat);
        let t = (n - 1) as i32;
        if t != SIGKILL && t != SIGSTOP {
            if before.contains(s) {
                let i = choose|i: int| 0 <= i < before.len() && before[i] == s;
                assert(before.push(t)[i] == s);
            }
            if s == t {
                assert(before.push(t)[before.len() as int] == s);
            }
            if before.push(t).contains(s) {
                let i = choose|i: int|
                    0 <= i < before.push(t).len() && before.push(t)[i] == s;
                if i < before.len() {
                    assert(before[i] == s);
                }
            }
        }
    }
}

fn set_bits(sigs: &Vec<i32>) -> (bits: u64)
    requires
        forall|i: int| 0 <= i < sigs@.len() ==> 0 <= #[trigger] sigs@[i] < MAX_SIG,
    ensures
        bits == bits_of(sigs@, sigs@.len()),
{
    let mut bits: u64 = 0;
    let mut i: usize = 0;
    while i < sigs.len()
        invariant
            i <= sigs@.len(),
            forall|k: int| 0 <= k < sigs@.len() ==> 0 <= #[trigger] sigs@[k] < MAX_SIG,
            bits == bits_of(sigs@, i as nat),
        decreases sigs@.len() - i,
    {
        assert(0 <= sigs@[i as int] < MAX_SIG);
        bits = bits | (1u64 << (sigs[i] as u64));
        i = i + 1;
    }
    bits
}

fn keep_tracked(sigs: &Vec<i32>) -> (r: Vec<i32>)
    ensures
        r@ == tracked_sigs(sigs@, sigs@.len()),
        forall|i: int| 0 <= i < r@.len() ==> 0 <= #[trigger] r@[i] < MAX_SIG,
{
    let mut r: Vec<i32> = Vec::new();
    let mut i: usize = 0;
    while i < sigs.len()
        invariant
            i <= sigs@.len(),
            r@ == tracked_sigs(sigs@, i as nat),
            forall|k: int| 0 <= k < r@.len() ==> 0 <= #[trigger] r@[k] < MAX_SIG,
        decreases sigs@.len() - i,
    {
        let s: i32 = sigs[i];
        if 0 <= s && s < MAX_SIG as i32 {
            r.push(s);
        }
        i = i + 1;
    }
    r
}

fn all_catchable() -> (r: Vec<i32>)
    ensures
        r@ == catchable(MAX_SIG as nat),
        forall|i: int| 0 <= i < r@.len() ==> 0 <= #[trigger] r@[i] < MAX_SIG,
{
    let mut r: Vec<i32> = Vec::new();
    let mut s: i32 = 1;
    while s < MAX_SIG as i32
        invariant
            1 <= s <= MAX_SIG,
            r@ == catchable(s as nat),
            forall|k: int| 0 <= k < r@.len() ==> 0 <= #[trigger] r@[k] < MAX_SIG,
        decreases MAX_SIG - s,
    {
        if s != SIGKILL && s != SIGSTOP {
            r.push(s);
        }
        s = s + 1;
        assert(catchable(s as nat) == (if s - 1 == SIGKILL || s - 1 == SIGSTOP {
            catchable((s - 1) as nat)
        } else {
            catchable((s - 1) as nat).push((s - 1) as i32)
        }));
    }
    r
}

// ---- the registry ----

/// Position of a channel's entry from `i` on.
pub open spec fn entry_of(reg: Seq<Registration>, target: u64, i: int) -> Option<int>
    decreases reg.len() - i,
{
    if i < 0 || i >= reg.len() {
        None
    } else if reg[i].target == target {
        Some(i)
    } else {
        entry_of(reg, target, i + 1)
    }
}

/// The registry after a channel has asked for more signals.
pub open spec fn with_sigs(reg: Seq<Registration>, target: u64, bits: u64) -> Seq<Registration> {
    match entry_of(reg, target, 0) {
        Some(i) => reg.update(i, Registration { target, sigs: reg[i].sigs | bits }),
        None => reg.push(Registration { target, sigs: bits }),
    }
}

/// Registers a channel for signals, and returns the signals whose handler is
/// to be installed, in order.
pub fn register(s: &mut Signals, target: u64, sigs: &Vec<i32>) -> (install: Vec<i32>)
    requires
        old(s).wf(),
    ensures
        final(s).wf(),
        final(s).count == old(s).count,
        final(s).last_seen == old(s).last_seen,
        install@ == wanted(sigs@),
        final(s).registry@ == with_sigs(
            old(s).registry@,
            target,
            bits_of(wanted(sigs@), wanted(sigs@).len()),
        ),
{
    let install = if sigs.len() == 0 {
        all_catchable()
    } else {
        keep_tracked(sigs)
    };
    let bits: u64 = set_bits(&install);
    let mut i: usize = 0;
    while i < s.registry.len()
        invariant
            i <= s.registry@.len(),
            s.wf(),
            s.count == old(s).count,
            s.last_seen == old(s).last_seen,
            s.registry@ == old(s).registry@,
            install@ == wanted(sigs@),
            bits == bits_of(wanted(sigs@), wanted(sigs@).len()),
            entry_of(s.registry@, target, 0) == entry_of(s.registry@, target, i as int),
        decreases s.registry@.len() - i,
    {
        let e = s.registry[i];
        if e.target == target {
            proof {
                lemma_one_each_after(old(s).registry@, target, bits);
            }
            s.registry.set(i, Registration { target, sigs: e.sigs | bits });
            return install;
        }
        i = i + 1;
    }
    proof {
        lemma_one_each_after(old(s).registry@, target, bits);
    }
    s.registry.push(Registration { target, sigs: bits });
    install
}

proof fn lemma_one_each_after(reg: Seq<Registration>, target: u64, bits: u64)
    requires
        one_each(reg),
    ensures
        one_each(with_sigs(reg, target, bits)),
{
    lemma_entry_of(reg, target, 0);
    let after = with_sigs(reg, target, bits);
    assert forall|i: int, j: int| 0 <= i < j < after.len() implies (#[trigger] after[i]).target != (
    #[trigger] after[j]).target by {
        if j < reg.len() {
            assert(reg[i].target != reg[j].target);
        } else {
            assert(reg[i].target != target);
        }
    }
}

/// The signals that a channel wants.
pub open spec fn wants(reg: Seq<Registration>, target: u64) -> u64 {
    match entry_of(reg, target, 0) {
        Some(i) => reg[i].sigs,
        None => 0,
    }
}

/// A signal is among the tracked ones of a list exactly if it is in the list
/// and tracked.
proof fn lemma_tracked(sigs: Seq<i32>, n: nat, s: i32)
    requires
        n <= sigs.len(),
    ensures
        tracked_sigs(sigs, n).contains(s) <==> 0 <= s < MAX_SIG && exists|i: int|
            0 <= i < n && #[trigger] sigs[i] == s,
        forall|i: int|
            0 <= i < tracked_sigs(sigs, n).len() ==> 0 <= #[trigger] tracked_sigs(sigs, n)[i]
                < MAX_SIG,
    decreases n,
{
    if n > 0 {
        lemma_tracked(sigs, (n - 1) as nat, s);
        let before = tracked_sigs(sigs, (n - 1) as nat);
        let x = sigs[n - 1];
        if 0 <= x < MAX_SIG {
            let after = before.push(x);
            if before.contains(s) {
                let i = choose|i: int| 0 <= i < before.len() && before[i] == s;
                assert(after[i] == s);
            }
            if s == x {
                assert(after[before.len() as int] == s);
                assert(sigs[n - 1] == s);
            }
            if after.contains(s) {
                let i = choose|i: int| 0 <= i < after.len() && after[i] == s;
                if i < before.len() {
                    assert(before[i] == s);
                }
            }
        }
        if exists|i: int| 0 <= i < n && #[trigger] sigs[i] == s {
            let i = choose|i: int| 0 <= i < n && #[trigger] sigs[i] == s;
            if i < n - 1 {
                assert(sigs[i] == s);
            }
        }
        if before.contains(s) {
            let i = choose|i: int| 0 <= i < n - 1 && #[trigger] sigs[i] == s;
            assert(sigs[i] == s);
        }
    }
}

/// A request asks for exactly the tracked signals of its list, and an empty
/// one for every signal that can be caught.
pub proof fn law_request_is_exact(sigs: Seq<i32>, s: i32)
    requires
        0 <= s < MAX_SIG,
    ensures
        has(bits_of(wanted(sigs), wanted(sigs).len()), s as int) <==> if sigs.len() == 0 {
            1 <= s && s != SIGKILL && s != SIGSTOP
        } else {
            sigs.contains(s)
        },
{
    let w = wanted(sigs);
    if sigs.len() == 0 {
        law_empty_request_wants_all(MAX_SIG as nat, s);
    } else {
        lemma_tracked(sigs, sigs.len(), s);
        if sigs.contains(s) {
            let i = choose|i: int| 0 <= i < sigs.len() && sigs[i] == s;
            assert(sigs[i] == s);
        }
    }
    law_bits_are_the_list(w, w.len(), s as int);
    if w.contains(s) {
        let i = choose|i: int| 0 <= i < w.len() && w[i] == s;
        assert(w[i] == s);
    }
}

/// Registering gives a channel the signals that it asks for on top of those it
/// had, leaves it with one registration, and leaves every other channel alone.
pub proof fn law_register_adds(
    reg: Seq<Registration>,
    target: u64,
    bits: u64,
    other: u64,
    sig: int,
)
    requires
        one_each(reg),
        0 <= sig < MAX_SIG,
        other != target,
    ensures
        one_each(with_sigs(reg, target, bits)),
        entry_of(with_sigs(reg, target, bits), target, 0) is Some,
        has(wants(with_sigs(reg, target, bits), target), sig) <==> has(wants(reg, target), sig)
            || has(bits, sig),
        entry_of(with_sigs(reg, target, bits), other, 0) == entry_of(reg, other, 0),
        wants(with_sigs(reg, target, bits), other) == wants(reg, other),
{
    lemma_one_each_after(reg, target, bits);
    let after = with_sigs(reg, target, bits);
    lemma_entry_of(reg, target, 0);
    lemma_entry_of(reg, other, 0);
    lemma_entry_of(after, other, 0);
    let w = sig as u64;
    match entry_of(reg, target, 0) {
        Some(i) => {
            lemma_entry_is_first(after, target, i, 0);
            let b = reg[i].sigs;
            assert((b | bits) & (1u64 << w) != 0 <==> (b & (1u64 << w) != 0 || bits & (1u64 << w)
                != 0)) by (bit_vector);
        },
        None => {
            lemma_entry_is_first(after, target, reg.len() as int, 0);
            assert(0u64 & (1u64 << w) == 0) by (bit_vector);
        },
    }
    match entry_of(reg, other, 0) {
        Some(k) => {
            assert(after[k] == reg[k]);
            assert forall|j: int| 0 <= j < k implies (#[trigger] after[j]).target != other by {
                assert(reg[j].target != other);
            }
            lemma_entry_is_first(after, other, k, 0);
        },
        None => {
            if let Some(k) = entry_of(after, other, 0) {
                assert(after[k].target == other);
                if k < reg.len() {
                    assert(reg[k].target != other);
                }
            }
        },
    }
}

/// Registering a channel twice for the same signals is registering it once.
pub proof fn law_register_is_idempotent(reg: Seq<Registration>, target: u64, bits: u64)
    ensures
        with_sigs(with_sigs(reg, target, bits), target, bits) == with_sigs(reg, target, bits),
{
    let once = with_sigs(reg, target, bits);
    lemma_entry_of(reg, target, 0);
    match entry_of(reg, target, 0) {
        Some(i) => {
            lemma_entry_is_first(once, target, i, 0);
            let b = reg[i].sigs;
            assert((b | bits) | bits == b | bits) by (bit_vector);
        },
        None => {
            lemma_entry_is_first(once, target, reg.len() as int, 0);
            assert(bits | bits == bits) by (bit_vector);
        },
    }
    assert(with_sigs(once, target, bits) =~= once);
}

proof fn lemma_entry_of(reg: Seq<Registration>, target: u64, i: int)
    requires
        0 <= i <= reg.len(),
    ensures
        match entry_of(reg, target, i) {
            Some(k) => i <= k < reg.len() && reg[k].target == target && forall|j: int|
                i <= j < k ==> (#[trigger] reg[j]).target != target,
            None => forall|j: int| i <= j < reg.len() ==> (#[trigger] reg[j]).target != target,
        },
    decreases reg.len() - i,
{
    if i < reg.len() && reg[i].target != target {
        lemma_entry_of(reg, target, i + 1);
    }
}

proof fn lemma_entry_is_first(reg: Seq<Registration>, target: u64, k: int, i: int)
    requires
        0 <= i <= k < reg.len(),
        reg[k].target == target,
        forall|j: int| i <= j < k ==> (#[trigger] reg[j]).target != target,
    ensures
        entry_of(reg, target, i) == Some(k),
    decreases k - i,
{
    if i < k {
        lemma_entry_is_first(reg, target, k, i + 1);
    }
}

/// The first `n` entries without some signals; an entry that wants none is
/// gone.
pub open spec fn without_sigs(reg: Seq<Registration>, bits: u64, n: nat) -> Seq<Registration>
    decreases n,
{
    if n == 0 {
        Seq::empty()
    } else {
        let before = without_sigs(reg, bits, (n - 1) as nat);
        let left = reg[n - 1].sigs & !bits;
        if left != 0 {
            before.push(Registration { target: reg[n - 1].target, sigs: left })
        } else {
            before
        }
    }
}

/// The signals that a list cancels: an empty list cancels all.
pub open spec fn cancelled_bits(sigs: Seq<i32>) -> u64 {
    if sigs.len() == 0 {
        u64::MAX
    } else {
        bits_of(tracked_sigs(sigs, sigs.len()), tracked_sigs(sigs, sigs.len()).len())
    }
}

/// Takes signals away from every channel. An empty list takes all.
pub fn unregister_sigs(s: &mut Signals, sigs: &Vec<i32>)
    requires
        old(s).wf(),
    ensures
        final(s).wf(),
        final(s).count == old(s).count,
        final(s).last_seen == old(s).last_seen,
        final(s).registry@ == without_sigs(
            old(s).registry@,
            cancelled_bits(sigs@),
            old(s).registry@.len(),
        ),
{
    let bits: u64 = if sigs.len() == 0 {
        u64::MAX
    } else {
        let list = keep_tracked(sigs);
        set_bits(&list)
    };
    let mut left: Vec<Registration> = Vec::new();
    let mut i: usize = 0;
    while i < s.registry.len()
        invariant
            i <= s.registry@.len(),
            s.wf(),
            left@ == without_sigs(s.registry@, bits, i as nat),
            one_each(left@),
            forall|k: int|
                0 <= k < left@.len() ==> exists|j: int|
                    0 <= j < i && (#[trigger] s.registry@[j]).target == (
                    #[trigger] left@[k]).target,
        decreases s.registry@.len() - i,
    {
        let e = s.registry[i];
        let rest: u64 = e.sigs & !bits;
        if rest != 0 {
            left.push(Registration { target: e.target, sigs: rest });
        }
        i = i + 1;
    }
    s.registry = left;
}

/// Cancelling everything leaves no channel.
pub proof fn law_cancel_all_leaves_nobody(reg: Seq<Registration>, n: nat)
    ensures
        without_sigs(reg, cancelled_bits(Seq::<i32>::empty()), n) == Seq::<Registration>::empty(),
    decreases n,
{
    if n > 0 {
        law_cancel_all_leaves_nobody(reg, (n - 1) as nat);
        let x = reg[n - 1].sigs;
        assert(x & !0xffff_ffff_ffff_ffffu64 == 0) by (bit_vector);
    }
}

/// The first `n` entries without those of a channel.
pub open spec fn without_target(reg: Seq<Registration>, target: u64, n: nat) -> Seq<Registration>
    decreases n,
{
    if n == 0 {
        Seq::empty()
    } else {
        let before = without_target(reg, target, (n - 1) as nat);
        if reg[n - 1].target != target {
            before.push(reg[n - 1])
        } else {
            before
        }
    }
}

/// Takes all signals away from a channel.
pub fn unregister(s: &mut Signals, target: u64)
    requires
        old(s).wf(),
    ensures
        final(s).wf(),
        final(s).count == old(s).count,
        final(s).last_seen == old(s).last_seen,
        final(s).registry@ == without_target(old(s).registry@, target, old(s).registry@.len()),
{
    let mut left: Vec<Registration> = Vec::new();
    let mut i: usize = 0;
    while i < s.registry.len()
        invariant
            i <= s.registry@.len(),
            s.wf(),
            left@ == without_target(s.registry@, target, i as nat),
            one_each(left@),
            forall|k: int|
                0 <= k < left@.len() ==> exists|j: int|
                    0 <= j < i && (#[trigger] s.registry@[j]).target == (
                    #[trigger] left@[k]).target,
        decreases s.registry@.len() - i,
    {
        let e = s.registry[i];
        if e.target != target {
            left.push(e);
        }
        i = i + 1;
    }
    s.registry = left;
}

/// A channel that was taken off the registry is not in it.
pub proof fn law_unregistered_is_gone(reg: Seq<Registration>, target: u64, n: nat)
    requires
        n <= reg.len(),
    ensures
        forall|i: int|
            0 <= i < without_target(reg, target, n).len() ==> (#[trigger] without_target(
                reg,
                target,
                n,
            )[i]).target != target,
    decreases n,
{
    if n > 0 {
        law_unregistered_is_gone(reg, target, (n - 1) as nat);
        let before = without_target(reg, target, (n - 1) as nat);
        let after = without_target(reg, target, n);
        assert forall|i: int| 0 <= i < after.len() implies (#[trigger] after[i]).target
            != target by {
            if i < before.len() {
                assert(after[i] == before[i]);
            }
        }
    }
}

// ---- handing on ----

/// The channels among the first `n` entries that want a signal, in order.
pub open spec fn interested(reg: Seq<Registration>, sig: int, n: nat) -> Seq<u64>
    decreases n,
{
    if n == 0 {
        Seq::empty()
    } else {
        let before = interested(reg, sig, (n - 1) as nat);
        if has(reg[n - 1].sigs, sig) {
            before.push(reg[n - 1].target)
        } else {
            before
        }
    }
}

/// A signal handed to a channel.
#[derive(Clone, Copy, Debug, PartialEq, Eq, Structural)]
pub struct Delivery {
    pub target: u64,
    pub sig: i32,
}

/// One delivery of a signal to each of the channels.
pub open spec fn one_round(targets: Seq<u64>, sig: i32) -> Seq<Delivery> {
    Seq::new(targets.len(), |i: int| Delivery { target: targets[i], sig })
}

/// As many rounds as the signal has arrived.
pub open spec fn rounds(targets: Seq<u64>, sig: i32, n: int) -> Seq<Delivery>
    decreases n,
{
    if n <= 0 {
        Seq::empty()
    } else {
        rounds(targets, sig, n - 1) + one_round(targets, sig)
    }
}

/// What is delivered for the signals below `n`.
pub open spec fn deliveries(s: Signals, n: nat) -> Seq<Delivery>
    decreases n,
{
    if n <= 1 {
        Seq::empty()
    } else {
        let sig = (n - 1) as int;
        deliveries(s, (n - 1) as nat) + rounds(
            interested(s.registry@, sig, s.registry@.len()),
            sig as i32,
            s.count@[sig].wrapping_sub(s.last_seen@[sig]) as int,
        )
    }
}

fn find_interested(reg: &Vec<Registration>, sig: i32) -> (r: Vec<u64>)
    requires
        0 <= sig < MAX_SIG,
    ensures
        r@ == interested(reg@, sig as int, reg@.len()),
{
    let mut r: Vec<u64> = Vec::new();
    let mut i: usize = 0;
    let bit: u64 = 1u64 << (sig as u64);
    while i < reg.len()
        invariant
            i <= reg@.len(),
            0 <= sig < MAX_SIG,
            bit == 1u64 << (sig as u64),
            r@ == interested(reg@, sig as int, i as nat),
        decreases reg@.len() - i,
    {
        let e = reg[i];
        if e.sigs & bit != 0 {
            r.push(e.target);
        }
        i = i + 1;
    }
    r
}

fn push_round(out: &mut Vec<Delivery>, targets: &Vec<u64>, sig: i32)
    ensures
        final(out)@ == old(out)@ + one_round(targets@, sig),
{
    let mut i: usize = 0;
    while i < targets.len()
        invariant
            i <= targets@.len(),
            out@ == old(out)@ + one_round(targets@, sig).subrange(0, i as int),
        decreases targets@.len() - i,
    {
        out.push(Delivery { target: targets[i], sig });
        i = i + 1;
        assert(out@ =~= old(out)@ + one_round(targets@, sig).subrange(0, i as int));
    }
    assert(one_round(targets@, sig).subrange(0, i as int) =~= one_round(targets@, sig));
}

/// Hands on the signals that have arrived: for each, in order of its number,
/// one delivery to every channel that wants it per arrival.
pub fn dispatch_pending(s: &mut Signals) -> (out: Vec<Delivery>)
    requires
        old(s).wf(),
    ensures
        final(s).wf(),
        final(s).count == old(s).count,
        final(s).registry == old(s).registry,
        final(s).last_seen@ == old(s).count@.update(0, old(s).last_seen@[0]),
        out@ == deliveries(*old(s), MAX_SIG as nat),
{
    let mut out: Vec<Delivery> = Vec::new();
    let mut sig: i32 = 1;
    while sig < MAX_SIG as i32
        invariant
            1 <= sig <= MAX_SIG,
            s.wf(),
            old(s).wf(),
            s.count == old(s).count,
            s.registry == old(s).registry,
            s.last_seen@[0] == old(s).last_seen@[0],
            forall|k: int| 1 <= k < sig ==> #[trigger] s.last_seen@[k] == old(s).count@[k],
            forall|k: int|
                sig <= k < MAX_SIG ==> #[trigger] s.last_seen@[k] == old(s).last_seen@[k],
            out@ == deliveries(*old(s), sig as nat),
        decreases MAX_SIG - sig,
    {
        let ghost before = out@;
        let n: i64 = drain_count(s, sig);
        assert(n == old(s).count@[sig as int].wrapping_sub(old(s).last_seen@[sig as int]));
        let targets = find_interested(&s.registry, sig);
        let mut k: i64 = 0;
        assert(before + Seq::<Delivery>::empty() =~= before);
        while k < n
            invariant
                0 <= k,
                n > 0 ==> k <= n,
                n <= 0 ==> k == 0,
                out@ == before + rounds(targets@, sig, k as int),
            decreases n - k,
        {
            let ghost mid = out@;
            push_round(&mut out, &targets, sig);
            k = k + 1;
            assert(out@ =~= before + rounds(targets@, sig, k as int));
        }
        assert(rounds(targets@, sig, k as int) == rounds(targets@, sig, n as int));
        sig = sig + 1;
    }
    assert(s.last_seen@ =~= old(s).count@.update(0, old(s).last_seen@[0]));
    out
}

/// Once the arrived signals have been handed on, nothing more is until another
/// arrives.
pub proof fn law_nothing_is_delivered_twice(s: Signals, n: nat)
    requires
        s.wf(),
        n <= MAX_SIG,
        forall|i: int| 1 <= i < MAX_SIG ==> #[trigger] s.last_seen@[i] == s.count@[i],
    ensures
        deliveries(s, n) == Seq::<Delivery>::empty(),
    decreases n,
{
    if n > 1 {
        law_nothing_is_delivered_twice(s, (n - 1) as nat);
        let sig = (n - 1) as int;
        assert(s.last_seen@[sig] == s.count@[sig]);
        assert(deliveries(s, n) =~= Seq::empty());
    }
}

// ---- dispositions ----

/// How a handler is installed.
pub const SA_RESTORER: u64 = 0x0400_0000;

pub const SA_RESTART: u64 = 0x1000_0000;

/// What to do when a signal comes.
#[derive(Clone, Copy, Debug, PartialEq, Eq, Structural)]
pub enum Handler {
    Default,
    Ignore,
    /// Count it, with `goish_sigtramp`.
    Count,
}

/// A request to the kernel for a signal.
#[derive(Clone, Copy, Debug, PartialEq, Eq, Structural)]
pub struct Disposition {
    pub sig: i32,
    pub handler: Handler,
    pub flags: u64,
}

pub open spec fn handler_flags() -> u64 {
    SA_RESTORER | SA_RESTART
}

/// Installs the counting handler of a signal.
pub fn install_handler(sig: i32) -> (r: Disposition)
    ensures
        r == (Disposition { sig, handler: Handler::Count, flags: handler_flags() }),
{
    Disposition { sig, handler: Handler::Count, flags: SA_RESTORER | SA_RESTART }
}

/// Ignores a signal, if it is tracked and can be.
pub fn ignore_signal(sig: i32) -> (r: Option<Disposition>)
    ensures
        r == (if 0 <= sig < MAX_SIG && sig != SIGKILL && sig != SIGSTOP {
            Some(Disposition { sig, handler: Handler::Ignore, flags: handler_flags() })
        } else {
            None
        }),
{
    if sig < 0 || sig >= MAX_SIG as i32 || sig == SIGKILL || sig == SIGSTOP {
        return None;
    }
    Some(Disposition { sig, handler: Handler::Ignore, flags: SA_RESTORER | SA_RESTART })
}

/// Whether the kernel is to be asked what it does with a signal.
pub fn is_ignored(sig: i32) -> (ask: bool)
    ensures
        ask == (0 <= sig < MAX_SIG),
{
    0 <= sig && sig < MAX_SIG as i32
}

/// Whether a signal is ignored, by the kernel's answer: a return code and the
/// handler's address, which is one for a signal that is ignored.
pub fn ignored_answer(rc: i64, handler: usize) -> (r: bool)
    ensures
        r == (rc >= 0 && handler == 1),
{
    rc >= 0 && handler == 1
}

// ---- laws ----

/// The tracked signals of a list are those from 0 to 63, in its order.
pub proof fn law_tracked_signals(sigs: Seq<i32>, n: nat)
    requires
        n <= sigs.len(),
    ensures
        tracked_sigs(sigs, n) == sigs.take(n as int).filter(|x: i32| 0 <= x < 64),
    decreases n,
{
    reveal(Seq::filter);
    if n > 0 {
        law_tracked_signals(sigs, (n - 1) as nat);
        assert(sigs.take(n as int).drop_last() =~= sigs.take(n - 1));
    }
}

/// A request without a list is for all signals from 1 to 63 but 9 and 19, which
/// cannot be caught; one with a list is for those of the list.
pub proof fn law_request_in_numbers(sigs: Seq<i32>, s: i32)
    requires
        0 <= s < 64,
    ensures
        has(bits_of(wanted(Seq::empty()), wanted(Seq::empty()).len()), s as int) <==> s != 0 && s != 9
            && s != 19,
        sigs.len() > 0 ==> (has(bits_of(wanted(sigs), wanted(sigs).len()), s as int)
            <==> sigs.contains(s)),
{
    law_request_is_exact(Seq::empty(), s);
    law_request_is_exact(sigs, s);
}

/// The channels that want a signal, in the order of their registration.
pub proof fn law_interested_channels(reg: Seq<Registration>, sig: int, n: nat)
    requires
        n <= reg.len(),
    ensures
        interested(reg, sig, n) == reg.take(n as int).filter(
            |r: Registration| has(r.sigs, sig),
        ).map_values(|r: Registration| r.target),
    decreases n,
{
    reveal(Seq::filter);
    let f = |r: Registration| has(r.sigs, sig);
    let g = |r: Registration| r.target;
    if n > 0 {
        law_interested_channels(reg, sig, (n - 1) as nat);
        assert(reg.take(n as int).drop_last() =~= reg.take(n - 1));
        let before = reg.take(n - 1).filter(f);
        assert(before.push(reg[n - 1]).map_values(g) =~= before.map_values(g).push(
            reg[n - 1].target,
        ));
    } else {
        assert(reg.take(0).filter(f).map_values(g) =~= Seq::empty());
    }
}

/// Taking a channel off leaves the other registrations, as they are and in
/// their order.
pub proof fn law_other_channels_stay(reg: Seq<Registration>, target: u64, n: nat)
    requires
        n <= reg.len(),
    ensures
        without_target(reg, target, n) == reg.take(n as int).filter(
            |r: Registration| r.target != target,
        ),
    decreases n,
{
    reveal(Seq::filter);
    if n > 0 {
        law_other_channels_stay(reg, target, (n - 1) as nat);
        assert(reg.take(n as int).drop_last() =~= reg.take(n - 1));
    }
}

proof fn lemma_bit_left(x: u64, bits: u64, s: int)
    requires
        0 <= s < 64,
    ensures
        has(x & !bits, s) <==> has(x, s) && !(has(bits, s)),
        !(has(0, s)),
{
    let w = s as u64;
    assert(((x & !bits) & (1u64 << w) != 0 <==> (x & (1u64 << w) != 0 && bits & (1u64 << w) == 0))
        && 0u64 & (1u64 << w) == 0) by (bit_vector);
}

/// A channel that wants a signal goes on wanting it, unless the signal is
/// cancelled.
pub proof fn law_uncancelled_signal_stays(
    reg: Seq<Registration>,
    bits: u64,
    n: nat,
    j: int,
    s: int,
) -> (i: int)
    requires
        0 <= j < n <= reg.len(),
        0 <= s < 64,
        has(reg[j].sigs, s),
        !(has(bits, s)),
    ensures
        0 <= i < without_sigs(reg, bits, n).len(),
        without_sigs(reg, bits, n)[i].target == reg[j].target,
        has(without_sigs(reg, bits, n)[i].sigs, s),
    decreases n,
{
    lemma_bit_left(reg[j].sigs, bits, s);
    if j == n - 1 {
        without_sigs(reg, bits, n).len() - 1
    } else {
        law_uncancelled_signal_stays(reg, bits, (n - 1) as nat, j, s)
    }
}

/// What a channel wants after a cancel, it wanted before, and it is not among
/// the cancelled signals.
pub proof fn law_cancelled_signal_is_gone(
    reg: Seq<Registration>,
    bits: u64,
    n: nat,
    i: int,
    s: int,
) -> (j: int)
    requires
        n <= reg.len(),
        0 <= i < without_sigs(reg, bits, n).len(),
        0 <= s < 64,
        has(without_sigs(reg, bits, n)[i].sigs, s),
    ensures
        0 <= j < n,
        reg[j].target == without_sigs(reg, bits, n)[i].target,
        has(reg[j].sigs, s),
        !(has(bits, s)),
    decreases n,
{
    lemma_bit_left(reg[n - 1].sigs, bits, s);
    let before = without_sigs(reg, bits, (n - 1) as nat);
    if i == before.len() {
        n - 1
    } else {
        law_cancelled_signal_is_gone(reg, bits, (n - 1) as nat, i, s)
    }
}

/// A list cancels the signals that it holds, and an empty list all.
pub proof fn law_cancelled_signals(sigs: Seq<i32>, s: i32)
    requires
        0 <= s < 64,
        sigs.len() > 0,
    ensures
        has(cancelled_bits(sigs), s as int) <==> sigs.contains(s),
        cancelled_bits(Seq::empty()) == 0xffff_ffff_ffff_ffff,
{
    law_request_is_exact(sigs, s);
}

/// How many times an item occurs.
pub open spec fn times<A>(s: Seq<A>, x: A) -> nat
    decreases s.len(),
{
    if s.len() == 0 {
        0
    } else {
        times(s.drop_last(), x) + (if s.last() == x {
            1nat
        } else {
            0
        })
    }
}

proof fn lemma_times_add<A>(a: Seq<A>, b: Seq<A>, x: A)
    ensures
        times(a + b, x) == times(a, x) + times(b, x),
    decreases b.len(),
{
    if b.len() == 0 {
        assert(a + b =~= a);
    } else {
        lemma_times_add(a, b.drop_last(), x);
        assert((a + b).drop_last() =~= a + b.drop_last());
    }
}

proof fn lemma_times_in_round(targets: Seq<u64>, sig: i32, x: Delivery)
    ensures
        times(one_round(targets, sig), x) == (if x.sig == sig {
            times(targets, x.target)
        } else {
            0
        }),
    decreases targets.len(),
{
    if targets.len() > 0 {
        lemma_times_in_round(targets.drop_last(), sig, x);
        assert(one_round(targets, sig).drop_last() =~= one_round(targets.drop_last(), sig));
    }
}

proof fn lemma_times_in_rounds(targets: Seq<u64>, sig: i32, n: int, x: Delivery)
    ensures
        n <= 0 || x.sig != sig ==> times(rounds(targets, sig, n), x) == 0,
        n > 0 && x.sig == sig && times(targets, x.target) == 0 ==> times(rounds(targets, sig, n), x)
            == 0,
        n > 0 && x.sig == sig && times(targets, x.target) == 1 ==> times(rounds(targets, sig, n), x)
            == n,
    decreases n,
{
    if n > 0 {
        lemma_times_in_rounds(targets, sig, n - 1, x);
        lemma_times_add(rounds(targets, sig, n - 1), one_round(targets, sig), x);
        lemma_times_in_round(targets, sig, x);
    }
}

proof fn lemma_interested_once(reg: Seq<Registration>, sig: int, n: nat, j: int, target: u64)
    requires
        one_each(reg),
        n <= reg.len(),
        0 <= j < reg.len(),
        reg[j].target == target,
    ensures
        times(interested(reg, sig, n), target) == (if j < n && has(reg[j].sigs, sig) {
            1nat
        } else {
            0
        }),
    decreases n,
{
    if n > 0 {
        lemma_interested_once(reg, sig, (n - 1) as nat, j, target);
        let before = interested(reg, sig, (n - 1) as nat);
        if n - 1 < j {
            assert(reg[n - 1].target != reg[j].target);
        } else if n - 1 > j {
            assert(reg[j].target != reg[n - 1].target);
        }
        if has(reg[n - 1].sigs, sig) {
            assert(before.push(reg[n - 1].target).drop_last() =~= before);
        }
    }
}

proof fn lemma_times_delivered(s: Signals, n: nat, j: int, sig: i32)
    requires
        s.wf(),
        n <= 64,
        0 <= j < s.registry@.len(),
        1 <= sig < 64,
        i64::MIN <= s.count@[sig as int] - s.last_seen@[sig as int] <= i64::MAX,
    ensures
        times(deliveries(s, n), Delivery { target: s.registry@[j].target, sig }) == (if sig < n && has(
            s.registry@[j].sigs,
            sig as int,
        ) && s.count@[sig as int] > s.last_seen@[sig as int] {
            s.count@[sig as int] - s.last_seen@[sig as int]
        } else {
            0
        }),
    decreases n,
{
    if n > 1 {
        lemma_times_delivered(s, (n - 1) as nat, j, sig);
        let t = (n - 1) as int;
        let x = Delivery { target: s.registry@[j].target, sig };
        let targets = interested(s.registry@, t, s.registry@.len());
        let k = s.count@[t].wrapping_sub(s.last_seen@[t]) as int;
        lemma_times_add(deliveries(s, (n - 1) as nat), rounds(targets, t as i32, k), x);
        lemma_times_in_rounds(targets, t as i32, k, x);
        lemma_interested_once(s.registry@, t, s.registry@.len(), j, x.target);
    }
}

/// A channel gets a signal that it wants as many times as the signal has
/// arrived since the last time, and one that it does not want never.
pub proof fn law_every_arrival_is_delivered(s: Signals, j: int, sig: i32, arrived: int)
    requires
        s.wf(),
        0 <= j < s.registry@.len(),
        1 <= sig < 64,
        s.count@[sig as int] == s.last_seen@[sig as int] + arrived,
        0 <= arrived <= i64::MAX,
    ensures
        has(s.registry@[j].sigs, sig as int) ==> times(
            deliveries(s, 64),
            Delivery { target: s.registry@[j].target, sig },
        ) == arrived,
        !(has(s.registry@[j].sigs, sig as int)) ==> times(
            deliveries(s, 64),
            Delivery { target: s.registry@[j].target, sig },
        ) == 0,
{
    lemma_times_delivered(s, 64, j, sig);
}

/// One more arrival of a signal is one more delivery to each channel that wants
/// it, and changes nothing for the other signals.
pub proof fn law_arrival_is_handed_on(
    s: Signals,
    after: Signals,
    came: i32,
    wake: bool,
    j: int,
    sig: i32,
)
    requires
        s.wf(),
        after.wf(),
        1 <= came < 64,
        arrives(s, after, came, wake),
        0 <= j < s.registry@.len(),
        1 <= sig < 64,
        s.count@[sig as int] < i64::MAX,
        0 <= s.count@[sig as int] - s.last_seen@[sig as int] < i64::MAX,
    ensures
        wake,
        times(deliveries(after, 64), Delivery { target: s.registry@[j].target, sig }) == times(
            deliveries(s, 64),
            Delivery { target: s.registry@[j].target, sig },
        ) + (if sig == came && has(s.registry@[j].sigs, sig as int) {
            1nat
        } else {
            0
        }),
{
    lemma_times_delivered(s, 64, j, sig);
    lemma_times_delivered(after, 64, j, sig);
}

/// Signals are handed on in the order of their numbers, and only to channels
/// that are registered for them.
pub proof fn law_deliveries_are_in_order(s: Signals, n: nat, a: int, b: int)
    requires
        s.wf(),
        n <= 64,
        0 <= a <= b < deliveries(s, n).len(),
    ensures
        1 <= deliveries(s, n)[a].sig <= deliveries(s, n)[b].sig < n,
    decreases n,
{
    if n > 1 {
        let before = deliveries(s, (n - 1) as nat);
        let t = (n - 1) as int;
        let targets = interested(s.registry@, t, s.registry@.len());
        let k = s.count@[t].wrapping_sub(s.last_seen@[t]) as int;
        let added = rounds(targets, t as i32, k);
        if a >= before.len() {
            lemma_rounds_are_of(targets, t as i32, k, a - before.len());
            assert(deliveries(s, n)[a] == added[a - before.len()]);
        }
        if b >= before.len() {
            lemma_rounds_are_of(targets, t as i32, k, b - before.len());
            assert(deliveries(s, n)[b] == added[b - before.len()]);
        }
        if b < before.len() {
            law_deliveries_are_in_order(s, (n - 1) as nat, a, b);
        } else if a < before.len() {
            law_deliveries_are_in_order(s, (n - 1) as nat, a, a);
        }
    }
}

proof fn lemma_rounds_are_of(targets: Seq<u64>, sig: i32, n: int, i: int)
    requires
        0 <= i < rounds(targets, sig, n).len(),
    ensures
        rounds(targets, sig, n)[i].sig == sig,
    decreases n,
{
    if n > 0 {
        let before = rounds(targets, sig, n - 1);
        if i < before.len() {
            lemma_rounds_are_of(targets, sig, n - 1, i);
        } else {
            assert(rounds(targets, sig, n)[i] == one_round(targets, sig)[i - before.len()]);
        }
    }
}

/// A round goes through the channels in their order.
pub proof fn law_round_goes_in_order(targets: Seq<u64>, sig: i32, n: int, i: int)
    requires
        n > 0,
        0 <= i < targets.len(),
    ensures
        rounds(targets, sig, n).len() == n * targets.len(),
        rounds(targets, sig, n)[(n - 1) * targets.len() + i] == (Delivery { target: targets[i], sig }),
    decreases n,
{
    if n == 1 {
        assert(rounds(targets, sig, 0).len() == 0);
        assert((n - 1) * targets.len() == 0) by (nonlinear_arith)
            requires
                n == 1,
        ;
        assert(rounds(targets, sig, 1) =~= one_round(targets, sig));
        assert(n * targets.len() == targets.len()) by (nonlinear_arith)
            requires
                n == 1,
        ;
    } else {
        law_round_goes_in_order(targets, sig, n - 1, i);
        assert((n - 1) * targets.len() + targets.len() == n * targets.len()) by (nonlinear_arith);
    }
}

/// Handlers are installed with a restorer, and so that calls restart.
pub proof fn law_handler_flags()
    ensures
        handler_flags() == 0x0400_0000 + 0x1000_0000,
{
    assert(0x0400_0000u64 | 0x1000_0000u64 == 0x1400_0000u64) by (bit_vector);
}

} // verus!
