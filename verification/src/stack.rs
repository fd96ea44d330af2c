//! Goroutine stacks: where they come from and where they go.

use vstd::prelude::*;

use crate::gostr::same_bytes;
use crate::{dwarf_util, segv};

verus! {

pub const DEFAULT_STACK_SIZE: usize = 2048;

pub const BARE_STACK_RESERVE: usize = 1048576;

pub const PAGE_SIZE: usize = 4096;

/// The unreadable page below a stack, where the kernel's pages have this size.
/// It is one page of the kernel, whatever that is: a smaller guard would make
/// the lowest part of the stack itself unreadable.
pub const GUARD_SIZE: usize = 4096;

/// How many reserved stacks are kept for use again.
pub const RESERVE_POOL_CAP: usize = 256;

/// A stack that is from no pool span.
pub const NIL_SPAN: u32 = 0;

/// The size of reserved stacks, those kept for use again (address and size),
/// and the size of the guard below each.
pub struct StackPool {
    pub guard: usize,
    pub bare: usize,
    pub pool: Vec<(usize, usize)>,
}

/// There is a guard below every kept stack.
pub open spec fn guarded_below(pool: Seq<(usize, usize)>, guard: usize) -> bool {
    forall|i: int|
        0 <= i < pool.len() ==> guard <= (#[trigger] pool[i]).0 && pool[i].1 <= usize::MAX - guard
}

/// Every kept stack has that size.
pub open spec fn uniform(pool: Seq<(usize, usize)>, bare: usize) -> bool {
    forall|i: int| 0 <= i < pool.len() ==> (#[trigger] pool[i]).1 == bare
}

impl StackPool {
    /// No more stacks are kept than the limit, and only such as have the
    /// current size.
    pub open spec fn wf(&self) -> bool {
        &&& self.pool@.len() <= RESERVE_POOL_CAP
        &&& guarded_below(self.pool@, self.guard)
        &&& uniform(self.pool@, self.bare)
    }

    /// An empty pool, for a kernel with pages of size `guard`.
    pub fn new(guard: usize) -> (r: Self)
        ensures
            r.wf(),
            r.guard == guard,
            r.bare == BARE_STACK_RESERVE,
            r.pool@.len() == 0,
    {
        StackPool { guard, bare: BARE_STACK_RESERVE, pool: Vec::new() }
    }
}

pub fn bare_reserve(sp: &StackPool) -> (r: usize)
    ensures
        r == sp.bare,
{
    sp.bare
}

pub fn reserve_pool_len(sp: &StackPool) -> (r: usize)
    ensures
        r == sp.pool@.len(),
{
    sp.pool.len()
}

/// The next multiple of the page size.
pub open spec fn page_up(n: int) -> int {
    (n + PAGE_SIZE - 1) / (PAGE_SIZE as int) * PAGE_SIZE
}

pub fn round_up_to_page(n: usize) -> (r: usize)
    requires
        n <= usize::MAX - (PAGE_SIZE - 1),
    ensures
        r == page_up(n as int),
        n <= r < n + PAGE_SIZE,
        r % PAGE_SIZE == 0,
{
    (n + (PAGE_SIZE - 1)) / PAGE_SIZE * PAGE_SIZE
}

/// The size that a request for reserved stacks is rounded to.
pub open spec fn reserve_size(bytes: usize) -> int {
    page_up(if bytes < 2 * PAGE_SIZE {
        2 * PAGE_SIZE as int
    } else {
        bytes as int
    })
}

/// The size is the least whole number of pages that holds the request, and two
/// pages at least.
pub proof fn law_reserve_is_least(bytes: usize, pages: int)
    ensures
        reserve_size(bytes) % PAGE_SIZE as int == 0,
        reserve_size(bytes) >= bytes,
        reserve_size(bytes) >= 2 * PAGE_SIZE,
        pages * PAGE_SIZE >= bytes && pages >= 2 ==> pages * PAGE_SIZE >= reserve_size(bytes),
{
}

/// A pool without its entry `i`, whose place the last one takes.
pub open spec fn swap_removed(pool: Seq<(usize, usize)>, i: int) -> Seq<(usize, usize)> {
    pool.update(i, pool.last()).drop_last()
}

/// The pool without the stacks of another size, looked through from entry `i`
/// on, and those stacks in the order in which they were taken out.
pub open spec fn flushed(pool: Seq<(usize, usize)>, want: usize, i: int) -> (
    Seq<(usize, usize)>,
    Seq<(usize, usize)>,
)
    decreases pool.len() - i,
{
    if i < 0 || i >= pool.len() {
        (pool, Seq::empty())
    } else if pool[i].1 != want {
        let (left, stale) = flushed(swap_removed(pool, i), want, i);
        (left, seq![pool[i]] + stale)
    } else {
        flushed(pool, want, i + 1)
    }
}

/// The mapping of a kept stack, guard included.
pub open spec fn mapping_of(e: (usize, usize), guard: usize) -> (usize, usize) {
    ((e.0 - guard) as usize, (e.1 + guard) as usize)
}

pub open spec fn mappings_of(pool: Seq<(usize, usize)>, guard: usize) -> Seq<(usize, usize)> {
    pool.map_values(|e: (usize, usize)| mapping_of(e, guard))
}

/// Sets the size of reserved stacks, and returns the size before and the
/// mappings to give up: when the size changes, those of the kept stacks of
/// another size.
pub fn set_bare_reserve(sp: &mut StackPool, bytes: usize) -> (r: (usize, Vec<(usize, usize)>))
    requires
        old(sp).wf(),
        bytes <= usize::MAX - (PAGE_SIZE - 1),
    ensures
        final(sp).wf(),
        final(sp).guard == old(sp).guard,
        r.0 == old(sp).bare,
        final(sp).bare == reserve_size(bytes),
        if final(sp).bare == old(sp).bare {
            final(sp).pool@ == old(sp).pool@ && r.1@.len() == 0
        } else {
            let (left, stale) = flushed(old(sp).pool@, final(sp).bare, 0);
            &&& final(sp).pool@ == left
            &&& r.1@ == mappings_of(stale, old(sp).guard)
        },
{
    let least: usize = if bytes < 2 * PAGE_SIZE {
        2 * PAGE_SIZE
    } else {
        bytes
    };
    let want: usize = round_up_to_page(least);
    let guard: usize = sp.guard;
    let prev: usize = sp.bare;
    sp.bare = want;
    let mut stale: Vec<(usize, usize)> = Vec::new();
    if prev != want {
        let ghost all = flushed(sp.pool@, want, 0);
        let mut i: usize = 0;
        proof {
            law_flush_sorts_out(sp.pool@, want, 0);
            assert(stale@ + mappings_of(all.1, guard) =~= mappings_of(all.1, guard));
        }
        while i < sp.pool.len()
            invariant
                i <= sp.pool@.len(),
                sp.pool@.len() <= RESERVE_POOL_CAP,
                guarded_below(sp.pool@, guard),
                sp.guard == guard,
                sp.bare == want,
                ({
                    let rest = flushed(sp.pool@, want, i as int);
                    &&& all.0 == rest.0
                    &&& mappings_of(all.1, guard) == stale@ + mappings_of(rest.1, guard)
                }),
            decreases sp.pool@.len() - i,
        {
            if sp.pool[i].1 != want {
                let ghost pool = sp.pool@;
                let ghost before = stale@;
                assert(guard <= pool[i as int].0 && pool[i as int].1 <= usize::MAX - guard);
                let e = sp.pool.swap_remove(i);
                stale.push((e.0 - guard, e.1 + guard));
                proof {
                    assert(sp.pool@ =~= swap_removed(pool, i as int));
                    let whole = flushed(pool, want, i as int).1;
                    let rest = flushed(sp.pool@, want, i as int).1;
                    assert(before + mappings_of(whole, guard) =~= stale@ + mappings_of(
                        rest,
                        guard,
                    ));
                    lemma_swap_removed_entries(pool, i as int);
                }
            } else {
                i = i + 1;
            }
        }
        assert(stale@ =~= mappings_of(all.1, guard));
    }
    (prev, stale)
}

/// What is left after one entry was taken out was there before.
proof fn lemma_swap_removed_entries(pool: Seq<(usize, usize)>, i: int)
    requires
        0 <= i < pool.len(),
    ensures
        forall|k: int|
            0 <= k < swap_removed(pool, i).len() ==> pool.contains(
                #[trigger] swap_removed(pool, i)[k],
            ),
        forall|guard: usize|
            guarded_below(pool, guard) ==> #[trigger] guarded_below(swap_removed(pool, i), guard),
        forall|bare: usize|
            uniform(pool, bare) ==> #[trigger] uniform(swap_removed(pool, i), bare),
{
    let r = swap_removed(pool, i);
    assert forall|k: int| 0 <= k < r.len() implies pool.contains(#[trigger] r[k]) by {
        if k == i {
            assert(r[k] == pool[pool.len() - 1]);
        } else {
            assert(r[k] == pool[k]);
        }
    }
    assert forall|guard: usize| guarded_below(pool, guard) implies #[trigger] guarded_below(
        r,
        guard,
    ) by {
        assert forall|k: int| 0 <= k < r.len() implies guard <= (#[trigger] r[k]).0 && r[k].1
            <= usize::MAX - guard by {
            assert(pool.contains(r[k]));
        }
    }
    assert forall|bare: usize| uniform(pool, bare) implies #[trigger] uniform(r, bare) by {
        assert forall|k: int| 0 <= k < r.len() implies (#[trigger] r[k]).1 == bare by {
            assert(pool.contains(r[k]));
        }
    }
}

/// Changing the size leaves only stacks of the new size, gives up only others,
/// and loses none.
pub proof fn law_flush_sorts_out(pool: Seq<(usize, usize)>, want: usize, i: int)
    requires
        0 <= i <= pool.len(),
        forall|k: int| 0 <= k < i ==> (#[trigger] pool[k]).1 == want,
    ensures
        ({
            let (left, stale) = flushed(pool, want, i);
            &&& forall|k: int| 0 <= k < left.len() ==> (#[trigger] left[k]).1 == want
            &&& forall|k: int| 0 <= k < stale.len() ==> (#[trigger] stale[k]).1 != want
            &&& left.to_multiset().add(stale.to_multiset()) == pool.to_multiset()
        }),
    decreases pool.len() - i,
{
    broadcast use vstd::seq_lib::group_to_multiset_ensures;

    let (left, stale) = flushed(pool, want, i);
    if i == pool.len() {
        assert(left.to_multiset().add(stale.to_multiset()) =~= pool.to_multiset());
    } else if pool[i].1 != want {
        let next = swap_removed(pool, i);
        assert forall|k: int| 0 <= k < i implies (#[trigger] next[k]).1 == want by {
            assert(next[k] == pool[k]);
        }
        law_flush_sorts_out(next, want, i);
        let (l, s) = flushed(next, want, i);
        lemma_swap_removed(pool, i);
        assert(stale =~= seq![pool[i]] + s);
        assert(stale =~= s.insert(0, pool[i]));
        assert(stale.to_multiset() =~= s.to_multiset().insert(pool[i]));
        assert(left.to_multiset().add(stale.to_multiset()) =~= l.to_multiset().add(
            s.to_multiset(),
        ).insert(pool[i]));
        assert forall|k: int| 0 <= k < stale.len() implies (#[trigger] stale[k]).1 != want by {
            if k > 0 {
                assert(stale[k] == s[k - 1]);
            }
        }
    } else {
        law_flush_sorts_out(pool, want, i + 1);
    }
}

proof fn lemma_swap_removed(pool: Seq<(usize, usize)>, i: int)
    requires
        0 <= i < pool.len(),
    ensures
        swap_removed(pool, i).to_multiset().insert(pool[i]) == pool.to_multiset(),
{
    broadcast use vstd::seq_lib::group_to_multiset_ensures;

    let last = pool.last();
    let up = pool.update(i, last);
    let front = up.drop_last();
    assert(up =~= front.push(last));
    assert(up.to_multiset() =~= pool.to_multiset().insert(last).remove(pool[i]));
    assert(up.to_multiset() =~= front.to_multiset().insert(last));
    assert(pool.to_multiset().contains(pool[i])) by {
        assert(pool.contains(pool[i]));
    }
    assert(front.to_multiset().insert(pool[i]) =~= pool.to_multiset()) by {
        assert forall|x: (usize, usize)|
            front.to_multiset().insert(pool[i]).count(x) == pool.to_multiset().count(x) by {
            assert(up.to_multiset().count(x) == front.to_multiset().insert(last).count(x));
            assert(up.to_multiset().count(x) == pool.to_multiset().insert(last).remove(
                pool[i],
            ).count(x));
        }
    }
}

pub struct Stack {
    pub base: usize,
    pub size: usize,
    /// Whether the stack is given back when it is dropped.
    pub owned: bool,
    pub pool_span_idx: u32,
    /// Whether a guard page lies below it.
    pub guarded: bool,
}

/// Where the memory of a new stack comes from.
#[derive(Clone, Copy, Debug, PartialEq, Eq, Structural)]
pub enum Source {
    /// A slot of a stack pool.
    Pool { base: usize, span_idx: u32, size: usize },
    /// A mapping that starts with a guard of that size.
    Mapped { map_base: usize, guard: usize },
}

/// A reserved stack.
pub enum Reserved {
    /// One that was kept.
    Ready(Stack),
    /// One to be mapped: that many bytes, guard included.
    Fresh(usize),
}

/// The last of the first `n` kept stacks that has a size.
pub open spec fn last_of_size(pool: Seq<(usize, usize)>, want: usize, n: nat) -> Option<int>
    decreases n,
{
    if n == 0 {
        None
    } else if pool[n - 1].1 == want {
        Some(n - 1)
    } else {
        last_of_size(pool, want, (n - 1) as nat)
    }
}

/// How many bytes to map for a stack of that size: a guard more.
pub fn guarded_mmap(usable: usize, guard: usize) -> (total: usize)
    requires
        usable <= usize::MAX - guard,
    ensures
        total == usable + guard,
{
    usable + guard
}

impl Stack {
    pub open spec fn wf(&self) -> bool {
        self.base + self.size <= usize::MAX
    }

    /// How many bytes to ask the stack pools for.
    pub fn request(requested: usize) -> (r: usize)
        ensures
            r == (if requested == 0 {
                1
            } else {
                requested
            }),
    {
        if requested == 0 {
            1
        } else {
            requested
        }
    }

    /// A stack of the default size.
    pub fn new(source: Source) -> (r: Self)
        requires
            source matches Source::Mapped { map_base, guard } ==> map_base <= usize::MAX - guard,
        ensures
            r == sized(DEFAULT_STACK_SIZE, source),
    {
        Self::new_sized(DEFAULT_STACK_SIZE, source)
    }

    /// A stack of at least that size: a pool's slot as it is, or whole pages of
    /// a mapping above its guard.
    pub fn new_sized(requested: usize, source: Source) -> (r: Self)
        requires
            source matches Source::Mapped { map_base, guard } ==> map_base <= usize::MAX - guard
                && requested <= usize::MAX - (PAGE_SIZE - 1),
        ensures
            r == sized(requested, source),
    {
        match source {
            Source::Pool { base, span_idx, size } => Stack {
                base,
                size,
                owned: true,
                pool_span_idx: span_idx,
                guarded: false,
            },
            Source::Mapped { map_base, guard } => {
                let size: usize = round_up_to_page(Self::request(requested));
                Stack {
                    base: map_base + guard,
                    size,
                    owned: true,
                    pool_span_idx: NIL_SPAN,
                    guarded: true,
                }
            },
        }
    }

    /// A reserved stack: the one of the current size that was kept last, else
    /// a mapping to be made.
    pub fn new_reserved(sp: &mut StackPool) -> (r: Reserved)
        requires
            old(sp).wf(),
            old(sp).pool@.len() == 0 ==> old(sp).bare <= usize::MAX - old(sp).guard,
        ensures
            final(sp).wf(),
            final(sp).bare == old(sp).bare,
            final(sp).guard == old(sp).guard,
            reserves(*old(sp), *final(sp), r),
    {
        let want: usize = sp.bare;
        let mut i: usize = sp.pool.len();
        while i > 0
            invariant
                i <= sp.pool@.len(),
                sp.wf(),
                *sp == *old(sp),
                want == sp.bare,
                last_of_size(sp.pool@, want, sp.pool@.len()) == last_of_size(
                    sp.pool@,
                    want,
                    i as nat,
                ),
            decreases i,
        {
            i = i - 1;
            if sp.pool[i].1 == want {
                let ghost pool = sp.pool@;
                let e = sp.pool.swap_remove(i);
                proof {
                    assert(sp.pool@ =~= swap_removed(pool, i as int));
                    lemma_swap_removed_entries(pool, i as int);
                }
                return Reserved::Ready(
                    Stack {
                        base: e.0,
                        size: want,
                        owned: true,
                        pool_span_idx: NIL_SPAN,
                        guarded: true,
                    },
                );
            }
        }
        Reserved::Fresh(guarded_mmap(want, sp.guard))
    }

    /// A stack that belongs to somebody else.
    pub fn adopted(base: usize, size: usize) -> (r: Self)
        ensures
            r == (Stack { base, size, owned: false, pool_span_idx: NIL_SPAN, guarded: false }),
    {
        Stack { base, size, owned: false, pool_span_idx: NIL_SPAN, guarded: false }
    }

    pub fn top(&self) -> (r: usize)
        requires
            self.wf(),
        ensures
            r == self.base + self.size,
    {
        self.base + self.size
    }

    pub fn base(&self) -> (r: usize)
        ensures
            r == self.base,
    {
        self.base
    }

    pub fn size(&self) -> (r: usize)
        ensures
            r == self.size,
    {
        self.size
    }

    /// What happens to a stack that is dropped: an adopted one stays, a pool's
    /// one goes back to the pool, a reserved one of the current size is kept
    /// while there is room, and any other is unmapped with its guard.
    pub fn discard(self, sp: &mut StackPool) -> (r: Discard)
        requires
            old(sp).wf(),
            self.guarded ==> self.base >= old(sp).guard && self.size <= usize::MAX - old(sp).guard,
        ensures
            final(sp).wf(),
            final(sp).bare == old(sp).bare,
            final(sp).guard == old(sp).guard,
            discards(self, *old(sp), *final(sp), r),
    {
        if !self.owned {
            return Discard::Nothing;
        }
        if self.pool_span_idx != NIL_SPAN {
            return Discard::PoolFree { span: self.pool_span_idx, base: self.base };
        }
        if self.guarded {
            let current = self.size == sp.bare;
            if current && sp.pool.len() < RESERVE_POOL_CAP {
                sp.pool.push((self.base, self.size));
                return Discard::Kept { base: self.base, size: self.size };
            }
            return Discard::Unmap {
                advise: current,
                base: self.base - sp.guard,
                size: self.size + sp.guard,
            };
        }
        Discard::Unmap { advise: false, base: self.base, size: self.size }
    }
}

/// A stack of at least that size from a source.
pub open spec fn sized(requested: usize, source: Source) -> Stack {
    match source {
        Source::Pool { base, span_idx, size } => Stack {
            base,
            size,
            owned: true,
            pool_span_idx: span_idx,
            guarded: false,
        },
        Source::Mapped { map_base, guard } => Stack {
            base: (map_base + guard) as usize,
            size: page_up(
                if requested == 0 {
                    1
                } else {
                    requested as int
                },
            ) as usize,
            owned: true,
            pool_span_idx: NIL_SPAN,
            guarded: true,
        },
    }
}

/// `after` and `r` follow a wish for a reserved stack.
pub open spec fn reserves(sp: StackPool, after: StackPool, r: Reserved) -> bool {
    match last_of_size(sp.pool@, sp.bare, sp.pool@.len()) {
        Some(i) => {
            &&& 0 <= i < sp.pool@.len()
            &&& r == Reserved::Ready(
                Stack {
                    base: sp.pool@[i].0,
                    size: sp.bare,
                    owned: true,
                    pool_span_idx: NIL_SPAN,
                    guarded: true,
                },
            )
            &&& after.pool@ == swap_removed(sp.pool@, i)
        },
        None => {
            &&& r == Reserved::Fresh((sp.bare + sp.guard) as usize)
            &&& after.pool@ == sp.pool@
        },
    }
}

/// `after` and `r` follow the dropping of a stack.
pub open spec fn discards(s: Stack, sp: StackPool, after: StackPool, r: Discard) -> bool {
    let keeps = s.owned && s.pool_span_idx == NIL_SPAN && s.guarded
        && s.size == sp.bare && sp.pool@.len() < RESERVE_POOL_CAP;
    &&& r == (if !s.owned {
        Discard::Nothing
    } else if s.pool_span_idx != NIL_SPAN {
        Discard::PoolFree { span: s.pool_span_idx, base: s.base }
    } else if keeps {
        Discard::Kept { base: s.base, size: s.size }
    } else if s.guarded {
        Discard::Unmap {
            advise: s.size == sp.bare,
            base: (s.base - sp.guard) as usize,
            size: (s.size + sp.guard) as usize,
        }
    } else {
        Discard::Unmap { advise: false, base: s.base, size: s.size }
    })
    &&& after.pool@ == (if keeps {
        sp.pool@.push((s.base, s.size))
    } else {
        sp.pool@
    })
}

/// What to do with the memory of a dropped stack.
#[derive(Clone, Copy, Debug, PartialEq, Eq, Structural)]
pub enum Discard {
    Nothing,
    PoolFree { span: u32, base: usize },
    /// The memory may be dropped, the mapping stays.
    Kept { base: usize, size: usize },
    Unmap { advise: bool, base: usize, size: usize },
}

/// A reserved stack of the current size that was kept is the next one to be
/// handed out, and the pool is then as it was.
pub proof fn law_kept_stack_is_used_again(pool: Seq<(usize, usize)>, base: usize, size: usize)
    ensures
        last_of_size(pool.push((base, size)), size, pool.len() + 1) == Some(pool.len() as int),
        swap_removed(pool.push((base, size)), pool.len() as int) == pool,
{
    assert(swap_removed(pool.push((base, size)), pool.len() as int) =~= pool);
}

/// A stack that is handed out again has the current size: none of another size
/// is ever kept.
pub proof fn law_no_stale_stack(sp: StackPool)
    requires
        sp.wf(),
        sp.pool@.len() > 0,
    ensures
        last_of_size(sp.pool@, sp.bare, sp.pool@.len()) == Some(sp.pool@.len() - 1),
        forall|i: int| 0 <= i < sp.pool@.len() ==> (#[trigger] sp.pool@[i]).1 == sp.bare,
{
}

// ---- the main stack, from the kernel's list of mappings ----

pub open spec fn hex_nibble(c: u8) -> Option<int> {
    if 48 <= c <= 57 {
        Some(c - 48)
    } else if 97 <= c <= 102 {
        Some(c - 97 + 10)
    } else if 65 <= c <= 70 {
        Some(c - 65 + 10)
    } else {
        None
    }
}

/// The hexadecimal number at `p`, after `v` so far, and where it ends.
pub open spec fn hex_at(data: Seq<u8>, p: int, v: u64) -> (u64, int)
    decreases data.len() - p,
{
    if p < 0 || p >= data.len() || hex_nibble(data[p]) is None {
        (v, p)
    } else {
        hex_at(data, p + 1, dwarf_util::wrap64(16 * v + hex_nibble(data[p])->0))
    }
}

pub fn parse_hex(data: &[u8], p: &mut usize) -> (v: u64)
    requires
        *old(p) <= data.len(),
    ensures
        (v, *final(p) as int) == hex_at(data@, *old(p) as int, 0),
        *old(p) <= *final(p) <= data.len(),
{
    let mut v: u64 = 0;
    while *p < data.len()
        invariant_except_break
            *old(p) <= *p <= data.len(),
            hex_at(data@, *p as int, v) == hex_at(data@, *old(p) as int, 0),
        ensures
            *old(p) <= *p <= data.len(),
            (v, *p as int) == hex_at(data@, *old(p) as int, 0),
        decreases data.len() - *p,
    {
        let c: u8 = data[*p];
        let nibble: u64 = if 48 <= c && c <= 57 {
            (c - 48) as u64
        } else if 97 <= c && c <= 102 {
            (c - 97 + 10) as u64
        } else if 65 <= c && c <= 70 {
            (c - 65 + 10) as u64
        } else {
            break;
        };
        v = ((16 * (v as u128) + nibble as u128) % 0x1_0000_0000_0000_0000) as u64;
        *p = *p + 1;
    }
    v
}

/// The mark of the main stack's line: `[stack]`.
pub open spec fn stack_mark() -> Seq<u8> {
    seq![91u8, 115, 116, 97, 99, 107, 93]
}

/// Whether the mark of the main stack stands at `i`.
pub open spec fn marked(data: Seq<u8>, i: int) -> bool {
    0 <= i && i + stack_mark().len() <= data.len() && data.subrange(
        i,
        i + stack_mark().len(),
    ) == stack_mark()
}

/// Position of the first mark at or after `i`.
pub open spec fn find_mark(data: Seq<u8>, i: int) -> Option<int>
    decreases (if i <= data.len() { data.len() - i + 1 } else { 0 }),
{
    if i + stack_mark().len() > data.len() || i < 0 {
        None
    } else if marked(data, i) {
        Some(i)
    } else {
        find_mark(data, i + 1)
    }
}

/// Start of the line that holds position `i`.
pub open spec fn line_start(data: Seq<u8>, i: int) -> int
    decreases i,
{
    if i <= 0 || data[i - 1] == 10 {
        if i < 0 {
            0
        } else {
            i
        }
    } else {
        line_start(data, i - 1)
    }
}

/// The bounds of the main stack, from the line that is marked with it: base
/// and length.
pub open spec fn stack_bounds(data: Seq<u8>) -> Option<(u64, u64)> {
    match find_mark(data, 0) {
        None => None,
        Some(i) => {
            let (base, p) = hex_at(data, line_start(data, i), 0);
            if p >= data.len() || data[p] != 45 {
                None
            } else {
                let (top, _q) = hex_at(data, p + 1, 0);
                if base == 0 || top <= base {
                    None
                } else {
                    Some((base, (top - base) as u64))
                }
            }
        },
    }
}

/// Bounds that were found are those of a region that is not empty, does not
/// start at zero and does not wrap.
pub proof fn law_stack_bounds_are_sound(data: Seq<u8>)
    ensures
        stack_bounds(data) matches Some((base, size)) ==> base > 0 && size > 0 && base + size
            <= u64::MAX,
{
}

/// Finds the main stack in the kernel's list of mappings.
pub fn parse_main_stack_bounds(data: &[u8]) -> (r: Option<(u64, u64)>)
    ensures
        r == stack_bounds(data@),
{
    let needle: Vec<u8> = vec![91, 115, 116, 97, 99, 107, 93];
    assert(needle@ =~= stack_mark());
    let n: usize = needle.len();
    let mut i: usize = 0;
    while n <= data.len() && i <= data.len() - n
        invariant
            i <= data.len(),
            needle@ == stack_mark(),
            n == needle@.len(),
            find_mark(data@, 0) == find_mark(data@, i as int),
        decreases data.len() + 1 - i,
    {
        let window = dwarf_util::copy_range(data, i, i + n);
        if same_bytes(window.as_slice(), needle.as_slice()) {
            let mut s: usize = i;
            while s > 0 && data[s - 1] != 10
                invariant
                    s <= i <= data.len(),
                    line_start(data@, s as int) == line_start(data@, i as int),
                decreases s,
            {
                s = s - 1;
            }
            let mut p: usize = s;
            let base: u64 = parse_hex(data, &mut p);
            if p >= data.len() || data[p] != 45 {
                return None;
            }
            p = p + 1;
            let top: u64 = parse_hex(data, &mut p);
            if base == 0 || top <= base {
                return None;
            }
            return Some((base, top - base));
        }
        if i == data.len() {
            return None;
        }
        i = i + 1;
    }
    None
}

// ---- laws ----

/// A mapped stack begins above its guard and is the least whole number of
/// pages that holds what was asked for, one at least.
pub proof fn law_mapped_stack_has_whole_pages(requested: usize, map_base: usize, guard: usize, pages: int)
    requires
        map_base <= usize::MAX - guard,
        requested <= usize::MAX - 4095,
    ensures
        ({
            let s = sized(requested, Source::Mapped { map_base, guard });
            &&& s.base == map_base + guard
            &&& s.size % 4096 == 0
            &&& s.size >= requested && s.size >= 4096
            &&& pages >= 1 && pages * 4096 >= requested ==> pages * 4096 >= s.size
            &&& s.owned && s.guarded && s.pool_span_idx == 0
        }),
{
}

/// A stack from a pool is the pool's slot, without a guard, and goes back to
/// the span that it is from.
pub proof fn law_pool_slot_goes_back(
    requested: usize,
    base: usize,
    span_idx: u32,
    size: usize,
    sp: StackPool,
    after: StackPool,
    r: Discard,
)
    requires
        span_idx != 0,
        discards(sized(requested, Source::Pool { base, span_idx, size }), sp, after, r),
    ensures
        ({
            let s = sized(requested, Source::Pool { base, span_idx, size });
            &&& s.base == base && s.size == size && s.owned && !s.guarded
            &&& r == Discard::PoolFree { span: span_idx, base }
            &&& after.pool@ == sp.pool@
        }),
{
}

/// A mapped stack that is not kept is unmapped whole: the mapping that it was
/// made from, guard included.
pub proof fn law_whole_mapping_is_given_up(
    requested: usize,
    map_base: usize,
    sp: StackPool,
    after: StackPool,
    r: Discard,
)
    requires
        map_base <= usize::MAX - sp.guard,
        requested <= usize::MAX - 4095 - sp.guard,
        discards(sized(requested, Source::Mapped { map_base, guard: sp.guard }), sp, after, r),
        !(r is Kept),
        page_up(if requested == 0 { 1 } else { requested as int }) + sp.guard <= usize::MAX,
    ensures
        r matches Discard::Unmap { advise: _, base, size } && base == map_base && size == sized(
            requested,
            Source::Mapped { map_base, guard: sp.guard },
        ).size + sp.guard,
        after.pool@ == sp.pool@,
{
}

/// A guarded stack of the current size is kept while fewer than 256 are, and
/// the next reserved stack is that one; the pool is then as it was.
pub proof fn law_reserved_stack_comes_back(
    s: Stack,
    sp: StackPool,
    kept: StackPool,
    r: Discard,
    after: StackPool,
    got: Reserved,
)
    requires
        s.owned,
        s.guarded,
        s.pool_span_idx == 0,
        s.size == sp.bare,
        discards(s, sp, kept, r),
        kept.bare == sp.bare,
        reserves(kept, after, got),
    ensures
        sp.pool@.len() < 256 ==> r == (Discard::Kept { base: s.base, size: s.size }) && got
            == Reserved::Ready(s) && after.pool@ == sp.pool@,
        sp.pool@.len() >= 256 ==> r is Unmap && kept.pool@ == sp.pool@,
{
    law_kept_stack_is_used_again(sp.pool@, s.base, s.size);
}

/// A stack that belongs to somebody else is left alone.
pub proof fn law_foreign_stack_is_left_alone(s: Stack, sp: StackPool, after: StackPool, r: Discard)
    requires
        !s.owned,
        discards(s, sp, after, r),
    ensures
        r == Discard::Nothing,
        after.pool@ == sp.pool@,
{
}

/// With no stack kept, one is mapped: of the current size, and a guard more.
pub proof fn law_first_reserved_stack_is_mapped(sp: StackPool, after: StackPool, got: Reserved)
    requires
        sp.pool@.len() == 0,
        sp.bare + sp.guard <= usize::MAX,
        reserves(sp, after, got),
    ensures
        got matches Reserved::Fresh(n) && n == sp.bare + sp.guard,
        after.pool@.len() == 0,
{
}

/// The mappings that are given up begin below their stacks' guards and end
/// with the stacks.
pub proof fn law_mapping_spans_guard_and_stack(pool: Seq<(usize, usize)>, guard: usize, i: int)
    requires
        0 <= i < pool.len(),
        guarded_below(pool, guard),
    ensures
        mappings_of(pool, guard).len() == pool.len(),
        mappings_of(pool, guard)[i].0 + guard == pool[i].0,
        mappings_of(pool, guard)[i].0 + mappings_of(pool, guard)[i].1 == pool[i].0 + pool[i].1,
{
}

proof fn lemma_hex_run(data: Seq<u8>, p: int, h: Seq<u8>, v: nat)
    requires
        0 <= p,
        p + h.len() <= data.len(),
        data.subrange(p, p + h.len()) == h,
        segv::hex_value(h) == Some(v),
        v <= u64::MAX,
    ensures
        hex_at(data, p, 0) == hex_at(data, p + h.len(), v as u64),
    decreases h.len(),
{
    if h.len() > 0 {
        let front = h.drop_last();
        let w = segv::hex_value(front)->0;
        assert(data.subrange(p, p + front.len()) =~= front) by {
            assert forall|k: int| 0 <= k < front.len() implies data[p + k] == front[k] by {
                assert(data.subrange(p, p + h.len())[k] == h[k]);
            }
        }
        lemma_hex_run(data, p, front, w);
        let at = p + front.len();
        assert(data.subrange(p, p + h.len())[front.len() as int] == h.last());
        assert(data[at] == h.last());
        assert(hex_nibble(data[at]) is Some);
        assert(16 * w + hex_nibble(data[at])->0 == v);
    }
}

/// A hexadecimal number is read whole: up to the first byte that is no digit.
pub proof fn law_hexadecimal_is_read(before: Seq<u8>, h: Seq<u8>, rest: Seq<u8>, v: nat)
    requires
        segv::hex_value(h) == Some(v),
        v <= u64::MAX,
        rest.len() > 0 ==> hex_nibble(rest[0]) is None,
    ensures
        hex_at(before + h + rest, before.len() as int, 0) == (v as u64, (before.len() + h.len()) as int),
{
    let data = before + h + rest;
    let p = before.len() as int;
    assert(data.subrange(p, p + h.len()) =~= h);
    lemma_hex_run(data, p, h, v);
    if rest.len() > 0 {
        assert(data[p + h.len()] == rest[0]);
    }
}

/// The digits: `0` to `9`, and `a` to `f` in either case.
pub proof fn law_hexadecimal_digits(c: u8, d: int)
    ensures
        0 <= d < 10 ==> hex_nibble((48 + d) as u8) == Some(d),
        10 <= d < 16 ==> hex_nibble((97 + d - 10) as u8) == Some(d) && hex_nibble(
            (65 + d - 10) as u8,
        ) == Some(d),
        hex_nibble(c) is Some <==> 48 <= c <= 57 || 97 <= c <= 102 || 65 <= c <= 70,
{
}

proof fn lemma_find_mark(data: Seq<u8>, i: int, at: int)
    requires
        0 <= i <= at,
        marked(data, at),
        forall|k: int| i <= k < at ==> !#[trigger] marked(data, k),
    ensures
        find_mark(data, i) == Some(at),
    decreases at - i,
{
    if i < at {
        assert(!marked(data, i));
        lemma_find_mark(data, i + 1, at);
    }
}

proof fn lemma_line_start(data: Seq<u8>, s: int, i: int)
    requires
        0 <= s <= i <= data.len(),
        s > 0 ==> data[s - 1] == 10,
        forall|k: int| s <= k < i ==> #[trigger] data[k] != 10,
    ensures
        line_start(data, i) == s,
    decreases i - s,
{
    if i > s {
        lemma_line_start(data, s, i - 1);
    }
}

/// A list of mappings with the line of the main stack: where it begins and
/// ends, in hexadecimal, what else the line says, and the mark.
pub open spec fn mapping_list(
    lines: Seq<u8>,
    from: Seq<u8>,
    to: Seq<u8>,
    middle: Seq<u8>,
    rest: Seq<u8>,
) -> Seq<u8> {
    lines + from + seq![45u8] + to + seq![32u8] + middle + seq![91u8, 115, 116, 97, 99, 107, 93]
        + rest
}

proof fn lemma_mapping_list(
    lines: Seq<u8>,
    from: Seq<u8>,
    to: Seq<u8>,
    middle: Seq<u8>,
    rest: Seq<u8>,
)
    requires
        segv::hex_value(from) is Some,
        segv::hex_value(to) is Some,
        forall|k: int| 0 <= k < middle.len() ==> #[trigger] middle[k] != 10,
    ensures
        ({
            let data = mapping_list(lines, from, to, middle, rest);
            let s = lines.len() as int;
            let p = s + from.len();
            let q = p + 1 + to.len();
            let at = q + 1 + middle.len();
            &&& data.len() >= at + 7
            &&& s > 0 ==> data[s - 1] == lines.last()
            &&& data.subrange(s, p) == from
            &&& data[p] == 45
            &&& data.subrange(p + 1, q) == to
            &&& data[q] == 32
            &&& data.subrange(at, at + 7) == stack_mark()
            &&& forall|k: int| s <= k < at ==> #[trigger] data[k] != 10
        }),
{
    let data = mapping_list(lines, from, to, middle, rest);
    let s = lines.len() as int;
    let p = s + from.len();
    let q = p + 1 + to.len();
    let at = q + 1 + middle.len();
    lemma_hex_text(from);
    lemma_hex_text(to);
    assert(data.subrange(s, p) =~= from);
    assert(data.subrange(p + 1, q) =~= to);
    assert(data.subrange(at, at + 7) =~= stack_mark());
    assert forall|k: int| s <= k < at implies #[trigger] data[k] != 10 by {
        if k < p {
            assert(data[k] == from[k - s]);
        } else if p < k < q {
            assert(data[k] == to[k - p - 1]);
        } else if k > q {
            assert(data[k] == middle[k - q - 1]);
        }
    }
}

proof fn lemma_marked_line(data: Seq<u8>, s: int, p: int, q: int, at: int, base: nat, top: nat)
    requires
        0 <= s <= p < q < at,
        at + 7 <= data.len(),
        s > 0 ==> data[s - 1] == 10,
        segv::hex_value(data.subrange(s, p)) == Some(base),
        data[p] == 45,
        segv::hex_value(data.subrange(p + 1, q)) == Some(top),
        data[q] == 32,
        0 < base < top <= u64::MAX,
        data.subrange(at, at + 7) == stack_mark(),
        forall|k: int| s <= k < at ==> #[trigger] data[k] != 10,
        forall|k: int| 0 <= k < at ==> !#[trigger] marked(data, k),
    ensures
        stack_bounds(data) == Some((base as u64, (top - base) as u64)),
{
    assert(marked(data, at));
    lemma_find_mark(data, 0, at);
    lemma_line_start(data, s, at);
    lemma_hex_run(data, s, data.subrange(s, p), base);
    lemma_hex_run(data, p + 1, data.subrange(p + 1, q), top);
}

/// The main stack is found in a list of mappings: on the first line that is
/// marked `[stack]`, the numbers before and after the hyphen are where it
/// begins and ends.
pub proof fn law_main_stack_is_found(
    lines: Seq<u8>,
    from: Seq<u8>,
    to: Seq<u8>,
    middle: Seq<u8>,
    rest: Seq<u8>,
    base: nat,
    top: nat,
)
    requires
        lines.len() > 0 ==> lines.last() == 10,
        segv::hex_value(from) == Some(base),
        segv::hex_value(to) == Some(top),
        0 < base < top <= u64::MAX,
        forall|k: int| 0 <= k < middle.len() ==> #[trigger] middle[k] != 10,
        forall|k: int|
            0 <= k < lines.len() + from.len() + to.len() + middle.len() + 2 ==> !#[trigger] marked(
                mapping_list(lines, from, to, middle, rest),
                k,
            ),
    ensures
        stack_bounds(mapping_list(lines, from, to, middle, rest)) == Some(
            (base as u64, (top - base) as u64),
        ),
{
    let data = mapping_list(lines, from, to, middle, rest);
    let s = lines.len() as int;
    let p = s + from.len();
    let q = p + 1 + to.len();
    lemma_mapping_list(lines, from, to, middle, rest);
    lemma_marked_line(data, s, p, q, q + 1 + middle.len(), base, top);
}

proof fn lemma_hex_text(h: Seq<u8>)
    requires
        segv::hex_value(h) is Some,
    ensures
        forall|k: int| 0 <= k < h.len() ==> #[trigger] h[k] != 10,
    decreases h.len(),
{
    if h.len() > 0 {
        let front = h.drop_last();
        lemma_hex_text(front);
        assert forall|k: int| 0 <= k < h.len() implies #[trigger] h[k] != 10 by {
            if k < front.len() {
                assert(h[k] == front[k]);
            }
        }
    }
}

/// Without a mark no stack is found.
pub proof fn law_unmarked_list_has_no_stack(data: Seq<u8>, i: int)
    requires
        0 <= i,
        forall|k: int| i <= k ==> !#[trigger] marked(data, k),
    ensures
        find_mark(data, i) is None,
        i == 0 ==> stack_bounds(data) is None,
    decreases (if i <= data.len() { data.len() - i + 1 } else { 0 }),
{
    if i + 7 <= data.len() {
        law_unmarked_list_has_no_stack(data, i + 1);
    }
}

/// The mark is the seven bytes of `[stack]`.
pub proof fn law_mark_of_the_stack(data: Seq<u8>, rest: Seq<u8>)
    ensures
        marked(data + seq![91u8, 115, 116, 97, 99, 107, 93] + rest, data.len() as int),
        forall|k: int| marked(data, k) ==> data[k] == 91 && data[k + 1] == 115 && data[k + 6] == 93,
{
    let d = data + seq![91u8, 115, 116, 97, 99, 107, 93] + rest;
    let n = data.len() as int;
    assert(d.subrange(n, n + 7) =~= stack_mark());
    assert forall|k: int| marked(data, k) implies data[k] == 91 && data[k + 1] == 115 && data[k + 6]
        == 93 by {
        let m = data.subrange(k, k + 7);
        assert(m[0] == 91 && m[1] == 115 && m[6] == 93);
    }
}

} // verus!
