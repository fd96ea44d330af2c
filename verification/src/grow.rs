//! Growing a goroutine's stack: when to move to a larger one, and how much of
//! that is going on.

use vstd::prelude::*;

use crate::stack;

verus! {

pub const DEFAULT_GROW_RED_ZONE: usize = 1024;

pub const DEFAULT_GROW_BARE_CAP: usize = 65536;

pub const GROW_TIER_2_SIZE: usize = 65536;

pub const GROW_TIER_3_SIZE: usize = 1048576;

pub const GROW_TIER_1_RED_ZONE: usize = 1024;

pub const GROW_TIER_2_RED_ZONE: usize = 8192;

/// The regions that a goroutine has grown into.
pub struct GrowChain {
    pub regions: Vec<(usize, usize)>,
}

/// What growing has done so far and what is in use.
pub struct GrowStats {
    pub calls: usize,
    pub hits: usize,
    pub live: usize,
    pub peak_live: usize,
    pub bytes_live: usize,
}

pub fn grow_calls(s: &GrowStats) -> (r: usize)
    ensures
        r == s.calls,
{
    s.calls
}

pub fn grow_hits(s: &GrowStats) -> (r: usize)
    ensures
        r == s.hits,
{
    s.hits
}

pub fn grow_live(s: &GrowStats) -> (r: usize)
    ensures
        r == s.live,
{
    s.live
}

pub fn grow_peak_live(s: &GrowStats) -> (r: usize)
    ensures
        r == s.peak_live,
{
    s.peak_live
}

pub fn grow_bytes_live(s: &GrowStats) -> (r: usize)
    ensures
        r == s.bytes_live,
{
    s.bytes_live
}

/// Room below the stack pointer; none when it is below the stack.
pub open spec fn room(sp: usize, lo: usize) -> int {
    if sp >= lo {
        sp - lo
    } else {
        0
    }
}

fn left(sp: usize, lo: usize) -> (r: usize)
    ensures
        r == room(sp, lo),
{
    if sp >= lo {
        sp - lo
    } else {
        0
    }
}

pub open spec fn one_more(x: usize) -> usize {
    if x == usize::MAX {
        0
    } else {
        (x + 1) as usize
    }
}

fn count(x: usize) -> (r: usize)
    ensures
        r == one_more(x),
{
    if x == usize::MAX {
        0
    } else {
        x + 1
    }
}

/// Less than the red zone is left of the stack, whose low end is known.
pub open spec fn is_short(red_zone: usize, sp: usize, lo: usize) -> bool {
    lo != 0 && room(sp, lo) < red_zone
}

/// What is known after one more call.
pub open spec fn called(s: GrowStats) -> GrowStats {
    GrowStats { calls: one_more(s.calls), ..s }
}

/// Whether to run on a new stack: the current one is known (`lo` is its low
/// end, zero when there is none) and less than the red zone is left of it.
pub fn maybe_grow(s: &mut GrowStats, red_zone: usize, sp: usize, lo: usize) -> (grow: bool)
    ensures
        grow == is_short(red_zone, sp, lo),
        *final(s) == called(*old(s)),
{
    s.calls = count(s.calls);
    if lo == 0 || left(sp, lo) >= red_zone {
        return false;
    }
    true
}

/// The next size after the current stack, and how much may be left before
/// moving to it. The largest stacks do not grow.
pub open spec fn next_tier(cur_size: int) -> Option<(usize, usize)> {
    if cur_size < GROW_TIER_2_SIZE {
        Some((GROW_TIER_2_SIZE, GROW_TIER_1_RED_ZONE))
    } else if cur_size < GROW_TIER_3_SIZE {
        Some((GROW_TIER_3_SIZE, GROW_TIER_2_RED_ZONE))
    } else {
        None
    }
}

/// The tier that applies to a goroutine's stack, given its bounds.
pub open spec fn tier_of(bounds: Option<(usize, usize)>) -> Option<(usize, usize)> {
    match bounds {
        None => None,
        Some((lo, hi)) => if lo == 0 || hi <= lo {
            None
        } else {
            next_tier(hi - lo)
        },
    }
}

/// `u` and `r` follow the question whether to move to the next tier.
pub open spec fn steps(
    s: GrowStats,
    u: GrowStats,
    bounds: Option<(usize, usize)>,
    sp: usize,
    r: Option<usize>,
) -> bool {
    match tier_of(bounds) {
        None => r is None && u == s,
        Some((size, red_zone)) => {
            &&& u == called(s)
            &&& r == (if room(sp, (bounds->0).0) < red_zone {
                Some(size)
            } else {
                None
            })
        },
    }
}

/// The size to move to, one tier at a time, or nothing to stay. `bounds` are
/// the current goroutine's.
pub fn maybe_grow_step(s: &mut GrowStats, bounds: Option<(usize, usize)>, sp: usize) -> (r: Option<
    usize,
>)
    ensures
        steps(*old(s), *final(s), bounds, sp, r),
{
    let (lo, hi) = match bounds {
        None => {
            return None;
        },
        Some(b) => b,
    };
    if lo == 0 || hi <= lo {
        return None;
    }
    let cur_size: usize = hi - lo;
    let (target, red_zone): (usize, usize) = if cur_size < GROW_TIER_2_SIZE {
        (GROW_TIER_2_SIZE, GROW_TIER_1_RED_ZONE)
    } else if cur_size < GROW_TIER_3_SIZE {
        (GROW_TIER_3_SIZE, GROW_TIER_2_RED_ZONE)
    } else {
        return None;
    };
    s.calls = count(s.calls);
    if left(sp, lo) >= red_zone {
        return None;
    }
    Some(target)
}

/// Growing always moves to a larger stack.
pub proof fn law_growing_grows(lo: usize, hi: usize)
    ensures
        tier_of(Some((lo, hi))) matches Some((size, red_zone)) ==> size > hi - lo && red_zone
            < size,
{
}

/// The size of the mapping for a stack: whole pages, and two at least.
pub open spec fn region_size(stack_size: usize) -> int {
    if stack::page_up(stack_size as int) < 8192 {
        8192
    } else {
        stack::page_up(stack_size as int)
    }
}

/// The active stack of a goroutine.
pub struct ActiveStack {
    pub lo: usize,
    pub hi: usize,
}

/// A move to a larger stack that has to be undone.
pub struct Grown {
    pub base: usize,
    pub size: usize,
    pub saved: (usize, usize),
}

/// How many bytes to map for a stack of that size.
pub fn grow_request(stack_size: usize) -> (size: usize)
    requires
        stack_size <= usize::MAX - (stack::PAGE_SIZE - 1),
    ensures
        size == region_size(stack_size),
{
    let size: usize = stack::round_up_to_page(stack_size);
    if size < 8192 {
        8192
    } else {
        size
    }
}

/// What is in use after a move to a region of that size.
pub open spec fn grown_stats(s: GrowStats, size: usize) -> GrowStats {
    GrowStats {
        calls: s.calls,
        hits: one_more(s.hits),
        live: (s.live + 1) as usize,
        peak_live: if s.live + 1 > s.peak_live {
            (s.live + 1) as usize
        } else {
            s.peak_live
        },
        bytes_live: (s.bytes_live + size) as usize,
    }
}

/// What is in use after a move back from a region of that size.
pub open spec fn left_stats(s: GrowStats, size: usize) -> GrowStats {
    GrowStats { live: (s.live - 1) as usize, bytes_live: (s.bytes_live - size) as usize, ..s }
}

/// A move from a stack to a region.
pub open spec fn move_of(g: ActiveStack, base: usize, size: usize) -> Grown {
    Grown { base, size, saved: (g.lo, g.hi) }
}

/// The active stack after a move back.
pub open spec fn back_from(grown: Grown) -> ActiveStack {
    ActiveStack { lo: grown.saved.0, hi: grown.saved.1 }
}

/// Moves to the region that was mapped.
pub fn grow_and_call(s: &mut GrowStats, g: &mut ActiveStack, base: usize, size: usize) -> (r: Grown)
    requires
        base + size <= usize::MAX,
        old(s).live < usize::MAX,
        old(s).bytes_live + size <= usize::MAX,
    ensures
        r == move_of(*old(g), base, size),
        *final(g) == (ActiveStack { lo: base, hi: (base + size) as usize }),
        *final(s) == grown_stats(*old(s), size),
{
    s.hits = count(s.hits);
    s.live = s.live + 1;
    if s.live > s.peak_live {
        s.peak_live = s.live;
    }
    s.bytes_live = s.bytes_live + size;
    let saved = (g.lo, g.hi);
    g.lo = base;
    g.hi = base + size;
    Grown { base, size, saved }
}

/// Calls a function once and returns its result: in place, or on a region that
/// was moved to, through what switches to a stack and back.
pub fn run_on<R, F: FnOnce() -> R, S: FnOnce(F, usize, usize) -> R>(
    region: Option<(usize, usize)>,
    f: F,
    switch: S,
) -> (r: R)
    requires
        match region {
            None => f.requires(()),
            Some((base, size)) => switch.requires((f, base, size)),
        },
    ensures
        match region {
            None => f.ensures((), r),
            Some((base, size)) => switch.ensures((f, base, size), r),
        },
        runs_once(switch) ==> f.ensures((), r),
{
    match region {
        None => f(),
        Some((base, size)) => {
            let r = switch(f, base, size);
            r
        },
    }
}

/// A switch of stacks that does nothing but call the function and hand its
/// result on.
pub open spec fn runs_once<R, F: FnOnce() -> R, S: FnOnce(F, usize, usize) -> R>(switch: S) -> bool {
    forall|f: F, base: usize, size: usize, x: R| #[trigger]
        switch.ensures((f, base, size), x) ==> f.ensures((), x)
}

/// Moves back, and returns the region to unmap.
pub fn grow_done(s: &mut GrowStats, g: &mut ActiveStack, grown: Grown) -> (r: (usize, usize))
    requires
        old(s).live > 0,
        old(s).bytes_live >= grown.size,
    ensures
        r == (grown.base, grown.size),
        *final(g) == back_from(grown),
        *final(s) == left_stats(*old(s), grown.size),
{
    g.lo = grown.saved.0;
    g.hi = grown.saved.1;
    s.live = s.live - 1;
    s.bytes_live = s.bytes_live - grown.size;
    (grown.base, grown.size)
}

/// Calling on a grown stack and returning leaves what is in use as it was,
/// counts the move, and remembers the most that was in use.
pub proof fn law_growth_is_given_back(s: GrowStats, size: usize)
    requires
        s.live < usize::MAX,
        s.bytes_live + size <= usize::MAX,
    ensures
        left_stats(grown_stats(s, size), size).live == s.live,
        left_stats(grown_stats(s, size), size).bytes_live == s.bytes_live,
        left_stats(grown_stats(s, size), size).hits == one_more(s.hits),
        left_stats(grown_stats(s, size), size).peak_live >= s.peak_live,
        left_stats(grown_stats(s, size), size).peak_live > s.live,
{
}

/// What is known after a function was called through `maybe_grow` and has
/// returned: on its own stack, or on a region of that size and back.
pub open spec fn after_call(
    s: GrowStats,
    red_zone: usize,
    sp: usize,
    lo: usize,
    size: usize,
) -> GrowStats {
    if is_short(red_zone, sp, lo) {
        left_stats(grown_stats(called(s), size), size)
    } else {
        called(s)
    }
}

/// A call through `maybe_grow` counts once, and as a move exactly when too
/// little of a known stack was left. What is in use and the active stack are
/// then as before, and the most that was in use has not become less.
pub proof fn law_call_leaves_no_trace(
    s: GrowStats,
    g: ActiveStack,
    red_zone: usize,
    sp: usize,
    base: usize,
    size: usize,
)
    requires
        s.live < usize::MAX,
        s.bytes_live + size <= usize::MAX,
    ensures
        ({
            let after = after_call(s, red_zone, sp, g.lo, size);
            &&& after.calls == one_more(s.calls)
            &&& after.hits == (if is_short(red_zone, sp, g.lo) {
                one_more(s.hits)
            } else {
                s.hits
            })
            &&& after.live == s.live
            &&& after.bytes_live == s.bytes_live
            &&& after.peak_live >= s.peak_live
        }),
        back_from(move_of(g, base, size)) == g,
{
}

/// A call moves to a new stack exactly if the current one is known and fewer
/// bytes than the red zone lie between its low end and the stack pointer.
pub proof fn law_short_stack_grows(red_zone: usize, sp: usize, lo: usize)
    ensures
        is_short(red_zone, sp, 0) == false,
        lo != 0 && lo + red_zone <= sp ==> !is_short(red_zone, sp, lo),
        lo != 0 && lo <= sp < lo + red_zone ==> is_short(red_zone, sp, lo),
        lo != 0 && sp < lo && red_zone > 0 ==> is_short(red_zone, sp, lo),
{
}

/// A stack grows one tier at a time: to 64 KiB when less than a kilobyte is
/// left, then to a megabyte when less than eight are. A larger stack stays, and
/// so does one whose bounds are not known.
pub proof fn law_tiers(
    s: GrowStats,
    u: GrowStats,
    lo: usize,
    hi: usize,
    sp: usize,
    r: Option<usize>,
    none: Option<usize>,
)
    requires
        0 < lo < hi,
        lo <= sp,
        steps(s, u, Some((lo, hi)), sp, r),
    ensures
        hi - lo < 65536 ==> r == (if sp - lo < 1024 {
            Some(65536usize)
        } else {
            None
        }),
        65536 <= hi - lo < 1048576 ==> r == (if sp - lo < 8192 {
            Some(1048576usize)
        } else {
            None
        }),
        hi - lo >= 1048576 ==> r is None && u == s,
        hi - lo < 1048576 && s.calls < usize::MAX ==> u == (GrowStats {
            calls: (s.calls + 1) as usize,
            ..s
        }),
        steps(s, u, None, sp, none) ==> none is None && u == s,
        steps(s, u, Some((0, hi)), sp, none) ==> none is None && u == s,
        steps(s, u, Some((hi, lo)), sp, none) ==> none is None && u == s,
        steps(s, u, Some((lo, lo)), sp, none) ==> none is None && u == s,
{
}

/// A region is the least whole number of pages that holds the stack, two at
/// least.
pub proof fn law_region_is_least(stack_size: usize, pages: int)
    ensures
        region_size(stack_size) % 4096 == 0,
        region_size(stack_size) >= stack_size,
        region_size(stack_size) >= 8192,
        pages >= 2 && pages * 4096 >= stack_size ==> pages * 4096 >= region_size(stack_size),
{
}

/// A move adds one region and its bytes to what is in use, and counts; the most
/// that was in use follows. A move back takes the same away.
pub proof fn law_moves_are_counted(s: GrowStats, size: usize)
    requires
        s.live < usize::MAX,
        s.bytes_live + size <= usize::MAX,
        s.hits < usize::MAX,
    ensures
        grown_stats(s, size).live == s.live + 1,
        grown_stats(s, size).bytes_live == s.bytes_live + size,
        grown_stats(s, size).hits == s.hits + 1,
        grown_stats(s, size).calls == s.calls,
        s.live < s.peak_live ==> grown_stats(s, size).peak_live == s.peak_live,
        s.live >= s.peak_live ==> grown_stats(s, size).peak_live == s.live + 1,
        left_stats(grown_stats(s, size), size) == (GrowStats {
            live: s.live,
            bytes_live: s.bytes_live,
            ..grown_stats(s, size)
        }),
{
}

/// A counter goes up by one, and from the largest number back to zero.
pub proof fn law_counters_go_round(x: usize)
    ensures
        x < usize::MAX ==> one_more(x) == x + 1,
        one_more(usize::MAX) == 0,
{
}

} // verus!
