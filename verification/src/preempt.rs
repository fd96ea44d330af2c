//! Preemption by signal: whether an interrupted goroutine may be preempted
//! where it is, and how its registers are changed so that it yields.

use vstd::prelude::*;

use crate::rt_section::{is_in_runtime, Section};
use crate::syscall::Target;
use crate::gostr;

verus! {

// ---- the interrupted context ----

pub struct StackT {
    pub ss_sp: u64,
    pub ss_flags: i32,
    pub ss_size: u64,
}

/// The saved registers, by the indices below.
pub struct McontextT {
    pub gregs: [u64; 23],
    pub fpregs: u64,
}

pub struct UcontextT {
    pub uc_flags: u64,
    pub uc_link: u64,
    pub uc_stack: StackT,
    pub uc_mcontext: McontextT,
}

pub const REG_R8: usize = 0;

pub const REG_R9: usize = 1;

pub const REG_R10: usize = 2;

pub const REG_R11: usize = 3;

pub const REG_R12: usize = 4;

pub const REG_R13: usize = 5;

pub const REG_R14: usize = 6;

pub const REG_R15: usize = 7;

pub const REG_RDI: usize = 8;

pub const REG_RSI: usize = 9;

pub const REG_RBP: usize = 10;

pub const REG_RBX: usize = 11;

pub const REG_RDX: usize = 12;

pub const REG_RAX: usize = 13;

pub const REG_RCX: usize = 14;

pub const REG_RSP: usize = 15;

pub const REG_RIP: usize = 16;

pub const REG_EFL: usize = 17;

// ---- the room that preemption needs ----

/// The vector state that is saved: x87, SSE, AVX and AVX-512.
pub const SIMD_XFEATURES: u64 = 0xe7;

/// The room that preemption needs with the smallest vector state: 160 bytes
/// for the red zone and what is resumed, 128 for the general registers, 63 to
/// align, 8 for the return address, 4096 for the scheduler and 512 for the
/// vector state.
pub const ASYNC_PREEMPT_STACK: u64 = 4967;

/// What the processor says of its vector state.
pub struct CpuInfo {
    /// The highest leaf of information.
    pub max_leaf: u32,
    /// Feature bits; two of them say that the state can be saved as a whole.
    pub features: u32,
    pub supported_lo: u32,
    pub supported_hi: u32,
    /// What the kernel has enabled.
    pub xcr0: u64,
    /// Offset and size of the components 2, 5, 6 and 7.
    pub components: [(u32, u32); 4],
}

/// The bit of the `i`-th component of `CpuInfo::components`.
pub open spec fn component_bit(i: int) -> u64 {
    if i == 0 {
        0x4
    } else if i == 1 {
        0x20
    } else if i == 2 {
        0x40
    } else {
        0x80
    }
}

/// Where the last enabled one of the first `n` components ends, and 576 at
/// least.
pub open spec fn state_end(c: CpuInfo, mask: u64, n: nat) -> int
    decreases n,
{
    if n == 0 {
        576
    } else {
        let before = state_end(c, mask, (n - 1) as nat);
        let end = c.components@[n - 1].0 + c.components@[n - 1].1;
        if mask & component_bit(n - 1) != 0 && end > before {
            end
        } else {
            before
        }
    }
}

/// The vector state that is saved: its mask, zero for the smallest one, and
/// its size. Only one kind of machine has more than the smallest.
pub open spec fn fp_layout(sys: Target, c: CpuInfo) -> (u64, int) {
    let supported = (c.supported_lo as u64) | ((c.supported_hi as u64) << 32);
    let mask = c.xcr0 & supported & SIMD_XFEATURES;
    if sys != Target::LinuxAmd64 || c.max_leaf < 0x0d || c.features & 0x0c00_0000 != 0x0c00_0000 {
        (0, 512)
    } else if mask & 3 != 3 {
        (0, 512)
    } else {
        (mask, state_end(c, mask, 4))
    }
}

pub fn fp_state_layout(sys: Target, c: &CpuInfo) -> (r: (u64, u64))
    ensures
        r.0 == fp_layout(sys, *c).0,
        r.1 == fp_layout(sys, *c).1,
        r.1 >= 512,
{
    if sys != Target::LinuxAmd64 {
        return (0, 512);
    }
    if c.max_leaf < 0x0d || c.features & 0x0c00_0000 != 0x0c00_0000 {
        return (0, 512);
    }
    let supported: u64 = (c.supported_lo as u64) | ((c.supported_hi as u64) << 32);
    let mask: u64 = c.xcr0 & supported & SIMD_XFEATURES;
    if mask & 3 != 3 {
        return (0, 512);
    }
    let bits: [u64; 4] = [0x4, 0x20, 0x40, 0x80];
    let mut size: u64 = 576;
    let mut i: usize = 0;
    while i < 4
        invariant
            i <= 4,
            bits@ == seq![0x4u64, 0x20, 0x40, 0x80],
            size == state_end(*c, mask, i as nat),
            512 <= size,
        decreases 4 - i,
    {
        assert(bits@[i as int] == component_bit(i as int));
        if mask & bits[i] != 0 {
            let (offset, len) = c.components[i];
            let end: u64 = offset as u64 + len as u64;
            if end > size {
                size = end;
            }
        }
        i = i + 1;
    }
    (mask, size)
}

// ---- what is counted ----

pub const INJECT_RING_LEN: usize = 32;

/// What preemption has done so far.
pub struct Preempt {
    pub invocations: u64,
    pub injections: u64,
    pub skip_locks: u64,
    pub skip_trampoline: u64,
    pub skip_runtime_pc: u64,
    pub skip_parking: u64,
    pub skip_no_curg: u64,
    pub skip_not_running: u64,
    pub skip_sp_range: u64,
    /// Where goroutines were preempted last.
    pub ring: Vec<u64>,
    pub fp_mask: u64,
    pub fp_size: u64,
    pub fp_ready: bool,
}

impl Preempt {
    pub open spec fn wf(&self) -> bool {
        &&& self.ring@.len() == INJECT_RING_LEN
        &&& 512 <= self.fp_size <= 0x2_0000_0000
    }

    pub fn new() -> (r: Self)
        ensures
            r.wf(),
            r.invocations == 0 && r.injections == 0,
            r.skip_locks == 0 && r.skip_trampoline == 0 && r.skip_runtime_pc == 0,
            r.skip_parking == 0 && r.skip_no_curg == 0 && r.skip_not_running == 0
                && r.skip_sp_range == 0,
            r.ring@ == Seq::new(INJECT_RING_LEN as nat, |i: int| 0u64),
            r.fp_mask == 0 && r.fp_size == 512 && !r.fp_ready,
    {
        let mut ring: Vec<u64> = Vec::new();
        while ring.len() < INJECT_RING_LEN
            invariant
                ring@.len() <= INJECT_RING_LEN,
                forall|i: int| 0 <= i < ring@.len() ==> #[trigger] ring@[i] == 0,
            decreases INJECT_RING_LEN - ring@.len(),
        {
            ring.push(0);
        }
        assert(ring@ =~= Seq::new(INJECT_RING_LEN as nat, |i: int| 0u64));
        Preempt {
            invocations: 0,
            injections: 0,
            skip_locks: 0,
            skip_trampoline: 0,
            skip_runtime_pc: 0,
            skip_parking: 0,
            skip_no_curg: 0,
            skip_not_running: 0,
            skip_sp_range: 0,
            ring,
            fp_mask: 0,
            fp_size: 512,
            fp_ready: false,
        }
    }
}

/// Fixes the vector state that is saved. Once it is fixed it stays: a
/// suspended goroutine has been saved by it.
pub fn initialize_fp_state(p: &mut Preempt, sys: Target, c: &CpuInfo)
    requires
        old(p).wf(),
    ensures
        final(p).wf(),
        final(p).fp_ready,
        if old(p).fp_ready {
            *final(p) == *old(p)
        } else {
            &&& final(p).fp_mask == fp_layout(sys, *c).0
            &&& final(p).fp_size == fp_layout(sys, *c).1
            &&& *final(p) == (Preempt {
                fp_mask: final(p).fp_mask,
                fp_size: final(p).fp_size,
                fp_ready: true,
                ..*old(p)
            })
        },
{
    if p.fp_ready {
        return;
    }
    let (mask, size) = fp_state_layout(sys, c);
    proof {
        lemma_state_end(*c, mask, 4);
    }
    p.fp_size = size;
    p.fp_mask = mask;
    p.fp_ready = true;
}

proof fn lemma_state_end(c: CpuInfo, mask: u64, n: nat)
    ensures
        576 <= state_end(c, mask, n) <= 0x1_ffff_fffe,
    decreases n,
{
    if n > 0 {
        lemma_state_end(c, mask, (n - 1) as nat);
    }
}

/// How much stack a goroutine must have left to be preempted.
pub fn async_preempt_stack(p: &Preempt) -> (r: u64)
    requires
        p.wf(),
    ensures
        r == ASYNC_PREEMPT_STACK + p.fp_size - 512,
{
    ASYNC_PREEMPT_STACK + p.fp_size - 512
}

/// How many places of preemption a snapshot of that length holds.
pub open spec fn snapshot_len(out: nat, total: u64) -> nat {
    let n = if out < INJECT_RING_LEN {
        out
    } else {
        INJECT_RING_LEN as nat
    };
    if total < n {
        total as nat
    } else {
        n
    }
}

/// The `i`-th last place of preemption.
pub open spec fn recent_pc(ring: Seq<u64>, total: u64, i: int) -> u64 {
    ring[(total - 1 - i) % 32]
}

/// Writes the last places of preemption, the most recent first, and returns
/// how many there are.
pub fn snapshot_injection_pcs(p: &Preempt, out: &mut Vec<u64>) -> (n: usize)
    requires
        p.wf(),
    ensures
        n == snapshot_len(old(out)@.len(), p.injections),
        final(out)@.len() == old(out)@.len(),
        forall|i: int|
            0 <= i < n ==> #[trigger] final(out)@[i] == recent_pc(p.ring@, p.injections, i),
        forall|i: int| n <= i < old(out)@.len() ==> #[trigger] final(out)@[i] == old(out)@[i],
{
    let total: u64 = p.injections;
    let mut i: usize = 0;
    while i < out.len() && i < INJECT_RING_LEN && (i as u64) < total
        invariant
            p.wf(),
            total == p.injections,
            i <= out@.len(),
            i <= INJECT_RING_LEN,
            i <= total,
            out@.len() == old(out)@.len(),
            forall|k: int|
                0 <= k < i ==> #[trigger] out@[k] == recent_pc(p.ring@, p.injections, k),
            forall|k: int| i <= k < old(out)@.len() ==> #[trigger] out@[k] == old(out)@[k],
        decreases out@.len() - i,
    {
        let slot: usize = ((total - 1 - i as u64) % 32) as usize;
        out.set(i, p.ring[slot]);
        i = i + 1;
    }
    i
}

pub fn invocations(p: &Preempt) -> (r: u64)
    ensures
        r == p.invocations,
{
    p.invocations
}

pub fn injections(p: &Preempt) -> (r: u64)
    ensures
        r == p.injections,
{
    p.injections
}

/// How often goroutines were left alone, by reason.
pub fn skip_breakdown(p: &Preempt) -> (r: (u64, u64, u64, u64, u64, u64))
    ensures
        r == (
            p.skip_locks,
            p.skip_trampoline,
            p.skip_parking,
            p.skip_no_curg,
            p.skip_not_running,
            p.skip_sp_range,
        ),
{
    (
        p.skip_locks,
        p.skip_trampoline,
        p.skip_parking,
        p.skip_no_curg,
        p.skip_not_running,
        p.skip_sp_range,
    )
}

// ---- the decision ----

/// The code in which a thread has no stack of its own to speak of: the
/// trampoline and the context switches.
pub struct SwitchRanges {
    pub trampoline: Section,
    pub swap_context: Section,
    pub gogo: Section,
    pub mcall: Section,
}

pub open spec fn in_switch(a: SwitchRanges, pc: u64) -> bool {
    a.trampoline.holds(pc) || a.swap_context.holds(pc) || a.gogo.holds(pc) || a.mcall.holds(pc)
}

fn is_in_switch(a: &SwitchRanges, pc: u64) -> (r: bool)
    ensures
        r == in_switch(*a, pc),
{
    is_in_runtime(&a.trampoline, pc) || is_in_runtime(&a.swap_context, pc) || is_in_runtime(
        &a.gogo,
        pc,
    ) || is_in_runtime(&a.mcall, pc)
}

/// What the handler reads of a goroutine.
pub struct GState {
    pub running: bool,
    pub stack_lo: u64,
    pub stack_hi: u64,
    /// Asks the goroutine to yield by itself.
    pub preempt: bool,
}

/// What the handler reads of the interrupted thread.
pub struct Interrupted {
    pub locks: u32,
    pub pc: u64,
    pub sp: u64,
    /// The return address, where a register holds it.
    pub lr: u64,
    /// The thread has a goroutine.
    pub has_curg: bool,
    /// The goroutine is about to park.
    pub parking: bool,
}

#[derive(Clone, Copy, Debug, PartialEq, Eq, Structural)]
pub enum Verdict {
    Locks,
    Trampoline,
    RuntimePc,
    NoCurg,
    Parking,
    NotRunning,
    SpRange,
    Inject,
}

/// Why the goroutine is left alone, in the order in which it is asked, or that
/// it is preempted.
pub open spec fn verdict_of(
    t: Interrupted,
    g: GState,
    switches: SwitchRanges,
    runtime: Section,
    need: int,
) -> Verdict {
    if t.locks != 0 {
        Verdict::Locks
    } else if in_switch(switches, t.pc) {
        Verdict::Trampoline
    } else if runtime.holds(t.pc) {
        Verdict::RuntimePc
    } else if !t.has_curg {
        Verdict::NoCurg
    } else if t.parking {
        Verdict::Parking
    } else if !g.running {
        Verdict::NotRunning
    } else if t.sp < g.stack_lo || t.sp - g.stack_lo < need || t.sp >= g.stack_hi {
        Verdict::SpRange
    } else {
        Verdict::Inject
    }
}

/// The frame that a preempted goroutine finds on arm64: its link register, stack
/// pointer and program counter, aligned and below the red zone.
#[derive(Clone, Copy, Debug, PartialEq, Eq, Structural)]
pub struct PushedFrame {
    pub base: u64,
    pub lr: u64,
    pub sp: u64,
    pub pc: u64,
}

pub open spec fn pushed_frame(sp: u64, lr: u64, pc: u64) -> PushedFrame {
    PushedFrame { base: (sp - 160 - (sp - 160) % 16) as u64, lr, sp, pc }
}

pub fn push_call(sp: u64, lr: u64, pc: u64) -> (r: PushedFrame)
    requires
        sp >= 160,
    ensures
        r == pushed_frame(sp, lr, pc),
{
    let s: u64 = sp - 128 - 32;
    PushedFrame { base: s - s % 16, lr, sp, pc }
}

/// How a preempted goroutine is made to continue elsewhere.
#[derive(Clone, Copy, Debug, PartialEq, Eq, Structural)]
pub enum Injection {
    /// `value` goes to the address `slot`, and the stack pointer and the
    /// program counter are replaced.
    Jump { slot: u64, value: u64, sp: u64, pc: u64 },
    /// The link register, the stack pointer and the program counter of `frame`
    /// go to three words at its base, which becomes the stack pointer. The old
    /// program counter becomes the link register, and `pc` the new one.
    Call { frame: PushedFrame, pc: u64 },
}

/// What is done to a goroutine that is preempted, on each system. On one of
/// them nothing is.
pub open spec fn injection_of(sys: Target, t: Interrupted, trampoline: u64) -> Option<Injection> {
    match sys {
        Target::LinuxAmd64 => Some(
            Injection::Jump {
                slot: (t.sp - 144) as u64,
                value: t.pc,
                sp: (t.sp - 8) as u64,
                pc: trampoline,
            },
        ),
        Target::DarwinArm64 => Some(
            Injection::Call { frame: pushed_frame(t.sp, t.lr, t.pc), pc: trampoline },
        ),
        Target::LinuxArm64 => None,
    }
}

fn inject(sys: Target, t: &Interrupted, trampoline: u64) -> (r: Option<Injection>)
    requires
        t.sp >= 160,
    ensures
        r == injection_of(sys, *t, trampoline),
{
    match sys {
        Target::LinuxAmd64 => Some(
            Injection::Jump { slot: t.sp - 144, value: t.pc, sp: t.sp - 8, pc: trampoline },
        ),
        Target::DarwinArm64 => Some(
            Injection::Call { frame: push_call(t.sp, t.lr, t.pc), pc: trampoline },
        ),
        Target::LinuxArm64 => None,
    }
}

/// The counters after a verdict on a goroutine interrupted at `pc`.
pub open spec fn counted(p: Preempt, v: Verdict, pc: u64, ring: Vec<u64>) -> Preempt {
    let q = Preempt { invocations: p.invocations.wrapping_add(1), ring, ..p };
    match v {
        Verdict::Locks => Preempt { skip_locks: p.skip_locks.wrapping_add(1), ..q },
        Verdict::Trampoline => Preempt { skip_trampoline: p.skip_trampoline.wrapping_add(1), ..q },
        Verdict::RuntimePc => Preempt { skip_runtime_pc: p.skip_runtime_pc.wrapping_add(1), ..q },
        Verdict::NoCurg => Preempt { skip_no_curg: p.skip_no_curg.wrapping_add(1), ..q },
        Verdict::Parking => Preempt { skip_parking: p.skip_parking.wrapping_add(1), ..q },
        Verdict::NotRunning => Preempt {
            skip_not_running: p.skip_not_running.wrapping_add(1),
            ..q
        },
        Verdict::SpRange => Preempt { skip_sp_range: p.skip_sp_range.wrapping_add(1), ..q },
        Verdict::Inject => Preempt { injections: p.injections.wrapping_add(1), ..q },
    }
}

fn decide(t: &Interrupted, g: &GState, switches: &SwitchRanges, runtime: &Section, need: u64) -> (v: Verdict)
    ensures
        v == verdict_of(*t, *g, *switches, *runtime, need as int),
{
    if t.locks != 0 {
        return Verdict::Locks;
    }
    if is_in_switch(switches, t.pc) {
        return Verdict::Trampoline;
    }
    if is_in_runtime(runtime, t.pc) {
        return Verdict::RuntimePc;
    }
    if !t.has_curg {
        return Verdict::NoCurg;
    }
    if t.parking {
        return Verdict::Parking;
    }
    if !g.running {
        return Verdict::NotRunning;
    }
    if t.sp < g.stack_lo || t.sp - g.stack_lo < need || t.sp >= g.stack_hi {
        return Verdict::SpRange;
    }
    Verdict::Inject
}

/// `q`, `h` and `r` follow the signal that asks for preemption.
pub open spec fn handles(
    p: Preempt,
    q: Preempt,
    sys: Target,
    t: Interrupted,
    g: GState,
    h: GState,
    switches: SwitchRanges,
    runtime: Section,
    r: Option<Injection>,
) -> bool {
    let need = ASYNC_PREEMPT_STACK + p.fp_size - 512;
    let v = verdict_of(t, g, switches, runtime, need);
    &&& q == counted(p, v, t.pc, q.ring)
    &&& if v == Verdict::Inject {
        &&& r == injection_of(sys, t, switches.trampoline.start)
        &&& h == (GState { preempt: false, ..g })
        &&& q.ring@ == p.ring@.update(p.injections as int % 32, t.pc)
    } else {
        r is None && h == g && q.ring == p.ring
    }
}

/// Handles the signal that asks for preemption. A goroutine that may be
/// preempted continues in the trampoline, below the 128 bytes that it may be
/// using under its stack pointer, with its program counter kept for later.
pub fn goish_preempt_sigtramp(
    p: &mut Preempt,
    sys: Target,
    t: &Interrupted,
    g: &mut GState,
    switches: &SwitchRanges,
    runtime: &Section,
) -> (r: Option<Injection>)
    requires
        old(p).wf(),
    ensures
        final(p).wf(),
        handles(*old(p), *final(p), sys, *t, *old(g), *final(g), *switches, *runtime, r),
{
    let need: u64 = async_preempt_stack(p);
    p.invocations = p.invocations.wrapping_add(1);
    match decide(t, g, switches, runtime, need) {
        Verdict::Locks => {
            p.skip_locks = p.skip_locks.wrapping_add(1);
            None
        },
        Verdict::Trampoline => {
            p.skip_trampoline = p.skip_trampoline.wrapping_add(1);
            None
        },
        Verdict::RuntimePc => {
            p.skip_runtime_pc = p.skip_runtime_pc.wrapping_add(1);
            None
        },
        Verdict::NoCurg => {
            p.skip_no_curg = p.skip_no_curg.wrapping_add(1);
            None
        },
        Verdict::Parking => {
            p.skip_parking = p.skip_parking.wrapping_add(1);
            None
        },
        Verdict::NotRunning => {
            p.skip_not_running = p.skip_not_running.wrapping_add(1);
            None
        },
        Verdict::SpRange => {
            p.skip_sp_range = p.skip_sp_range.wrapping_add(1);
            None
        },
        Verdict::Inject => {
            g.preempt = false;
            let slot: usize = (p.injections % 32) as usize;
            p.ring.set(slot, t.pc);
            p.injections = p.injections.wrapping_add(1);
            inject(sys, t, switches.trampoline.start)
        },
    }
}

/// What preemption writes lies on the goroutine's own stack, and below the 128
/// bytes under its stack pointer that it may be using.
pub proof fn law_injection_stays_on_stack(
    sys: Target,
    t: Interrupted,
    g: GState,
    switches: SwitchRanges,
    runtime: Section,
    fp_size: u64,
)
    requires
        fp_size >= 512,
        verdict_of(t, g, switches, runtime, ASYNC_PREEMPT_STACK + fp_size - 512) == Verdict::Inject,
    ensures
        t.sp < g.stack_hi,
        match injection_of(sys, t, switches.trampoline.start) {
            Some(Injection::Jump { slot, value, sp, pc }) => g.stack_lo <= slot && slot + 8 <= t.sp
                - 128,
            Some(Injection::Call { frame, pc }) => g.stack_lo <= frame.base && frame.base + 24
                <= t.sp - 128 && frame.base % 16 == 0,
            None => true,
        },
{
}

/// A thread that holds a lock is never preempted, nor one in the runtime's own
/// code or in a context switch.
pub proof fn law_critical_code_is_left_alone(
    t: Interrupted,
    g: GState,
    switches: SwitchRanges,
    runtime: Section,
    need: int,
)
    requires
        t.locks != 0 || in_switch(switches, t.pc) || runtime.holds(t.pc),
    ensures
        verdict_of(t, g, switches, runtime, need) != Verdict::Inject,
{
}

/// A place of preemption is the most recent one right after it was recorded,
/// and moves the ones before back by one.
pub proof fn law_snapshot_is_most_recent_first(ring: Seq<u64>, total: u64, pc: u64, i: int)
    requires
        ring.len() == INJECT_RING_LEN,
        total < u64::MAX,
        0 <= i < 31,
        i < total,
    ensures
        recent_pc(ring.update(total as int % 32, pc), (total + 1) as u64, 0) == pc,
        recent_pc(ring.update(total as int % 32, pc), (total + 1) as u64, i + 1) == recent_pc(
            ring,
            total,
            i,
        ),
{
}

// ---- the resumed context on arm64 ----

/// What the handler of the trap at the trampoline's end does.
#[derive(Clone, Copy, Debug, PartialEq, Eq, Structural)]
pub enum TrapAction {
    /// Not ours: restore the default action and let the trap happen again.
    Default,
    /// Restore the registers from the area at `area`, and the rest from the
    /// pushed frame at `frame`.
    Restore { area: u64, frame: u64 },
}

/// Size of the area that the trampoline saves registers in.
pub const SAVE_AREA: u64 = 768;

/// Decides about a trap: only the one at the trampoline's end resumes a
/// goroutine.
pub fn goish_preempt_restore(pc: u64, sp: u64, restore_pc: u64) -> (r: TrapAction)
    requires
        sp <= u64::MAX - 16 - SAVE_AREA,
    ensures
        r == (if pc != restore_pc {
            TrapAction::Default
        } else {
            TrapAction::Restore { area: (sp + 16) as u64, frame: (sp + 16 + SAVE_AREA) as u64 }
        }),
{
    if pc != restore_pc {
        return TrapAction::Default;
    }
    TrapAction::Restore { area: sp + 16, frame: sp + 16 + SAVE_AREA }
}

/// A thread's registers.
pub struct ThreadState {
    pub x: [u64; 29],
    pub fp: u64,
    pub lr: u64,
    pub sp: u64,
    pub pc: u64,
    pub cpsr: u32,
    pub v: Vec<u8>,
    pub fpsr: u32,
    pub fpcr: u32,
}

/// What the trampoline saved: x0 to x29, the flags, the two floating-point
/// control words in one, and the vector registers.
pub struct SavedArea {
    pub words: [u64; 32],
    pub v: Vec<u8>,
}

/// `u` is `t` with the registers of a preempted goroutine.
pub open spec fn restores(
    t: ThreadState,
    u: ThreadState,
    area: SavedArea,
    lr: u64,
    sp: u64,
    pc: u64,
) -> bool {
    &&& forall|i: int|
        0 <= i < 29 ==> #[trigger] u.x@[i] == (if i == 18 {
            t.x@[i]
        } else {
            area.words@[i]
        })
    &&& u.fp == area.words@[29]
    &&& u.lr == lr && u.sp == sp && u.pc == pc
    &&& u.cpsr == (t.cpsr & 0x0fff_ffff) | ((area.words@[30] as u32) & 0xf000_0000)
    &&& u.v@ == area.v@
    &&& u.fpsr == area.words@[31] as u32
    &&& u.fpcr == (area.words@[31] >> 32) as u32
}

/// Restores the registers of a preempted goroutine. The platform register x18
/// stays as it is, and so do all status bits but the four condition flags.
pub fn restore_preempt_frame(t: &mut ThreadState, area: &SavedArea, lr: u64, sp: u64, pc: u64)
    ensures
        restores(*old(t), *final(t), *area, lr, sp, pc),
{
    let mut i: usize = 0;
    while i < 29
        invariant
            i <= 29,
            forall|k: int|
                0 <= k < i ==> #[trigger] t.x@[k] == (if k == 18 {
                    old(t).x@[k]
                } else {
                    area.words@[k]
                }),
            forall|k: int| i <= k < 29 ==> #[trigger] t.x@[k] == old(t).x@[k],
            t.cpsr == old(t).cpsr,
        decreases 29 - i,
    {
        if i != 18 {
            t.x[i] = area.words[i];
        }
        i = i + 1;
    }
    t.fp = area.words[29];
    t.lr = lr;
    t.sp = sp;
    t.pc = pc;
    let nzcv: u32 = (#[verifier::truncate] (area.words[30] as u32)) & 0xf000_0000;
    t.cpsr = (t.cpsr & 0x0fff_ffff) | nzcv;
    t.v = gostr::copy_bytes(area.v.as_slice());
    t.fpsr = #[verifier::truncate] (area.words[31] as u32);
    t.fpcr = #[verifier::truncate] ((area.words[31] >> 32) as u32);
}

// ---- laws ----

/// A goroutine is preempted exactly if its thread holds no lock and has one that
/// is running and not about to park, its program counter is in no context
/// switch, trampoline or runtime code, and its stack pointer is on its stack
/// with enough room below. The reasons to leave it alone are asked for in this
/// order: locks, switches, runtime code, goroutine, parking, running, stack.
pub proof fn law_verdicts(
    t: Interrupted,
    g: GState,
    a: SwitchRanges,
    runtime: Section,
    need: int,
)
    requires
        need >= 0,
    ensures
        ({
            let v = verdict_of(t, g, a, runtime, need);
            let switching = a.trampoline.start <= t.pc < a.trampoline.end || a.swap_context.start
                <= t.pc < a.swap_context.end || a.gogo.start <= t.pc < a.gogo.end || a.mcall.start
                <= t.pc < a.mcall.end;
            let in_runtime = runtime.start <= t.pc < runtime.end;
            let room = g.stack_lo + need <= t.sp < g.stack_hi;
            &&& v == Verdict::Locks <==> t.locks > 0
            &&& v == Verdict::Trampoline <==> t.locks == 0 && switching
            &&& v == Verdict::RuntimePc <==> t.locks == 0 && !switching && in_runtime
            &&& v == Verdict::NoCurg <==> t.locks == 0 && !switching && !in_runtime && !t.has_curg
            &&& v == Verdict::Parking <==> t.locks == 0 && !switching && !in_runtime && t.has_curg
                && t.parking
            &&& v == Verdict::NotRunning <==> t.locks == 0 && !switching && !in_runtime && t.has_curg
                && !t.parking && !g.running
            &&& v == Verdict::SpRange <==> t.locks == 0 && !switching && !in_runtime && t.has_curg
                && !t.parking && g.running && !room
            &&& v == Verdict::Inject <==> t.locks == 0 && !switching && !in_runtime && t.has_curg
                && !t.parking && g.running && room
        }),
{
}

/// How often a verdict has been given.
pub open spec fn given(p: Preempt, v: Verdict) -> u64 {
    match v {
        Verdict::Locks => p.skip_locks,
        Verdict::Trampoline => p.skip_trampoline,
        Verdict::RuntimePc => p.skip_runtime_pc,
        Verdict::NoCurg => p.skip_no_curg,
        Verdict::Parking => p.skip_parking,
        Verdict::NotRunning => p.skip_not_running,
        Verdict::SpRange => p.skip_sp_range,
        Verdict::Inject => p.injections,
    }
}

/// Every signal counts once, and once under its verdict and no other.
pub proof fn law_verdict_is_counted(p: Preempt, v: Verdict, w: Verdict, pc: u64, ring: Vec<u64>)
    requires
        p.invocations < u64::MAX,
        given(p, v) < u64::MAX,
    ensures
        counted(p, v, pc, ring).invocations == p.invocations + 1,
        given(counted(p, v, pc, ring), v) == given(p, v) + 1,
        w != v ==> given(counted(p, v, pc, ring), w) == given(p, w),
        counted(p, v, pc, ring).fp_size == p.fp_size,
        counted(p, v, pc, ring).fp_mask == p.fp_mask,
        counted(p, v, pc, ring).ring == ring,
{
}

/// A goroutine that is preempted has room for the red zone and what is resumed,
/// the general registers, the alignment, the return address, the scheduler and
/// the vector state. Its request is taken back, and its place recorded as the
/// most recent one. One that is left alone keeps everything.
pub proof fn law_preempted_goroutine_has_room(
    p: Preempt,
    q: Preempt,
    sys: Target,
    t: Interrupted,
    g: GState,
    h: GState,
    switches: SwitchRanges,
    runtime: Section,
    r: Option<Injection>,
)
    requires
        p.wf(),
        handles(p, q, sys, t, g, h, switches, runtime, r),
        p.injections < u64::MAX,
    ensures
        q.injections != p.injections ==> {
            &&& g.stack_lo + 160 + 128 + 63 + 8 + 4096 + p.fp_size <= t.sp < g.stack_hi
            &&& !h.preempt && h == (GState { preempt: false, ..g })
            &&& q.injections == p.injections + 1
            &&& recent_pc(q.ring@, q.injections, 0) == t.pc
            &&& r is Some <==> sys != Target::LinuxArm64
        },
        q.injections == p.injections ==> r is None && h == g && q.ring == p.ring,
        t.locks == 0 && t.has_curg && !t.parking && g.running && !in_switch(switches, t.pc)
            && !runtime.holds(t.pc) && g.stack_lo + 4455 + p.fp_size <= t.sp < g.stack_hi
            ==> q.injections == p.injections + 1,
{
}

/// How a goroutine is made to continue in the trampoline: its program counter
/// is kept on its stack below the red zone, with the stack pointer a word lower
/// on one system and at an aligned frame on another.
pub proof fn law_injection_keeps_the_place(t: Interrupted, trampoline: u64)
    requires
        t.sp >= 160,
    ensures
        injection_of(Target::LinuxAmd64, t, trampoline) matches Some(
            Injection::Jump { slot, value, sp, pc },
        ) && slot + 144 == t.sp && value == t.pc && sp + 8 == t.sp && pc == trampoline,
        injection_of(Target::DarwinArm64, t, trampoline) matches Some(Injection::Call { frame, pc })
            && pc == trampoline && frame.lr == t.lr && frame.sp == t.sp && frame.pc == t.pc
            && frame.base % 16 == 0 && frame.base + 160 <= t.sp < frame.base + 176,
        injection_of(Target::LinuxArm64, t, trampoline) is None,
{
}

/// The saved state ends where the last of its enabled components ends, and at
/// 576 at least: no enabled component ends later.
pub proof fn law_state_holds_its_components(c: CpuInfo, mask: u64, n: nat, i: int)
    requires
        n <= 4,
        0 <= i < n,
    ensures
        state_end(c, mask, n) >= 576,
        i == 0 && mask & 4 != 0 ==> state_end(c, mask, n) >= c.components@[0].0 + c.components@[0].1,
        i == 1 && mask & 32 != 0 ==> state_end(c, mask, n) >= c.components@[1].0 + c.components@[1].1,
        i == 2 && mask & 64 != 0 ==> state_end(c, mask, n) >= c.components@[2].0 + c.components@[2].1,
        i == 3 && mask & 128 != 0 ==> state_end(c, mask, n) >= c.components@[3].0
            + c.components@[3].1,
        state_end(c, mask, n) > 576 ==> exists|k: int|
            0 <= k < n && mask & component_bit(k) != 0 && state_end(c, mask, n) == (
            #[trigger] c.components@[k]).0 + c.components@[k].1,
    decreases n,
{
    lemma_state_end(c, mask, n);
    if n > 1 {
        if i < n - 1 {
            law_state_holds_its_components(c, mask, (n - 1) as nat, i);
        } else {
            law_state_holds_its_components(c, mask, (n - 1) as nat, 0);
        }
    } else {
        assert(state_end(c, mask, 0) == 576);
    }
    let before = state_end(c, mask, (n - 1) as nat);
    if state_end(c, mask, n) > 576 {
        if state_end(c, mask, n) != before {
            assert(state_end(c, mask, n) == c.components@[n - 1].0 + c.components@[n - 1].1);
        } else if n > 1 {
            let k = choose|k: int|
                0 <= k < n - 1 && mask & component_bit(k) != 0 && before == (
                #[trigger] c.components@[k]).0 + c.components@[k].1;
            assert(state_end(c, mask, n) == c.components@[k].0 + c.components@[k].1);
        }
    }
}

/// The smallest vector state is saved on other machines, and where the processor
/// cannot save the state as a whole or the kernel has not enabled its first two
/// components.
pub proof fn law_smallest_state(sys: Target, c: CpuInfo)
    ensures
        sys != Target::LinuxAmd64 ==> fp_layout(sys, c) == (0u64, 512int),
        c.max_leaf < 13 ==> fp_layout(sys, c) == (0u64, 512int),
        c.features & 0x0400_0000 == 0 || c.features & 0x0800_0000 == 0 ==> fp_layout(sys, c) == (
            0u64,
            512int,
        ),
        c.xcr0 & 3 != 3 ==> fp_layout(sys, c) == (0u64, 512int),
        sys == Target::LinuxAmd64 && c.max_leaf >= 13 && c.features == 0xffff_ffff && c.xcr0
            == 0xffff_ffff_ffff_ffff && c.supported_lo == 0xffff_ffff && c.supported_hi == 0xffff_ffff
            ==> fp_layout(sys, c).0 == 0xe7,
{
    let f = c.features;
    let x = c.xcr0;
    let s = (c.supported_lo as u64) | ((c.supported_hi as u64) << 32);
    let lo = c.supported_lo;
    let hi = c.supported_hi;
    assert((f & 0x0c00_0000 == 0x0c00_0000 ==> f & 0x0400_0000 != 0 && f & 0x0800_0000 != 0) && ((x & s
        & 0xe7) & 3 == 3 ==> x & 3 == 3) && (f == 0xffff_ffff ==> f & 0x0c00_0000 == 0x0c00_0000) && ((
    lo == 0xffff_ffff && hi == 0xffff_ffff && x == 0xffff_ffff_ffff_ffff) ==> x & ((lo as u64) | ((
    hi as u64) << 32)) & 0xe7 == 0xe7) && 0xe7u64 & 3 == 3) by (bit_vector);
}

/// What the trampoline saves of a thread's registers.
pub open spec fn saves(t: ThreadState, area: SavedArea) -> bool {
    &&& forall|i: int| 0 <= i < 29 ==> #[trigger] area.words@[i] == t.x@[i]
    &&& area.words@[29] == t.fp
    &&& area.words@[30] == t.cpsr as u64
    &&& area.words@[31] == (t.fpsr as u64) | ((t.fpcr as u64) << 32)
    &&& area.v@ == t.v@
}

/// Registers that were saved are restored: all of them but the platform
/// register, and of the status bits the four condition flags.
pub proof fn law_saved_registers_are_restored(
    t: ThreadState,
    area: SavedArea,
    now: ThreadState,
    u: ThreadState,
    i: int,
)
    requires
        saves(t, area),
        restores(now, u, area, t.lr, t.sp, t.pc),
        0 <= i < 29,
    ensures
        i != 18 ==> u.x@[i] == t.x@[i],
        u.x@[18] == now.x@[18],
        u.fp == t.fp && u.lr == t.lr && u.sp == t.sp && u.pc == t.pc,
        u.cpsr & 0xf000_0000 == t.cpsr & 0xf000_0000,
        u.cpsr & 0x0fff_ffff == now.cpsr & 0x0fff_ffff,
        u.v@ == t.v@,
        u.fpsr == t.fpsr,
        u.fpcr == t.fpcr,
{
    let a = now.cpsr;
    let b = t.cpsr;
    let x = t.fpsr;
    let y = t.fpcr;
    assert({
        &&& ((a & 0x0fff_ffff) | (((b as u64) as u32) & 0xf000_0000)) & 0xf000_0000 == b & 0xf000_0000
        &&& ((a & 0x0fff_ffff) | (((b as u64) as u32) & 0xf000_0000)) & 0x0fff_ffff == a & 0x0fff_ffff
        &&& ((x as u64) | ((y as u64) << 32)) as u32 == x
        &&& (((x as u64) | ((y as u64) << 32)) >> 32) as u32 == y
    }) by (bit_vector);
}

/// A snapshot holds as many places as there are, as it has room for, and as are
/// kept, whichever is least.
pub proof fn law_snapshot_length(out: nat, total: u64)
    ensures
        snapshot_len(out, total) <= out && snapshot_len(out, total) <= total && snapshot_len(
            out,
            total,
        ) <= 32,
        snapshot_len(out, total) == out || snapshot_len(out, total) == total || snapshot_len(
            out,
            total,
        ) == 32,
{
}

} // verus!
