//! The saved registers of a goroutine that does not run, on amd64.

use vstd::prelude::*;

verus! {

pub struct Gobuf {
    pub rsp: u64,
    pub rbp: u64,
    pub rbx: u64,
    pub r12: u64,
    pub r13: u64,
    pub r14: u64,
    pub r15: u64,
    pub pc: u64,
}

pub const GOBUF_RSP: usize = 0x00;

pub const GOBUF_RBP: usize = 0x08;

pub const GOBUF_RBX: usize = 0x10;

pub const GOBUF_R12: usize = 0x18;

pub const GOBUF_R13: usize = 0x20;

pub const GOBUF_R14: usize = 0x28;

pub const GOBUF_R15: usize = 0x30;

pub const GOBUF_PC: usize = 0x38;

pub open spec fn blank() -> Gobuf {
    Gobuf { rsp: 0, rbp: 0, rbx: 0, r12: 0, r13: 0, r14: 0, r15: 0, pc: 0 }
}

impl Gobuf {
    pub fn new() -> (r: Self)
        ensures
            r == blank(),
    {
        Gobuf { rsp: 0, rbp: 0, rbx: 0, r12: 0, r13: 0, r14: 0, r15: 0, pc: 0 }
    }
}

/// A word to be written to a new stack.
#[derive(Clone, Copy, Debug, PartialEq, Eq, Structural)]
pub struct StackWord {
    pub addr: u64,
    pub value: u64,
}

/// `g` and the words `r` on its stack are a context that is entered by a return.
pub open spec fn is_entered_by_return(
    g: Gobuf,
    r: (StackWord, StackWord),
    stack_top: u64,
    entry: u64,
    goexit: u64,
) -> bool {
    &&& g == (Gobuf { rsp: (stack_top - 16) as u64, ..blank() })
    &&& r.0 == (StackWord { addr: (stack_top - 8) as u64, value: goexit })
    &&& r.1 == (StackWord { addr: (stack_top - 16) as u64, value: entry })
}

/// `g` and the word `r` on its stack are a context that is entered by a jump.
pub open spec fn is_entered_by_jump(
    g: Gobuf,
    r: StackWord,
    stack_top: u64,
    entry: u64,
    goexit: u64,
) -> bool {
    &&& g == (Gobuf { rsp: (stack_top - 8) as u64, pc: entry, ..blank() })
    &&& r == (StackWord { addr: (stack_top - 8) as u64, value: goexit })
}

/// Prepares a context that is entered by a return: the entry on top of the
/// stack, and above it where to go when the entry returns.
pub fn make_context(gobuf: &mut Gobuf, stack_top: u64, entry: u64, goexit: u64) -> (r: (
    StackWord,
    StackWord,
))
    requires
        stack_top % 16 == 0,
        stack_top >= 16,
    ensures
        is_entered_by_return(*final(gobuf), r, stack_top, entry, goexit),
{
    let sp: u64 = stack_top - 16;
    *gobuf = Gobuf::new();
    gobuf.rsp = sp;
    (StackWord { addr: stack_top - 8, value: goexit }, StackWord { addr: sp, value: entry })
}

/// Prepares a context that is entered by a jump: where to go when the entry
/// returns on top of the stack.
pub fn make_context_gogo(gobuf: &mut Gobuf, stack_top: u64, entry: u64, goexit: u64) -> (r: StackWord)
    requires
        stack_top % 16 == 0,
        stack_top >= 16,
    ensures
        is_entered_by_jump(*final(gobuf), r, stack_top, entry, goexit),
{
    let sp: u64 = stack_top - 8;
    *gobuf = Gobuf::new();
    gobuf.rsp = sp;
    gobuf.pc = entry;
    StackWord { addr: sp, value: goexit }
}

/// However a context is entered, its entry starts with the stack pointer eight
/// below a multiple of sixteen, on top of the address it returns to.
pub proof fn law_entry_stack_is_aligned(stack_top: u64)
    requires
        stack_top % 16 == 0,
        stack_top >= 16,
    ensures
        ((stack_top - 16) + 8) % 16 == 8,
        (stack_top - 16) + 8 == stack_top - 8,
        (stack_top - 8) % 16 == 8,
{
}

/// A return into a context takes the entry off the stack and leaves, on top of
/// it, where the entry returns to; a jump finds the same. Either way the entry
/// starts with the stack pointer eight below a multiple of sixteen, on the
/// stack, and with all other registers zero.
pub proof fn law_entry_finds_its_return_address(
    g: Gobuf,
    r: (StackWord, StackWord),
    h: Gobuf,
    w: StackWord,
    stack_top: u64,
    entry: u64,
    goexit: u64,
)
    requires
        stack_top % 16 == 0,
        stack_top >= 16,
        is_entered_by_return(g, r, stack_top, entry, goexit),
        is_entered_by_jump(h, w, stack_top, entry, goexit),
    ensures
        r.1.addr == g.rsp && r.1.value == entry,
        r.0.addr == g.rsp + 8 && r.0.value == goexit,
        r.0.addr + 8 == stack_top,
        (g.rsp + 8) % 16 == 8,
        w.addr == h.rsp && w.value == goexit && h.pc == entry,
        h.rsp == g.rsp + 8,
        g.rbp == 0 && g.rbx == 0 && g.r12 == 0 && g.r13 == 0 && g.r14 == 0 && g.r15 == 0,
        h.rbp == 0 && h.rbx == 0 && h.r12 == 0 && h.r13 == 0 && h.r14 == 0 && h.r15 == 0,
{
}

} // verus!
