//! The saved registers of a goroutine that does not run, on arm64.

use vstd::prelude::*;

verus! {

pub struct Gobuf {
    pub rsp: u64,
    pub pc: u64,
    pub fp: u64,
    pub lr: u64,
    /// x19 to x28.
    pub x: [u64; 10],
    /// d8 to d15.
    pub d: [u64; 8],
}

impl Gobuf {
    pub open spec fn is_blank(&self) -> bool {
        &&& self.rsp == 0 && self.pc == 0 && self.fp == 0 && self.lr == 0
        &&& forall|i: int| 0 <= i < 10 ==> #[trigger] self.x@[i] == 0
        &&& forall|i: int| 0 <= i < 8 ==> #[trigger] self.d@[i] == 0
    }

    pub fn new() -> (r: Self)
        ensures
            r.is_blank(),
    {
        Gobuf { rsp: 0, pc: 0, fp: 0, lr: 0, x: [0u64;10], d: [0u64;8] }
    }
}

/// `g` is a context that is entered by a jump.
pub open spec fn is_entered_by_jump(g: Gobuf, stack_top: u64, entry: u64, goexit: u64) -> bool {
    &&& g.rsp == stack_top
    &&& g.pc == entry
    &&& g.lr == goexit
    &&& (Gobuf { rsp: 0, pc: 0, lr: 0, ..g }).is_blank()
}

/// Prepares a context that is entered by a jump. A return from the entry goes
/// to `goexit`.
pub fn make_context_gogo(gobuf: &mut Gobuf, stack_top: u64, entry: u64, goexit: u64)
    requires
        stack_top % 16 == 0,
    ensures
        is_entered_by_jump(*final(gobuf), stack_top, entry, goexit),
{
    *gobuf = Gobuf::new();
    gobuf.rsp = stack_top;
    gobuf.pc = entry;
    gobuf.lr = goexit;
}

/// The same: on arm64 there is one way to enter a context.
pub fn make_context(gobuf: &mut Gobuf, stack_top: u64, entry: u64, goexit: u64)
    requires
        stack_top % 16 == 0,
    ensures
        is_entered_by_jump(*final(gobuf), stack_top, entry, goexit),
{
    make_context_gogo(gobuf, stack_top, entry, goexit)
}

/// A new context starts at its entry with an empty stack, returns to where it is
/// to go then, and has no other register set.
pub proof fn law_entry_starts_with_an_empty_stack(
    g: Gobuf,
    stack_top: u64,
    entry: u64,
    goexit: u64,
    i: int,
)
    requires
        is_entered_by_jump(g, stack_top, entry, goexit),
        0 <= i < 10,
    ensures
        g.pc == entry && g.rsp == stack_top && g.lr == goexit && g.fp == 0,
        g.x@[i] == 0,
        i < 8 ==> g.d@[i] == 0,
{
    let b = Gobuf { rsp: 0, pc: 0, lr: 0, ..g };
    assert(b.x@[i] == 0);
    if i < 8 {
        assert(b.d@[i] == 0);
    }
}

} // verus!
