//! The registers of an interrupted thread.

use vstd::prelude::*;

use crate::preempt::{UcontextT, REG_RBP, REG_RIP, REG_RSP};
use crate::dwarf_util;

verus! {

pub fn pc(ctx: &UcontextT) -> (r: u64)
    ensures
        r == ctx.uc_mcontext.gregs@[REG_RIP as int],
{
    ctx.uc_mcontext.gregs[REG_RIP]
}

pub fn fp(ctx: &UcontextT) -> (r: u64)
    ensures
        r == ctx.uc_mcontext.gregs@[REG_RBP as int],
{
    ctx.uc_mcontext.gregs[REG_RBP]
}

pub fn sp(ctx: &UcontextT) -> (r: u64)
    ensures
        r == ctx.uc_mcontext.gregs@[REG_RSP as int],
{
    ctx.uc_mcontext.gregs[REG_RSP]
}

/// Replaces the program counter.
pub fn set_pc(ctx: &mut UcontextT, v: u64)
    ensures
        final(ctx).uc_mcontext.gregs@ == old(ctx).uc_mcontext.gregs@.update(REG_RIP as int, v),
        final(ctx).uc_flags == old(ctx).uc_flags,
        final(ctx).uc_link == old(ctx).uc_link,
        final(ctx).uc_stack == old(ctx).uc_stack,
        final(ctx).uc_mcontext.fpregs == old(ctx).uc_mcontext.fpregs,
{
    ctx.uc_mcontext.gregs[REG_RIP] = v;
}

/// Replaces the stack pointer.
pub fn set_sp(ctx: &mut UcontextT, v: u64)
    ensures
        final(ctx).uc_mcontext.gregs@ == old(ctx).uc_mcontext.gregs@.update(REG_RSP as int, v),
        final(ctx).uc_flags == old(ctx).uc_flags,
        final(ctx).uc_link == old(ctx).uc_link,
        final(ctx).uc_stack == old(ctx).uc_stack,
        final(ctx).uc_mcontext.fpregs == old(ctx).uc_mcontext.fpregs,
{
    ctx.uc_mcontext.gregs[REG_RSP] = v;
}

/// Offset of the faulting address in the kernel's description of a signal, on
/// Linux.
pub const LINUX_SI_ADDR: usize = 16;

/// The same on Darwin.
pub const DARWIN_SI_ADDR: usize = 24;

/// The faulting address.
pub fn fault_addr(info: &[u8], si_addr: usize) -> (r: u64)
    requires
        si_addr + 8 <= info.len(),
    ensures
        r == dwarf_util::le_value(info@, si_addr as int, 8),
{
    dwarf_util::le64(info, si_addr)
}

} // verus!
