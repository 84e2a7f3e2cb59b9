//! The stack of the double-fault handler.
//!
//! It is a stack of its own, so that an overflow of the kernel stack, which is
//! what mostly causes double faults, still reaches the handler.

use vstd::prelude::*;
use crate::memory::paging;

verus! {

/// Slot of the double-fault stack in the interrupt stack table.
pub const DOUBLE_FAULT_IST_INDEX: u16 = 0;

/// Size of the double-fault stack: five pages.
pub const DF_STACK_SIZE: usize = 20_480;

/// Where the double-fault stack starts growing down, if it lives at `start`, a
/// multiple of 16.
pub fn df_stack_top(start: u64) -> (top: u64)
    requires
        start % 16 == 0,
        paging::canonical(start as int),
        paging::canonical(start + DF_STACK_SIZE),
    ensures
        top == start + DF_STACK_SIZE,
        top % 16 == 0,
{
    start + DF_STACK_SIZE as u64
}

/// Law: the double-fault stack is five pages and grows down from their end.
pub proof fn law_double_fault_stack(start: u64, top: u64)
    requires
        call_ensures(df_stack_top, (start,), top),
    ensures
        top - start == 5 * 4096,
        start % 16 == 0 ==> top % 16 == 0,
{
}

} // verus!
