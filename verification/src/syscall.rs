//! Self-test of the software-interrupt gate.

use vstd::prelude::*;

verus! {

/// Software interrupts that the self-test raises.
pub const SELF_TEST_HITS: u64 = 2;

/// Whether the handler saw exactly the interrupts that were raised.
pub fn self_test(hits: u64) -> (ok: bool)
    ensures
        ok == (hits == SELF_TEST_HITS),
{
    hits == SELF_TEST_HITS
}

/// Law: software interrupts work if two of them left two hits, and only then.
pub proof fn law_two_hits(hits: u64, ok: bool)
    requires
        call_ensures(self_test, (hits,), ok),
    ensures
        ok <==> hits == 2,
{
}

} // verus!
