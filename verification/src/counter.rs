//! Counters that wrap around.

use vstd::prelude::*;

verus! {

/// `n` modulo 2^64.
pub open spec fn wrapped(n: int) -> u64 {
    (n % 0x1_0000_0000_0000_0000) as u64
}

/// Adding to a counter that has wrapped is adding before it wraps.
pub proof fn lemma_wrapped_add(n: int, by: int)
    ensures
        wrapped(wrapped(n) + by) == wrapped(n + by),
{
}

/// A counter moved on by `by`.
pub fn bumped(n: u64, by: u64) -> (r: u64)
    ensures
        r == wrapped(n + by),
{
    n.wrapping_add(by)
}

/// A counter shows what was counted, up to whole turns of 2^64, and shows it as it is until it has
/// turned once.
pub proof fn law_counters_turn_at_two_to_the_64(n: int, by: int)
    ensures
        0 <= n < 0x1_0000_0000_0000_0000 ==> wrapped(n) == n,
        (n - wrapped(n)) % 0x1_0000_0000_0000_0000 == 0,
        wrapped(n + 0x1_0000_0000_0000_0000) == wrapped(n),
        wrapped(n) == wrapped(n + by) <==> by % 0x1_0000_0000_0000_0000 == 0,
{
}

} // verus!
