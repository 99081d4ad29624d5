//! Counters that stay at their largest value.
//!
//! Line counts, points and scores are kept in 64 bits. A total that does
//! not fit is held at `u64::MAX`, so that adding never wraps around and a
//! larger input never gives a smaller total.

use vstd::prelude::*;

verus! {

/// The largest value a 64-bit counter holds.
pub open spec fn counter_max() -> nat {
    0xFFFF_FFFF_FFFF_FFFF
}

/// A total as a 64-bit counter keeps it: itself while it fits, else the
/// largest value.
pub open spec fn capped(total: nat) -> nat {
    if total <= counter_max() {
        total
    } else {
        counter_max()
    }
}

/// Adds to a counter, staying at the largest value once it is reached.
pub fn add_capped(total: u64, more: u64) -> (sum: u64)
    ensures
        sum == capped(total as nat + more as nat),
{
    if total > u64::MAX - more {
        u64::MAX
    } else {
        total + more
    }
}

/// Capping a sum as it grows gives the capped sum.
pub proof fn lemma_capped_add(a: nat, b: nat)
    ensures
        capped(capped(a) + b) == capped(a + b),
        capped(a + capped(b)) == capped(a + b),
{
}

/// Capping keeps the order of totals.
pub proof fn lemma_capped_monotonic(a: nat, b: nat)
    requires
        a <= b,
    ensures
        capped(a) <= capped(b),
{
}

} // verus!
