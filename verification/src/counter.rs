//! Drawing numbers from shared counters.

use std::sync::atomic::Ordering;
use vstd::prelude::*;

verus! {

/// Steps `counter` by `step` through the atomic operation `operation`, and returns the
/// number that the operation gives back.
pub(crate) fn draw<C, N, F: Fn(&C, N, Ordering) -> N>(operation: F, counter: &C, step: N) -> (raw: N)
    requires
        call_requires(operation, (counter, step, Ordering::Relaxed)),
    ensures
        call_ensures(operation, (counter, step, Ordering::Relaxed), raw),
{
    operation(counter, step, Ordering::Relaxed)
}

} // verus!
