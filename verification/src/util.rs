//! Small helpers.
use vstd::prelude::*;

verus! {

/// Busy-waits for roughly `amount` iterations.
pub fn delay(amount: u64) {
    let mut i: u64 = 0;
    while i < amount
        invariant
            i <= amount,
        decreases amount - i,
    {
        i = i + 1;
    }
}

} // verus!
