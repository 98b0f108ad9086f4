//! Arithmetic on counts.

use vstd::prelude::*;

verus! {

/// The difference of two counts, zero where the count fell.
pub open spec fn risen(now: u64, before: u64) -> u64 {
    if now >= before {
        (now - before) as u64
    } else {
        0
    }
}

/// At least 1.
pub open spec fn at_least_one(x: u64) -> u64 {
    if x >= 1 {
        x
    } else {
        1
    }
}

} // verus!
