//! Random choices.

use rand::Rng;
use vstd::prelude::*;

verus! {

/// `rand::Rng::gen_range` of the thread's generator over `0..n`: some index
/// below `n`. Which one is left to chance.
#[verifier::external_body]
pub(crate) fn random_index(n: usize) -> (r: usize)
    requires
        n > 0,
    ensures
        r < n,
{
    rand::thread_rng().gen_range(0..n)
}

} // verus!
