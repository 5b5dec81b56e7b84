//! Randomness at the library's edge: a single uniform integer draw.
//! Every probabilistic selector is a verified function of such draws.
use vstd::prelude::*;

verus! {

/// Relies on rand::random_range over `0..bound`: a uniform draw below
/// `bound` from the thread-local generator. The call panics on an empty
/// range, so the bound must be positive; nothing is promised about the
/// distribution of outcomes.
#[verifier::external_body]
pub(crate) fn rand_below(bound: u64) -> (r: u64)
    requires
        bound > 0,
    ensures
        r < bound,
{
    rand::random_range(0..bound)
}

} // verus!
