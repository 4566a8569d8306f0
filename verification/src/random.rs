//! The one source of chance in the game.

use rand::distributions::{Distribution, Uniform};
use vstd::prelude::*;

verus! {

/// Draws a number below `bound` from the random number generator of the
/// current thread, by `Uniform::from(0..bound)` and `Distribution::sample` of
/// the crate `rand`. The distribution refuses an empty range, so `bound` must
/// be positive; all that is assumed of the number drawn is that it lies in
/// the range.
#[verifier::external_body]
pub(crate) fn sample_index(bound: usize) -> (index: usize)
    requires
        bound > 0,
    ensures
        index < bound,
{
    let between = Uniform::from(0..bound);
    let mut rng = rand::thread_rng();
    between.sample(&mut rng)
}

} // verus!
