//! The simulator's only source of randomness: a uniform integer draw.
//!
//! Every random decision in the channel error model is a comparison of one
//! such draw against an exact integer threshold, so no other randomness is
//! needed anywhere in the library.

use vstd::prelude::*;

verus! {

/// Relies on rand::random_range over the half-open range `0..bound`: the
/// draw is uniform and always strictly below `bound`.  Nothing more can be
/// promised of a random value.  An empty range would make the call panic,
/// hence the precondition.
#[verifier::external_body]
pub(crate) fn draw_below(bound: u64) -> (r: u64)
    requires
        bound >= 1,
    ensures
        r < bound,
{
    rand::random_range(0u64..bound)
}

} // verus!
