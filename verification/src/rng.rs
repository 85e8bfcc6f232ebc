//! Trusted access to the pseudo-random source.
//!
//! The sampler only ever needs bounded integer draws, so each wrapper
//! promises a range and nothing more: every verified consequence holds for
//! every possible draw.
use vstd::prelude::*;

verus! {

#[verifier::external_type_specification]
#[verifier::external_body]
pub struct ExThreadRng(rand::rngs::ThreadRng);

/// Relies on rand::RngExt::random_range over `0..n`: the sample lies
/// below `n` (the empty range would panic, hence the precondition).
#[verifier::external_body]
pub(crate) fn draw_index(rng: &mut rand::rngs::ThreadRng, n: usize) -> (r: usize)
    requires
        n > 0,
    ensures
        r < n,
{
    rand::RngExt::random_range(rng, 0..n)
}

/// Relies on rand::RngExt::random_range over `0..n`: the sample lies
/// below `n` (the empty range would panic, hence the precondition).
#[verifier::external_body]
pub(crate) fn draw_below(rng: &mut rand::rngs::ThreadRng, n: u64) -> (r: u64)
    requires
        n > 0,
    ensures
        r < n,
{
    rand::RngExt::random_range(rng, 0..n)
}

} // verus!
