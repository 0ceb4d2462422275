//! Trusted randomness: thin wrappers over the `rand` crate. Nothing can
//! be promised of a random draw beyond its range, so the contracts state
//! only that.

use vstd::prelude::*;

verus! {

/// Relies on rand::Rng::gen_range over `0..n`: a value below `n`, drawn
/// uniformly; the empty range, on which it panics, is excluded here.
#[verifier::external_body]
pub(crate) fn rand_below_u64(n: u64) -> (r: u64)
    requires
        n > 0,
    ensures
        r < n,
{
    rand::Rng::gen_range(&mut rand::thread_rng(), 0..n)
}

/// Relies on rand::Rng::gen_range over `0..n`: a value below `n`, drawn
/// uniformly; the empty range, on which it panics, is excluded here.
#[verifier::external_body]
pub(crate) fn rand_index(n: usize) -> (r: usize)
    requires
        n > 0,
    ensures
        r < n,
{
    rand::Rng::gen_range(&mut rand::thread_rng(), 0..n)
}

/// Relies on rand::Rng::gen at type bool: a fair coin flip.
#[verifier::external_body]
pub(crate) fn rand_flip() -> (r: bool) {
    rand::Rng::gen(&mut rand::thread_rng())
}

} // verus!
