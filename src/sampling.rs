//! Draws from the thread-local random source.
use rand::Rng;
use rand_distr::Distribution;
use vstd::prelude::*;

verus! {

/// Relies on rand's `Rng::gen_range` on the thread-local generator: the value
/// lies in the half-open range `[lo, hi)`, which must not be empty.
#[verifier::external_body]
pub(crate) fn gen_range(lo: i64, hi: i64) -> (r: i64)
    requires
        lo < hi,
    ensures
        lo <= r < hi,
{
    rand::thread_rng().gen_range(lo..hi)
}

/// Relies on rand_distr's `Uniform` over `lo..hi` sampled from the
/// thread-local generator: the value lies in `[lo, hi)`, which must not be empty.
#[verifier::external_body]
pub(crate) fn sample_uniform(lo: u64, hi: u64) -> (r: u64)
    requires
        lo < hi,
    ensures
        lo <= r < hi,
{
    rand_distr::Uniform::from(lo..hi).sample(&mut rand::thread_rng())
}

} // verus!
