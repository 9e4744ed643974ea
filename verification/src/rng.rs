//! The library's one source of randomness.
//!
//! Everything stochastic in the renderer (pixel-order shuffles, scatter
//! directions, the reflect/refract coin) draws through this wrapper, and
//! every caller's contract holds for any value it may return.

use vstd::prelude::*;

verus! {

/// Relies on rand::random_range over `0..n`: a uniformly distributed
/// integer below `n`, from the thread-local generator.  The call panics
/// on an empty range, so `n` must be positive.
#[verifier::external_body]
pub(crate) fn rand_below(n: u64) -> (r: u64)
    requires
        n > 0,
    ensures
        r < n,
{
    rand::random_range(0..n)
}

} // verus!
