use vstd::prelude::*;
use rand::RngExt;

verus! {

// The generator threads an explicit, seedable randomness source through level
// generation so that levels are reproducible. The type is opaque here; the
// wrappers below state only what holds of every draw.
#[verifier::external_type_specification]
#[verifier::external_body]
pub struct ExStdRng(rand::rngs::StdRng);

/// Relies on rand::RngExt::random_range over `lo..hi`: the sample always lies
/// in `[lo, hi)`. The call panics only on an empty range, which the
/// precondition rules out.
#[verifier::external_body]
pub(crate) fn rng_range(rng: &mut rand::rngs::StdRng, lo: i32, hi: i32) -> (r: i32)
    requires
        lo < hi,
    ensures
        lo <= r < hi,
{
    rng.random_range(lo..hi)
}

/// Relies on rand::RngExt::random for `bool`: a coin toss of which nothing
/// more is promised.
#[verifier::external_body]
pub(crate) fn rng_coin(rng: &mut rand::rngs::StdRng) -> (r: bool) {
    rng.random::<bool>()
}

} // verus!
