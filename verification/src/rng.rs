#[allow(unused_imports)]
use rand::Rng;
use vstd::prelude::*;

verus! {

/// Draws a tetromino kind by `rand::rng().random_range(0..7)` (rand's thread-local
/// generator, `Rng::random_range`). Trusted: rand documents that the result lies in the
/// half-open range it is given, so the kind is below 7; which kind comes is left open.
#[verifier::external_body]
pub(crate) fn random_kind() -> (k: usize)
    ensures
        k < 7,
{
    rand::rng().random_range(0..7)
}

} // verus!
