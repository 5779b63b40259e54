use vstd::prelude::*;
use rand::Rng;

verus! {

/// Relies on rand::Rng::random_range (rand 0.9) over the thread-local
/// generator: the result is drawn uniformly from `0..n`. The call panics
/// only on an empty range, which the precondition rules out; nothing more
/// is assumed of which value comes back.
#[verifier::external_body]
pub(crate) fn random_below(n: usize) -> (r: usize)
    requires
        n >= 1,
    ensures
        r < n,
{
    rand::rng().random_range(0..n)
}

} // verus!
