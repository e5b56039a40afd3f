//! Numbers picked by chance.
use vstd::prelude::*;

verus! {

/// `rand::Rng::random_range` picks a number from a range that holds some. It may be any of them.
#[verifier::external_body]
pub(crate) fn random_between(lowest: i64, highest: i64) -> (number: i64)
    requires
        lowest <= highest,
    ensures
        lowest <= number <= highest,
{
    rand::Rng::random_range(&mut rand::rng(), lowest..=highest)
}

} // verus!
