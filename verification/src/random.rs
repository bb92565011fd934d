//! The source of random draws.

use rand::rngs::ThreadRng;
use rand::Rng;
use vstd::prelude::*;

verus! {

/// The generator of `rand` that belongs to a thread: a value that is
/// carried from where it is fetched to where it is drawn from.
#[verifier::external_type_specification]
#[verifier::external_body]
pub struct ExThreadRng(rand::rngs::ThreadRng);

/// `rand::thread_rng` hands out the calling thread's generator. Nothing is
/// claimed of it.
pub assume_specification[ rand::thread_rng ]() -> (rng: rand::rngs::ThreadRng);

/// One draw from `low..=high` by `Rng::gen_range`. The draw lies in the
/// range; which value of the range it is, is not claimed. `gen_range`
/// panics on an empty range, so `low <= high` is asked for.
#[verifier::external_body]
pub(crate) fn random_between(rng: &mut ThreadRng, low: i64, high: i64) -> (drawn: i64)
    requires
        low <= high,
    ensures
        low <= drawn <= high,
{
    rng.gen_range(low..=high)
}

} // verus!
