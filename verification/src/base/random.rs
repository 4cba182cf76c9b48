//! The calls into the `rand` crate.  Their contracts are taken on trust.

use rand::Rng;
use vstd::prelude::*;

verus! {

/// `rand::rngs::ThreadRng`, the handle to the generator that `rand` keeps for each
/// thread.  Nothing is known of what it holds.
#[verifier::external_type_specification]
#[verifier::external_body]
pub struct ExThreadRng(rand::rngs::ThreadRng);

/// `rand::thread_rng` hands out the handle to the thread's generator.  Nothing is
/// claimed of the handle.  The call fails only where the operating system cannot seed
/// the generator.
pub assume_specification[ rand::thread_rng ]() -> (generator: rand::rngs::ThreadRng)
;

/// `Rng::gen_range` on `u64` draws a number that is at least `low` and less than `high`.
/// It does not accept an empty range, so `low < high` is required.  Which number comes
/// is left open.
#[verifier::external_body]
pub(crate) fn gen_range(generator: &mut rand::rngs::ThreadRng, low: u64, high: u64) -> (number:
    u64)
    requires
        low < high,
    ensures
        low <= number < high,
{
    generator.gen_range(low, high)
}

/// `rand::random` at type `bool` draws a flag.  Nothing is claimed of which one comes.
#[verifier::external_body]
pub(crate) fn random_flag() -> (flag: bool) {
    rand::random()
}

} // verus!
