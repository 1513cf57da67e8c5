//! The random source that places the mines.

use vstd::prelude::*;
use rand::rngs::StdRng;
use rand::{Rng, SeedableRng};

verus! {

/// The standard generator of the `rand` crate. Verified code hands it on
/// and never looks inside.
#[verifier::external_type_specification]
#[verifier::external_body]
pub struct ExStdRng(StdRng);

/// Calls `StdRng::from_entropy`, which seeds a new generator from the
/// operating system. Nothing is claimed of the generator. The call aborts
/// where the operating system has no entropy to give.
#[verifier::external_body]
pub(crate) fn entropy_rng() -> (rng: StdRng) {
    StdRng::from_entropy()
}

/// Calls `Rng::gen_range` on the range `0..bound`, which is not empty. The
/// contract claims only that the number drawn lies in that range.
#[verifier::external_body]
pub(crate) fn draw_below(rng: &mut StdRng, bound: usize) -> (r: usize)
    requires
        bound > 0,
    ensures
        r < bound,
{
    rng.gen_range(0..bound)
}

} // verus!
