//! The one place where chance enters a tick.

use vstd::prelude::*;
use rand::rngs::StdRng;
use rand::Rng;

verus! {

/// The generator of `rand` that the engine draws from. It is carried through
/// and never looked into.
#[verifier::external_type_specification]
#[verifier::external_body]
pub struct ExStdRng(rand::rngs::StdRng);

/// Draws a number from `low` up to, but not including, `high`.
///
/// This is `rand::Rng::gen_range` on the range `low..high`, taken on trust.
/// That method panics on an empty range, which the precondition rules out,
/// and hands back a member of the range. Which member is left open: two
/// draws from the same range may differ.
#[verifier::external_body]
pub(crate) fn random_between(rng: &mut StdRng, low: usize, high: usize) -> (pick: usize)
    requires
        low < high,
    ensures
        low <= pick < high,
{
    rng.gen_range(low..high)
}

} // verus!
