//! The source of randomness: `rand`'s `StdRng`, and the two draws that the
//! samplers make from it.
//!
//! What is said here of `rand` is taken from its source and not proved. It holds
//! of every outcome of a draw: nothing is said of how likely an outcome is.

use rand::distributions::{Bernoulli, Distribution};
use rand::rngs::StdRng;
use rand::seq::IteratorRandom;
use vstd::prelude::*;

verus! {

/// `rand::rngs::StdRng`, of which Verus sees nothing but the name.
#[verifier::external_type_specification]
#[verifier::external_body]
pub struct ExStdRng(StdRng);

/// One trial that succeeds with probability `numerator / denominator`:
/// `Bernoulli::from_ratio`, then `Distribution::sample` on what it returns.
///
/// Nothing is claimed of the outcome but at the two ends: a trial of probability
/// zero never succeeds, a trial of probability one always does.
#[verifier::external_body]
pub(crate) fn bernoulli_trial(rng: &mut StdRng, numerator: u32, denominator: u32) -> (success: bool)
    requires
        numerator <= denominator,
        denominator > 0,
    ensures
        numerator == 0 ==> !success,
        numerator == denominator ==> success,
{
    Bernoulli::from_ratio(numerator, denominator).unwrap().sample(rng)
}

/// `IteratorRandom::choose_multiple` on the range `0..bound`: `amount` numbers
/// below `bound`, or all of them where there are fewer, none of them twice.
///
/// Which numbers, and in which order, is left open.
#[verifier::external_body]
pub(crate) fn choose_multiple(rng: &mut StdRng, bound: usize, amount: usize) -> (chosen: Vec<usize>)
    ensures
        chosen@.len() == if amount <= bound { amount } else { bound },
        forall|k: int| 0 <= k < chosen@.len() ==> chosen@[k] < bound,
        chosen@.no_duplicates(),
{
    (0..bound).choose_multiple(rng, amount)
}

} // verus!
