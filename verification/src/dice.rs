//! Chance: die rolls and the shuffle of the mobilization cup.

use vstd::prelude::*;
use rand::Rng;
use rand::seq::SliceRandom;

use crate::game::CupItem;

verus! {

/// Rolls one six-sided die with `rand::thread_rng().gen_range(1..=6)`.
/// rand documents `gen_range` as sampling from the given inclusive range,
/// so the result lies between 1 and 6; which value comes is chance, and two
/// calls may give different values.
#[verifier::external_body]
pub(crate) fn roll_d6() -> (r: i32)
    ensures
        1 <= r <= 6,
{
    rand::thread_rng().gen_range(1..=6)
}

/// Shuffles the cup in place with `SliceRandom::shuffle` and the thread
/// RNG.  rand's source shuffles by swapping elements (Fisher-Yates), so the
/// cup keeps the same items; their order is chance.
#[verifier::external_body]
pub(crate) fn shuffle_cup(cup: &mut Vec<CupItem>)
    ensures
        final(cup)@.to_multiset() == old(cup)@.to_multiset(),
{
    cup.shuffle(&mut rand::thread_rng());
}

} // verus!
