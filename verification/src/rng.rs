//! Trusted access to the random source. All randomness flows through an
//! explicitly seeded xorshift generator, so runs are reproducible given a
//! fixed seed and call order. Each wrapper states only what holds of every
//! outcome of its draw.

use vstd::prelude::*;

use rand::seq::IndexedRandom;
use rand::{Rng, SeedableRng};
use rand_xorshift::XorShiftRng;

use crate::generator::Production;

verus! {

#[verifier::external_type_specification]
#[verifier::external_body]
pub struct ExXorShiftRng(XorShiftRng);

/// Relies on `XorShiftRng::seed_from_u64`: builds a generator from a seed.
#[verifier::external_body]
pub(crate) fn rng_from_seed(seed: u64) -> XorShiftRng {
    XorShiftRng::seed_from_u64(seed)
}

/// Relies on `Rng::random` at type `bool`: a fair coin flip. Nothing can be
/// promised of the outcome.
#[verifier::external_body]
pub(crate) fn coin_flip(rng: &mut XorShiftRng) -> bool {
    rng.random::<bool>()
}

/// Relies on `IndexedRandom::choose`: a uniformly drawn element of the
/// slice, or `None` exactly when the slice is empty.
#[verifier::external_body]
pub(crate) fn choose_char(rng: &mut XorShiftRng, items: &[char]) -> (res: Option<char>)
    ensures
        match res {
            Some(c) => items@.contains(c),
            None => items@.len() == 0,
        },
{
    items.choose(rng).copied()
}

/// Relies on `IndexedRandom::choose_multiple`: samples `amount` elements at
/// distinct positions of the slice, all of them when the slice is shorter
/// than `amount`.
#[verifier::external_body]
pub(crate) fn choose_distinct_chars(rng: &mut XorShiftRng, items: &[char], amount: usize) -> (res:
    Vec<char>)
    requires
        items@.no_duplicates(),
    ensures
        res@.len() == vstd::math::min(amount as int, items@.len() as int),
        forall|i: int| 0 <= i < res@.len() ==> items@.contains(res@[i]),
        res@.no_duplicates(),
{
    items.choose_multiple(rng, amount).copied().collect()
}

/// The sum of the weights of a weighted choice.
pub open spec fn spec_weight_sum(items: Seq<(Production, u32)>) -> int
    decreases items.len(),
{
    if items.len() == 0 {
        0
    } else {
        items[0].1 + spec_weight_sum(items.drop_first())
    }
}

/// Relies on `IndexedRandom::choose_weighted`: draws an element with
/// probability proportional to its weight. An element of weight zero is
/// never drawn, and the draw fails only on an empty slice, an all-zero
/// weighting, or a weight sum that overflows.
#[verifier::external_body]
pub(crate) fn choose_weighted_production(
    rng: &mut XorShiftRng,
    items: &[(Production, u32)],
) -> (res: Option<Production>)
    ensures
        match res {
            Some(p) => exists|i: int|
                0 <= i < items@.len() && items@[i].0 == p && items@[i].1 > 0,
            None => items@.len() == 0 || spec_weight_sum(items@) == 0 || spec_weight_sum(items@)
                > u32::MAX,
        },
{
    match items.choose_weighted(rng, |it: &(Production, u32)| it.1) {
        Ok(it) => Some(it.0),
        Err(_) => None,
    }
}

} // verus!
