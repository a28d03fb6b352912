//! The random draws the aquarium makes, through the `rand` crate.
use vstd::prelude::*;

use rand::distr::weighted::WeightedIndex;
use rand::distr::Distribution;
use rand::prelude::IndexedRandom;
use rand::rngs::ThreadRng;
use rand::Rng;

verus! {

/// rand's thread-local generator, carried through the draws unread.
#[verifier::external_type_specification]
#[verifier::external_body]
pub struct ExThreadRng(ThreadRng);

/// A draw of an index by weight: it holds the `WeightedIndex` that rand made from the
/// weights, unread.
#[verifier::external_body]
pub struct WeightedDraw {
    index: WeightedIndex<u32>,
}

/// The error `WeightedIndex::new` reports for a list of weights it refuses.
#[verifier::external_type_specification]
#[verifier::external_body]
pub struct ExWeightError(rand::distr::weighted::Error);

/// The weights that a weighted draw was made from (its running totals and overall total,
/// which rand keeps, fix them).
pub uninterp spec fn weights_of(d: WeightedDraw) -> Seq<u32>;

/// The sum of a list of weights.
pub open spec fn weight_total(w: Seq<u32>) -> int
    decreases w.len(),
{
    if w.len() == 0 {
        0
    } else {
        weight_total(w.drop_last()) + w.last()
    }
}

/// `Rng::random_range` on `low..high`: rand draws uniformly from the range; only an empty
/// range makes it panic, and the value drawn lies in the range.
#[verifier::external_body]
pub(crate) fn random_range_u16(rng: &mut ThreadRng, low: u16, high: u16) -> (r: u16)
    requires
        low < high,
    ensures
        low <= r < high,
{
    rng.random_range(low..high)
}

/// `Rng::random_range` on `low..high` for bytes: as for `random_range_u16`.
#[verifier::external_body]
pub(crate) fn random_range_u8(rng: &mut ThreadRng, low: u8, high: u8) -> (r: u8)
    requires
        low < high,
    ensures
        low <= r < high,
{
    rng.random_range(low..high)
}

/// `Rng::random_range` on `low..=high`: the value drawn lies in the range, which may not
/// be empty.
#[verifier::external_body]
pub(crate) fn random_range_inclusive_usize(rng: &mut ThreadRng, low: usize, high: usize) -> (r:
    usize)
    requires
        low <= high,
    ensures
        low <= r <= high,
{
    rng.random_range(low..=high)
}

/// `Rng::random_ratio`: `true` with chance `numerator / denominator`; always `false` for a
/// zero numerator and always `true` when the two are equal. It panics on a zero denominator
/// or a numerator above the denominator.
#[verifier::external_body]
pub(crate) fn random_ratio(rng: &mut ThreadRng, numerator: u32, denominator: u32) -> (b: bool)
    requires
        0 < denominator,
        numerator <= denominator,
    ensures
        numerator == 0 ==> !b,
        numerator == denominator ==> b,
{
    rng.random_ratio(numerator, denominator)
}

/// `WeightedIndex::new`: refuses an empty list, a list whose weights are all zero and one
/// whose total passes `u32::MAX`; otherwise it is made from exactly these weights.
#[verifier::external_body]
pub(crate) fn new_weighted_index(weights: &Vec<u32>) -> (r: Result<
    WeightedDraw,
    rand::distr::weighted::Error,
>)
    ensures
        r is Ok <==> (weights@.len() > 0 && 0 < weight_total(weights@) <= u32::MAX),
        r matches Ok(d) ==> weights_of(d) == weights@,
{
    WeightedIndex::new(weights).map(|index| WeightedDraw { index })
}

/// `Distribution::sample` of a weighted index: an index into its weights whose weight is
/// not zero (each such index comes with chance weight / total).
#[verifier::external_body]
pub(crate) fn sample_weighted(d: &WeightedDraw, rng: &mut ThreadRng) -> (i: usize)
    ensures
        i < weights_of(*d).len(),
        weights_of(*d)[i as int] > 0,
{
    d.index.sample(rng)
}

/// `IndexedRandom::choose`: `None` on an empty slice, else one of its items, each with the
/// same chance.
#[verifier::external_body]
pub(crate) fn choose_one<T: Copy>(items: &[T], rng: &mut ThreadRng) -> (r: Option<T>)
    ensures
        r is None <==> items@.len() == 0,
        r matches Some(x) ==> items@.contains(x),
{
    items.choose(rng).copied()
}

/// An index into `weights` drawn with chance proportional to its weight: never one whose
/// weight is zero.
pub fn pick_weighted(weights: &Vec<u32>, rng: &mut ThreadRng) -> (i: usize)
    requires
        weights@.len() > 0,
        0 < weight_total(weights@) <= u32::MAX,
    ensures
        i < weights@.len(),
        weights@[i as int] > 0,
{
    let dist = new_weighted_index(weights).unwrap();
    sample_weighted(&dist, rng)
}

} // verus!
