//! The calls into the random number generator. Nothing here is proved: each
//! contract states what the generator's documentation promises of every draw.

use rand::rngs::StdRng;
use rand::seq::SliceRandom;
use rand::Rng;
use vstd::prelude::*;

verus! {

/// `rand::rngs::StdRng`, a generator that is seeded by its maker.
#[verifier::external_type_specification]
#[verifier::external_body]
pub struct ExStdRng(StdRng);

/// `SliceRandom::choose` with the generator of the calling thread
/// (`rand::thread_rng`): one item of the slice, each with the same chance, and
/// nothing where the slice is empty. Which item comes is not stated. The
/// generator is made on a thread's first draw, and making it panics where the
/// system has no entropy to seed it with.
#[verifier::external_body]
pub(crate) fn choose_one<'a, T>(items: &'a [T]) -> (chosen: Option<&'a T>)
    ensures
        match chosen {
            Some(item) => exists|i: int| 0 <= i < items@.len() && items@[i] == *item,
            None => items@.len() == 0,
        },
{
    items.choose(&mut rand::thread_rng())
}

/// `Rng::gen_ratio`: true with a chance of `numerator` in `denominator`. The
/// outcome is certain only at the two ends: always true where the two are
/// equal, never true where `numerator` is zero. The call panics on a zero
/// `denominator` and on a `numerator` above it.
#[verifier::external_body]
pub(crate) fn draw_ratio(rng: &mut StdRng, numerator: u32, denominator: u32) -> (hit: bool)
    requires
        0 < denominator,
        numerator <= denominator,
    ensures
        numerator == denominator ==> hit,
        numerator == 0 ==> !hit,
{
    rng.gen_ratio(numerator, denominator)
}

/// `Rng::gen_range` on `0..bound`: a number below `bound`, each with the same
/// chance. The call panics on an empty range.
#[verifier::external_body]
pub(crate) fn draw_below(rng: &mut StdRng, bound: usize) -> (drawn: usize)
    requires
        0 < bound,
    ensures
        drawn < bound,
{
    rng.gen_range(0..bound)
}

} // verus!
