//! Random draws. The generator is `bracket_lib`'s; of each draw only its
//! bounds are known.

use bracket_lib::random::RandomNumberGenerator;
use vstd::prelude::*;

verus! {

#[verifier::external_type_specification]
#[verifier::external_body]
pub struct ExRandomNumberGenerator(bracket_lib::random::RandomNumberGenerator);

/// Calls `RandomNumberGenerator::range`.
///
/// Trusted: the result lies between `min`, included, and `max`, excluded.
/// An empty range panics and is left out.
#[verifier::external_body]
pub(crate) fn rng_range(rng: &mut RandomNumberGenerator, min: i32, max: i32) -> (r: i32)
    requires
        min < max,
    ensures
        min <= r < max,
{
    rng.range(min, max)
}

/// Calls `RandomNumberGenerator::roll` with the dice `n_dice` d `die_type`
/// plus `bonus`.
///
/// Trusted: each die shows between 1 and `die_type`, so the result lies
/// between `n_dice + bonus` and `n_dice * die_type + bonus`.
#[verifier::external_body]
pub(crate) fn rng_roll(rng: &mut RandomNumberGenerator, n_dice: i32, die_type: i32, bonus: i32) -> (r: i32)
    requires
        0 <= n_dice <= 1000,
        1 <= die_type <= 1000,
        -1000 <= bonus <= 1000,
    ensures
        n_dice + bonus <= r <= n_dice * die_type + bonus,
{
    rng.roll(bracket_lib::random::DiceType::new(n_dice, die_type, bonus))
}

/// Calls `RandomNumberGenerator::random_slice_entry`.
///
/// Trusted: the result is an entry of the slice, and there is none only
/// for an empty slice.
#[verifier::external_body]
pub(crate) fn rng_entry<'a, T>(rng: &mut RandomNumberGenerator, slice: &'a Vec<T>) -> (r: Option<&'a T>)
    requires
        slice@.len() < i32::MAX,
    ensures
        r is Some <==> slice@.len() > 0,
        r is Some ==> exists|i: int| 0 <= i < slice@.len() && slice@[i] == *r.unwrap(),
{
    rng.random_slice_entry(slice.as_slice())
}

} // verus!
