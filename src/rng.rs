use bracket_random::prelude::RandomNumberGenerator;
use vstd::prelude::*;

verus! {

/// The seedable xorshift generator of `bracket-random`; every random draw of
/// the generators goes through it, so a seed fixes the whole level.
#[verifier::external_type_specification]
#[verifier::external_body]
pub struct ExRandomNumberGenerator(RandomNumberGenerator);

/// Relies on `RandomNumberGenerator::range`: a draw from the half-open range
/// `[min, max)`; rand's `gen_range` panics on an empty range.
#[verifier::external_body]
pub(crate) fn range_i32(rng: &mut RandomNumberGenerator, min: i32, max: i32) -> (r: i32)
    requires
        min < max,
    ensures
        min <= r < max,
{
    rng.range(min, max)
}

/// Relies on `RandomNumberGenerator::random_slice_index`: `None` for an empty
/// slice, else an index into it. It rolls a die with `len as i32` faces, so
/// the length must stay below `i32::MAX`.
#[verifier::external_body]
pub(crate) fn random_slice_index<T>(rng: &mut RandomNumberGenerator, slice: &Vec<T>) -> (r:
    Option<usize>)
    requires
        slice@.len() < i32::MAX,
    ensures
        r is None <==> slice@.len() == 0,
        r matches Some(i) ==> i < slice@.len(),
{
    rng.random_slice_index(slice.as_slice())
}

} // verus!
