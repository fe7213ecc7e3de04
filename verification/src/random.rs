use vstd::prelude::*;
use bracket_lib::random::RandomNumberGenerator;

verus! {

#[verifier::external_type_specification]
#[verifier::external_body]
pub struct ExRandomNumberGenerator(RandomNumberGenerator);

/// `RandomNumberGenerator::new` of bracket-lib, seeded from the operating
/// system's entropy. Nothing is claimed of the generator's state.
#[verifier::external_body]
pub(crate) fn rng_new() -> RandomNumberGenerator {
    RandomNumberGenerator::new()
}

/// `RandomNumberGenerator::range` of bracket-lib on `i32`: a draw from
/// `min..max`, the lower bound included and the upper one excluded. The
/// crate panics on an empty range, which `requires` leaves out. Which value
/// comes out is left to chance, so only the bounds are claimed.
#[verifier::external_body]
pub(crate) fn rng_range(rng: &mut RandomNumberGenerator, min: i32, max: i32) -> (r: i32)
    requires
        min < max,
    ensures
        min <= r < max,
{
    rng.range(min, max)
}

/// `RandomNumberGenerator::roll_dice` of bracket-lib: the sum of `n` draws
/// of `1..=die_type`. The claim is the range of that sum; `requires` keeps
/// the sum and `die_type + 1` inside `i32`.
#[verifier::external_body]
pub(crate) fn rng_roll_dice(rng: &mut RandomNumberGenerator, n: i32, die_type: i32) -> (r: i32)
    requires
        0 <= n,
        1 <= die_type < i32::MAX,
        n * die_type <= i32::MAX,
    ensures
        n <= r <= n * die_type,
{
    rng.roll_dice(n, die_type)
}

/// `RandomNumberGenerator::random_slice_index` of bracket-lib: `None` for
/// an empty slice, else an index into it chosen by chance (a roll of a die
/// with as many faces as the slice has items). `requires` keeps the length
/// and that die's face count plus one inside `i32`.
#[verifier::external_body]
pub(crate) fn rng_slice_index<T>(rng: &mut RandomNumberGenerator, v: &Vec<T>) -> (r: Option<usize>)
    requires
        v.len() < i32::MAX,
    ensures
        v.len() == 0 <==> r is None,
        r matches Some(i) ==> i < v.len(),
{
    rng.random_slice_index(v.as_slice())
}

} // verus!
