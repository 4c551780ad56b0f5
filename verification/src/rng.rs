use vstd::prelude::*;

verus! {

/// The pseudorandom generator of `rltk`. It is carried through to the
/// calls below; nothing is known of what is inside it.
#[verifier::external_type_specification]
#[verifier::external_body]
pub struct ExRandomNumberGenerator(rltk::RandomNumberGenerator);

/// Calls `RandomNumberGenerator::roll_dice`, which adds up `n` draws, each
/// from `1..=die_type`. The contract claims the range of that sum and
/// nothing about which value in it comes back. A die below one face, a die
/// type whose successor overflows, and a sum that could leave `i32` are
/// ruled out, since the generator panics or overflows on them.
#[verifier::external_body]
pub(crate) fn roll_dice(rng: &mut rltk::RandomNumberGenerator, n: i32, die_type: i32) -> (r: i32)
    requires
        0 <= n,
        1 <= die_type < i32::MAX,
        n * die_type <= i32::MAX,
    ensures
        n <= r <= n * die_type,
{
    rng.roll_dice(n, die_type)
}

/// Calls `RandomNumberGenerator::range` on `i32`: a draw from `min..max`,
/// the upper end excluded. An empty range is ruled out, since the
/// generator panics on it.
#[verifier::external_body]
pub(crate) fn range(rng: &mut rltk::RandomNumberGenerator, min: i32, max: i32) -> (r: i32)
    requires
        min < max,
    ensures
        min <= r < max,
{
    rng.range(min, max)
}

} // verus!
