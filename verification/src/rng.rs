//! The random number generator and the draws that the library makes from it.
use rand::Rng;
use vstd::prelude::*;

verus! {

/// The xorshift generator of the `rand` crate. Its state is hidden here.
#[verifier::external_type_specification]
#[verifier::external_body]
pub struct ExXorShiftRng(rand::XorShiftRng);

/// `rand::XorShiftRng::new_unseeded`: a generator with the crate's fixed
/// starting state. Nothing is claimed of it.
pub assume_specification[ rand::XorShiftRng::new_unseeded ]() -> (rng: rand::XorShiftRng)
;

/// `rand::Rng::gen_range` on `usize`: a number from `low` up to, but not
/// including, `high`. The call panics unless `low < high`.
#[verifier::external_body]
pub(crate) fn gen_range(rng: &mut rand::XorShiftRng, low: usize, high: usize) -> (value: usize)
    requires
        low < high,
    ensures
        low <= value < high,
{
    rng.gen_range(low, high)
}

/// `rand::Rng::choose`: nothing for an empty slice, else one of the slice's
/// elements.
#[verifier::external_body]
pub(crate) fn pick_one<'a, T>(rng: &mut rand::XorShiftRng, values: &'a [T]) -> (picked: Option<
    &'a T,
>)
    ensures
        values@.len() == 0 ==> picked is None,
        values@.len() > 0 ==> picked is Some && values@.contains(*picked.unwrap()),
{
    rng.choose(values)
}

} // verus!
