//! The random source used at start-up.
use vstd::prelude::*;
use rand::Rng;
use rand::rngs::ThreadRng;

verus! {

/// `rand::rngs::ThreadRng`, the generator that start-up draws from. Its
/// state is opaque here.
#[verifier::external_type_specification]
#[verifier::external_body]
pub struct ExThreadRng(rand::rngs::ThreadRng);

/// Calls `rand::Rng::gen_range` with the half-open range `low..high`.
/// Trusted: the value drawn lies in that range. The range must not be
/// empty, since `gen_range` panics on an empty range. Nothing is claimed
/// about which value of the range comes back.
#[verifier::external_body]
pub(crate) fn draw(rng: &mut ThreadRng, low: u32, high: u32) -> (r: u32)
    requires
        low < high,
    ensures
        low <= r < high,
{
    rng.gen_range(low..high)
}

} // verus!
