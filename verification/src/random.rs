//! The source of random bits.

use rand::rngs::StdRng;
use rand::Rng;
use vstd::prelude::*;

verus! {

/// `rand::rngs::StdRng`, the seedable generator of the `rand` crate. Its
/// state is opaque to the library.
#[verifier::external_type_specification]
#[verifier::external_body]
pub struct ExStdRng(rand::rngs::StdRng);

/// Draws 64 bits from the generator with `rand::Rng::gen`. The bits depend
/// on the state of the generator, which is not modelled: nothing is claimed
/// of them, and callers are verified for every value.
#[verifier::external_body]
pub(crate) fn next_bits(rng: &mut StdRng) -> (bits: u64) {
    rng.gen::<u64>()
}

} // verus!
