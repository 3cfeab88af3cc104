//! Random numbers, from the `rand` crate. Nothing is stated of them: the rest of
//! the library holds for every outcome.

use rand::rngs::SmallRng;
use rand::{Rng, SeedableRng};
use vstd::prelude::*;

verus! {

/// The generator that masking keys are drawn from.
#[verifier::external_type_specification]
#[verifier::external_body]
pub struct ExSmallRng(rand::rngs::SmallRng);

/// A generator seeded by the operating system: `SmallRng::from_os_rng`.
#[verifier::external_body]
pub(crate) fn seeded() -> (rng: SmallRng) {
    SmallRng::from_os_rng()
}

/// The next masking key: the bytes of `Rng::random::<u32>`.
#[verifier::external_body]
pub(crate) fn next_mask(rng: &mut SmallRng) -> (mask: [u8; 4]) {
    rng.random::<u32>().to_ne_bytes()
}

/// Sixteen bytes filled in by `Rng::fill` of the thread's generator.
#[verifier::external_body]
pub(crate) fn nonce() -> (bytes: [u8; 16]) {
    let mut bytes = [0u8; 16];
    rand::rng().fill(&mut bytes);
    bytes
}

} // verus!
