//! Random numbers, from `rand`.

use vstd::prelude::*;
use rand::rngs::StdRng;

verus! {

/// The random number generator.
#[verifier::external_type_specification]
#[verifier::external_body]
pub struct ExStdRng(StdRng);

/// A generator seeded from `seed` with `rand::SeedableRng::seed_from_u64`.
#[verifier::external_body]
pub(crate) fn seeded_rng(seed: u64) -> StdRng {
    <StdRng as rand::SeedableRng>::seed_from_u64(seed)
}

/// A random index below `n`, drawn with `rand::Rng::gen_range(0..n)`.
///
/// `gen_range` panics on an empty range, hence `n > 0`; it returns a value of the range.
/// Which value it returns depends on the generator's state and is not stated.
#[verifier::external_body]
pub(crate) fn random_index(rng: &mut StdRng, n: usize) -> (out: usize)
    requires
        n > 0,
    ensures
        out < n,
{
    rand::Rng::gen_range(rng, 0..n)
}

/// A generator seeded from the operating system's entropy, with
/// `rand::SeedableRng::from_entropy`.
#[verifier::external_body]
pub(crate) fn entropy_rng() -> StdRng {
    <StdRng as rand::SeedableRng>::from_entropy()
}

/// `size` random bytes, drawn with `rand::RngCore::fill_bytes`.
///
/// The bytes depend on the generator's state and are not stated; there are `size`
/// of them.
#[verifier::external_body]
pub(crate) fn random_bytes(rng: &mut StdRng, size: usize) -> (out: Vec<u8>)
    ensures
        out@.len() == size,
{
    let mut bytes = vec![0u8; size];
    rand::RngCore::fill_bytes(rng, &mut bytes);
    bytes
}

} // verus!
