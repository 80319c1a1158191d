use vstd::prelude::*;

verus! {

#[verifier::external_type_specification]
#[verifier::external_body]
pub struct ExStdRng(rand::rngs::StdRng);

/// The search's pseudorandom source: a standard generator built from an
/// explicit four-word seed, so that a run is reproducible from its seed.
/// Nothing is assumed of a draw beyond the range it was asked for.
pub struct RandomSource {
    rng: rand::rngs::StdRng,
}

impl RandomSource {
    /// Relies on rand::SeedableRng::from_seed: builds the standard
    /// generator from the 32-byte seed the four words spell.
    #[verifier::external_body]
    pub fn from_seed(seed: [usize; 4]) -> RandomSource {
        let mut bytes = [0u8; 32];
        bytes[..8].copy_from_slice(&(seed[0] as u64).to_le_bytes());
        bytes[8..16].copy_from_slice(&(seed[1] as u64).to_le_bytes());
        bytes[16..24].copy_from_slice(&(seed[2] as u64).to_le_bytes());
        bytes[24..32].copy_from_slice(&(seed[3] as u64).to_le_bytes());
        RandomSource { rng: <rand::rngs::StdRng as rand::SeedableRng>::from_seed(bytes) }
    }

    /// Relies on rand::RngExt::random_range on the range 0..bound, which
    /// returns a member of that non-empty range.
    #[verifier::external_body]
    pub fn next_below(&mut self, bound: usize) -> (r: usize)
        requires
            bound >= 1,
        ensures
            r < bound,
    {
        rand::RngExt::random_range(&mut self.rng, 0..bound)
    }

    /// Relies on rand::RngExt::random_ratio with ratio 1/weight; either
    /// outcome is possible, so nothing is assumed of the result.
    #[verifier::external_body]
    pub fn one_in(&mut self, weight: u32) -> bool
        requires
            weight >= 1,
    {
        rand::RngExt::random_ratio(&mut self.rng, 1, weight)
    }
}

} // verus!
