//! Validated proof configuration shared by the surrounding protocol. Out
//! of the transform's own scope, but it lives in the same process: plain
//! value validation at construction, then conversion into the FRI
//! parameter set.

use vstd::prelude::*;
use crate::stage::spec_is_pow2;

verus! {

/// FRI protocol parameters derived from [`ProofOptions`].
#[derive(Clone, Copy, Debug, PartialEq, Eq, Structural)]
pub struct FriOptions {
    pub blowup_factor: usize,
    pub folding_factor: usize,
    pub max_remainder_size: usize,
}

impl FriOptions {
    pub fn new(blowup_factor: usize, folding_factor: usize, max_remainder_size: usize) -> (r:
        FriOptions)
        ensures
            r.blowup_factor == blowup_factor,
            r.folding_factor == folding_factor,
            r.max_remainder_size == max_remainder_size,
    {
        FriOptions { blowup_factor, folding_factor, max_remainder_size }
    }
}

/// Validated prover configuration: query count, low-degree-extension
/// blowup, grinding factor and the FRI folding parameters.
#[derive(Clone, Copy, Debug, PartialEq, Eq, Structural)]
pub struct ProofOptions {
    pub num_queries: u8,
    pub lde_blowup_factor: u8,
    pub grinding_factor: u8,
    pub fri_folding_factor: u8,
    pub fri_max_remainder_size: u8,
}

impl ProofOptions {
    pub const MIN_NUM_QUERIES: u8 = 1;

    pub const MAX_NUM_QUERIES: u8 = 128;

    pub const MIN_BLOWUP_FACTOR: u8 = 1;

    pub const MAX_BLOWUP_FACTOR: u8 = 64;

    pub const MAX_GRINDING_FACTOR: u8 = 32;

    /// Builds a validated option set. The bounds are preconditions:
    /// violating them is a configuration defect, not a runtime condition.
    pub fn new(
        num_queries: u8,
        lde_blowup_factor: u8,
        grinding_factor: u8,
        fri_folding_factor: u8,
        fri_max_remainder_size: u8,
    ) -> (r: ProofOptions)
        requires
            Self::MIN_NUM_QUERIES <= num_queries <= Self::MAX_NUM_QUERIES,
            spec_is_pow2(lde_blowup_factor as int),
            Self::MIN_BLOWUP_FACTOR <= lde_blowup_factor <= Self::MAX_BLOWUP_FACTOR,
            grinding_factor <= Self::MAX_GRINDING_FACTOR,
        ensures
            r == (ProofOptions {
                num_queries,
                lde_blowup_factor,
                grinding_factor,
                fri_folding_factor,
                fri_max_remainder_size,
            }),
    {
        ProofOptions {
            num_queries,
            lde_blowup_factor,
            grinding_factor,
            fri_folding_factor,
            fri_max_remainder_size,
        }
    }

    /// The FRI parameter set this configuration induces.
    pub fn into_fri_options(self) -> (r: FriOptions)
        ensures
            r.blowup_factor == self.lde_blowup_factor as usize,
            r.folding_factor == self.fri_folding_factor as usize,
            r.max_remainder_size == self.fri_max_remainder_size as usize,
    {
        FriOptions::new(
            self.lde_blowup_factor as usize,
            self.fri_folding_factor as usize,
            self.fri_max_remainder_size as usize,
        )
    }
}

} // verus!
