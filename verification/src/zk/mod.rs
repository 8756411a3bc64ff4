//! The tally relation's native semantics: its public statement, its
//! witness, the per-row evaluation and the sorting network, the chunked
//! pipeline, and the cast proof's relation.

pub mod bits;
pub mod cast;
pub mod chunked;
pub mod circom_io;
pub mod mock_backend;
pub mod statement;
pub mod tally_law;
pub mod tier3;
pub mod witness;

use vstd::prelude::*;

verus! {

/// Compile-time shape of a circuit instantiation: the parameters of the
/// compiled `FilterAndTally(NUM_BALLOTS, NUM_CANDIDATES, MERKLE_DEPTH)`.
#[derive(Debug, Clone, Copy, PartialEq, Eq, Structural)]
pub struct CircuitShape {
    pub num_ballots: usize,
    pub num_candidates: usize,
    pub merkle_depth: usize,
}

/// Shape of the "small" circuit variant.
pub fn small_shape() -> (r: CircuitShape)
    ensures
        r.num_ballots == 16 && r.num_candidates == 3 && r.merkle_depth == 4,
{
    CircuitShape { num_ballots: 16, num_candidates: 3, merkle_depth: 4 }
}

/// Shape of the "medium" circuit variant.
pub fn medium_shape() -> (r: CircuitShape)
    ensures
        r.num_ballots == 128 && r.num_candidates == 3 && r.merkle_depth == 6,
{
    CircuitShape { num_ballots: 128, num_candidates: 3, merkle_depth: 6 }
}

} // verus!
