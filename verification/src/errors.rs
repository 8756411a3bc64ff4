//! Error type of the library.

use vstd::prelude::*;

verus! {

/// Why an operation of the library was refused.
#[derive(Debug, Clone, PartialEq, Eq)]
pub enum CrDrError {
    /// Invalid election configuration.
    InvalidConfig(String),
    /// Duplicate voter id in preprocessing/registration.
    DuplicateVoter(u64),
    /// Unknown voter id.
    UnknownVoter(u64),
    /// Candidate not in the candidate set.
    InvalidCandidate(u64),
    /// Merkle tree error.
    Merkle(String),
    /// Cryptographic error.
    Crypto(String),
    /// Encoding error.
    Serialization(String),
    /// Threshold-sharing error.
    Threshold(String),
    /// The cut-and-choose audit failed.
    CutAndChooseAudit(String),
    /// Proving-toolchain or circuit-shape error.
    ZkToolchain(String),
}

/// Result type of the library.
pub type Result<T> = core::result::Result<T, CrDrError>;

/// An owned copy of a message.
pub fn msg(s: &str) -> (r: String)
    ensures
        r@ == s@,
{
    s.to_owned()
}

} // verus!
