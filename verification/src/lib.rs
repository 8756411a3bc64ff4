//! Coercion-resistant voting with private dispute resolution: the election
//! protocol, its exact FilterAndTally, the native mirror of the tally
//! relation, and the private judge.

pub mod field;
pub mod rng;
pub mod crypto;
pub mod types;
pub mod protocol;
pub mod errors;
pub mod zk;
pub mod disputes;
pub mod threshold;
