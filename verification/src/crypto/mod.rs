pub mod encryption;
pub mod hash;
pub mod lagrange;
pub mod merkle;
pub mod shamir;
pub mod signature;
