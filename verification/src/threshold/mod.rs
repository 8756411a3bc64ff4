//! Threshold sharing of the authority nonces.

pub mod trusted_dealer;
