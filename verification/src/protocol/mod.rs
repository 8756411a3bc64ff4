pub mod admission;
pub mod bulletin_board;
pub mod chaff;
pub mod duplicates;
pub mod fake_compliance;
pub mod filter_and_tally;
pub mod preprocessing;
pub mod setup;
pub mod vote;
