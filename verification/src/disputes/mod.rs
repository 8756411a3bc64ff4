pub mod judge;
pub mod recorded_as_cast;
pub mod tallied_as_recorded;
