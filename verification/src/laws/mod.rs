//! What holds of the library as a whole.

pub mod access;
pub mod choosing;
pub mod configuring;
pub mod cutting;
pub mod delivery;
pub mod finding;
pub mod holding;
pub mod merging;
pub mod naming;
pub mod parts;
pub mod reading;
pub mod retelling;
pub mod rows;
pub mod running;
pub mod storage;
pub mod tables;
pub mod writing;
