//! The strategies and the rating engine.

pub mod base;
pub mod basic;
pub mod adapt;
pub mod random;
pub mod weak;
pub mod collections;
pub mod elo;
