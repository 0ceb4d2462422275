//! The game model: square geometry, move legality, and the game state.

pub mod legalcomp;
pub mod state;
pub mod utils;
