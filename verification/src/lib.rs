//! Queen Duel: a two-player game where each side moves one queen on an
//! 8x8 board, vacated squares become permanent obstacles, and a player
//! loses when their queen has no legal destination or the queens collide.
//! The crate provides the board and move-legality model, a family of
//! computer strategies, and a fixed-point Elo rating engine.

pub mod bits;
pub mod bot;
pub mod qd;
pub mod rng;
pub mod text;

use vstd::prelude::*;

verus! {

/// Side of the board a human player may ask to play.
#[derive(Copy, Clone, Debug, PartialEq, Eq, Structural)]
pub enum ColorMode {
    Random,
    White,
    Black,
}

impl ColorMode {
    /// The mode's name, as written on a command line.
    pub fn name(&self) -> (r: String)
        ensures
            r@ == (match self {
                ColorMode::Random => "random"@,
                ColorMode::White => "white"@,
                ColorMode::Black => "black"@,
            }),
    {
        match self {
            ColorMode::Random => "random".to_owned(),
            ColorMode::White => "white".to_owned(),
            ColorMode::Black => "black".to_owned(),
        }
    }
}

} // verus!
