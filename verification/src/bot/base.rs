//! The strategy contract and the match runner that plays one full game.

use vstd::prelude::*;
use crate::bits::{nth_bit, popcount, lemma_count_bits_le, lemma_count_bits_missing};
use crate::qd::state::{GameState, lemma_legal_move_preserves_valid};
use crate::rng::rand_flip;

verus! {

/// A game strategy: given a well-formed, non-terminal position, pick a
/// legal destination square for the side to move.
pub trait Bot: Send + Sync + Clone {
    /// The strategy's own parameters are in order.
    spec fn wf(&self) -> bool;

    /// Pick a legal destination for the side to move.
    fn decide(&self, state: GameState) -> (r: u8)
        requires
            self.wf(),
            state.valid(),
            state.spec_result() is None,
        ensures
            r < 64,
            nth_bit(state.legal_mask_of(), r as u64),
    ;
}

/// Play one game from `start` to its end. Returns the result (true when
/// white has won) and the number of plies played.
///
/// Every game ends: each ply turns one square into a permanent obstacle,
/// so from a start with `p` obstacles at most `64 - p` plies can be
/// played, and never more than 64.
pub fn play_game<A: Bot, B: Bot>(white: &A, black: &B, start: GameState) -> (r: (bool, u8))
    requires
        white.wf(),
        black.wf(),
        start.valid(),
    ensures
        r.1 + popcount(start.blocks) <= 64,
{
    let mut state = start;
    let mut plies: u8 = 0;
    let mut outcome = state.result();
    proof {
        lemma_count_bits_le(start.blocks, 64);
        lemma_count_bits_missing(start.blocks, start.wqueen as int, 64);
    }
    while outcome.is_none()
        invariant
            white.wf(),
            black.wf(),
            state.valid(),
            outcome == state.spec_result(),
            popcount(state.blocks) == popcount(start.blocks) + plies,
            popcount(state.blocks) <= 64,
        decreases 64 - popcount(state.blocks),
    {
        let move_to = if state.is_white_turn {
            white.decide(state)
        } else {
            black.decide(state)
        };
        let ghost prev = state;
        state.make_move(move_to);
        proof {
            lemma_legal_move_preserves_valid(prev, move_to);
            lemma_count_bits_le(state.blocks, 64);
        }
        plies = plies + 1;
        outcome = state.result();
    }
    (outcome.unwrap(), plies)
}

/// Play one randomized match between `a` and `b`: random starting
/// obstacles, random colour assignment. Returns whether `a` won.
pub fn bots_fight_rand<A: Bot, B: Bot>(a: &A, b: &B) -> (r: bool)
    requires
        a.wf(),
        b.wf(),
{
    let flip = rand_flip();
    let start = GameState::def_rand();
    let white_won = if flip {
        play_game(b, a, start).0
    } else {
        play_game(a, b, start).0
    };
    white_won != flip
}

} // verus!
