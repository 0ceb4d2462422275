//! The random strategy: a uniform choice among the legal destinations.

use vstd::prelude::*;
use crate::bits::{nth_bit, popcount, count_bits, count_set_bits, lemma_popcount_zero, lemma_bit_test};
use crate::qd::state::GameState;
use crate::qd::legalcomp::get_possible_legal_moves;
use crate::bot::base::Bot;
use crate::rng::rand_below_u64;

verus! {

/// Pick a set bit of `bitboard` uniformly at random; `None` exactly when
/// no bit is set.
fn random_set_bit_index(bitboard: u64) -> (r: Option<u32>)
    ensures
        (r is Some) == (bitboard != 0),
        r is Some ==> r->0 < 64 && nth_bit(bitboard, r->0 as u64),
{
    let popcnt = count_set_bits(bitboard);
    proof {
        lemma_popcount_zero(bitboard);
    }
    if popcnt == 0 {
        return None;
    }
    let k = rand_below_u64(popcnt as u64);
    let mut seen: u64 = 0;
    let mut i: u64 = 0;
    while i < 64
        invariant
            i <= 64,
            seen == count_bits(bitboard, i as int),
            seen <= k,
            k < popcount(bitboard),
            bitboard != 0,
        decreases 64 - i,
    {
        proof {
            lemma_bit_test(bitboard, i);
        }
        if bitboard & (1u64 << i) != 0 {
            if seen == k {
                return Some(i as u32);
            }
            seen = seen + 1;
        }
        i = i + 1;
    }
    proof {
        assert(false);
    }
    None
}

/// The uniformly random strategy.
#[derive(Copy, Clone)]
pub struct RandomBot {}

impl RandomBot {
    /// A strategy picking uniformly among the legal destinations.
    pub fn new() -> (r: RandomBot)
        ensures
            r.wf(),
    {
        RandomBot {  }
    }
}

impl Bot for RandomBot {
    open spec fn wf(&self) -> bool {
        true
    }

    fn decide(&self, state: GameState) -> (r: u8) {
        let legal_moves = get_possible_legal_moves(&state);
        let move_index = random_set_bit_index(legal_moves);
        let move_index = move_index.unwrap();
        let move_to = move_index as u8;
        move_to
    }
}

} // verus!
