//! The game state: two queen squares, the obstacle bitboard, and whose
//! turn it is. A state is advanced only by `make_move`, which turns the
//! vacated square into a permanent obstacle and flips the side to move.

use vstd::prelude::*;
use crate::bits::{nth_bit, popcount, lemma_bit_or_single, lemma_count_bits_set, lemma_popcount_zero};
use crate::qd::legalcomp::{
    legal_mask, get_possible_legal_moves, lemma_legal_mask_bits, lemma_legal_dest_props,
};
use crate::rng::rand_below_u64;

verus! {

/// One game position. `wqueen` and `bqueen` are square indices in
/// `[0, 64)`; `blocks` is the obstacle bitboard.
#[derive(Copy, Clone, Debug, PartialEq, Eq, Structural)]
pub struct GameState {
    pub wqueen: u8,
    pub bqueen: u8,
    pub blocks: u64,
    pub is_white_turn: bool,
}

impl GameState {
    /// Well-formed position: squares in range and neither queen stands on
    /// an obstacle.
    pub open spec fn valid(self) -> bool {
        self.wqueen < 64 && self.bqueen < 64 && !nth_bit(self.blocks, self.wqueen as u64)
            && !nth_bit(self.blocks, self.bqueen as u64)
    }

    /// The square of the queen that is to move.
    pub open spec fn mover(self) -> u8 {
        if self.is_white_turn {
            self.wqueen
        } else {
            self.bqueen
        }
    }

    /// The square of the queen that is not to move.
    pub open spec fn opponent(self) -> u8 {
        if self.is_white_turn {
            self.bqueen
        } else {
            self.wqueen
        }
    }

    /// Legal destinations of the side to move, as a bitboard.
    pub open spec fn legal_mask_of(self) -> u64 {
        legal_mask(self.mover() as int, self.opponent() as int, self.blocks)
    }

    /// Game outcome: `Some(true)` white has won, `Some(false)` black has
    /// won, `None` the game goes on. The position is terminal exactly when
    /// the queens coincide or the side to move has no destination; the
    /// player who is not to move is the winner.
    pub open spec fn spec_result(self) -> Option<bool> {
        if self.wqueen == self.bqueen {
            Some(!self.is_white_turn)
        } else if self.legal_mask_of() == 0 {
            Some(!self.is_white_turn)
        } else {
            None
        }
    }

    /// The state after the side to move goes to `to`: the vacated square
    /// becomes an obstacle and the turn flips.
    pub open spec fn spec_apply_move(self, to: u8) -> GameState {
        GameState {
            wqueen: if self.is_white_turn {
                to
            } else {
                self.wqueen
            },
            bqueen: if self.is_white_turn {
                self.bqueen
            } else {
                to
            },
            blocks: self.blocks | (1u64 << (self.mover() as u64)),
            is_white_turn: !self.is_white_turn,
        }
    }

    /// Build a state; an absent field takes the default starting value.
    pub fn new(
        wqueen: Option<u8>,
        bqueen: Option<u8>,
        blocks: Option<u64>,
        is_white_turn: Option<bool>,
    ) -> (r: GameState)
        ensures
            r.wqueen == if wqueen is Some {
                wqueen->0
            } else {
                4u8
            },
            r.bqueen == if bqueen is Some {
                bqueen->0
            } else {
                59u8
            },
            r.blocks == if blocks is Some {
                blocks->0
            } else {
                0u64
            },
            r.is_white_turn == if is_white_turn is Some {
                is_white_turn->0
            } else {
                true
            },
    {
        GameState {
            wqueen: wqueen.unwrap_or(4),
            bqueen: bqueen.unwrap_or(59),
            blocks: blocks.unwrap_or(0),
            is_white_turn: is_white_turn.unwrap_or(true),
        }
    }

    /// The default starting position: white on square 4, black on 59, no
    /// obstacles, white to move.
    pub fn def() -> (r: GameState)
        ensures
            r == (GameState { wqueen: 4u8, bqueen: 59u8, blocks: 0u64, is_white_turn: true }),
            r.valid(),
    {
        let r = Self::new(None, None, None, None);
        proof {
            crate::bits::lemma_bit_zero(4u64);
            crate::bits::lemma_bit_zero(59u64);
        }
        r
    }

    /// The default starting position with up to seven random obstacle
    /// squares, never on either queen's starting square.
    pub fn def_rand() -> (r: GameState)
        ensures
            r.wqueen == 4u8,
            r.bqueen == 59u8,
            r.is_white_turn,
            r.valid(),
            popcount(r.blocks) <= 7,
    {
        let mut blocks: u64 = 0;
        let mut i: u8 = 0;
        proof {
            crate::bits::lemma_count_bits_agree(0u64, 0u64, 64);
            lemma_popcount_zero(0u64);
        }
        while i < 7
            invariant
                i <= 7,
                popcount(blocks) <= i,
            decreases 7 - i,
        {
            let sq = rand_below_u64(64);
            let ghost old_blocks = blocks;
            blocks = blocks | (1u64 << sq);
            proof {
                if nth_bit(old_blocks, sq) {
                    assert forall|u: u64| u < 64 implies nth_bit(blocks, u) == nth_bit(
                        old_blocks,
                        u,
                    ) by {
                        lemma_bit_or_single(old_blocks, sq, u);
                    }
                    crate::bits::lemma_bits_extensional(blocks, old_blocks);
                } else {
                    lemma_count_bits_set(old_blocks, sq, 64);
                }
            }
            i = i + 1;
        }
        let ghost pre = blocks;
        blocks = blocks & !(1u64 << 4u64);
        let ghost mid = blocks;
        blocks = blocks & !(1u64 << 59u64);
        proof {
            assert forall|u: u64| u < 64 implies !nth_bit(blocks, u) || nth_bit(pre, u) by {
                crate::bits::lemma_bit_clear_single(pre, 4u64, u);
                crate::bits::lemma_bit_clear_single(mid, 59u64, u);
            }
            crate::bits::lemma_bit_clear_single(pre, 4u64, 4u64);
            crate::bits::lemma_bit_clear_single(mid, 59u64, 4u64);
            crate::bits::lemma_bit_clear_single(mid, 59u64, 59u64);
            assert forall|u: u64| u < 64 && nth_bit(blocks, u) implies nth_bit(pre, u) by {
                crate::bits::lemma_bit_clear_single(pre, 4u64, u);
                crate::bits::lemma_bit_clear_single(mid, 59u64, u);
            }
            lemma_count_removed_le(blocks, pre, 64);
        }
        Self::new(Some(4), Some(59), Some(blocks), Some(true))
    }

    /// Move the side to move to square `to`, which must be a currently
    /// legal destination.
    pub fn make_move(&mut self, to: u8)
        requires
            old(self).wqueen < 64,
            old(self).bqueen < 64,
            to < 64,
            nth_bit(old(self).legal_mask_of(), to as u64),
        ensures
            *final(self) == old(self).spec_apply_move(to),
    {
        if self.is_white_turn {
            self.blocks = self.blocks | (1u64 << self.wqueen);
            self.wqueen = to;
        } else {
            self.blocks = self.blocks | (1u64 << self.bqueen);
            self.bqueen = to;
        }
        self.is_white_turn = !self.is_white_turn;
    }

    /// The game outcome of this position.
    pub fn result(&self) -> (r: Option<bool>)
        requires
            self.wqueen < 64,
            self.bqueen < 64,
        ensures
            r == self.spec_result(),
    {
        if self.wqueen == self.bqueen {
            return Some(!self.is_white_turn);
        }
        if get_possible_legal_moves(self) == 0 {
            return Some(!self.is_white_turn);
        }
        None
    }
}

/// A bitboard included in another has no larger count.
proof fn lemma_count_removed_le(a: u64, b: u64, n: int)
    requires
        n <= 64,
        forall|u: u64| u < 64 && nth_bit(a, u) ==> nth_bit(b, u),
    ensures
        crate::bits::count_bits(a, n) <= crate::bits::count_bits(b, n),
    decreases n,
{
    if n > 0 {
        lemma_count_removed_le(a, b, n - 1);
    }
}

/// Applying any legal move to a well-formed position with distinct queens
/// yields a well-formed position with one more obstacle.
pub proof fn lemma_legal_move_preserves_valid(s: GameState, to: u8)
    requires
        s.valid(),
        s.wqueen != s.bqueen,
        to < 64,
        nth_bit(s.legal_mask_of(), to as u64),
    ensures
        s.spec_apply_move(to).valid(),
        popcount(s.spec_apply_move(to).blocks) == popcount(s.blocks) + 1,
{
    let m = s.mover() as int;
    let o = s.opponent() as int;
    lemma_legal_mask_bits(m, o, s.blocks, to as u64);
    lemma_legal_dest_props(m, o, s.blocks, to as int);
    let r = s.spec_apply_move(to);
    assert forall|u: u64| u < 64 implies nth_bit(r.blocks, u) == (nth_bit(s.blocks, u) || u
        == s.mover() as u64) by {
        lemma_bit_or_single(s.blocks, s.mover() as u64, u);
    }
    lemma_count_bits_set(s.blocks, s.mover() as u64, 64);
}

} // verus!
