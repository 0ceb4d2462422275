//! The fixed-depth strategy: full-width minimax with alpha-beta pruning
//! over a move-count heuristic. Values are integers in hundredths of a
//! move: `INFINITY` stands for a decided game, and one hundredth is
//! subtracted from winning (added to losing) propagated values so that
//! faster wins and slower losses are preferred among ties.

use vstd::prelude::*;
use crate::bits::{nth_bit, popcount, lemma_popcount_zero, lemma_bit_test_two, lemma_bit_or, count_set_bits, lemma_count_bits_le};
use crate::qd::state::GameState;
use crate::qd::legalcomp::{
    get_possible_attack_mask, get_possible_legal_moves, legal_mask, legal_dest,
    lemma_legal_mask_bits, lemma_legal_dest_props, lemma_legal_dest_attacks, lemma_attack_mask_bits,
};
use crate::bot::base::Bot;

verus! {

/// The win/loss sentinel value, in hundredths.
pub const INFINITY: i64 = 100_000_000;

/// The side to move can reach the opposing queen's square in one move,
/// which decides the game.
pub open spec fn spec_queens_in_reach(s: GameState) -> bool {
    legal_dest(s.mover() as int, s.opponent() as int, s.blocks, s.opponent() as int)
}

/// Whether either queen's square lies in the other's reach for the side
/// to move.
pub(crate) fn queens_in_reach(state: &GameState) -> (r: bool)
    requires
        state.wqueen < 64,
        state.bqueen < 64,
    ensures
        r == spec_queens_in_reach(*state),
{
    let ghost m = state.mover() as int;
    let ghost o = state.opponent() as int;
    let two: u64 = (1u64 << state.wqueen) | (1u64 << state.bqueen);
    proof {
        lemma_legal_mask_bits(m, o, state.blocks, state.mover() as u64);
        lemma_legal_mask_bits(m, o, state.blocks, state.opponent() as u64);
        if legal_dest(m, o, state.blocks, m) {
            lemma_legal_dest_props(m, o, state.blocks, m);
        }
    }
    let am_w = get_possible_attack_mask(state.wqueen);
    let am_b = get_possible_attack_mask(state.bqueen);
    if (am_w | am_b) & two != 0 {
        let lm = get_possible_legal_moves(state);
        proof {
            lemma_bit_test_two(lm, state.wqueen as u64, state.bqueen as u64);
        }
        if lm & two != 0 {
            return true;
        }
        return false;
    }
    proof {
        lemma_bit_test_two(am_w | am_b, state.wqueen as u64, state.bqueen as u64);
        lemma_bit_or(am_w, am_b, state.opponent() as u64);
        lemma_attack_mask_bits(m, state.opponent() as u64);
        if legal_dest(m, o, state.blocks, o) {
            lemma_legal_dest_attacks(m, o, state.blocks, o);
        }
    }
    false
}

/// The position is scored by the heuristic directly: it is terminal or
/// already decided by a queen in reach.
pub(crate) fn use_heuristic(state: &GameState) -> (r: bool)
    requires
        state.wqueen < 64,
        state.bqueen < 64,
    ensures
        r == (state.spec_result() is Some || spec_queens_in_reach(*state)),
{
    if state.result().is_some() {
        return true;
    }
    if queens_in_reach(state) {
        return true;
    }
    false
}

/// The heuristic score of a position, in hundredths: the win sentinel for
/// a decided game, else one hundred times white's mobility lead.
pub open spec fn spec_heuristic(s: GameState) -> int {
    if s.spec_result() == Some(true) {
        INFINITY as int
    } else if s.spec_result() == Some(false) {
        -INFINITY as int
    } else if spec_queens_in_reach(s) {
        if s.is_white_turn {
            INFINITY as int
        } else {
            -INFINITY as int
        }
    } else {
        100 * (popcount(legal_mask(s.wqueen as int, s.bqueen as int, s.blocks)) - popcount(
            legal_mask(s.bqueen as int, s.wqueen as int, s.blocks),
        ))
    }
}

/// Score a position.
pub(crate) fn heuristic(state: &GameState) -> (r: i64)
    requires
        state.wqueen < 64,
        state.bqueen < 64,
    ensures
        r == spec_heuristic(*state),
        -INFINITY <= r <= INFINITY,
{
    let res = state.result();
    if res.is_some() {
        if res.unwrap() {
            return INFINITY;
        }
        return -INFINITY;
    }
    if queens_in_reach(state) {
        if state.is_white_turn {
            return INFINITY;
        }
        return -INFINITY;
    }
    let white_state = GameState::new(
        Some(state.wqueen),
        Some(state.bqueen),
        Some(state.blocks),
        Some(true),
    );
    let black_state = GameState::new(
        Some(state.wqueen),
        Some(state.bqueen),
        Some(state.blocks),
        Some(false),
    );
    let white_score = count_set_bits(get_possible_legal_moves(&white_state));
    let black_score = count_set_bits(get_possible_legal_moves(&black_state));
    proof {
        lemma_count_bits_le(legal_mask(state.wqueen as int, state.bqueen as int, state.blocks), 64);
        lemma_count_bits_le(legal_mask(state.bqueen as int, state.wqueen as int, state.blocks), 64);
    }
    (white_score as i64 - black_score as i64) * 100
}

/// The legal moves of the side to move, each paired with the position it
/// leads to, in ascending order of destination square.
pub(crate) fn get_children(state: &GameState) -> (r: Vec<(GameState, u8)>)
    requires
        state.valid(),
        state.wqueen != state.bqueen,
    ensures
        r@.len() == popcount(state.legal_mask_of()),
        forall|i: int|
            0 <= i < r@.len() ==> {
                &&& (#[trigger] r@[i]).1 < 64
                &&& nth_bit(state.legal_mask_of(), r@[i].1 as u64)
                &&& r@[i].0 == state.spec_apply_move(r@[i].1)
                &&& r@[i].0.valid()
                &&& popcount(r@[i].0.blocks) == popcount(state.blocks) + 1
            },
        forall|i: int, j: int| 0 <= i < j < r@.len() ==> r@[i].1 < r@[j].1,
        forall|t: u64|
            t < 64 && #[trigger] nth_bit(state.legal_mask_of(), t) ==> exists|q: int|
                0 <= q < r@.len() && (#[trigger] r@[q]).1 == t,
{
    let legal_moves = get_possible_legal_moves(state);
    let mut children: Vec<(GameState, u8)> = Vec::new();
    let mut i: u8 = 0;
    while i < 64
        invariant
            i <= 64,
            state.valid(),
            state.wqueen != state.bqueen,
            legal_moves == state.legal_mask_of(),
            children@.len() == crate::bits::count_bits(legal_moves, i as int),
            forall|q: int|
                0 <= q < children@.len() ==> {
                    &&& (#[trigger] children@[q]).1 < i
                    &&& nth_bit(state.legal_mask_of(), children@[q].1 as u64)
                    &&& children@[q].0 == state.spec_apply_move(children@[q].1)
                    &&& children@[q].0.valid()
                    &&& popcount(children@[q].0.blocks) == popcount(state.blocks) + 1
                },
            forall|q: int, p: int| 0 <= q < p < children@.len() ==> children@[q].1 < children@[p].1,
            forall|t: u64|
                t < i && #[trigger] nth_bit(legal_moves, t) ==> exists|q: int|
                    0 <= q < children@.len() && (#[trigger] children@[q]).1 == t,
        decreases 64 - i,
    {
        let ghost prev = children@;
        if (legal_moves >> (i as u64)) & 1 == 1 {
            let mut child_state = state.clone();
            child_state.make_move(i);
            proof {
                crate::qd::state::lemma_legal_move_preserves_valid(*state, i);
            }
            children.push((child_state, i));
        }
        proof {
            assert forall|t: u64|
                t < i + 1 && #[trigger] nth_bit(legal_moves, t) implies exists|q: int|
                    0 <= q < children@.len() && (#[trigger] children@[q]).1 == t by {
                if t < i {
                    let q = choose|q: int| 0 <= q < prev.len() && (#[trigger] prev[q]).1 == t;
                    assert(children@[q].1 == t);
                } else {
                    assert(children@[children@.len() - 1].1 == i);
                }
            }
        }
        i = i + 1;
    }
    children
}

/// Minimax with alpha-beta pruning to a fixed depth. Returns the value of
/// the position, the best move found at this node, and whether the node's
/// exploration was cut off. At the top level of a non-terminal position a
/// move is always returned, and it is legal.
pub(crate) fn minimax_local(
    state: &GameState,
    depth: u32,
    alpha: i64,
    beta: i64,
    ab_pruning: bool,
    top_level: bool,
) -> (r: (i64, Option<u8>, bool))
    requires
        state.valid(),
        top_level ==> depth > 0 && state.spec_result() is None,
    ensures
        -INFINITY <= r.0 <= INFINITY,
        r.1 is Some ==> r.1->0 < 64 && nth_bit(state.legal_mask_of(), r.1->0 as u64),
        top_level ==> r.1 is Some,
    decreases depth,
{
    if (depth == 0 || use_heuristic(state)) && !top_level {
        return (heuristic(state), None, false);
    }
    let mut alpha = alpha;
    let mut beta = beta;
    let mut best_value: i64 = if state.is_white_turn {
        -INFINITY
    } else {
        INFINITY
    };
    let mut best_move: Option<u8> = None;
    let mut best_move_unpruned: Option<u8> = None;
    let mut pruned = false;
    proof {
        lemma_popcount_zero(state.legal_mask_of());
    }
    let children = get_children(state);
    let mut i: usize = 0;
    while i < children.len() && !pruned
        invariant
            state.valid(),
            i <= children@.len(),
            -INFINITY <= best_value <= INFINITY,
            depth > 0,
            forall|q: int|
                0 <= q < children@.len() ==> {
                    &&& (#[trigger] children@[q]).1 < 64
                    &&& nth_bit(state.legal_mask_of(), children@[q].1 as u64)
                    &&& children@[q].0.valid()
                },
            best_move is Some ==> best_move->0 < 64 && nth_bit(
                state.legal_mask_of(),
                best_move->0 as u64,
            ),
            best_move_unpruned is Some ==> best_move_unpruned->0 < 64 && nth_bit(
                state.legal_mask_of(),
                best_move_unpruned->0 as u64,
            ),
            i > 0 ==> best_move_unpruned is Some,
            pruned ==> best_move_unpruned is Some,
            i == 0 ==> best_value == (if state.is_white_turn {
                -INFINITY as int
            } else {
                INFINITY as int
            }),
        decreases children@.len() - i,
    {
        let (child, move_made) = children[i];
        let rec = minimax_local(&child, depth - 1, alpha, beta, ab_pruning, false);
        let mut value = rec.0;
        let eval_pruned = rec.2;
        if value > 0 {
            value = value - 1;
        } else {
            value = value + 1;
        }
        if state.is_white_turn {
            if value >= best_value {
                best_value = value;
                if !eval_pruned {
                    best_move = Some(move_made);
                }
                best_move_unpruned = Some(move_made);
            }
            if value > alpha {
                alpha = value;
            }
        } else {
            if value <= best_value {
                best_value = value;
                if !eval_pruned {
                    best_move = Some(move_made);
                }
                best_move_unpruned = Some(move_made);
            }
            if value < beta {
                beta = value;
            }
        }
        if beta <= alpha && ab_pruning {
            pruned = true;
        }
        i = i + 1;
    }
    if best_move.is_none() {
        best_move = best_move_unpruned;
    }
    (best_value, best_move, pruned)
}

/// Search to a fixed depth from the root.
pub(crate) fn minimax(state: &GameState, depth: u32) -> (r: (i64, Option<u8>))
    requires
        state.valid(),
        depth > 0,
        state.spec_result() is None,
    ensures
        r.1 is Some,
        r.1->0 < 64,
        nth_bit(state.legal_mask_of(), r.1->0 as u64),
{
    let (best_value, best_move, _) = minimax_local(state, depth, -INFINITY, INFINITY, true, true);
    (best_value, best_move)
}

/// The fixed-depth strategy.
#[derive(Copy, Clone)]
pub struct BasicBot {
    pub depth: u32,
}

impl BasicBot {
    /// A strategy searching to the given depth, which must be positive.
    pub fn new(depth: u32) -> (r: BasicBot)
        requires
            depth > 0,
        ensures
            r.depth == depth,
            r.wf(),
    {
        BasicBot { depth }
    }
}

impl Bot for BasicBot {
    open spec fn wf(&self) -> bool {
        self.depth > 0
    }

    fn decide(&self, state: GameState) -> (r: u8) {
        let (_, best_move) = minimax(&state, self.depth);
        best_move.unwrap()
    }
}

} // verus!
