//! The deliberately weakened strategy: a probabilistic blend of a
//! depth-one and a depth-two search. Its strength level is held in parts
//! per million of the unit interval; the depth-two move is chosen with
//! probability equal to the square root of the level.

use vstd::prelude::*;
use crate::bits::{nth_bit, popcount, lemma_popcount_zero, count_set_bits, lemma_count_bits_le};
use crate::qd::state::GameState;
use crate::qd::legalcomp::{legal_mask, get_possible_legal_moves};
use crate::bot::base::Bot;
use crate::bot::basic::{INFINITY, get_children};
use crate::rng::rand_below_u64;

verus! {

/// One million: the denominator of the strength level.
pub const LEVEL_UNIT: u32 = 1_000_000;

/// The position is scored by the heuristic directly: it is terminal.
/// Unlike the full-strength searches, a queen merely in reach does not
/// end this strategy's lookahead.
fn use_heuristic(state: &GameState) -> (r: bool)
    requires
        state.wqueen < 64,
        state.bqueen < 64,
    ensures
        r == (state.spec_result() is Some),
{
    if state.result().is_some() {
        return true;
    }
    false
}

/// The heuristic score: the win sentinel on terminal positions, else one
/// hundred times white's mobility lead.
pub open spec fn spec_heuristic_weak(s: GameState) -> int {
    if s.spec_result() == Some(true) {
        INFINITY as int
    } else if s.spec_result() == Some(false) {
        -INFINITY as int
    } else {
        100 * (popcount(legal_mask(s.wqueen as int, s.bqueen as int, s.blocks)) - popcount(
            legal_mask(s.bqueen as int, s.wqueen as int, s.blocks),
        ))
    }
}

/// Score a position.
fn heuristic(state: &GameState) -> (r: i64)
    requires
        state.wqueen < 64,
        state.bqueen < 64,
    ensures
        r == spec_heuristic_weak(*state),
        -INFINITY <= r <= INFINITY,
{
    let res = state.result();
    if res.is_some() {
        if res.unwrap() {
            return INFINITY;
        }
        return -INFINITY;
    }
    let white_state = GameState::new(
        Some(state.wqueen),
        Some(state.bqueen),
        Some(state.blocks),
        Some(true),
    );
    let black_state = GameState::new(
        Some(state.wqueen),
        Some(state.bqueen),
        Some(state.blocks),
        Some(false),
    );
    let white_score = count_set_bits(get_possible_legal_moves(&white_state));
    let black_score = count_set_bits(get_possible_legal_moves(&black_state));
    proof {
        lemma_count_bits_le(legal_mask(state.wqueen as int, state.bqueen as int, state.blocks), 64);
        lemma_count_bits_le(legal_mask(state.bqueen as int, state.wqueen as int, state.blocks), 64);
    }
    (white_score as i64 - black_score as i64) * 100
}

/// Minimax with alpha-beta pruning over the weakened heuristic.
fn minimax_local(
    state: &GameState,
    depth: u32,
    alpha: i64,
    beta: i64,
    ab_pruning: bool,
    top_level: bool,
) -> (r: (i64, Option<u8>, bool))
    requires
        state.valid(),
        top_level ==> depth > 0 && state.spec_result() is None,
    ensures
        -INFINITY <= r.0 <= INFINITY,
        r.1 is Some ==> r.1->0 < 64 && nth_bit(state.legal_mask_of(), r.1->0 as u64),
        top_level ==> r.1 is Some,
    decreases depth,
{
    if (depth == 0 || use_heuristic(state)) && !top_level {
        return (heuristic(state), None, false);
    }
    let mut alpha = alpha;
    let mut beta = beta;
    let mut best_value: i64 = if state.is_white_turn {
        -INFINITY
    } else {
        INFINITY
    };
    let mut best_move: Option<u8> = None;
    let mut best_move_unpruned: Option<u8> = None;
    let mut pruned = false;
    proof {
        lemma_popcount_zero(state.legal_mask_of());
    }
    let children = get_children(state);
    let mut i: usize = 0;
    while i < children.len() && !pruned
        invariant
            state.valid(),
            i <= children@.len(),
            -INFINITY <= best_value <= INFINITY,
            depth > 0,
            forall|q: int|
                0 <= q < children@.len() ==> {
                    &&& (#[trigger] children@[q]).1 < 64
                    &&& nth_bit(state.legal_mask_of(), children@[q].1 as u64)
                    &&& children@[q].0.valid()
                },
            best_move is Some ==> best_move->0 < 64 && nth_bit(
                state.legal_mask_of(),
                best_move->0 as u64,
            ),
            best_move_unpruned is Some ==> best_move_unpruned->0 < 64 && nth_bit(
                state.legal_mask_of(),
                best_move_unpruned->0 as u64,
            ),
            i > 0 ==> best_move_unpruned is Some,
            pruned ==> best_move_unpruned is Some,
            i == 0 ==> best_value == (if state.is_white_turn {
                -INFINITY as int
            } else {
                INFINITY as int
            }),
        decreases children@.len() - i,
    {
        let (child, move_made) = children[i];
        let rec = minimax_local(&child, depth - 1, alpha, beta, ab_pruning, false);
        let mut value = rec.0;
        let eval_pruned = rec.2;
        if value > 0 {
            value = value - 1;
        } else {
            value = value + 1;
        }
        if state.is_white_turn {
            if value >= best_value {
                best_value = value;
                if !eval_pruned {
                    best_move = Some(move_made);
                }
                best_move_unpruned = Some(move_made);
            }
            if value > alpha {
                alpha = value;
            }
        } else {
            if value <= best_value {
                best_value = value;
                if !eval_pruned {
                    best_move = Some(move_made);
                }
                best_move_unpruned = Some(move_made);
            }
            if value < beta {
                beta = value;
            }
        }
        if beta <= alpha && ab_pruning {
            pruned = true;
        }
        i = i + 1;
    }
    if best_move.is_none() {
        best_move = best_move_unpruned;
    }
    (best_value, best_move, pruned)
}

/// Search to a fixed depth from the root, over the weakened heuristic.
fn minimax(state: &GameState, depth: u32) -> (r: (i64, Option<u8>))
    requires
        state.valid(),
        depth > 0,
        state.spec_result() is None,
    ensures
        r.1 is Some,
        r.1->0 < 64,
        nth_bit(state.legal_mask_of(), r.1->0 as u64),
{
    let (best_value, best_move, _) = minimax_local(state, depth, -INFINITY, INFINITY, true, true);
    (best_value, best_move)
}

/// Integer square root by binary search.
fn isqrt(x: u64) -> (r: u64)
    requires
        x <= 1_000_000_000_000,
    ensures
        r * r <= x,
        x < (r + 1) * (r + 1),
        r <= 1_000_000,
{
    let mut lo: u64 = 0;
    let mut hi: u64 = 1_000_001;
    proof {
        assert(1_000_001int * 1_000_001int > x as int) by (nonlinear_arith)
            requires
                x <= 1_000_000_000_000,
        ;
    }
    while lo + 1 < hi
        invariant
            lo < hi <= 1_000_001,
            (lo as int) * (lo as int) <= x as int,
            (hi as int) * (hi as int) > x as int,
        decreases hi - lo,
    {
        let mid = lo + (hi - lo) / 2;
        proof {
            assert((mid as int) * (mid as int) <= 1_000_001int * 1_000_001int) by (nonlinear_arith)
                requires
                    0 <= mid as int <= 1_000_001,
            ;
        }
        if mid * mid <= x {
            lo = mid;
        } else {
            hi = mid;
        }
    }
    lo
}

/// The weakened strategy.
#[derive(Copy, Clone)]
pub struct WeakBot {
    pub level_ppm: u32,
}

impl WeakBot {
    /// A strategy of the given strength level, in parts per million of
    /// the unit interval.
    pub fn new(level_ppm: u32) -> (r: WeakBot)
        requires
            level_ppm <= LEVEL_UNIT,
        ensures
            r.level_ppm == level_ppm,
            r.wf(),
    {
        WeakBot { level_ppm }
    }
}

impl Bot for WeakBot {
    open spec fn wf(&self) -> bool {
        self.level_ppm <= LEVEL_UNIT
    }

    fn decide(&self, state: GameState) -> (r: u8) {
        let (_, best_move_1) = minimax(&state, 1);
        let (_, best_move_2) = minimax(&state, 2);
        let threshold = isqrt((self.level_ppm as u64) * 1_000_000);
        let draw = rand_below_u64(1_000_000);
        let choose_deep = draw < threshold;
        if choose_deep {
            best_move_2.unwrap()
        } else {
            best_move_1.unwrap()
        }
    }
}

} // verus!
