//! The compute-budgeted strategy: the same alpha-beta recursion as the
//! fixed-depth search, but depth is replaced by an integer work budget
//! divided among the children of each node. The budget actually consumed
//! never exceeds the budget given.

use vstd::prelude::*;
use crate::bits::{nth_bit, popcount, lemma_popcount_zero, lemma_count_bits_le, lemma_count_bits_missing};
use crate::qd::state::GameState;
use crate::bot::base::Bot;
use crate::bot::basic::{INFINITY, use_heuristic, heuristic, get_children};

verus! {

/// Budgeted minimax with alpha-beta pruning. Returns the value of the
/// position, the best move found, the budget consumed, and whether the
/// node's exploration was cut off. The consumed budget never exceeds
/// `max_compute`, and at the top level of a non-terminal position a legal
/// move is always returned.
pub(crate) fn minimax_local(
    state: &GameState,
    max_compute: u64,
    alpha: i64,
    beta: i64,
    top_level: bool,
) -> (r: (i64, Option<u8>, u64, bool))
    requires
        state.valid(),
        top_level ==> state.spec_result() is None,
    ensures
        -INFINITY <= r.0 <= INFINITY,
        r.2 <= max_compute,
        r.1 is Some ==> r.1->0 < 64 && nth_bit(state.legal_mask_of(), r.1->0 as u64),
        top_level ==> r.1 is Some,
    decreases 64 - popcount(state.blocks),
{
    proof {
        lemma_count_bits_le(state.blocks, 64);
        lemma_count_bits_missing(state.blocks, state.wqueen as int, 64);
    }
    if (max_compute == 0 || use_heuristic(state)) && !top_level {
        return (heuristic(state), None, max_compute, false);
    }
    let mut alpha = alpha;
    let mut beta = beta;
    let mut best_value: i64 = if state.is_white_turn {
        -INFINITY
    } else {
        INFINITY
    };
    let mut best_move: Option<u8> = None;
    let mut best_move_unpruned: Option<u8> = None;
    let mut pruned = false;
    let mut remaining = max_compute;
    proof {
        lemma_popcount_zero(state.legal_mask_of());
        lemma_count_bits_le(state.legal_mask_of(), 64);
    }
    let mut children = get_children(state);
    let ghost total = children@.len();
    let mut processed: usize = 0;
    while children.len() > 0 && !pruned
        invariant
            state.valid(),
            remaining <= max_compute,
            -INFINITY <= best_value <= INFINITY,
            children@.len() + processed == total,
            total <= 64,
            popcount(state.blocks) < 64,
            forall|q: int|
                0 <= q < children@.len() ==> {
                    &&& (#[trigger] children@[q]).1 < 64
                    &&& nth_bit(state.legal_mask_of(), children@[q].1 as u64)
                    &&& children@[q].0.valid()
                    &&& popcount(children@[q].0.blocks) == popcount(state.blocks) + 1
                },
            best_move is Some ==> best_move->0 < 64 && nth_bit(
                state.legal_mask_of(),
                best_move->0 as u64,
            ),
            best_move_unpruned is Some ==> best_move_unpruned->0 < 64 && nth_bit(
                state.legal_mask_of(),
                best_move_unpruned->0 as u64,
            ),
            processed > 0 ==> best_move_unpruned is Some,
            pruned ==> best_move_unpruned is Some,
            processed == 0 ==> best_value == (if state.is_white_turn {
                -INFINITY as int
            } else {
                INFINITY as int
            }),
        decreases children@.len(),
    {
        let popped = children.pop().unwrap();
        let child = popped.0;
        let move_made = popped.1;
        let divisor: u64 = children.len() as u64 + 1;
        let max_cost = remaining / divisor;
        proof {
            assert(max_cost <= remaining) by (nonlinear_arith)
                requires
                    max_cost == remaining / divisor,
                    divisor >= 1,
            ;
        }
        let rec = minimax_local(&child, max_cost, alpha, beta, false);
        let mut value = rec.0;
        let cost = rec.2;
        let eval_pruned = rec.3;
        if value > 0 {
            value = value - 1;
        } else {
            value = value + 1;
        }
        remaining = remaining - cost;
        if state.is_white_turn {
            if value >= best_value {
                best_value = value;
                if !eval_pruned {
                    best_move = Some(move_made);
                }
                best_move_unpruned = Some(move_made);
            }
            if value > alpha {
                alpha = value;
            }
        } else {
            if value <= best_value {
                best_value = value;
                if !eval_pruned {
                    best_move = Some(move_made);
                }
                best_move_unpruned = Some(move_made);
            }
            if value < beta {
                beta = value;
            }
        }
        if beta <= alpha {
            pruned = true;
        }
        processed = processed + 1;
    }
    if best_move.is_none() {
        best_move = best_move_unpruned;
    }
    (best_value, best_move, max_compute - remaining, pruned)
}

/// Search from the root under a work budget: the value found, the move
/// chosen, and the work consumed, which never exceeds the budget given.
pub fn minimax(state: &GameState, max_compute: u64) -> (r: (i64, Option<u8>, u64))
    requires
        state.valid(),
        state.spec_result() is None,
    ensures
        r.1 is Some,
        r.1->0 < 64,
        nth_bit(state.legal_mask_of(), r.1->0 as u64),
        r.2 <= max_compute,
{
    let (best_value, best_move, consumed, _) = minimax_local(
        state,
        max_compute,
        -INFINITY,
        INFINITY,
        true,
    );
    (best_value, best_move, consumed)
}

/// The compute-budgeted strategy.
#[derive(Copy, Clone)]
pub struct AdaptiveBot {
    pub max_compute: u64,
}

impl AdaptiveBot {
    /// A strategy spending at most `max_compute` evaluation units per move.
    pub fn new(max_compute: u64) -> (r: AdaptiveBot)
        ensures
            r.max_compute == max_compute,
            r.wf(),
    {
        AdaptiveBot { max_compute }
    }
}

impl Bot for AdaptiveBot {
    open spec fn wf(&self) -> bool {
        true
    }

    fn decide(&self, state: GameState) -> (r: u8) {
        let (_, best_move, _) = minimax(&state, self.max_compute);
        best_move.unwrap()
    }
}

} // verus!
