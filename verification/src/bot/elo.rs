//! The rating engine's verified core. Ratings are integers in thousandths
//! of a rating point; expected scores are integers in millionths of the
//! unit interval. The logistic expected-score formula and the geometric
//! K schedule need transcendental arithmetic and are evaluated by the
//! caller, which hands their values in at this precision; pairing
//! selection, the closeness test and the rating updates are exact integer
//! computations and are verified here, as is the batch runner.

use vstd::prelude::*;
use rayon::iter::{IntoParallelRefIterator, ParallelIterator};
use crate::bot::base::{Bot, bots_fight_rand};
use crate::bot::collections::BotChoice;
use crate::rng::rand_index;

verus! {

/// Rayon's report that a thread pool could not be built.
#[verifier::external_type_specification]
#[verifier::external_body]
pub struct ExThreadPoolBuildError(rayon::ThreadPoolBuildError);

/// Thousandths of a rating point: the denominator of ratings and of K.
pub const ELO_SCALE: i64 = 1_000;

/// Millionths of the unit interval: the denominator of expected scores.
pub const SCORE_UNIT: i64 = 1_000_000;

/// Largest rating magnitude the engine's arithmetic accepts.
pub const ELO_LIMIT: i64 = 1_000_000_000_000_000;

/// Largest K value the engine's arithmetic accepts.
pub const K_LIMIT: i64 = 1_000_000_000;

/// The closeness threshold: the larger of 600 rating points and six K.
pub open spec fn spec_threshold(k: int) -> int {
    if 6 * k > 600 * (ELO_SCALE as int) {
        6 * k
    } else {
        600 * (ELO_SCALE as int)
    }
}

/// Two ratings are close enough for an informative match.
pub open spec fn spec_matchable(r1: int, r2: int, k: int) -> bool {
    (if r1 >= r2 {
        r1 - r2
    } else {
        r2 - r1
    }) < spec_threshold(k)
}

/// Whether two ratings lie within the closeness threshold of each other.
pub fn matchable_elos(r1: i64, r2: i64, k: i64) -> (r: bool)
    requires
        -ELO_LIMIT <= r1 <= ELO_LIMIT,
        -ELO_LIMIT <= r2 <= ELO_LIMIT,
        0 <= k <= K_LIMIT,
    ensures
        r == spec_matchable(r1 as int, r2 as int, k as int),
{
    let diff = if r1 >= r2 {
        r1 - r2
    } else {
        r2 - r1
    };
    let six_k = 6 * k;
    let threshold = if six_k > 600 * ELO_SCALE {
        six_k
    } else {
        600 * ELO_SCALE
    };
    diff < threshold
}

/// One additive rating update, `R' = R + K * (S - E)`, with the score `S`
/// one or zero and the division rounding the magnitude of the change down.
pub open spec fn spec_elo_update(r: int, k: int, e: int, won: bool) -> int {
    let s: int = if won {
        SCORE_UNIT as int
    } else {
        0
    };
    if s >= e {
        r + k * (s - e) / (SCORE_UNIT as int)
    } else {
        r - k * (e - s) / (SCORE_UNIT as int)
    }
}

/// Update one rating after a match against an opponent whose expected
/// score against us was `SCORE_UNIT - e`. The change never exceeds K.
pub fn elo_update(r: i64, k: i64, e: i64, won: bool) -> (nr: i64)
    requires
        -ELO_LIMIT <= r <= ELO_LIMIT,
        0 <= k <= K_LIMIT,
        0 <= e <= SCORE_UNIT,
    ensures
        nr == spec_elo_update(r as int, k as int, e as int, won),
        -ELO_LIMIT - K_LIMIT <= nr <= ELO_LIMIT + K_LIMIT,
{
    let s: i64 = if won {
        SCORE_UNIT
    } else {
        0
    };
    if s >= e {
        proof {
            lemma_scaled_product_bound(k as int, (s - e) as int);
            lemma_scaled_delta_bound(k as int, (s - e) as int);
        }
        let delta = k * (s - e) / SCORE_UNIT;
        r + delta
    } else {
        proof {
            lemma_scaled_product_bound(k as int, (e - s) as int);
            lemma_scaled_delta_bound(k as int, (e - s) as int);
        }
        let delta = k * (e - s) / SCORE_UNIT;
        r - delta
    }
}

/// The scaled product stays far within the machine range.
proof fn lemma_scaled_product_bound(k: int, x: int)
    by (nonlinear_arith)
    requires
        0 <= k <= K_LIMIT as int,
        0 <= x <= SCORE_UNIT as int,
    ensures
        0 <= k * x <= (K_LIMIT as int) * (SCORE_UNIT as int),
{
}

/// `k * x / SCORE_UNIT` lies between 0 and `k` for `x` in the unit range.
proof fn lemma_scaled_delta_bound(k: int, x: int)
    by (nonlinear_arith)
    requires
        0 <= k,
        0 <= x <= SCORE_UNIT as int,
    ensures
        0 <= k * x / (SCORE_UNIT as int) <= k,
{
}

/// Update both participants of one match. The winner gains what the loser
/// gives up: with complementary expected scores the two changes cancel.
pub fn update_pair(r1: i64, r2: i64, k: i64, e1: i64, first_won: bool) -> (r: (i64, i64))
    requires
        -ELO_LIMIT <= r1 <= ELO_LIMIT,
        -ELO_LIMIT <= r2 <= ELO_LIMIT,
        0 <= k <= K_LIMIT,
        0 <= e1 <= SCORE_UNIT,
    ensures
        r.0 == spec_elo_update(r1 as int, k as int, e1 as int, first_won),
        r.1 == spec_elo_update(r2 as int, k as int, SCORE_UNIT - e1, !first_won),
        r.0 + r.1 == r1 + r2,
{
    let n1 = elo_update(r1, k, e1, first_won);
    let n2 = elo_update(r2, k, SCORE_UNIT - e1, !first_won);
    proof {
        lemma_update_pair_conserves_sum(r1 as int, r2 as int, k as int, e1 as int, first_won);
    }
    (n1, n2)
}

/// With complementary expected scores, one match moves both ratings by the
/// same amount in opposite directions, so their sum is conserved.
pub proof fn lemma_update_pair_conserves_sum(r1: int, r2: int, k: int, e1: int, first_won: bool)
    requires
        0 <= e1 <= SCORE_UNIT as int,
    ensures
        spec_elo_update(r1, k, e1, first_won) + spec_elo_update(
            r2,
            k,
            SCORE_UNIT - e1,
            !first_won,
        ) == r1 + r2,
{
    let u = SCORE_UNIT as int;
    let e2 = u - e1;
    if first_won {
        if e1 < u {
            assert(k * (e2 - 0) == k * (u - e1)) by (nonlinear_arith)
                requires
                    e2 == u - e1,
            ;
        } else {
            assert(k * (u - e1) == 0) by (nonlinear_arith)
                requires
                    e1 == u,
            ;
            assert(k * (0 - e2) == 0) by (nonlinear_arith)
                requires
                    e2 == 0,
            ;
        }
    } else {
        if e1 > 0 {
            assert(k * (u - e2) == k * (e1 - 0)) by (nonlinear_arith)
                requires
                    e2 == u - e1,
            ;
        } else {
            assert(k * (0 - e1) == 0) by (nonlinear_arith)
                requires
                    e1 == 0,
            ;
            assert(k * (u - e2) == 0) by (nonlinear_arith)
                requires
                    e2 == u,
            ;
        }
    }
}

/// Between two freshly initialized participants (both rating zero, so each
/// is expected to score one half), a match at K of 32 points moves the
/// winner to plus sixteen points and the loser to minus sixteen.
pub proof fn lemma_rating_symmetry()
    ensures
        spec_elo_update(0, 32 * ELO_SCALE as int, (SCORE_UNIT / 2) as int, true) == 16 * (
        ELO_SCALE as int),
        spec_elo_update(0, 32 * ELO_SCALE as int, (SCORE_UNIT / 2) as int, false) == -16 * (
        ELO_SCALE as int),
{
}

/// The opponents eligible for a focal participant: all others within the
/// closeness threshold.
fn eligible_opponents(elos: &Vec<i64>, focal: usize, k: i64) -> (r: Vec<usize>)
    requires
        focal < elos@.len(),
        forall|i: int| 0 <= i < elos@.len() ==> -ELO_LIMIT <= #[trigger] elos@[i] <= ELO_LIMIT,
        0 <= k <= K_LIMIT,
    ensures
        forall|q: int|
            0 <= q < r@.len() ==> (#[trigger] r@[q]) < elos@.len() && r@[q] != focal
                && spec_matchable(elos@[focal as int] as int, elos@[r@[q] as int] as int, k as int),
        r@.len() == 0 ==> forall|i: int|
            0 <= i < elos@.len() && i != focal ==> !spec_matchable(
                elos@[focal as int] as int,
                #[trigger] elos@[i] as int,
                k as int,
            ),
{
    let mut r: Vec<usize> = Vec::new();
    let mut i: usize = 0;
    while i < elos.len()
        invariant
            i <= elos@.len(),
            focal < elos@.len(),
            0 <= k <= K_LIMIT,
            forall|t: int| 0 <= t < elos@.len() ==> -ELO_LIMIT <= #[trigger] elos@[t] <= ELO_LIMIT,
            forall|q: int|
                0 <= q < r@.len() ==> (#[trigger] r@[q]) < elos@.len() && r@[q] != focal
                    && spec_matchable(
                    elos@[focal as int] as int,
                    elos@[r@[q] as int] as int,
                    k as int,
                ),
            r@.len() == 0 ==> forall|t: int|
                0 <= t < i && t != focal ==> !spec_matchable(
                    elos@[focal as int] as int,
                    #[trigger] elos@[t] as int,
                    k as int,
                ),
        decreases elos@.len() - i,
    {
        if i != focal && matchable_elos(elos[focal], elos[i], k) {
            r.push(i);
        }
        i = i + 1;
    }
    r
}

/// All participants other than the focal one.
fn all_other_indices(n: usize, focal: usize) -> (r: Vec<usize>)
    requires
        focal < n,
        n >= 2,
    ensures
        r@.len() == n - 1,
        forall|q: int| 0 <= q < r@.len() ==> (#[trigger] r@[q]) < n && r@[q] != focal,
{
    let mut r: Vec<usize> = Vec::new();
    let mut i: usize = 0;
    while i < n
        invariant
            i <= n,
            focal < n,
            r@.len() == if i <= focal {
                i as int
            } else {
                i - 1
            },
            forall|q: int| 0 <= q < r@.len() ==> (#[trigger] r@[q]) < n && r@[q] != focal,
        decreases n - i,
    {
        if i != focal {
            r.push(i);
        }
        i = i + 1;
    }
    r
}

/// Draw a match pairing: a focal participant uniformly at random, and an
/// opponent uniformly among those within the closeness threshold of the
/// focal rating. When no opponent is close enough the engine does not
/// stall: it falls back to a uniform choice over all the others.
pub fn select_matchup(elos: &Vec<i64>, k: i64) -> (p: (usize, usize))
    requires
        elos@.len() >= 2,
        forall|i: int| 0 <= i < elos@.len() ==> -ELO_LIMIT <= #[trigger] elos@[i] <= ELO_LIMIT,
        0 <= k <= K_LIMIT,
    ensures
        p.0 < elos@.len(),
        p.1 < elos@.len(),
        p.0 != p.1,
        (exists|i: int|
            0 <= i < elos@.len() && i != p.0 && spec_matchable(
                elos@[p.0 as int] as int,
                #[trigger] elos@[i] as int,
                k as int,
            )) ==> spec_matchable(elos@[p.0 as int] as int, elos@[p.1 as int] as int, k as int),
{
    let focal = rand_index(elos.len());
    let candidates = eligible_opponents(elos, focal, k);
    if candidates.len() > 0 {
        let pick = rand_index(candidates.len());
        let j = candidates[pick];
        (focal, j)
    } else {
        let others = all_other_indices(elos.len(), focal);
        let pick = rand_index(others.len());
        let j = others[pick];
        (focal, j)
    }
}

/// Draw a benchmark opponent for a focal rating: uniform among the
/// opponents within the closeness threshold, else uniform over all.
pub fn select_opponent(elo: i64, oppo_elos: &Vec<i64>, k: i64) -> (j: usize)
    requires
        oppo_elos@.len() >= 1,
        -ELO_LIMIT <= elo <= ELO_LIMIT,
        forall|i: int| 0 <= i < oppo_elos@.len() ==> -ELO_LIMIT <= #[trigger] oppo_elos@[i] <= ELO_LIMIT,
        0 <= k <= K_LIMIT,
    ensures
        j < oppo_elos@.len(),
        (exists|i: int|
            0 <= i < oppo_elos@.len() && spec_matchable(
                elo as int,
                #[trigger] oppo_elos@[i] as int,
                k as int,
            )) ==> spec_matchable(elo as int, oppo_elos@[j as int] as int, k as int),
{
    let mut candidates: Vec<usize> = Vec::new();
    let mut i: usize = 0;
    while i < oppo_elos.len()
        invariant
            i <= oppo_elos@.len(),
            -ELO_LIMIT <= elo <= ELO_LIMIT,
            forall|t: int|
                0 <= t < oppo_elos@.len() ==> -ELO_LIMIT <= #[trigger] oppo_elos@[t] <= ELO_LIMIT,
            0 <= k <= K_LIMIT,
            forall|q: int|
                0 <= q < candidates@.len() ==> (#[trigger] candidates@[q]) < oppo_elos@.len()
                    && spec_matchable(
                    elo as int,
                    oppo_elos@[candidates@[q] as int] as int,
                    k as int,
                ),
            candidates@.len() == 0 ==> forall|t: int|
                0 <= t < i ==> !spec_matchable(elo as int, #[trigger] oppo_elos@[t] as int, k as int),
        decreases oppo_elos@.len() - i,
    {
        if matchable_elos(elo, oppo_elos[i], k) {
            candidates.push(i);
        }
        i = i + 1;
    }
    if candidates.len() > 0 {
        let pick = rand_index(candidates.len());
        candidates[pick]
    } else {
        rand_index(oppo_elos.len())
    }
}

/// Relies on rayon::ThreadPoolBuilder::build and ThreadPool::install with
/// a parallel map over the pairings: each pairing is played by
/// `bots_fight_rand` on some worker, and the collected results keep the
/// pairing order, one boolean per pairing. The indices are in range and
/// the roster well-formed, so the mapped calls meet `bots_fight_rand`'s
/// contract.
#[verifier::external_body]
fn run_pairings_pooled(bots: &Vec<BotChoice>, pairs: &Vec<(usize, usize)>, num_threads: usize) -> (r:
    Result<Vec<bool>, rayon::ThreadPoolBuildError>)
    requires
        forall|t: int|
            0 <= t < pairs@.len() ==> (#[trigger] pairs@[t]).0 < bots@.len() && pairs@[t].1
                < bots@.len(),
        forall|b: int| 0 <= b < bots@.len() ==> (#[trigger] bots@[b]).wf(),
    ensures
        r is Ok ==> r->Ok_0@.len() == pairs@.len(),
{
    let pool = rayon::ThreadPoolBuilder::new().num_threads(num_threads).build()?;
    Ok(
        pool.install(
            || pairs.par_iter().map(|p| bots_fight_rand(&bots[p.0], &bots[p.1])).collect(),
        ),
    )
}

/// Play a batch of pairings, one result per pairing in order: on a pool of
/// `num_threads` workers when the system can provide one, else one after
/// another on the calling thread.
pub fn play_pairings(bots: &Vec<BotChoice>, pairs: &Vec<(usize, usize)>, num_threads: usize) -> (r:
    Vec<bool>)
    requires
        forall|t: int|
            0 <= t < pairs@.len() ==> (#[trigger] pairs@[t]).0 < bots@.len() && pairs@[t].1
                < bots@.len(),
        forall|b: int| 0 <= b < bots@.len() ==> (#[trigger] bots@[b]).wf(),
    ensures
        r@.len() == pairs@.len(),
{
    match run_pairings_pooled(bots, pairs, num_threads) {
        Ok(v) => v,
        Err(_) => {
            let mut out: Vec<bool> = Vec::new();
            let mut i: usize = 0;
            while i < pairs.len()
                invariant
                    i <= pairs@.len(),
                    out@.len() == i,
                    forall|t: int|
                        0 <= t < pairs@.len() ==> (#[trigger] pairs@[t]).0 < bots@.len()
                            && pairs@[t].1 < bots@.len(),
                    forall|b: int| 0 <= b < bots@.len() ==> (#[trigger] bots@[b]).wf(),
                decreases pairs@.len() - i,
            {
                let p = pairs[i];
                let won = bots_fight_rand(&bots[p.0], &bots[p.1]);
                out.push(won);
                i = i + 1;
            }
            out
        },
    }
}

} // verus!
