use qdrust::bot::elo::{
    matchable_elos, elo_update, update_pair, select_matchup, select_opponent, play_pairings,
    ELO_SCALE, SCORE_UNIT,
};
use qdrust::bot::collections::{map_bot_string, BotChoice};

#[test]
fn test_rating_symmetry() {
    // One match between two freshly-initialised participants at K = 32:
    // expected score one half each, so the winner lands on +16 and the
    // loser on -16.
    let k = 32 * ELO_SCALE;
    let e_half = SCORE_UNIT / 2;
    let (w, l) = update_pair(0, 0, k, e_half, true);
    assert_eq!(w, 16 * ELO_SCALE);
    assert_eq!(l, -16 * ELO_SCALE);
    let (w, l) = update_pair(0, 0, k, e_half, false);
    assert_eq!(w, -16 * ELO_SCALE);
    assert_eq!(l, 16 * ELO_SCALE);
}

#[test]
fn test_update_conserves_sum() {
    let k = 40 * ELO_SCALE;
    let (a, b) = update_pair(1200 * ELO_SCALE, 900 * ELO_SCALE, k, 849_700, true);
    assert_eq!(a + b, 2100 * ELO_SCALE);
}

#[test]
fn test_elo_update_values() {
    // K = 10 points, expected score 0.75: a win gains 2.5 points, a loss
    // costs 7.5 points.
    let k = 10 * ELO_SCALE;
    assert_eq!(elo_update(0, k, 750_000, true), 2_500);
    assert_eq!(elo_update(0, k, 750_000, false), -7_500);
}

#[test]
fn test_matchable_threshold() {
    // The threshold is the larger of 600 points and six K.
    let k32 = 32 * ELO_SCALE;
    assert!(matchable_elos(0, 599 * ELO_SCALE, k32));
    assert!(!matchable_elos(0, 600 * ELO_SCALE, k32));
    let k200 = 200 * ELO_SCALE;
    assert!(matchable_elos(0, 1199 * ELO_SCALE, k200));
    assert!(!matchable_elos(0, 1200 * ELO_SCALE, k200));
}

#[test]
fn test_matchmaking_prefers_close() {
    // Ratings 0 and 100 are close; 10000 is far. The focal participant
    // must always be paired within the threshold here.
    let elos: Vec<i64> = vec![0, 100 * ELO_SCALE, 10_000 * ELO_SCALE, 10_050 * ELO_SCALE];
    for _ in 0..50 {
        let (i, j) = select_matchup(&elos, 32 * ELO_SCALE);
        assert_ne!(i, j);
        assert!(matchable_elos(elos[i], elos[j], 32 * ELO_SCALE));
    }
}

#[test]
fn test_matchmaking_fallback() {
    // No pair lies within the threshold, yet a pairing is still drawn.
    let elos: Vec<i64> = vec![0, 100_000 * ELO_SCALE, 200_000 * ELO_SCALE];
    for _ in 0..50 {
        let (i, j) = select_matchup(&elos, 32 * ELO_SCALE);
        assert_ne!(i, j);
        assert!(i < elos.len() && j < elos.len());
    }
}

#[test]
fn test_benchmark_opponent_fallback() {
    let oppo: Vec<i64> = vec![100_000 * ELO_SCALE, 200_000 * ELO_SCALE];
    for _ in 0..20 {
        let j = select_opponent(0, &oppo, 32 * ELO_SCALE);
        assert!(j < oppo.len());
    }
    let close: Vec<i64> = vec![100_000 * ELO_SCALE, 50 * ELO_SCALE];
    for _ in 0..20 {
        let j = select_opponent(0, &close, 32 * ELO_SCALE);
        assert_eq!(j, 1);
    }
}

#[test]
fn test_play_pairings_batch() {
    let bots: Vec<BotChoice> =
        vec![map_bot_string("random").unwrap(), map_bot_string("basic1").unwrap()];
    let pairs: Vec<(usize, usize)> = vec![(0, 1), (1, 0), (0, 1), (1, 1)];
    let results = play_pairings(&bots, &pairs, 2);
    assert_eq!(results.len(), pairs.len());
}
