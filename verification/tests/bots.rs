use qdrust::ColorMode;
use qdrust::bot::base::{Bot, bots_fight_rand, play_game};
use qdrust::bot::basic::BasicBot;
use qdrust::bot::adapt::AdaptiveBot;
use qdrust::bot::weak::WeakBot;
use qdrust::bot::random::RandomBot;
use qdrust::bot::collections::{map_bot_string, BotChoice};
use qdrust::qd::legalcomp::get_possible_legal_moves;
use qdrust::qd::state::GameState;

fn assert_decides_legal<B: Bot>(bot: &B) {
    let state = GameState::def();
    let mask = get_possible_legal_moves(&state);
    let to = bot.decide(state);
    assert!(to < 64);
    assert_ne!(mask & (1u64 << to), 0);
}

#[test]
fn test_basic_decides_legal() {
    assert_decides_legal(&BasicBot::new(2));
}

#[test]
fn test_adaptive_decides_legal() {
    assert_decides_legal(&AdaptiveBot::new(64));
    // A zero budget still yields a legal move at the root.
    assert_decides_legal(&AdaptiveBot::new(0));
}

#[test]
fn test_weak_decides_legal() {
    assert_decides_legal(&WeakBot::new(0));
    assert_decides_legal(&WeakBot::new(500_000));
    assert_decides_legal(&WeakBot::new(1_000_000));
}

#[test]
fn test_game_ends_within_64_plies() {
    for _ in 0..20 {
        let (_, plies) = play_game(&RandomBot::new(), &RandomBot::new(), GameState::def());
        assert!(plies <= 64);
    }
    let start = GameState::def_rand();
    let obstacles = start.blocks.count_ones() as u64;
    let (_, plies) = play_game(&RandomBot::new(), &BasicBot::new(1), start);
    assert!((plies as u64) + obstacles <= 64);
}

#[test]
fn test_fight_returns() {
    let a = BasicBot::new(1);
    let b = RandomBot::new();
    let _ = bots_fight_rand(&a, &b);
}

#[test]
fn test_map_bot_string_names() {
    assert!(matches!(map_bot_string("random"), Some(BotChoice::Random(_))));
    match map_bot_string("basic3") {
        Some(BotChoice::Basic(b)) => assert_eq!(b.depth, 3),
        _ => panic!("basic3 should resolve"),
    }
    match map_bot_string("basic+7") {
        Some(BotChoice::Basic(b)) => assert_eq!(b.depth, 7),
        _ => panic!("a leading plus sign parses"),
    }
    match map_bot_string("adapt2") {
        Some(BotChoice::Adaptive(b)) => assert_eq!(b.max_compute, 64),
        _ => panic!("adapt2 should resolve"),
    }
    match map_bot_string("weak1") {
        Some(BotChoice::Weak(b)) => assert_eq!(b.level_ppm, 1_000_000),
        _ => panic!("weak1 should resolve"),
    }
    assert!(map_bot_string("basic0").is_none());
    assert!(map_bot_string("adapt0").is_none());
    assert!(map_bot_string("adapt60").is_none());
    assert!(map_bot_string("weak0").is_none());
    assert!(map_bot_string("weak2").is_none());
    assert!(map_bot_string("basic").is_none());
    assert!(map_bot_string("basicx").is_none());
    assert!(map_bot_string("basic99999999999").is_none());
    assert!(map_bot_string("bogus").is_none());
    assert!(map_bot_string("").is_none());
}

#[test]
fn test_bot_choice_decides_legal() {
    let bot = map_bot_string("adapt1").unwrap();
    assert_decides_legal(&bot);
}

#[test]
fn test_adaptive_budget_conservation() {
    // The work consumed by a budgeted search never exceeds the budget.
    for budget in [0u64, 1, 5, 32, 100, 1000, 10_000] {
        let (_, mv, consumed) = qdrust::bot::adapt::minimax(&GameState::def(), budget);
        assert!(mv.is_some());
        assert!(consumed <= budget);
    }
}

#[test]
fn test_color_mode_names() {
    assert_eq!(ColorMode::Random.name(), "random");
    assert_eq!(ColorMode::White.name(), "white");
    assert_eq!(ColorMode::Black.name(), "black");
}
