use qdrust::qd::state::GameState;
use qdrust::qd::legalcomp::get_possible_legal_moves;

#[test]
fn test_game_state() {
    let mut state = GameState::def();
    assert_eq!(state.wqueen, 4);
    assert_eq!(state.bqueen, 59);
    assert_eq!(state.blocks, 0);
    assert!(state.is_white_turn);

    state.make_move(5);
    assert_eq!(state.wqueen, 5);
    assert_eq!(state.bqueen, 59);
    assert_eq!(state.blocks, 1 << 4);
    assert!(!state.is_white_turn);

    state.make_move(58);
    assert_eq!(state.wqueen, 5);
    assert_eq!(state.bqueen, 58);
    assert_eq!(state.blocks, (1 << 4) | (1 << 59));
    assert!(state.is_white_turn);

    state.make_move(6);
    assert_eq!(state.wqueen, 6);
    assert_eq!(state.bqueen, 58);
}

#[test]
fn test_game_result() {
    let mut state = GameState::def();
    assert_eq!(state.result(), None);

    state.make_move(3);
    assert_eq!(state.result(), None);

    state.make_move(58);
    assert_eq!(state.result(), None);

    state.make_move(2);
    assert_eq!(state.result(), None);

    state.make_move(2);
    assert_eq!(state.result(), Some(false));
}

#[test]
fn test_new_defaults() {
    let state = GameState::new(None, Some(33), None, Some(false));
    assert_eq!(state.wqueen, 4);
    assert_eq!(state.bqueen, 33);
    assert_eq!(state.blocks, 0);
    assert!(!state.is_white_turn);
}

#[test]
fn test_def_rand_valid() {
    for _ in 0..100 {
        let state = GameState::def_rand();
        assert_eq!(state.wqueen, 4);
        assert_eq!(state.bqueen, 59);
        assert!(state.is_white_turn);
        assert_eq!(state.blocks & (1 << 4), 0);
        assert_eq!(state.blocks & (1 << 59), 0);
        assert!(state.blocks.count_ones() <= 7);
    }
}

#[test]
fn test_moves_stay_legal_and_states_valid() {
    // Every square in the legal-move mask yields a state that still
    // satisfies the board invariants.
    let state = GameState::def();
    let mask = get_possible_legal_moves(&state);
    for to in 0..64u8 {
        if mask & (1u64 << to) != 0 {
            let mut child = state;
            child.make_move(to);
            assert!(child.wqueen < 64 && child.bqueen < 64);
            assert_eq!(child.blocks & (1u64 << child.wqueen), 0);
            assert_eq!(child.blocks & (1u64 << child.bqueen), 0);
            assert_eq!(child.blocks.count_ones(), state.blocks.count_ones() + 1);
        }
    }
}
