use rand::Rng;
use qdrust::qd::state::GameState;
use qdrust::qd::utils::{vbb, vgs, bbv, gsv, gsvd};

#[test]
fn test_vbb_1() {
    let board = "
            ........
            ........
            ........
            ........
            ........
            ........
            ........
            ....#...
        ";
    assert_eq!(vbb(board), 1u64 << 4);
}

#[test]
fn test_vbb_2() {
    let board = "
            ........
            ........
            ........
            .......#
            #.......
            ........
            ........
            ........
        ";
    assert_eq!(vbb(board), (1u64 << (3 * 8)) + (1u64 << (4 * 8 + 7)));
}

#[test]
#[should_panic]
fn test_vbb_3() {
    let board = "
        some gibberish which
        is definitely not a board
        ";
    vbb(board);
}

#[test]
fn test_vgs_1() {
    let state_str = "
            ...B....
            ........
            ........
            ........
            ........
            ........
            ........
            ....W...
        ";
    let game_state = vgs(state_str, true);
    assert_eq!(game_state, GameState::def());
}

#[test]
#[should_panic]
fn test_vgs_2() {
    let state_str = "
            ...B....
            ........
            ........
            ........
            ........
            ........
            ........
            ....W..
        ";
    vgs(state_str, true);
}

#[test]
fn test_bbv() {
    let mut rng = rand::thread_rng();
    for _i in 0..100 {
        let test_val: u64 = rng.gen();
        assert_eq!(test_val, vbb(&bbv(test_val)));
    }
}

#[test]
fn test_gsv() {
    let mut rng = rand::thread_rng();
    for _i in 0..100 {
        let wqueen: u8 = rng.gen_range(0..64);
        let bqueen: u8 = rng.gen_range(0..64);
        if wqueen == bqueen {
            continue;
        }
        let blocks: u64 = rng.gen();
        let blocks: u64 = blocks & (!(1u64 << wqueen)) & (!(1u64 << bqueen));
        let is_white_turn: bool = rng.gen();
        let test_state: GameState =
            GameState::new(Some(wqueen), Some(bqueen), Some(blocks), Some(is_white_turn));
        assert_eq!(test_state, vgs(&gsv(&test_state), test_state.is_white_turn));
    }
}

#[test]
fn test_bbv_exact_text() {
    let text = bbv(1u64 << 4);
    let expected = "........\n........\n........\n........\n........\n........\n........\n....#...";
    assert_eq!(text, expected);
}

#[test]
fn test_gsv_exact_text() {
    let text = gsv(&GameState::def());
    let expected = "...B....\n........\n........\n........\n........\n........\n........\n....W...";
    assert_eq!(text, expected);
}

#[test]
fn test_gsvd_exact_text() {
    let text = gsvd(&GameState::def());
    let expected = "...B.... 8\n........ 7\n........ 6\n........ 5\n........ 4\n........ 3\n........ 2\n....W... 1\nabcdefgh";
    assert_eq!(text, expected);
}
