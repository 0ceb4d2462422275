use qdrust::bot::base::Bot;
use qdrust::bot::random::RandomBot;
use qdrust::qd::state::GameState;

#[test]
fn test_always_legal() {
    for _ in 0..1000 {
        let mut state = GameState::def();
        let bot = RandomBot::new();

        while let None = state.result() {
            let move_to = bot.decide(state);
            state.make_move(move_to);
        }

        assert!(state.result().is_some());
    }
}
