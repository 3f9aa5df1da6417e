use connect_four_solver::app::{
    GameMode, OutcomeNote, ConnectFourApp, TimerAction, TurnStatus, AI_MOVE_DELAY_MS, AI_SEARCH_DEPTH,
};
use connect_four_solver::{Cell, Player};

#[test]
fn game_starts_in_setup() {
    let game = ConnectFourApp::new();
    assert_eq!(game.game_mode(), GameMode::Setup);
    assert_eq!(game.ai_player(), None);
    assert!(!game.thinking());
    assert_eq!(game.ai_moves_to_win(), None);
    assert!(!game.board().is_game_over());
    assert_eq!(game.board().current_player(), Player::Red);
    assert_eq!(AI_MOVE_DELAY_MS, 300);
    assert_eq!(AI_SEARCH_DEPTH, 9);
    let other = ConnectFourApp::default();
    assert_eq!(other.game_mode(), GameMode::Setup);
}

#[test]
fn nothing_moves_before_the_sides_are_chosen() {
    let mut game = ConnectFourApp::new();
    assert!(!game.human_move(3, false));
    let step = game.process_ai_move_with_delay(Some(1000));
    assert_eq!(step.timer, TimerAction::Keep);
    assert!(step.played.is_none());
    assert_eq!(game.board().get_valid_moves().len(), 7);
    assert_eq!(game.board().get_cell(5, 3), Cell::Empty);
}

#[test]
fn human_first_game() {
    let mut game = ConnectFourApp::new();
    assert_eq!(game.start_game(true), TimerAction::Clear);
    assert_eq!(game.game_mode(), GameMode::Playing);
    assert_eq!(game.ai_player(), Some(Player::Yellow));
    // Not the engine's turn: the timer is cleared and nothing is played.
    let idle = game.process_ai_move_with_delay(None);
    assert_eq!(idle.timer, TimerAction::Clear);
    assert!(idle.played.is_none());
    // The human may not move while the timer runs, nor into no column.
    assert!(!game.human_move(3, true));
    assert!(!game.human_move(7, false));
    assert!(game.human_move(3, false));
    assert_eq!(game.board().get_cell(5, 3), Cell::Occupied(Player::Red));
    assert_eq!(game.board().current_player(), Player::Yellow);
    // It is the engine's turn now: the human may not move again.
    assert!(!game.human_move(2, false));
}

#[test]
fn engine_waits_for_the_delay() {
    let mut game = ConnectFourApp::new();
    assert_eq!(game.start_game(false), TimerAction::Start);
    assert_eq!(game.ai_player(), Some(Player::Red));
    let start = game.process_ai_move_with_delay(None);
    assert_eq!(start.timer, TimerAction::Start);
    assert!(start.played.is_none());
    let wait = game.process_ai_move_with_delay(Some(0));
    assert_eq!(wait.timer, TimerAction::Keep);
    assert!(wait.played.is_none());
    let still = game.process_ai_move_with_delay(Some(299));
    assert_eq!(still.timer, TimerAction::Keep);
    assert!(still.played.is_none());
    assert_eq!(game.board().get_valid_moves().len(), 7);
    assert_eq!(game.board().current_player(), Player::Red);
}

#[test]
fn engine_moves_after_the_delay() {
    let mut game = ConnectFourApp::new();
    game.start_game(true);
    assert!(game.human_move(6, false));
    let before = *game.board();
    let step = game.process_ai_move_with_delay(Some(300));
    assert_eq!(step.timer, TimerAction::Clear);
    let played = step.played.expect("the engine moves");
    assert!(before.is_valid_move(played.column));
    let mut expected = before;
    assert!(expected.make_move(played.column));
    for row in 0..6 {
        for col in 0..7 {
            assert_eq!(game.board().get_cell(row, col), expected.get_cell(row, col));
        }
    }
    assert!(!game.thinking());
    assert_eq!(game.board().current_player(), Player::Red);
    assert_eq!(game.ai_moves_to_win(), played.moves_to_win);
    // The engine has moved: another step clears the timer and plays nothing.
    let idle = game.process_ai_move_with_delay(Some(1000));
    assert_eq!(idle.timer, TimerAction::Clear);
    assert!(idle.played.is_none());
}

#[test]
fn reset_and_new_game() {
    let mut game = ConnectFourApp::new();
    game.start_game(true);
    assert!(game.human_move(0, false));
    game.reset_board();
    assert_eq!(game.board().get_cell(5, 0), Cell::Empty);
    assert_eq!(game.ai_player(), Some(Player::Yellow));
    assert_eq!(game.game_mode(), GameMode::Playing);
    assert_eq!(game.ai_moves_to_win(), None);
    assert!(game.human_move(1, false));
    game.new_game();
    assert_eq!(game.game_mode(), GameMode::Setup);
    assert_eq!(game.ai_player(), None);
    assert_eq!(game.board().get_cell(5, 1), Cell::Empty);
    assert_eq!(game.board().current_player(), Player::Red);
}

#[test]
fn status_follows_the_turn() {
    let mut game = ConnectFourApp::new();
    assert_eq!(game.status(), TurnStatus::Unassigned(Player::Red));
    assert_eq!(game.outcome_note(), OutcomeNote::Silent);
    assert!(!game.shows_thinking(true));
    assert!(!game.wants_repaint(false));
    assert!(game.wants_repaint(true));
    game.start_game(true);
    assert_eq!(game.status(), TurnStatus::HumanTurn(Player::Red));
    assert!(!game.shows_thinking(true));
    assert!(game.human_move(0, false));
    assert_eq!(game.status(), TurnStatus::AiTurn(Player::Yellow));
    assert!(game.shows_thinking(true));
    assert!(!game.shows_thinking(false));
    assert_eq!(game.outcome_note(), OutcomeNote::Silent);
}

#[test]
fn engine_announces_the_outcome_it_found() {
    let mut game = ConnectFourApp::new();
    game.start_game(false);
    // The engine plays Red; the human answers with the lowest legal column
    // until the game ends.
    let mut announced = None;
    for _ in 0..21 {
        let step = game.process_ai_move_with_delay(Some(AI_MOVE_DELAY_MS));
        let played = step.played.expect("the engine moves");
        if game.board().is_game_over() {
            announced = played.moves_to_win;
            break;
        }
        match played.moves_to_win {
            Some(moves) => assert_eq!(game.outcome_note(), OutcomeNote::HumanToMove(moves)),
            None => assert_eq!(game.outcome_note(), OutcomeNote::Silent),
        }
        let reply = game.board().get_valid_moves()[0];
        assert!(game.human_move(reply, false));
        assert_eq!(game.outcome_note(), OutcomeNote::Silent);
        if game.board().is_game_over() {
            break;
        }
    }
    assert!(game.board().is_game_over());
    assert_eq!(game.outcome_note(), OutcomeNote::Silent);
    if game.board().winner() == Some(Player::Red) {
        assert_eq!(game.status(), TurnStatus::Won(Player::Red));
        assert_eq!(announced, Some(1));
    }
    assert!(game.wants_repaint(false));
}
