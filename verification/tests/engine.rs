use connect_four_solver::evaluation::EvalResult;
use connect_four_solver::{Board, MoveResult, Player, Solver};

fn board_after(cols: &[usize]) -> Board {
    let mut board = Board::new();
    for &col in cols {
        assert!(board.make_move(col), "move in column {} was refused", col);
    }
    board
}

fn drawn_game() -> Vec<usize> {
    let mut moves: Vec<usize> = Vec::new();
    moves.extend([0; 6]);
    moves.extend([1; 6]);
    moves.push(4);
    moves.extend([2; 6]);
    moves.extend([3; 6]);
    moves.extend([4; 5]);
    moves.extend([5; 6]);
    moves.extend([6; 6]);
    moves
}

fn hands_win(board: &Board, col: usize) -> bool {
    let mut next = *board;
    assert!(next.make_move(col));
    Solver::new().find_immediate_win(&next).is_some()
}

#[test]
fn solver_finds_winning_move_in_one() {
    let mut board = Board::new();
    // Red to move, three in a row horizontally at bottom row, winning at col 3
    // Columns indexed 0..6; place at (row 5, cols 0..2) alternating correctly
    board.make_move(0); // R
    board.make_move(0); // Y
    board.make_move(1); // R
    board.make_move(1); // Y
    board.make_move(2); // R

    let mut solver = Solver::new();
    solver.clear_cache();
    let mv = solver.find_best_move(&board, 4).expect("should have a move");
    assert_eq!(mv.column, 3);
}

#[test]
fn empty_board_at_depth_four_has_no_forced_outcome() {
    let board = Board::new();
    let mut solver = Solver::new();
    let mv = solver.find_best_move(&board, 4).expect("should have a move");
    assert!(mv.column <= 6);
    assert!(board.is_valid_move(mv.column));
    assert_eq!(mv.moves_to_win, None);
}

#[test]
fn three_in_the_bottom_row_is_completed() {
    let board = board_after(&[0, 0, 1, 1, 2, 2]);
    assert_eq!(board.current_player(), Player::Red);
    for depth in [1u8, 2, 3, 5] {
        let mut solver = Solver::new();
        let mv = solver.find_best_move(&board, depth).expect("should have a move");
        assert_eq!(mv.column, 3);
        assert_eq!(mv.moves_to_win, Some(1));
    }
}

#[test]
fn immediate_win_is_found_at_depth_zero() {
    let board = board_after(&[0, 0, 1, 1, 2, 2]);
    let mut solver = Solver::new();
    let mv = solver.find_best_move(&board, 0).expect("should have a move");
    assert_eq!(mv.column, 3);
    assert_eq!(mv.moves_to_win, Some(1));
}

#[test]
fn lowest_winning_column_is_taken() {
    // Red holds columns 2, 3, 4 of the bottom row: columns 1 and 5 both win.
    let board = board_after(&[2, 2, 3, 3, 4, 4]);
    let mut solver = Solver::new();
    let mv = solver.find_best_move(&board, 3).expect("should have a move");
    assert_eq!(mv.column, 1);
    assert_eq!(mv.moves_to_win, Some(1));
}

#[test]
fn yellow_takes_its_win() {
    let board = board_after(&[0, 6, 0, 6, 1, 6, 1]);
    assert_eq!(board.current_player(), Player::Yellow);
    let mut solver = Solver::new();
    let mv = solver.find_best_move(&board, 2).expect("should have a move");
    assert_eq!(mv.column, 6);
    assert_eq!(mv.moves_to_win, Some(1));
}

#[test]
fn single_threat_is_blocked() {
    let board = board_after(&[0, 0, 1, 1, 2]);
    assert_eq!(board.current_player(), Player::Yellow);
    for depth in [0u8, 1, 2, 4] {
        let mut solver = Solver::new();
        let mv = solver.find_best_move(&board, depth).expect("should have a move");
        assert_eq!(mv.column, 3);
        assert!(!hands_win(&board, mv.column));
    }
}

#[test]
fn forced_loss_in_two_plies_is_counted() {
    // Red holds columns 2, 3, 4 of the bottom row and threatens 1 and 5.
    let board = board_after(&[2, 0, 3, 0, 4]);
    assert_eq!(board.current_player(), Player::Yellow);
    for depth in [1u8, 2, 3, 4] {
        let mut solver = Solver::new();
        let mv = solver.find_best_move(&board, depth).expect("should have a move");
        assert!(board.is_valid_move(mv.column));
        assert_eq!(mv.moves_to_win, Some(2));
    }
}

#[test]
fn forced_outcome_is_unknown_at_depth_zero() {
    let board = board_after(&[2, 0, 3, 0, 4]);
    let mut solver = Solver::new();
    let mv = solver.find_best_move(&board, 0).expect("should have a move");
    assert!(board.is_valid_move(mv.column));
    assert_eq!(mv.moves_to_win, None);
}

#[test]
fn finished_game_has_no_best_move() {
    let board = board_after(&[0, 0, 1, 1, 2, 2, 3]);
    assert!(board.is_game_over());
    let mut solver = Solver::new();
    assert!(solver.find_best_move(&board, 4).is_none());
}

#[test]
fn drawn_board_has_no_best_move() {
    let board = board_after(&drawn_game());
    assert!(board.is_game_over());
    assert_eq!(board.winner(), None);
    let mut solver = Solver::new();
    assert!(solver.find_best_move(&board, 4).is_none());
    assert!(solver.find_best_move(&board, 0).is_none());
}

#[test]
fn last_free_cell_is_played() {
    let moves = drawn_game();
    let board = board_after(&moves[..41]);
    assert!(!board.is_game_over());
    let mut solver = Solver::new();
    let mv = solver.find_best_move(&board, 6).expect("should have a move");
    assert_eq!(mv.column, 6);
    assert_eq!(mv.moves_to_win, Some(1));
}

#[test]
fn search_does_not_change_the_board() {
    let board = board_after(&[3, 3, 2, 4]);
    let before = board;
    let mut solver = Solver::new();
    solver.find_best_move(&board, 3);
    assert_eq!(board.current_player(), before.current_player());
    assert_eq!(board.get_valid_moves(), before.get_valid_moves());
    for row in 0..6 {
        for col in 0..7 {
            assert_eq!(board.get_cell(row, col), before.get_cell(row, col));
        }
    }
}

#[test]
fn repeated_search_gives_the_same_answer() {
    let board = board_after(&[3, 3, 2, 4, 1]);
    let mut solver = Solver::new();
    let first = solver.find_best_move(&board, 4).expect("should have a move");
    let second = solver.find_best_move(&board, 4).expect("should have a move");
    assert_eq!(first.column, second.column);
    assert_eq!(first.moves_to_win, second.moves_to_win);
    let mut fresh = Solver::default();
    let third = fresh.find_best_move(&board, 4).expect("should have a move");
    assert_eq!(first.column, third.column);
    assert_eq!(first.moves_to_win, third.moves_to_win);
}

#[test]
fn cache_plays_no_part_at_depth_zero() {
    let board = board_after(&[3, 2, 3, 4]);
    let mut warm = Solver::new();
    warm.find_best_move(&board, 3);
    let answer: MoveResult = warm.find_best_move(&board, 0).expect("should have a move");
    warm.clear_cache();
    let cleared = warm.find_best_move(&board, 0).expect("should have a move");
    assert_eq!(answer.column, cleared.column);
    assert_eq!(answer.moves_to_win, cleared.moves_to_win);
}

#[test]
fn tie_break_prefers_known_outcomes() {
    let solver = Solver::new();
    assert!(solver.is_faster_win(Some(2), Some(3), true));
    assert!(!solver.is_faster_win(Some(3), Some(2), true));
    assert!(!solver.is_faster_win(Some(2), Some(2), true));
    assert!(solver.is_faster_win(Some(3), Some(2), false));
    assert!(!solver.is_faster_win(Some(2), Some(3), false));
    assert!(!solver.is_faster_win(Some(2), Some(2), false));
    assert!(solver.is_faster_win(Some(5), None, true));
    assert!(solver.is_faster_win(Some(5), None, false));
    assert!(!solver.is_faster_win(None, Some(5), true));
    assert!(!solver.is_faster_win(None, Some(5), false));
    assert!(!solver.is_faster_win(None, None, true));
    assert!(!solver.is_faster_win(None, None, false));
}

#[test]
fn moves_are_ordered_center_first() {
    let solver = Solver::new();
    let mut moves = vec![0, 1, 2, 3, 4, 5, 6];
    solver.order_moves_center_out(&mut moves);
    assert_eq!(moves, vec![3, 2, 4, 1, 5, 0, 6]);
    let mut some = vec![0, 4, 5, 6];
    solver.order_moves_center_out(&mut some);
    assert_eq!(some, vec![4, 5, 0, 6]);
    let mut tied = vec![4, 2, 2, 4];
    solver.order_moves_center_out(&mut tied);
    assert_eq!(tied, vec![4, 2, 2, 4]);
    let mut none: Vec<usize> = Vec::new();
    solver.order_moves_center_out(&mut none);
    assert!(none.is_empty());
}

#[test]
fn immediate_win_scan() {
    let solver = Solver::new();
    assert_eq!(solver.find_immediate_win(&Board::new()), None);
    assert_eq!(solver.find_immediate_win(&board_after(&[0, 0, 1, 1, 2, 2])), Some(3));
    assert_eq!(solver.find_immediate_win(&board_after(&[0, 0, 1, 1, 2])), None);
    assert_eq!(solver.find_immediate_win(&board_after(&[2, 2, 3, 3, 4, 4])), Some(1));
    assert_eq!(solver.find_immediate_win(&board_after(&[0, 0, 1, 1, 2, 2, 3])), None);
}

#[test]
fn static_score_of_the_empty_board_is_zero() {
    let solver = Solver::new();
    let eval: EvalResult = solver.evaluate_board_with_depth(&Board::new(), 3);
    assert_eq!(eval.score, 0);
    assert_eq!(eval.moves_to_outcome, None);
}

#[test]
fn static_score_of_decided_games() {
    let solver = Solver::new();
    let red = solver.evaluate_board_with_depth(&board_after(&[0, 0, 1, 1, 2, 2, 3]), 0);
    assert_eq!(red.score, 1000);
    assert_eq!(red.moves_to_outcome, Some(0));
    let yellow = solver.evaluate_board_with_depth(&board_after(&[6, 2, 6, 2, 6, 2, 0, 2]), 5);
    assert_eq!(yellow.score, -1000);
    assert_eq!(yellow.moves_to_outcome, Some(0));
    let draw = solver.evaluate_board_with_depth(&board_after(&drawn_game()), 1);
    assert_eq!(draw.score, 0);
    assert_eq!(draw.moves_to_outcome, Some(0));
}

#[test]
fn static_score_counts_windows_and_center() {
    let solver = Solver::new();
    // One red piece in the center of the bottom row: no window holds two
    // pieces, the center column holds one red piece.
    let one = solver.evaluate_board_with_depth(&board_after(&[3]), 0);
    assert_eq!(one.score, 3);
    assert_eq!(one.moves_to_outcome, None);
    // Red on 3, Yellow on top of it: the center pieces cancel out.
    let two = solver.evaluate_board_with_depth(&board_after(&[3, 3]), 0);
    assert_eq!(two.score, 0);
    // Red on columns 0 and 1 of the bottom row, Yellow on column 6 twice:
    // one horizontal window with two red pieces and two empty cells (+2),
    // one vertical window with two yellow pieces and two empty cells (-2).
    let three = solver.evaluate_board_with_depth(&board_after(&[0, 6, 1, 6]), 0);
    assert_eq!(three.score, 2 - 2);
    // A third red piece on column 2: the window of columns 0 to 3 holds
    // three red pieces (+10), that of columns 1 to 4 two (+2).
    let four = solver.evaluate_board_with_depth(&board_after(&[0, 6, 1, 6, 2]), 0);
    assert_eq!(four.score, 10 + 2 - 2);
    assert_eq!(four.moves_to_outcome, None);
}

#[test]
fn window_scores() {
    let solver = Solver::new();
    let board = board_after(&[0, 6, 1, 6, 2, 6]);
    // Bottom row: red on 0, 1, 2, column 3 empty.
    assert_eq!(solver.evaluate_window(&board, 5, 0, 0, 1), 10);
    // Columns 1, 2 red, 3, 4 empty.
    assert_eq!(solver.evaluate_window(&board, 5, 1, 0, 1), 2);
    // Columns 2 red, 3, 4, 5 empty: one piece scores nothing.
    assert_eq!(solver.evaluate_window(&board, 5, 2, 0, 1), 0);
    // Columns 3, 4, 5 empty, 6 yellow.
    assert_eq!(solver.evaluate_window(&board, 5, 3, 0, 1), 0);
    // A window that leaves the grid.
    assert_eq!(solver.evaluate_window(&board, 5, 4, 0, 1), 0);
    assert_eq!(solver.evaluate_window(&board, 3, 0, 1, 0), 0);
    assert_eq!(solver.evaluate_window(&board, 2, 2, 1, -1), 0);
    // Column 6 from row 2 down: empty, yellow, yellow, yellow.
    assert_eq!(solver.evaluate_window(&board, 2, 6, 1, 0), -10);
    // Column 6 from row 1 down: empty, empty, yellow, yellow.
    assert_eq!(solver.evaluate_window(&board, 1, 6, 1, 0), -2);
    // The diagonal from (2, 3) down to (5, 6) holds one yellow piece only.
    assert_eq!(solver.evaluate_window(&board, 2, 3, 1, 1), 0);
    // A window with pieces of both players: red on (5, 0) to (5, 2), yellow
    // on (5, 3).
    let mixed = board_after(&[0, 6, 1, 6, 2, 3]);
    assert_eq!(solver.evaluate_window(&mixed, 5, 0, 0, 1), 0);
    assert_eq!(solver.evaluate_window(&mixed, 5, 1, 0, 1), 0);
    let won = board_after(&[0, 6, 1, 6, 2, 6, 3]);
    assert_eq!(solver.evaluate_window(&won, 5, 0, 0, 1), 1000);
    let lost = board_after(&[0, 6, 1, 6, 2, 6, 0, 6]);
    assert_eq!(solver.evaluate_window(&lost, 2, 6, 1, 0), -1000);
}

#[test]
fn cache_keys_tell_positions_sides_and_depths_apart() {
    let solver = Solver::new();
    let a = board_after(&[3]);
    let b = board_after(&[2]);
    let c = board_after(&[3, 0, 2]);
    let d = board_after(&[2, 0, 3]);
    assert_eq!(solver.board_key(&a, 4), solver.board_key(&a, 4));
    assert_ne!(solver.board_key(&a, 4), solver.board_key(&a, 3));
    assert_ne!(solver.board_key(&a, 4), solver.board_key(&b, 4));
    // The same cells reached along two paths file under the same key.
    assert_eq!(solver.board_key(&c, 2), solver.board_key(&d, 2));
    assert_eq!(solver.board_key(&Board::new(), 0), 0);
    assert_eq!(solver.board_key(&Board::new(), 7), 7);
    // One red piece in the bottom right corner is the lowest digit.
    assert_eq!(solver.board_key(&board_after(&[6]), 0), (2 + 1) * 256);
    // Red in the bottom right corner, yellow to its left, red to move.
    assert_eq!(solver.board_key(&board_after(&[6, 5]), 1), (1 + 2 * 3) * 2 * 256 + 1);
}

#[test]
fn minimax_at_depth_zero_is_the_static_score() {
    let board = board_after(&[3, 2]);
    let mut solver = Solver::new();
    let leaf = solver.minimax(&board, 0, i32::MIN, i32::MAX, true);
    let eval = solver.evaluate_board_with_depth(&board, 0);
    assert_eq!(leaf.score, eval.score);
    assert_eq!(leaf.moves_to_outcome, None);
}

#[test]
fn minimax_counts_plies_to_the_end() {
    // Red to move wins with column 3.
    let board = board_after(&[0, 0, 1, 1, 2, 2]);
    let mut solver = Solver::new();
    let eval = solver.minimax(&board, 1, i32::MIN, i32::MAX, true);
    assert_eq!(eval.score, 1000);
    assert_eq!(eval.moves_to_outcome, Some(1));
    let again = solver.minimax(&board, 1, i32::MIN, i32::MAX, true);
    assert_eq!(again.score, 1000);
    assert_eq!(again.moves_to_outcome, Some(1));
}

fn mirrored(cols: &[usize]) -> Vec<usize> {
    cols.iter().map(|&col| 6 - col).collect()
}

#[test]
fn static_score_of_mirror_images_match() {
    let solver = Solver::new();
    let games: [&[usize]; 6] = [
        &[3],
        &[0, 6, 1, 6, 2],
        &[2, 2, 3, 3, 4],
        &[0, 1, 1, 2, 2, 3, 2, 3, 3, 6],
        &[5, 4, 4, 3, 0, 0, 0, 1, 6],
        &[3, 3, 3, 3, 3, 3, 2, 4, 1, 5],
    ];
    for game in games {
        let board = board_after(game);
        let mirror = board_after(&mirrored(game));
        let left = solver.evaluate_board_with_depth(&board, 0);
        let right = solver.evaluate_board_with_depth(&mirror, 0);
        assert_eq!(left.score, right.score);
        assert_eq!(left.moves_to_outcome, right.moves_to_outcome);
        assert_eq!(board.is_game_over(), mirror.is_game_over());
        assert_eq!(board.winner(), mirror.winner());
        assert_eq!(board.current_player(), mirror.current_player());
        let legal: Vec<usize> = mirror.get_valid_moves().iter().rev().map(|&c| 6 - c).collect();
        assert_eq!(board.get_valid_moves(), legal);
        for row in 0..6 {
            for col in 0..7 {
                assert_eq!(board.get_cell(row, col), mirror.get_cell(row, 6 - col));
            }
        }
    }
}

#[test]
fn answer_avoids_handing_over_a_win_where_it_can() {
    let games: [&[usize]; 6] = [
        &[0, 0, 1, 1, 2],
        &[3, 3, 4, 4],
        &[3, 2, 3, 2, 3],
        &[0, 1, 1, 2, 2, 3, 2, 3, 6],
        &[3, 3, 2, 2, 6],
        &[1, 1, 2, 2, 6, 6, 5],
    ];
    for game in games {
        let board = board_after(game);
        let finder = Solver::new();
        if finder.find_immediate_win(&board).is_some() {
            continue;
        }
        let safe_exists = board.get_valid_moves().iter().any(|&col| !hands_win(&board, col));
        for depth in [0u8, 1, 2, 3] {
            let mut solver = Solver::new();
            let mv = solver.find_best_move(&board, depth).expect("should have a move");
            assert!(board.is_valid_move(mv.column));
            if safe_exists {
                assert!(!hands_win(&board, mv.column), "game {:?} depth {}", game, depth);
            }
        }
    }
}

#[test]
fn cleared_cache_answers_like_a_new_engine() {
    let board = board_after(&[3, 2, 3, 4, 4]);
    let mut used = Solver::new();
    used.find_best_move(&board_after(&[3, 2]), 4);
    used.clear_cache();
    let cleared = used.find_best_move(&board, 3).expect("should have a move");
    let mut fresh = Solver::new();
    let new = fresh.find_best_move(&board, 3).expect("should have a move");
    assert_eq!(cleared.column, new.column);
    assert_eq!(cleared.moves_to_win, new.moves_to_win);
}

#[test]
fn ply_count_is_backed_by_a_line_of_play() {
    // Yellow cannot stop both of Red's threats: whatever it plays, a line of
    // two plies ends the game.
    let board = board_after(&[2, 0, 3, 0, 4]);
    let mut solver = Solver::new();
    let mv = solver.find_best_move(&board, 3).expect("should have a move");
    assert_eq!(mv.moves_to_win, Some(2));
    let mut next = board;
    assert!(next.make_move(mv.column));
    assert!(!next.is_game_over());
    let reply = Solver::new().find_immediate_win(&next).expect("red wins at once");
    assert!(next.make_move(reply));
    assert!(next.is_game_over());
    assert_eq!(next.winner(), Some(Player::Red));
}

#[test]
fn win_in_three_plies_is_counted() {
    // Red to move can make a double threat in the bottom row: after
    // column 3 the columns 1 and 4 (or 0 and 4) both win.
    let board = board_after(&[2, 2, 3, 3]);
    assert_eq!(board.current_player(), Player::Red);
    let mut solver = Solver::new();
    let mv = solver.find_best_move(&board, 2).expect("should have a move");
    assert!(mv.column == 1 || mv.column == 4);
    assert_eq!(mv.moves_to_win, Some(3));
}

#[test]
fn cache_of_earlier_turns_at_one_depth_does_not_change_answers() {
    for depth in [2u8, 3, 4] {
        let mut kept = Solver::new();
        let mut board = Board::new();
        for _ in 0..42 {
            if board.is_game_over() {
                break;
            }
            let with_cache = kept.find_best_move(&board, depth).expect("should have a move");
            let mut cleared = Solver::new();
            let without = cleared.find_best_move(&board, depth).expect("should have a move");
            assert_eq!(with_cache.column, without.column);
            assert_eq!(with_cache.moves_to_win, without.moves_to_win);
            assert!(board.make_move(with_cache.column));
        }
        assert!(board.is_game_over());
    }
}
