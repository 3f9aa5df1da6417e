use connect_four_solver::{Board, Cell, Player, COLS, ROWS};

fn play(board: &mut Board, cols: &[usize]) {
    for &col in cols {
        assert!(board.make_move(col), "move in column {} was refused", col);
    }
}

fn drawn_game() -> Vec<usize> {
    let mut moves: Vec<usize> = Vec::new();
    moves.extend([0; 6]);
    moves.extend([1; 6]);
    moves.push(4);
    moves.extend([2; 6]);
    moves.extend([3; 6]);
    moves.extend([4; 5]);
    moves.extend([5; 6]);
    moves.extend([6; 6]);
    moves
}

#[test]
fn player_opposite_is_an_involution() {
    assert_eq!(Player::Red.opposite(), Player::Yellow);
    assert_eq!(Player::Yellow.opposite(), Player::Red);
    assert_eq!(Player::Red.opposite().opposite(), Player::Red);
    assert_eq!(Player::Yellow.opposite().opposite(), Player::Yellow);
}

#[test]
fn player_names() {
    assert_eq!(Player::Red.to_string(), "Red");
    assert_eq!(Player::Yellow.to_string(), "Yellow");
}

#[test]
fn new_board_is_empty_with_red_to_move() {
    let board = Board::new();
    for row in 0..ROWS {
        for col in 0..COLS {
            assert_eq!(board.get_cell(row, col), Cell::Empty);
        }
    }
    assert_eq!(board.current_player(), Player::Red);
    assert!(!board.is_game_over());
    assert_eq!(board.winner(), None);
    assert_eq!(board.get_valid_moves(), vec![0, 1, 2, 3, 4, 5, 6]);
}

#[test]
fn piece_falls_to_the_lowest_empty_cell() {
    let mut board = Board::new();
    assert!(board.make_move(3));
    assert_eq!(board.get_cell(ROWS - 1, 3), Cell::Occupied(Player::Red));
    assert_eq!(board.current_player(), Player::Yellow);
    assert!(board.make_move(3));
    assert_eq!(board.get_cell(ROWS - 2, 3), Cell::Occupied(Player::Yellow));
    assert_eq!(board.get_cell(ROWS - 3, 3), Cell::Empty);
    assert_eq!(board.current_player(), Player::Red);
}

#[test]
fn move_out_of_range_is_refused() {
    let mut board = Board::new();
    assert!(!board.is_valid_move(COLS));
    assert!(!board.make_move(COLS));
    assert!(!board.make_move(usize::MAX));
    assert_eq!(board.current_player(), Player::Red);
    assert_eq!(board.get_valid_moves().len(), 7);
}

#[test]
fn full_column_is_refused() {
    let mut board = Board::new();
    play(&mut board, &[0, 0, 0, 0, 0, 0]);
    assert!(!board.is_valid_move(0));
    assert!(!board.make_move(0));
    assert_eq!(board.current_player(), Player::Red);
    assert_eq!(board.get_valid_moves(), vec![1, 2, 3, 4, 5, 6]);
    assert_eq!(board.get_cell(0, 0), Cell::Occupied(Player::Yellow));
}

#[test]
fn horizontal_four_wins() {
    let mut board = Board::new();
    play(&mut board, &[0, 0, 1, 1, 2, 2]);
    assert!(!board.is_game_over());
    assert!(board.make_move(3));
    assert!(board.is_game_over());
    assert_eq!(board.winner(), Some(Player::Red));
    assert_eq!(board.current_player(), Player::Red);
}

#[test]
fn horizontal_four_closed_in_the_middle_wins() {
    let mut board = Board::new();
    play(&mut board, &[0, 0, 1, 1, 3, 3]);
    assert!(board.make_move(2));
    assert!(board.is_game_over());
    assert_eq!(board.winner(), Some(Player::Red));
}

#[test]
fn vertical_four_wins() {
    let mut board = Board::new();
    play(&mut board, &[6, 2, 6, 2, 6, 2, 0]);
    assert!(!board.is_game_over());
    assert!(board.make_move(2));
    assert!(board.is_game_over());
    assert_eq!(board.winner(), Some(Player::Yellow));
}

#[test]
fn rising_diagonal_four_wins() {
    let mut board = Board::new();
    play(&mut board, &[0, 1, 1, 2, 2, 3, 2, 3, 3, 6]);
    assert!(!board.is_game_over());
    assert!(board.make_move(3));
    assert!(board.is_game_over());
    assert_eq!(board.winner(), Some(Player::Red));
}

#[test]
fn falling_diagonal_four_wins() {
    let mut board = Board::new();
    play(&mut board, &[6, 5, 5, 4, 4, 3, 4, 3, 3, 0]);
    assert!(!board.is_game_over());
    assert!(board.make_move(3));
    assert!(board.is_game_over());
    assert_eq!(board.winner(), Some(Player::Red));
}

#[test]
fn three_in_a_row_does_not_win() {
    let mut board = Board::new();
    play(&mut board, &[0, 0, 1, 1, 2]);
    assert!(!board.is_game_over());
    assert_eq!(board.winner(), None);
    assert_eq!(board.current_player(), Player::Yellow);
}

#[test]
fn finished_game_refuses_moves() {
    let mut board = Board::new();
    play(&mut board, &[0, 0, 1, 1, 2, 2, 3]);
    assert!(board.is_game_over());
    let before = board;
    for col in 0..COLS {
        assert!(!board.is_valid_move(col));
        assert!(!board.make_move(col));
    }
    assert!(board.get_valid_moves().is_empty());
    assert_eq!(board.current_player(), before.current_player());
    for row in 0..ROWS {
        for col in 0..COLS {
            assert_eq!(board.get_cell(row, col), before.get_cell(row, col));
        }
    }
}

#[test]
fn full_board_without_a_line_is_a_draw() {
    let mut board = Board::new();
    let moves = drawn_game();
    assert_eq!(moves.len(), 42);
    for (n, &col) in moves.iter().enumerate() {
        assert!(!board.is_game_over(), "game ended before move {}", n);
        assert!(board.make_move(col));
    }
    assert!(board.is_game_over());
    assert_eq!(board.winner(), None);
    assert!(board.get_valid_moves().is_empty());
    for row in 0..ROWS {
        for col in 0..COLS {
            assert_ne!(board.get_cell(row, col), Cell::Empty);
        }
    }
}

#[test]
fn reset_gives_the_empty_board() {
    let mut board = Board::new();
    play(&mut board, &[0, 0, 1, 1, 2, 2, 3]);
    board.reset();
    assert!(!board.is_game_over());
    assert_eq!(board.winner(), None);
    assert_eq!(board.current_player(), Player::Red);
    assert_eq!(board.get_valid_moves(), vec![0, 1, 2, 3, 4, 5, 6]);
    for row in 0..ROWS {
        for col in 0..COLS {
            assert_eq!(board.get_cell(row, col), Cell::Empty);
        }
    }
}

#[test]
fn copy_of_a_board_is_independent() {
    let mut board = Board::new();
    play(&mut board, &[3]);
    let copy = board;
    play(&mut board, &[3]);
    assert_eq!(copy.get_cell(ROWS - 2, 3), Cell::Empty);
    assert_eq!(board.get_cell(ROWS - 2, 3), Cell::Occupied(Player::Yellow));
}
