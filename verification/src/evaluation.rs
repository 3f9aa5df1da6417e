//! Static evaluation: the score of a position without looking ahead.
//!
//! Scores are from `Red`'s point of view: `Red` seeks high scores, `Yellow`
//! low ones.

use vstd::prelude::*;

use crate::board::{Board, Cell};
use crate::player::Player;
use crate::position::{in_grid, Position};
use crate::solver::Solver;
use crate::{COLS, ROWS};

verus! {

/// The score of a won game, for `Red`; its negative is the score of a game
/// won by `Yellow`. It is also the score of a window of four `Red` pieces.
pub const WIN_SCORE: i32 = 1000;

/// No score that the evaluation or the search produces is further from zero.
pub const SCORE_LIMIT: i32 = 168_018;

/// What the search knows of a position.
#[derive(Debug, Clone, Copy)]
pub struct EvalResult {
    /// The score, from `Red`'s point of view.
    pub score: i32,
    /// The number of plies to the end of the game along the line of play that
    /// gave the score, where that line ends the game; `None` where the score
    /// is an estimate.
    pub moves_to_outcome: Option<u8>,
}

/// One if `cell` holds a piece of `player`, else zero.
pub open spec fn tally(cell: Cell, player: Player) -> int {
    if cell == Cell::Occupied(player) {
        1
    } else {
        0
    }
}

/// The worth of a window of four cells that holds `red` pieces of `Red` and
/// `yellow` pieces of `Yellow`. A window with pieces of both players is
/// worth nothing; otherwise four, three and two pieces of one player are
/// worth 1000, 10 and 2 to that player.
pub open spec fn window_worth(red: int, yellow: int) -> int {
    if red > 0 && yellow > 0 {
        0
    } else if red == 4 {
        1000
    } else if yellow == 4 {
        -1000
    } else if red == 3 {
        10
    } else if yellow == 3 {
        -10
    } else if red == 2 {
        2
    } else if yellow == 2 {
        -2
    } else {
        0
    }
}

impl Position {
    /// The number of pieces of `player` in the `n` cells that start at
    /// `(row, col)` and proceed by `(d_row, d_col)`.
    pub open spec fn line_count(
        self,
        row: int,
        col: int,
        d_row: int,
        d_col: int,
        player: Player,
        n: nat,
    ) -> int
        decreases n,
    {
        if n == 0 {
            0
        } else {
            tally(self.cell(row, col), player) + self.line_count(
                row + d_row,
                col + d_col,
                d_row,
                d_col,
                player,
                (n - 1) as nat,
            )
        }
    }

    /// The score of the window of four cells that starts at `(row, col)` and
    /// proceeds by `(d_row, d_col)`; zero if the window leaves the grid.
    pub open spec fn window_score(self, row: int, col: int, d_row: int, d_col: int) -> int {
        if in_grid(row, col) && in_grid(row + 3 * d_row, col + 3 * d_col) {
            window_worth(
                self.line_count(row, col, d_row, d_col, Player::Red, 4),
                self.line_count(row, col, d_row, d_col, Player::Yellow, 4),
            )
        } else {
            0
        }
    }

    /// The scores of the four windows that start at `(row, col)`: to the
    /// right, downwards, and along both downward diagonals.
    pub open spec fn cell_score(self, row: int, col: int) -> int {
        self.window_score(row, col, 0, 1) + self.window_score(row, col, 1, 0) + self.window_score(
            row,
            col,
            1,
            1,
        ) + self.window_score(row, col, 1, -1)
    }

    /// The sum of `cell_score` over the first `n` cells of `row`.
    pub open spec fn row_score(self, row: int, n: nat) -> int
        decreases n,
    {
        if n == 0 {
            0
        } else {
            self.row_score(row, (n - 1) as nat) + self.cell_score(row, n - 1)
        }
    }

    /// The sum of `cell_score` over the first `n` rows: with `n` = 6 the sum
    /// of the scores of all windows of the grid.
    pub open spec fn rows_score(self, n: nat) -> int
        decreases n,
    {
        if n == 0 {
            0
        } else {
            self.rows_score((n - 1) as nat) + self.row_score(n - 1, 7)
        }
    }

    /// The number of pieces of `player` in the first `n` rows of the center
    /// column.
    pub open spec fn center_count(self, player: Player, n: nat) -> int
        decreases n,
    {
        if n == 0 {
            0
        } else {
            self.center_count(player, (n - 1) as nat) + tally(self.cell(n - 1, 3), player)
        }
    }

    /// The estimate for a game that is not over: the scores of all windows,
    /// and 3 for each `Red` piece in the center column, -3 for each `Yellow`
    /// piece there.
    pub open spec fn heuristic(self) -> int {
        self.rows_score(6) + 3 * self.center_count(Player::Red, 6) - 3 * self.center_count(
            Player::Yellow,
            6,
        )
    }

    /// The score of the position without search. A won game scores 1000 for
    /// `Red` and -1000 for `Yellow`, a drawn game 0, each with zero plies to
    /// the outcome; a game that is not over scores its estimate, with no
    /// known outcome.
    pub open spec fn static_score(self) -> int {
        match self.winner {
            Some(Player::Red) => 1000,
            Some(Player::Yellow) => -1000,
            None => if self.over {
                0
            } else {
                self.heuristic()
            },
        }
    }

    /// Whether the static evaluation knows the outcome of the game.
    pub open spec fn decided(self) -> bool {
        self.winner is Some || self.over
    }
}

/// Whether `result` is the static evaluation of `pos`.
pub open spec fn is_static_eval(result: EvalResult, pos: Position) -> bool {
    &&& result.score == pos.static_score()
    &&& result.moves_to_outcome == if pos.decided() {
        Some(0u8)
    } else {
        None
    }
}

/// A window is worth between -1000 and 1000.
pub proof fn lemma_window_score_bound(pos: Position, row: int, col: int, d_row: int, d_col: int)
    ensures
        -1000 <= pos.window_score(row, col, d_row, d_col) <= 1000,
{
}

/// The windows of the first `n` cells of a row are worth between -4000 `n`
/// and 4000 `n`.
pub proof fn lemma_row_score_bound(pos: Position, row: int, n: nat)
    ensures
        -4000 * n <= pos.row_score(row, n) <= 4000 * n,
    decreases n,
{
    if n > 0 {
        lemma_row_score_bound(pos, row, (n - 1) as nat);
    }
}

/// The windows of the first `n` rows are worth between -28000 `n` and
/// 28000 `n`.
pub proof fn lemma_rows_score_bound(pos: Position, n: nat)
    ensures
        -28000 * n <= pos.rows_score(n) <= 28000 * n,
    decreases n,
{
    if n > 0 {
        lemma_rows_score_bound(pos, (n - 1) as nat);
        lemma_row_score_bound(pos, n - 1, 7);
    }
}

/// The center column holds between 0 and `n` pieces of a player in its
/// first `n` rows.
pub proof fn lemma_center_count_bound(pos: Position, player: Player, n: nat)
    ensures
        0 <= pos.center_count(player, n) <= n,
    decreases n,
{
    if n > 0 {
        lemma_center_count_bound(pos, player, (n - 1) as nat);
    }
}

/// The static score of every position lies within the score limit.
pub proof fn lemma_static_score_bound(pos: Position)
    ensures
        -SCORE_LIMIT <= pos.static_score() <= SCORE_LIMIT,
{
    lemma_rows_score_bound(pos, 6);
    lemma_center_count_bound(pos, Player::Red, 6);
    lemma_center_count_bound(pos, Player::Yellow, 6);
}

impl Solver {
    /// Scores `board` without search. The depth that is left plays no part.
    pub fn evaluate_board_with_depth(&self, board: &Board, _depth: u8) -> (result: EvalResult)
        ensures
            is_static_eval(result, board@),
            -SCORE_LIMIT <= result.score <= SCORE_LIMIT,
    {
        proof {
            lemma_static_score_bound(board@);
        }
        if let Some(winner) = board.winner() {
            return match winner {
                Player::Red => EvalResult { score: 1000, moves_to_outcome: Some(0) },
                Player::Yellow => EvalResult { score: -1000, moves_to_outcome: Some(0) },
            };
        }
        if board.is_game_over() {
            return EvalResult { score: 0, moves_to_outcome: Some(0) };
        }
        let mut score: i32 = 0;
        let mut row: usize = 0;
        while row < ROWS
            invariant
                row <= ROWS,
                score == board@.rows_score(row as nat),
            decreases ROWS - row,
        {
            let mut col: usize = 0;
            while col < COLS
                invariant
                    row < ROWS,
                    col <= COLS,
                    score == board@.rows_score(row as nat) + board@.row_score(row as int, col as nat),
                decreases COLS - col,
            {
                proof {
                    lemma_rows_score_bound(board@, row as nat);
                    lemma_row_score_bound(board@, row as int, col as nat);
                    lemma_window_score_bound(board@, row as int, col as int, 0, 1);
                    lemma_window_score_bound(board@, row as int, col as int, 1, 0);
                    lemma_window_score_bound(board@, row as int, col as int, 1, 1);
                    lemma_window_score_bound(board@, row as int, col as int, 1, -1);
                }
                score = score + self.evaluate_window(board, row, col, 0, 1);
                score = score + self.evaluate_window(board, row, col, 1, 0);
                score = score + self.evaluate_window(board, row, col, 1, 1);
                score = score + self.evaluate_window(board, row, col, 1, -1);
                col = col + 1;
            }
            row = row + 1;
        }
        let center_col: usize = COLS / 2;
        let mut red_center: i32 = 0;
        let mut yellow_center: i32 = 0;
        let mut row: usize = 0;
        while row < ROWS
            invariant
                row <= ROWS,
                center_col == 3,
                red_center == board@.center_count(Player::Red, row as nat),
                yellow_center == board@.center_count(Player::Yellow, row as nat),
            decreases ROWS - row,
        {
            proof {
                lemma_center_count_bound(board@, Player::Red, row as nat);
                lemma_center_count_bound(board@, Player::Yellow, row as nat);
            }
            match board.get_cell(row, center_col) {
                Cell::Occupied(Player::Red) => {
                    red_center = red_center + 1;
                },
                Cell::Occupied(Player::Yellow) => {
                    yellow_center = yellow_center + 1;
                },
                Cell::Empty => {},
            }
            row = row + 1;
        }
        proof {
            lemma_rows_score_bound(board@, 6);
            lemma_center_count_bound(board@, Player::Red, 6);
            lemma_center_count_bound(board@, Player::Yellow, 6);
        }
        score = score + (3 * red_center - 3 * yellow_center);
        EvalResult { score, moves_to_outcome: None }
    }

    /// Scores the window of four cells that starts at `(row, col)` and
    /// proceeds by `(delta_row, delta_col)`.
    pub fn evaluate_window(
        &self,
        board: &Board,
        row: usize,
        col: usize,
        delta_row: i32,
        delta_col: i32,
    ) -> (score: i32)
        requires
            row < ROWS,
            col < COLS,
            -1 <= delta_row <= 1,
            -1 <= delta_col <= 1,
        ensures
            score == board@.window_score(row as int, col as int, delta_row as int, delta_col as int),
    {
        let mut red_count: i32 = 0;
        let mut yellow_count: i32 = 0;
        let mut empty_count: i32 = 0;
        let mut r: i32 = row as i32;
        let mut c: i32 = col as i32;
        let ghost reds = board@.line_count(
            row as int,
            col as int,
            delta_row as int,
            delta_col as int,
            Player::Red,
            4,
        );
        let ghost yellows = board@.line_count(
            row as int,
            col as int,
            delta_row as int,
            delta_col as int,
            Player::Yellow,
            4,
        );
        let mut i: i32 = 0;
        while i < 4
            invariant
                0 <= i <= 4,
                row < ROWS,
                col < COLS,
                -1 <= delta_row <= 1,
                -1 <= delta_col <= 1,
                delta_row == 1 ==> r == row + i,
                delta_row == -1 ==> r == row - i,
                delta_row == 0 ==> r == row,
                delta_col == 1 ==> c == col + i,
                delta_col == -1 ==> c == col - i,
                delta_col == 0 ==> c == col,
                0 <= red_count,
                0 <= yellow_count,
                0 <= empty_count,
                red_count + yellow_count + empty_count == i,
                i > 0 ==> in_grid(r - delta_row, c - delta_col),
                red_count + board@.line_count(
                    r as int,
                    c as int,
                    delta_row as int,
                    delta_col as int,
                    Player::Red,
                    (4 - i) as nat,
                ) == reds,
                yellow_count + board@.line_count(
                    r as int,
                    c as int,
                    delta_row as int,
                    delta_col as int,
                    Player::Yellow,
                    (4 - i) as nat,
                ) == yellows,
            decreases 4 - i,
        {
            if r < 0 || r >= ROWS as i32 || c < 0 || c >= COLS as i32 {
                return 0;
            }
            match board.get_cell(r as usize, c as usize) {
                Cell::Occupied(Player::Red) => {
                    red_count = red_count + 1;
                },
                Cell::Occupied(Player::Yellow) => {
                    yellow_count = yellow_count + 1;
                },
                Cell::Empty => {
                    empty_count = empty_count + 1;
                },
            }
            r = r + delta_row;
            c = c + delta_col;
            i = i + 1;
        }
        if red_count > 0 && yellow_count > 0 {
            return 0;
        }
        if red_count == 4 {
            return 1000;
        } else if yellow_count == 4 {
            return -1000;
        } else if red_count == 3 && empty_count == 1 {
            return 10;
        } else if yellow_count == 3 && empty_count == 1 {
            return -10;
        } else if red_count == 2 && empty_count == 2 {
            return 2;
        } else if yellow_count == 2 && empty_count == 2 {
            return -2;
        }
        0
    }
}

} // verus!
