//! The executable board: a 6x7 grid of cells with the side to move and the
//! outcome, kept in step with its abstract [`Position`].

use vstd::prelude::*;

use crate::player::Player;
use crate::position::{
    columns_upto, lemma_drop_row_from, lemma_empty_wf, lemma_play, lemma_same_grid, Position,
};
use crate::{COLS, ROWS};

verus! {

/// The content of one cell of the grid.
#[derive(Debug, Clone, Copy, PartialEq, Eq, Structural)]
pub enum Cell {
    Empty,
    Occupied(Player),
}

/// A game in progress or finished.
#[derive(Debug, Clone, Copy)]
pub struct Board {
    grid: [[Cell; COLS]; ROWS],
    current_player: Player,
    game_over: bool,
    winner: Option<Player>,
}

impl View for Board {
    type V = Position;

    closed spec fn view(&self) -> Position {
        Position {
            grid: Seq::new(6, |r: int| self.grid[r]@),
            to_move: self.current_player,
            over: self.game_over,
            winner: self.winner,
        }
    }
}

impl Board {
    /// The board's position satisfies the invariant of reachable positions.
    pub open spec fn wf(&self) -> bool {
        self@.wf()
    }

    /// The grid of every board has six rows of seven cells.
    pub proof fn lemma_shaped(&self)
        ensures
            self@.shaped(),
    {
    }

    /// Creates the empty board with `Red` to move.
    pub fn new() -> (board: Board)
        ensures
            board@ == Position::empty(),
            board.wf(),
    {
        let empty = Cell::Empty;
        let empty_row = [empty, empty, empty, empty, empty, empty, empty];
        let board = Board {
            grid: [empty_row, empty_row, empty_row, empty_row, empty_row, empty_row],
            current_player: Player::Red,
            game_over: false,
            winner: None,
        };
        proof {
            let empty_grid = Position::empty().grid;
            assert forall|r: int| 0 <= r < 6 implies #[trigger] board@.grid[r] =~= empty_grid[r] by {
                assert(board.grid@[r] == empty_row);
                assert forall|c: int| 0 <= c < 7 implies board@.grid[r][c] == Cell::Empty by {
                    assert(empty_row@[c] == Cell::Empty);
                }
            }
            assert(board@.grid =~= empty_grid);
            lemma_empty_wf();
        }
        board
    }

    /// Clears the board to the empty position with `Red` to move.
    pub fn reset(&mut self)
        ensures
            final(self)@ == Position::empty(),
            final(self).wf(),
    {
        *self = Board::new();
    }

    /// Drops a piece of the side to move into `col`. Returns whether the move
    /// was legal; an illegal move changes nothing.
    pub fn make_move(&mut self, col: usize) -> (moved: bool)
        requires
            old(self).wf(),
        ensures
            moved == old(self)@.is_legal(col as int),
            final(self)@ == old(self)@.play(col as int),
            final(self).wf(),
    {
        if self.game_over || col >= COLS {
            return false;
        }
        let ghost before = self@;
        let mut row: usize = ROWS;
        while row > 0
            invariant
                row <= ROWS,
                col < COLS,
                self@ == before,
                *self == *old(self),
                before.wf(),
                !before.over,
                before.drop_row_from(col as int, row as int - 1) == before.drop_row(col as int),
            decreases row,
        {
            row = row - 1;
            if self.grid[row][col] == Cell::Empty {
                let mover = self.current_player;
                let mut cells = self.grid[row];
                cells[col] = Cell::Occupied(mover);
                self.grid[row] = cells;
                let ghost placed = before.with_piece(row as int, col as int, mover);
                proof {
                    assert(before.drop_row(col as int) == row);
                    assert(before.cell(row as int, col as int) is Empty);
                    assert(before.cell(0, col as int) is Empty);
                    assert(self@.grid =~~= placed.grid);
                    assert(self@ == placed);
                }
                if self.check_win(row, col) {
                    self.game_over = true;
                    self.winner = Some(mover);
                } else if self.is_board_full() {
                    self.game_over = true;
                    self.winner = None;
                } else {
                    self.current_player = mover.opposite();
                }
                proof {
                    assert(self@.grid =~~= placed.grid);
                    lemma_same_grid(self@, placed);
                    lemma_play(before, col as int);
                }
                return true;
            }
        }
        proof {
            assert(before.drop_row(col as int) == -1);
            lemma_drop_row_from(before, col as int, 5);
        }
        false
    }

    /// Returns whether a piece can be dropped into `col`.
    pub fn is_valid_move(&self, col: usize) -> (valid: bool)
        ensures
            valid == self@.is_legal(col as int),
    {
        if self.game_over || col >= COLS {
            return false;
        }
        self.grid[0][col] == Cell::Empty
    }

    /// Returns the legal columns in ascending order.
    pub fn get_valid_moves(&self) -> (moves: Vec<usize>)
        ensures
            moves@ == self@.legal_columns(),
    {
        let mut moves: Vec<usize> = Vec::new();
        let mut col: usize = 0;
        proof {
            assert(columns_upto(0).filter(self@.legal_pred()) =~= Seq::<usize>::empty()) by {
                reveal(Seq::filter);
            }
        }
        while col < COLS
            invariant
                col <= COLS,
                moves@ == columns_upto(col as nat).filter(self@.legal_pred()),
            decreases COLS - col,
        {
            proof {
                assert(columns_upto((col + 1) as nat) =~= columns_upto(col as nat).push(col));
                columns_upto(col as nat).lemma_filter_push(col, self@.legal_pred());
            }
            if self.is_valid_move(col) {
                moves.push(col);
            }
            col = col + 1;
        }
        moves
    }

    /// Returns whether the piece in `(row, col)` lies on a line of four of
    /// its owner. An empty cell lies on none.
    fn check_win(&self, row: usize, col: usize) -> (won: bool)
        requires
            row < ROWS,
            col < COLS,
        ensures
            won == match self@.cell(row as int, col as int) {
                Cell::Occupied(p) => self@.wins_at(row as int, col as int, p),
                Cell::Empty => false,
            },
    {
        let player = match self.grid[row][col] {
            Cell::Occupied(p) => p,
            Cell::Empty => {
                return false;
            },
        };
        proof {
            let (r, c) = (row as int, col as int);
            lemma_line_through_runs(self@, r, c, 0, 1, player);
            lemma_line_through_runs(self@, r, c, 1, 0, player);
            lemma_line_through_runs(self@, r, c, 1, 1, player);
            lemma_line_through_runs(self@, r, c, 1, -1, player);
        }
        if self.count_direction(row, col, 0, 1, player) + self.count_direction(
            row,
            col,
            0,
            -1,
            player,
        ) + 1 >= 4 {
            return true;
        }
        if self.count_direction(row, col, 1, 0, player) + self.count_direction(
            row,
            col,
            -1,
            0,
            player,
        ) + 1 >= 4 {
            return true;
        }
        if self.count_direction(row, col, 1, 1, player) + self.count_direction(
            row,
            col,
            -1,
            -1,
            player,
        ) + 1 >= 4 {
            return true;
        }
        if self.count_direction(row, col, 1, -1, player) + self.count_direction(
            row,
            col,
            -1,
            1,
            player,
        ) + 1 >= 4 {
            return true;
        }
        false
    }

    /// Counts the pieces of `player` that follow `(row, col)` without a gap
    /// in the direction `(delta_row, delta_col)`, up to the edge of the grid.
    fn count_direction(
        &self,
        row: usize,
        col: usize,
        delta_row: i32,
        delta_col: i32,
        player: Player,
    ) -> (count: usize)
        requires
            row < ROWS,
            col < COLS,
            -1 <= delta_row <= 1,
            -1 <= delta_col <= 1,
            delta_row != 0 || delta_col != 0,
        ensures
            count == self@.run(
                row + delta_row,
                col + delta_col,
                delta_row as int,
                delta_col as int,
                player,
                7,
            ),
            count <= 6,
    {
        let mut count: usize = 0;
        let mut r: i32 = row as i32 + delta_row;
        let mut c: i32 = col as i32 + delta_col;
        let ghost total = self@.run(
            row + delta_row,
            col + delta_col,
            delta_row as int,
            delta_col as int,
            player,
            7,
        );
        while r >= 0 && r < ROWS as i32 && c >= 0 && c < COLS as i32
            invariant
                row < ROWS,
                col < COLS,
                -1 <= delta_row <= 1,
                -1 <= delta_col <= 1,
                delta_row != 0 || delta_col != 0,
                count <= 6,
                delta_row == 1 ==> r == row + 1 + count,
                delta_row == -1 ==> r == row - 1 - count,
                delta_row == 0 ==> r == row,
                delta_col == 1 ==> c == col + 1 + count,
                delta_col == -1 ==> c == col - 1 - count,
                delta_col == 0 ==> c == col,
                count + self@.run(
                    r as int,
                    c as int,
                    delta_row as int,
                    delta_col as int,
                    player,
                    (7 - count) as nat,
                ) == total,
            ensures
                count == total,
                count <= 6,
            decreases 7 - count,
        {
            match self.grid[r as usize][c as usize] {
                Cell::Occupied(p) => {
                    if p == player {
                        count = count + 1;
                        r = r + delta_row;
                        c = c + delta_col;
                    } else {
                        break ;
                    }
                },
                Cell::Empty => {
                    break ;
                },
            }
        }
        count
    }

    /// Returns whether the top row has no empty cell.
    fn is_board_full(&self) -> (full: bool)
        ensures
            full == self@.top_row_full(),
    {
        let mut col: usize = 0;
        while col < COLS
            invariant
                col <= COLS,
                forall|c: int| 0 <= c < col ==> !((#[trigger] self@.cell(0, c)) is Empty),
            decreases COLS - col,
        {
            if self.grid[0][col] == Cell::Empty {
                assert(self@.cell(0, col as int) is Empty);
                return false;
            }
            col = col + 1;
        }
        true
    }

    /// Returns the content of the cell in `row` and `col`.
    pub fn get_cell(&self, row: usize, col: usize) -> (cell: Cell)
        requires
            row < ROWS,
            col < COLS,
        ensures
            cell == self@.cell(row as int, col as int),
    {
        self.grid[row][col]
    }

    /// Returns the player whose move is next.
    pub fn current_player(&self) -> (player: Player)
        ensures
            player == self@.to_move,
    {
        self.current_player
    }

    /// Returns whether the game has ended.
    pub fn is_game_over(&self) -> (over: bool)
        ensures
            over == self@.over,
    {
        self.game_over
    }

    /// Returns the winner, if the game was won.
    pub fn winner(&self) -> (winner: Option<Player>)
        ensures
            winner == self@.winner,
    {
        self.winner
    }
}

/// A run of at least one, two or three pieces is the same as owning the
/// first one, two or three cells of the line.
proof fn lemma_run_prefix(
    pos: Position,
    row: int,
    col: int,
    d_row: int,
    d_col: int,
    player: Player,
    reach: nat,
)
    requires
        reach >= 3,
    ensures
        pos.run(row, col, d_row, d_col, player, reach) >= 1 <==> pos.owns(row, col, player),
        pos.run(row, col, d_row, d_col, player, reach) >= 2 <==> pos.owns(row, col, player)
            && pos.owns(row + d_row, col + d_col, player),
        pos.run(row, col, d_row, d_col, player, reach) >= 3 <==> pos.owns(row, col, player)
            && pos.owns(row + d_row, col + d_col, player) && pos.owns(
            row + 2 * d_row,
            col + 2 * d_col,
            player,
        ),
{
    let (row1, col1) = (row + d_row, col + d_col);
    let (row2, col2) = (row + 2 * d_row, col + 2 * d_col);
    let (row3, col3) = (row + 3 * d_row, col + 3 * d_col);
    let run0 = pos.run(row, col, d_row, d_col, player, reach);
    let run1 = pos.run(row1, col1, d_row, d_col, player, (reach - 1) as nat);
    let run2 = pos.run(row2, col2, d_row, d_col, player, (reach - 2) as nat);
    let run3 = pos.run(row3, col3, d_row, d_col, player, (reach - 3) as nat);
    assert(run0 == if pos.owns(row, col, player) {
        1 + run1
    } else {
        0
    });
    assert(run1 == if pos.owns(row1, col1, player) {
        1 + run2
    } else {
        0
    }) by {
        assert(row1 + d_row == row2 && col1 + d_col == col2);
    }
    assert(run2 == if pos.owns(row2, col2, player) {
        1 + run3
    } else {
        0
    }) by {
        assert(row2 + d_row == row3 && col2 + d_col == col3);
    }
}

/// Runs of `ahead` and `behind` pieces on the two sides of a piece make a
/// line of four with it exactly when they hold three pieces between them in
/// the right places.
proof fn lemma_runs_make_four(
    ahead: nat,
    behind: nat,
    a1: bool,
    a2: bool,
    a3: bool,
    b1: bool,
    b2: bool,
    b3: bool,
)
    requires
        ahead >= 1 <==> a1,
        ahead >= 2 <==> a1 && a2,
        ahead >= 3 <==> a1 && a2 && a3,
        behind >= 1 <==> b1,
        behind >= 2 <==> b1 && b2,
        behind >= 3 <==> b1 && b2 && b3,
    ensures
        ((a1 && a2 && a3) || (b1 && a1 && a2) || (b2 && b1 && a1) || (b3 && b2 && b1)) <==> ahead
            + behind + 1 >= 4,
{
}

/// A piece lies on a line of four along an axis exactly when the runs of its
/// owner's pieces on both sides of it, and the piece itself, make four or more.
proof fn lemma_line_through_runs(
    pos: Position,
    row: int,
    col: int,
    d_row: int,
    d_col: int,
    player: Player,
)
    requires
        pos.owns(row, col, player),
    ensures
        pos.line_through(row, col, d_row, d_col, player) <==> pos.run(
            row + d_row,
            col + d_col,
            d_row,
            d_col,
            player,
            7,
        ) + pos.run(row - d_row, col - d_col, -d_row, -d_col, player, 7) + 1 >= 4,
{
    let ahead = pos.run(row + d_row, col + d_col, d_row, d_col, player, 7);
    let behind = pos.run(row - d_row, col - d_col, -d_row, -d_col, player, 7);
    let a1 = pos.owns(row + d_row, col + d_col, player);
    let a2 = pos.owns(row + 2 * d_row, col + 2 * d_col, player);
    let a3 = pos.owns(row + 3 * d_row, col + 3 * d_col, player);
    let b1 = pos.owns(row - d_row, col - d_col, player);
    let b2 = pos.owns(row - 2 * d_row, col - 2 * d_col, player);
    let b3 = pos.owns(row - 3 * d_row, col - 3 * d_col, player);
    assert((ahead >= 1 <==> a1) && (ahead >= 2 <==> a1 && a2) && (ahead >= 3 <==> a1 && a2 && a3))
        by {
        lemma_run_prefix(pos, row + d_row, col + d_col, d_row, d_col, player, 7);
        assert(row + d_row + d_row == row + 2 * d_row && col + d_col + d_col == col + 2 * d_col);
        assert(row + d_row + 2 * d_row == row + 3 * d_row && col + d_col + 2 * d_col == col + 3
            * d_col);
    }
    assert((behind >= 1 <==> b1) && (behind >= 2 <==> b1 && b2) && (behind >= 3 <==> b1 && b2
        && b3)) by {
        lemma_run_prefix(pos, row - d_row, col - d_col, -d_row, -d_col, player, 7);
        assert(row - d_row + (-d_row) == row - 2 * d_row && col - d_col + (-d_col) == col - 2
            * d_col);
        assert(row - d_row + 2 * (-d_row) == row - 3 * d_row && col - d_col + 2 * (-d_col) == col
            - 3 * d_col);
    }
    assert(pos.four_from(row, col, d_row, d_col, player) == (a1 && a2 && a3));
    assert(pos.four_from(row - d_row, col - d_col, d_row, d_col, player) == (b1 && a1 && a2)) by {
        assert(row - d_row + d_row == row && col - d_col + d_col == col);
        assert(row - d_row + 2 * d_row == row + d_row && col - d_col + 2 * d_col == col + d_col);
        assert(row - d_row + 3 * d_row == row + 2 * d_row && col - d_col + 3 * d_col == col + 2
            * d_col);
    }
    assert(pos.four_from(row - 2 * d_row, col - 2 * d_col, d_row, d_col, player) == (b2 && b1
        && a1)) by {
        assert(row - 2 * d_row + d_row == row - d_row && col - 2 * d_col + d_col == col - d_col);
        assert(row - 2 * d_row + 2 * d_row == row && col - 2 * d_col + 2 * d_col == col);
        assert(row - 2 * d_row + 3 * d_row == row + d_row && col - 2 * d_col + 3 * d_col == col
            + d_col);
    }
    assert(pos.four_from(row - 3 * d_row, col - 3 * d_col, d_row, d_col, player) == (b3 && b2
        && b1)) by {
        assert(row - 3 * d_row + d_row == row - 2 * d_row && col - 3 * d_col + d_col == col - 2
            * d_col);
        assert(row - 3 * d_row + 2 * d_row == row - d_row && col - 3 * d_col + 2 * d_col == col
            - d_col);
        assert(row - 3 * d_row + 3 * d_row == row && col - 3 * d_col + 3 * d_col == col);
    }
    lemma_runs_make_four(ahead, behind, a1, a2, a3, b1, b2, b3);
}

} // verus!
