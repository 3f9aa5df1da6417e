//! The game as mathematics: a position is a grid of cells, the side to move
//! and the outcome so far. Every contract of the executable board and of the
//! search engine is stated over the functions of this module.

use vstd::prelude::*;

use crate::board::Cell;
use crate::player::Player;

verus! {

/// The abstract state of a game.
pub struct Position {
    /// The rows of the grid from top (row 0) to bottom, each a sequence of
    /// cells from left (column 0) to right.
    pub grid: Seq<Seq<Cell>>,
    /// The player whose move is next.
    pub to_move: Player,
    /// Whether the game has ended, by a win or by a full board.
    pub over: bool,
    /// The player who completed four in a row, if any.
    pub winner: Option<Player>,
}

/// Whether `(row, col)` names a cell of the grid.
pub open spec fn in_grid(row: int, col: int) -> bool {
    0 <= row < 6 && 0 <= col < 7
}

/// The columns `0, 1, .., n - 1` in ascending order.
pub open spec fn columns_upto(n: nat) -> Seq<usize> {
    Seq::new(n, |c: int| c as usize)
}

impl Position {
    /// The position before the first move.
    pub open spec fn empty() -> Position {
        Position {
            grid: Seq::new(6, |r: int| Seq::new(7, |c: int| Cell::Empty)),
            to_move: Player::Red,
            over: false,
            winner: None,
        }
    }

    /// The grid has six rows of seven cells.
    pub open spec fn shaped(self) -> bool {
        &&& self.grid.len() == 6
        &&& forall|r: int| 0 <= r < 6 ==> (#[trigger] self.grid[r]).len() == 7
    }

    /// The content of one cell.
    pub open spec fn cell(self, row: int, col: int) -> Cell {
        self.grid[row][col]
    }

    /// Whether `(row, col)` is a cell of the grid that holds a piece of `player`.
    pub open spec fn owns(self, row: int, col: int, player: Player) -> bool {
        in_grid(row, col) && self.cell(row, col) == Cell::Occupied(player)
    }

    /// Pieces rest on the bottom or on other pieces: above an empty cell every
    /// cell of the column is empty.
    pub open spec fn stacked(self) -> bool {
        forall|upper: int, lower: int, col: int|
            0 <= upper < lower < 6 && 0 <= col < 7 && (#[trigger] self.cell(lower, col)) is Empty
                ==> (#[trigger] self.cell(upper, col)) is Empty
    }

    /// No cell of the top row is empty, so no column takes another piece.
    pub open spec fn top_row_full(self) -> bool {
        forall|col: int| 0 <= col < 7 ==> !((#[trigger] self.cell(0, col)) is Empty)
    }

    /// Some cell lies on a line of four pieces of `player`.
    pub open spec fn has_line(self, player: Player) -> bool {
        exists|row: int, col: int| #[trigger] self.wins_at(row, col, player)
    }

    /// The invariant of every position that play can reach: the grid has its
    /// shape and is stacked; a player has a line of four exactly when that
    /// player is the winner; a winner implies that the game is over; a game
    /// that is over without a winner has a full board; and a game that is not
    /// over has room for a move.
    pub open spec fn wf(self) -> bool {
        &&& self.shaped()
        &&& self.stacked()
        &&& forall|player: Player| #[trigger] self.has_line(player) <==> self.winner == Some(player)
        &&& self.winner is Some ==> self.over
        &&& self.over && self.winner is None ==> self.top_row_full()
        &&& !self.over ==> !self.top_row_full()
    }

    /// A move in `col` is legal while the game runs and the column's top cell
    /// is empty.
    pub open spec fn is_legal(self, col: int) -> bool {
        !self.over && 0 <= col < 7 && self.cell(0, col) is Empty
    }

    /// The test that picks the legal columns out of a sequence of columns.
    pub open spec fn legal_pred(self) -> spec_fn(usize) -> bool {
        |c: usize| self.is_legal(c as int)
    }

    /// The legal columns in ascending order.
    pub open spec fn legal_columns(self) -> Seq<usize> {
        columns_upto(7).filter(self.legal_pred())
    }

    /// The lowest empty row of `col` at or above `row`, or -1 if there is none.
    pub open spec fn drop_row_from(self, col: int, row: int) -> int
        decreases row + 1,
    {
        if row < 0 {
            -1
        } else if self.cell(row, col) is Empty {
            row
        } else {
            self.drop_row_from(col, row - 1)
        }
    }

    /// The row in which a piece dropped into `col` comes to rest, or -1 if the
    /// column is full.
    pub open spec fn drop_row(self, col: int) -> int {
        self.drop_row_from(col, 5)
    }

    /// The number of cells that a piece could still be dropped into: the sum
    /// of the free heights of the seven columns.
    pub open spec fn room(self) -> int {
        (self.drop_row(0) + 1) + (self.drop_row(1) + 1) + (self.drop_row(2) + 1) + (self.drop_row(
            3,
        ) + 1) + (self.drop_row(4) + 1) + (self.drop_row(5) + 1) + (self.drop_row(6) + 1)
    }

    /// The length of the unbroken run of `player`'s pieces that starts at
    /// `(row, col)` and proceeds by `(d_row, d_col)`, looking at no more than
    /// `reach` cells.
    pub open spec fn run(
        self,
        row: int,
        col: int,
        d_row: int,
        d_col: int,
        player: Player,
        reach: nat,
    ) -> nat
        decreases reach,
    {
        if reach > 0 && self.owns(row, col, player) {
            1 + self.run(row + d_row, col + d_col, d_row, d_col, player, (reach - 1) as nat)
        } else {
            0
        }
    }

    /// Four cells in a line, starting at `(row, col)` and proceeding by
    /// `(d_row, d_col)`, all hold pieces of `player`.
    pub open spec fn four_from(
        self,
        row: int,
        col: int,
        d_row: int,
        d_col: int,
        player: Player,
    ) -> bool {
        &&& self.owns(row, col, player)
        &&& self.owns(row + d_row, col + d_col, player)
        &&& self.owns(row + 2 * d_row, col + 2 * d_col, player)
        &&& self.owns(row + 3 * d_row, col + 3 * d_col, player)
    }

    /// Some line of four of `player` along `(d_row, d_col)` contains `(row, col)`.
    pub open spec fn line_through(
        self,
        row: int,
        col: int,
        d_row: int,
        d_col: int,
        player: Player,
    ) -> bool {
        ||| self.four_from(row, col, d_row, d_col, player)
        ||| self.four_from(row - d_row, col - d_col, d_row, d_col, player)
        ||| self.four_from(row - 2 * d_row, col - 2 * d_col, d_row, d_col, player)
        ||| self.four_from(row - 3 * d_row, col - 3 * d_col, d_row, d_col, player)
    }

    /// `(row, col)` lies on a horizontal, vertical or diagonal line of four
    /// pieces of `player`.
    pub open spec fn wins_at(self, row: int, col: int, player: Player) -> bool {
        ||| self.line_through(row, col, 0, 1, player)
        ||| self.line_through(row, col, 1, 0, player)
        ||| self.line_through(row, col, 1, 1, player)
        ||| self.line_through(row, col, 1, -1, player)
    }

    /// The grid with a piece of `player` in cell `(row, col)`.
    pub open spec fn with_piece(self, row: int, col: int, player: Player) -> Position {
        Position {
            grid: self.grid.update(row, self.grid[row].update(col, Cell::Occupied(player))),
            to_move: self.to_move,
            over: self.over,
            winner: self.winner,
        }
    }

    /// The position after the side to move drops a piece into `col`. An
    /// illegal move leaves the position as it is. A legal one puts the piece
    /// into the lowest empty cell of the column; if that completes a line of
    /// four, the game is over and the mover has won; if it fills the board,
    /// the game is over without a winner; otherwise the turn passes.
    pub open spec fn play(self, col: int) -> Position {
        if !self.is_legal(col) {
            self
        } else {
            let row = self.drop_row(col);
            let placed = self.with_piece(row, col, self.to_move);
            if placed.wins_at(row, col, self.to_move) {
                Position {
                    grid: placed.grid,
                    to_move: self.to_move,
                    over: true,
                    winner: Some(self.to_move),
                }
            } else if placed.top_row_full() {
                Position { grid: placed.grid, to_move: self.to_move, over: true, winner: None }
            } else {
                Position {
                    grid: placed.grid,
                    to_move: self.to_move.spec_opposite(),
                    over: false,
                    winner: self.winner,
                }
            }
        }
    }

    /// Playing `col` is legal and wins the game for the side to move.
    pub open spec fn wins_by(self, col: int) -> bool {
        &&& self.is_legal(col)
        &&& self.play(col).over
        &&& self.play(col).winner == Some(self.to_move)
    }

    /// The lowest column at or after `col` that wins at once, if any.
    pub open spec fn immediate_win_from(self, col: int) -> Option<usize>
        decreases 7 - col,
    {
        if col >= 7 || col < 0 {
            None
        } else if self.wins_by(col) {
            Some(col as usize)
        } else {
            self.immediate_win_from(col + 1)
        }
    }

    /// The lowest column with which the side to move wins at once, if any.
    pub open spec fn immediate_win(self) -> Option<usize> {
        self.immediate_win_from(0)
    }

    /// Playing `col` lets the opponent win with the reply.
    pub open spec fn hands_win(self, col: int) -> bool {
        self.play(col).immediate_win() is Some
    }
}

/// The lowest empty row found from `row` upwards is empty and has only
/// occupied cells between it and `row`; -1 means that no cell from `row`
/// upwards is empty.
pub proof fn lemma_drop_row_from(pos: Position, col: int, row: int)
    requires
        -1 <= row < 6,
    ensures
        -1 <= pos.drop_row_from(col, row) <= row,
        pos.drop_row_from(col, row) >= 0 ==> pos.cell(pos.drop_row_from(col, row), col) is Empty,
        forall|r: int|
            pos.drop_row_from(col, row) < r <= row ==> !((#[trigger] pos.cell(r, col)) is Empty),
    decreases row + 1,
{
    if row >= 0 && !(pos.cell(row, col) is Empty) {
        lemma_drop_row_from(pos, col, row - 1);
    }
}

/// A piece put into the lowest empty cell of a column keeps the grid shaped
/// and stacked.
pub proof fn lemma_with_piece_keeps_stack(pos: Position, row: int, col: int, player: Player)
    requires
        pos.shaped(),
        pos.stacked(),
        0 <= col < 7,
        0 <= row < 6,
        pos.drop_row(col) == row,
    ensures
        pos.with_piece(row, col, player).shaped(),
        pos.with_piece(row, col, player).stacked(),
{
    let placed = pos.with_piece(row, col, player);
    lemma_drop_row_from(pos, col, 5);
    assert forall|upper: int, lower: int, c: int|
        0 <= upper < lower < 6 && 0 <= c < 7 && (#[trigger] placed.cell(lower, c)) is Empty implies (
    #[trigger] placed.cell(upper, c)) is Empty by {
        assert(pos.cell(lower, c) is Empty);
        assert(pos.cell(upper, c) is Empty);
    }
}

/// What is said of the cells of a grid holds of every position with that grid.
pub proof fn lemma_same_grid(a: Position, b: Position)
    requires
        a.grid == b.grid,
    ensures
        a.shaped() == b.shaped(),
        a.stacked() == b.stacked(),
        a.top_row_full() == b.top_row_full(),
{
    assert(forall|r: int, c: int|
        #![trigger a.cell(r, c)]
        #![trigger b.cell(r, c)]
        a.cell(r, c) == b.cell(r, c));
}

/// Two columns with the same cells take a piece in the same row.
pub proof fn lemma_drop_row_same_cells(a: Position, col_a: int, b: Position, col_b: int, row: int)
    requires
        -1 <= row < 6,
        forall|r: int| 0 <= r <= row ==> a.cell(r, col_a) == b.cell(r, col_b),
    ensures
        a.drop_row_from(col_a, row) == b.drop_row_from(col_b, row),
    decreases row + 1,
{
    if row >= 0 {
        lemma_drop_row_same_cells(a, col_a, b, col_b, row - 1);
    }
}

/// Occupied cells at the bottom of a column are passed over.
pub proof fn lemma_drop_row_skip(pos: Position, col: int, from: int, to: int)
    requires
        -1 <= to <= from < 6,
        forall|r: int| to < r <= from ==> !((#[trigger] pos.cell(r, col)) is Empty),
    ensures
        pos.drop_row_from(col, from) == pos.drop_row_from(col, to),
    decreases from - to,
{
    if to < from {
        lemma_drop_row_skip(pos, col, from - 1, to);
    }
}

/// The room of a position is between 0 and 42 cells.
pub proof fn lemma_room_bounds(pos: Position)
    ensures
        0 <= pos.room() <= 42,
{
    lemma_drop_row_from(pos, 0, 5);
    lemma_drop_row_from(pos, 1, 5);
    lemma_drop_row_from(pos, 2, 5);
    lemma_drop_row_from(pos, 3, 5);
    lemma_drop_row_from(pos, 4, 5);
    lemma_drop_row_from(pos, 5, 5);
    lemma_drop_row_from(pos, 6, 5);
}

/// Positions with the same grid have the same room.
pub proof fn lemma_same_grid_room(a: Position, b: Position)
    requires
        a.grid == b.grid,
    ensures
        a.room() == b.room(),
{
    assert(forall|r: int, c: int|
        #![trigger a.cell(r, c)]
        #![trigger b.cell(r, c)]
        a.cell(r, c) == b.cell(r, c));
    lemma_drop_row_same_cells(a, 0, b, 0, 5);
    lemma_drop_row_same_cells(a, 1, b, 1, 5);
    lemma_drop_row_same_cells(a, 2, b, 2, 5);
    lemma_drop_row_same_cells(a, 3, b, 3, 5);
    lemma_drop_row_same_cells(a, 4, b, 4, 5);
    lemma_drop_row_same_cells(a, 5, b, 5, 5);
    lemma_drop_row_same_cells(a, 6, b, 6, 5);
}

/// A legal move in a reachable position finds an empty cell to land in.
pub proof fn lemma_legal_lands(pos: Position, col: int)
    requires
        pos.wf(),
        pos.is_legal(col),
    ensures
        0 <= pos.drop_row(col) < 6,
        pos.cell(pos.drop_row(col), col) is Empty,
{
    lemma_drop_row_from(pos, col, 5);
}

/// A piece put into the lowest empty cell of a column takes one cell of room
/// from that column and none from the others.
pub proof fn lemma_with_piece_room(pos: Position, col: int, player: Player)
    requires
        pos.shaped(),
        pos.stacked(),
        0 <= col < 7,
        0 <= pos.drop_row(col) < 6,
    ensures
        pos.with_piece(pos.drop_row(col), col, player).room() == pos.room() - 1,
{
    let row = pos.drop_row(col);
    let placed = pos.with_piece(row, col, player);
    lemma_drop_row_from(pos, col, 5);
    assert forall|c: int| 0 <= c < 7 && c != col implies placed.drop_row(c) == pos.drop_row(c) by {
        assert(forall|r: int| 0 <= r <= 5 ==> placed.cell(r, c) == pos.cell(r, c));
        lemma_drop_row_same_cells(placed, c, pos, c, 5);
    }
    assert(placed.drop_row(col) == row - 1) by {
        assert forall|r: int| row - 1 < r <= 5 implies !((#[trigger] placed.cell(r, col)) is Empty) by {
            if r != row {
                assert(placed.cell(r, col) == pos.cell(r, col));
            }
        }
        lemma_drop_row_skip(placed, col, 5, row - 1);
        if row >= 1 {
            assert(pos.cell(row, col) is Empty);
            assert(pos.cell(row - 1, col) is Empty);
            assert(placed.cell(row - 1, col) == pos.cell(row - 1, col));
        }
    }
}

/// Four cells in a line that hold pieces of a player after a piece was put on
/// the grid held them before, or the new piece is one of them.
pub proof fn lemma_four_from_after_piece(
    pos: Position,
    row: int,
    col: int,
    mover: Player,
    start_row: int,
    start_col: int,
    d_row: int,
    d_col: int,
    player: Player,
)
    requires
        pos.shaped(),
        in_grid(row, col),
        pos.with_piece(row, col, mover).four_from(start_row, start_col, d_row, d_col, player),
    ensures
        pos.four_from(start_row, start_col, d_row, d_col, player) || (player == mover
            && pos.with_piece(row, col, mover).line_through(row, col, d_row, d_col, player)),
{
    let placed = pos.with_piece(row, col, mover);
    assert forall|r: int, c: int| in_grid(r, c) && !(r == row && c == col) implies placed.cell(r, c)
        == pos.cell(r, c) by {}
    assert(placed.cell(row, col) == Cell::Occupied(mover));
    let hit0 = start_row == row && start_col == col;
    let hit1 = start_row + d_row == row && start_col + d_col == col;
    let hit2 = start_row + 2 * d_row == row && start_col + 2 * d_col == col;
    let hit3 = start_row + 3 * d_row == row && start_col + 3 * d_col == col;
    if hit0 {
        assert(placed.four_from(row, col, d_row, d_col, player));
    } else if hit1 {
        assert(placed.four_from(row - d_row, col - d_col, d_row, d_col, player));
    } else if hit2 {
        assert(placed.four_from(row - 2 * d_row, col - 2 * d_col, d_row, d_col, player));
    } else if hit3 {
        assert(placed.four_from(row - 3 * d_row, col - 3 * d_col, d_row, d_col, player));
    } else {
        assert(pos.owns(start_row, start_col, player));
        assert(pos.owns(start_row + d_row, start_col + d_col, player));
        assert(pos.owns(start_row + 2 * d_row, start_col + 2 * d_col, player));
        assert(pos.owns(start_row + 3 * d_row, start_col + 3 * d_col, player));
    }
}

/// A line of four along one axis after a piece was put on the grid was there
/// before, or passes through the new piece.
pub proof fn lemma_line_after_piece(
    pos: Position,
    row: int,
    col: int,
    mover: Player,
    at_row: int,
    at_col: int,
    d_row: int,
    d_col: int,
    player: Player,
)
    requires
        pos.shaped(),
        in_grid(row, col),
        pos.with_piece(row, col, mover).line_through(at_row, at_col, d_row, d_col, player),
    ensures
        (exists|r: int, c: int| pos.four_from(r, c, d_row, d_col, player)) || (player == mover
            && pos.with_piece(row, col, mover).line_through(row, col, d_row, d_col, player)),
{
    let placed = pos.with_piece(row, col, mover);
    if placed.four_from(at_row, at_col, d_row, d_col, player) {
        lemma_four_from_after_piece(pos, row, col, mover, at_row, at_col, d_row, d_col, player);
    } else if placed.four_from(at_row - d_row, at_col - d_col, d_row, d_col, player) {
        lemma_four_from_after_piece(
            pos,
            row,
            col,
            mover,
            at_row - d_row,
            at_col - d_col,
            d_row,
            d_col,
            player,
        );
    } else if placed.four_from(at_row - 2 * d_row, at_col - 2 * d_col, d_row, d_col, player) {
        lemma_four_from_after_piece(
            pos,
            row,
            col,
            mover,
            at_row - 2 * d_row,
            at_col - 2 * d_col,
            d_row,
            d_col,
            player,
        );
    } else {
        lemma_four_from_after_piece(
            pos,
            row,
            col,
            mover,
            at_row - 3 * d_row,
            at_col - 3 * d_col,
            d_row,
            d_col,
            player,
        );
    }
}

/// A piece put on a grid without lines of four makes no line but through
/// itself, and none for the other player.
pub proof fn lemma_lines_after_piece(pos: Position, row: int, col: int, mover: Player)
    requires
        pos.shaped(),
        in_grid(row, col),
        forall|player: Player| !pos.has_line(player),
    ensures
        forall|player: Player| #[trigger]
            pos.with_piece(row, col, mover).has_line(player) <==> player == mover
                && pos.with_piece(row, col, mover).wins_at(row, col, mover),
{
    let placed = pos.with_piece(row, col, mover);
    assert forall|player: Player| #[trigger] placed.has_line(player) implies player == mover
        && placed.wins_at(row, col, mover) by {
        let (r, c) = choose|r: int, c: int| #[trigger] placed.wins_at(r, c, player);
        assert(!pos.has_line(player));
        assert forall|a: int, b: int, d_row: int, d_col: int|
            (d_row == 0 && d_col == 1) || (d_row == 1 && (d_col == 0 || d_col == 1 || d_col == -1))
            implies !pos.four_from(a, b, d_row, d_col, player) by {
            if pos.four_from(a, b, d_row, d_col, player) {
                assert(pos.line_through(a, b, d_row, d_col, player));
                assert(pos.wins_at(a, b, player));
            }
        }
        if placed.line_through(r, c, 0, 1, player) {
            lemma_line_after_piece(pos, row, col, mover, r, c, 0, 1, player);
        } else if placed.line_through(r, c, 1, 0, player) {
            lemma_line_after_piece(pos, row, col, mover, r, c, 1, 0, player);
        } else if placed.line_through(r, c, 1, 1, player) {
            lemma_line_after_piece(pos, row, col, mover, r, c, 1, 1, player);
        } else {
            lemma_line_after_piece(pos, row, col, mover, r, c, 1, -1, player);
        }
    }
}

/// Play keeps a reachable position reachable, and a legal move uses up one
/// cell of room.
pub proof fn lemma_play(pos: Position, col: int)
    requires
        pos.wf(),
    ensures
        pos.play(col).wf(),
        pos.is_legal(col) ==> pos.play(col).room() == pos.room() - 1,
        !pos.is_legal(col) ==> pos.play(col) == pos,
{
    if pos.is_legal(col) {
        lemma_legal_lands(pos, col);
        let row = pos.drop_row(col);
        let placed = pos.with_piece(row, col, pos.to_move);
        let next = pos.play(col);
        lemma_with_piece_keeps_stack(pos, row, col, pos.to_move);
        lemma_with_piece_room(pos, col, pos.to_move);
        lemma_same_grid(next, placed);
        lemma_same_grid_room(next, placed);
        assert forall|player: Player| !pos.has_line(player) by {
            assert(pos.winner is None);
        }
        lemma_lines_after_piece(pos, row, col, pos.to_move);
        assert forall|player: Player| #[trigger] next.has_line(player) <==> next.winner == Some(
            player,
        ) by {
            assert(placed.has_line(player) <==> player == pos.to_move && placed.wins_at(
                row,
                col,
                pos.to_move,
            ));
            lemma_same_grid_lines(next, placed, player);
        }
    }
}

/// Positions with the same grid have the same lines of four.
pub proof fn lemma_same_grid_lines(a: Position, b: Position, player: Player)
    requires
        a.grid == b.grid,
    ensures
        a.has_line(player) == b.has_line(player),
        forall|row: int, col: int| #[trigger] a.wins_at(row, col, player) == b.wins_at(row, col, player),
{
    assert forall|row: int, col: int| #[trigger]
        a.wins_at(row, col, player) == b.wins_at(row, col, player) by {
        lemma_same_grid_wins_at(a, b, row, col, player);
    }
    if a.has_line(player) {
        let (r, c) = choose|r: int, c: int| #[trigger] a.wins_at(r, c, player);
        assert(b.wins_at(r, c, player));
    }
    if b.has_line(player) {
        let (r, c) = choose|r: int, c: int| #[trigger] b.wins_at(r, c, player);
        assert(a.wins_at(r, c, player));
    }
}

/// Positions with the same grid agree on whether a cell lies on a line of
/// four.
pub proof fn lemma_same_grid_wins_at(a: Position, b: Position, row: int, col: int, player: Player)
    requires
        a.grid == b.grid,
    ensures
        a.wins_at(row, col, player) == b.wins_at(row, col, player),
{
    assert(forall|r: int, c: int| #[trigger] a.owns(r, c, player) == b.owns(r, c, player));
}

/// The empty position is reachable.
pub proof fn lemma_empty_wf()
    ensures
        Position::empty().wf(),
{
    let empty = Position::empty();
    assert(empty.cell(0, 0) is Empty);
    assert forall|player: Player| !(#[trigger] empty.has_line(player)) by {
        if empty.has_line(player) {
            let (r, c) = choose|r: int, c: int| #[trigger] empty.wins_at(r, c, player);
            assert(empty.owns(r, c, player));
        }
    }
}

/// The first winning column from `col` on wins, no column between `col` and
/// it does, and where there is none, no column from `col` on wins.
pub proof fn lemma_immediate_win_from(pos: Position, col: int)
    requires
        0 <= col <= 7,
    ensures
        match pos.immediate_win_from(col) {
            Some(c) => col <= c < 7 && pos.wins_by(c as int) && forall|k: int|
                col <= k < c ==> !pos.wins_by(k),
            None => forall|k: int| col <= k < 7 ==> !pos.wins_by(k),
        },
    decreases 7 - col,
{
    if col < 7 && !pos.wins_by(col) {
        lemma_immediate_win_from(pos, col + 1);
    }
}

} // verus!
