//! Left-right symmetry: the rules of the game and the static evaluation do
//! not tell a position from its mirror image.
//!
//! The engine's choice of a column is not symmetric: among columns of equal
//! worth it keeps the first in its order of search, in which a column left
//! of the center comes before its mirror image.

use vstd::prelude::*;

use crate::evaluation::tally;
use crate::player::Player;
use crate::position::{in_grid, lemma_drop_row_from, lemma_drop_row_same_cells, Position};

verus! {

impl Position {
    /// The position seen in a mirror: column `c` becomes column `6 - c`.
    pub open spec fn mirror(self) -> Position {
        Position {
            grid: Seq::new(6, |r: int| Seq::new(7, |c: int| self.grid[r][6 - c])),
            to_move: self.to_move,
            over: self.over,
            winner: self.winner,
        }
    }
}

/// The mirror image has the shape of a grid, and its cell in column `c` is
/// the cell in column `6 - c` of the position.
pub proof fn lemma_mirror_cells(pos: Position)
    ensures
        pos.mirror().shaped(),
        forall|r: int, c: int|
            in_grid(r, c) ==> #[trigger] pos.mirror().cell(r, c) == pos.cell(r, 6 - c),
        forall|r: int, c: int, p: Player| #[trigger]
            pos.mirror().owns(r, c, p) == pos.owns(r, 6 - c, p),
{
    assert forall|r: int, c: int, p: Player| #[trigger]
        pos.mirror().owns(r, c, p) == pos.owns(r, 6 - c, p) by {
        if in_grid(r, c) {
            assert(pos.mirror().cell(r, c) == pos.cell(r, 6 - c));
        }
    }
}

/// The mirror image of the mirror image is the position itself.
pub proof fn lemma_mirror_twice(pos: Position)
    requires
        pos.shaped(),
    ensures
        pos.mirror().mirror() == pos,
{
    let twice = pos.mirror().mirror();
    assert forall|r: int| 0 <= r < 6 implies #[trigger] twice.grid[r] =~= pos.grid[r] by {
        assert forall|c: int| 0 <= c < 7 implies twice.grid[r][c] == pos.grid[r][c] by {
            assert(pos.mirror().grid[r][6 - c] == pos.grid[r][6 - (6 - c)]);
        }
    }
    assert(twice.grid =~= pos.grid);
}

/// A piece dropped into column `c` of the mirror image comes to rest in the
/// row in which it rests in column `6 - c` of the position.
pub proof fn lemma_mirror_drop_row(pos: Position, col: int)
    requires
        0 <= col < 7,
    ensures
        pos.mirror().drop_row(col) == pos.drop_row(6 - col),
{
    lemma_mirror_cells(pos);
    lemma_drop_row_same_cells(pos.mirror(), col, pos, 6 - col, 5);
}

/// Four cells in a line in the mirror image are four cells in the mirrored
/// line of the position.
proof fn lemma_mirror_four_from(
    pos: Position,
    row: int,
    col: int,
    d_row: int,
    d_col: int,
    player: Player,
)
    ensures
        pos.mirror().four_from(row, col, d_row, d_col, player) == pos.four_from(
            row,
            6 - col,
            d_row,
            -d_col,
            player,
        ),
{
    lemma_mirror_cells(pos);
    let m = pos.mirror();
    assert(m.owns(row, col, player) == pos.owns(row, 6 - col, player));
    assert(m.owns(row + d_row, col + d_col, player) == pos.owns(
        row + d_row,
        6 - (col + d_col),
        player,
    ));
    assert(m.owns(row + 2 * d_row, col + 2 * d_col, player) == pos.owns(
        row + 2 * d_row,
        6 - (col + 2 * d_col),
        player,
    ));
    assert(m.owns(row + 3 * d_row, col + 3 * d_col, player) == pos.owns(
        row + 3 * d_row,
        6 - (col + 3 * d_col),
        player,
    ));
    assert(6 - (col + d_col) == 6 - col + (-d_col));
    assert(6 - (col + 2 * d_col) == 6 - col + 2 * (-d_col));
    assert(6 - (col + 3 * d_col) == 6 - col + 3 * (-d_col));
}

/// Four cells in a row read from the right are four cells in a row read
/// from the left.
proof fn lemma_four_from_leftwards(pos: Position, row: int, col: int, player: Player)
    ensures
        pos.four_from(row, col, 0, -1, player) == pos.four_from(row, col - 3, 0, 1, player),
{
    assert(col - 3 + 1 == col - 2 && col - 3 + 2 == col - 1 && col - 3 + 3 == col);
}

/// A cell lies on a line of four along an axis in the mirror image exactly
/// when its mirror cell lies on one along the mirrored axis.
proof fn lemma_mirror_line_through(
    pos: Position,
    row: int,
    col: int,
    d_col: int,
    player: Player,
)
    requires
        d_col == 0 || d_col == 1 || d_col == -1,
    ensures
        pos.mirror().line_through(row, col, 1, d_col, player) == pos.line_through(
            row,
            6 - col,
            1,
            -d_col,
            player,
        ),
{
    let m = pos.mirror();
    let c = 6 - col;
    lemma_mirror_four_from(pos, row, col, 1, d_col, player);
    lemma_mirror_four_from(pos, row - 1, col - d_col, 1, d_col, player);
    lemma_mirror_four_from(pos, row - 2, col - 2 * d_col, 1, d_col, player);
    lemma_mirror_four_from(pos, row - 3, col - 3 * d_col, 1, d_col, player);
    assert(6 - (col - d_col) == c - (-d_col));
    assert(6 - (col - 2 * d_col) == c - 2 * (-d_col));
    assert(6 - (col - 3 * d_col) == c - 3 * (-d_col));
}

/// A cell lies on a horizontal line of four in the mirror image exactly
/// when its mirror cell lies on one.
proof fn lemma_mirror_line_across(pos: Position, row: int, col: int, player: Player)
    ensures
        pos.mirror().line_through(row, col, 0, 1, player) == pos.line_through(
            row,
            6 - col,
            0,
            1,
            player,
        ),
{
    let m = pos.mirror();
    let c = 6 - col;
    assert(m.four_from(row, col, 0, 1, player) == pos.four_from(row, c - 3, 0, 1, player)) by {
        lemma_mirror_four_from(pos, row, col, 0, 1, player);
        lemma_four_from_leftwards(pos, row, c, player);
    }
    assert(m.four_from(row, col - 1, 0, 1, player) == pos.four_from(row, c - 2, 0, 1, player)) by {
        lemma_mirror_four_from(pos, row, col - 1, 0, 1, player);
        lemma_four_from_leftwards(pos, row, c + 1, player);
    }
    assert(m.four_from(row, col - 2, 0, 1, player) == pos.four_from(row, c - 1, 0, 1, player)) by {
        lemma_mirror_four_from(pos, row, col - 2, 0, 1, player);
        lemma_four_from_leftwards(pos, row, c + 2, player);
    }
    assert(m.four_from(row, col - 3, 0, 1, player) == pos.four_from(row, c, 0, 1, player)) by {
        lemma_mirror_four_from(pos, row, col - 3, 0, 1, player);
        lemma_four_from_leftwards(pos, row, c + 3, player);
    }
}

/// A cell lies on a line of four in the mirror image exactly when its mirror
/// cell does in the position.
pub proof fn lemma_mirror_wins_at(pos: Position, row: int, col: int, player: Player)
    ensures
        pos.mirror().wins_at(row, col, player) == pos.wins_at(row, 6 - col, player),
{
    lemma_mirror_line_across(pos, row, col, player);
    lemma_mirror_line_through(pos, row, col, 0, player);
    lemma_mirror_line_through(pos, row, col, 1, player);
    lemma_mirror_line_through(pos, row, col, -1, player);
}

/// What is legal in the mirror image is the mirror image of what is legal.
pub proof fn lemma_mirror_is_legal(pos: Position, col: int)
    ensures
        pos.mirror().is_legal(col) == pos.is_legal(6 - col),
        pos.mirror().top_row_full() == pos.top_row_full(),
{
    lemma_mirror_cells(pos);
    if pos.top_row_full() {
        assert forall|c: int| 0 <= c < 7 implies !((#[trigger] pos.mirror().cell(0, c)) is Empty) by {
            assert(!(pos.cell(0, 6 - c) is Empty));
        }
    }
    if pos.mirror().top_row_full() {
        assert forall|c: int| 0 <= c < 7 implies !((#[trigger] pos.cell(0, c)) is Empty) by {
            assert(!(pos.mirror().cell(0, 6 - c) is Empty));
        }
    }
}

/// A move in the mirror image is the mirror image of the mirrored move: to
/// play column `c` in the mirror image gives the mirror image of playing
/// column `6 - c`.
pub proof fn lemma_mirror_play(pos: Position, col: int)
    requires
        pos.shaped(),
    ensures
        pos.mirror().play(col) == pos.play(6 - col).mirror(),
{
    lemma_mirror_is_legal(pos, col);
    let m = pos.mirror();
    if pos.is_legal(6 - col) {
        let c = 6 - col;
        lemma_mirror_drop_row(pos, col);
        let row = pos.drop_row(c);
        lemma_drop_row_from(pos, c, 5);
        let placed = pos.with_piece(row, c, pos.to_move);
        let m_placed = m.with_piece(row, col, pos.to_move);
        lemma_mirror_cells(pos);
        assert(m_placed.grid =~~= placed.mirror().grid) by {
            let mirrored = placed.mirror().grid;
            assert forall|r: int| 0 <= r < 6 implies #[trigger] m_placed.grid[r] =~= mirrored[r] by {
                assert forall|k: int| 0 <= k < 7 implies m_placed.grid[r][k] == mirrored[r][k] by {
                    assert(mirrored[r][k] == placed.grid[r][6 - k]);
                    assert(m.grid[r][k] == pos.grid[r][6 - k]);
                }
            }
        }
        assert(m_placed == placed.mirror());
        lemma_mirror_wins_at(placed, row, col, pos.to_move);
        lemma_mirror_is_legal(placed, col);
        assert(pos.play(c).mirror().grid == placed.mirror().grid);
    }
}

/// The mirror image of a reachable position satisfies the invariant of
/// reachable positions.
pub proof fn lemma_mirror_wf(pos: Position)
    requires
        pos.wf(),
    ensures
        pos.mirror().wf(),
{
    lemma_mirror_cells(pos);
    lemma_mirror_is_legal(pos, 0);
    let m = pos.mirror();
    assert forall|upper: int, lower: int, col: int|
        0 <= upper < lower < 6 && 0 <= col < 7 && (#[trigger] m.cell(lower, col)) is Empty implies (
    #[trigger] m.cell(upper, col)) is Empty by {
        assert(pos.cell(lower, 6 - col) is Empty);
        assert(pos.cell(upper, 6 - col) is Empty);
    }
    assert forall|player: Player| #[trigger] m.has_line(player) <==> m.winner == Some(player) by {
        if m.has_line(player) {
            let (r, c) = choose|r: int, c: int| #[trigger] m.wins_at(r, c, player);
            lemma_mirror_wins_at(pos, r, c, player);
            assert(pos.wins_at(r, 6 - c, player));
            assert(pos.has_line(player));
        }
        if pos.has_line(player) {
            let (r, c) = choose|r: int, c: int| #[trigger] pos.wins_at(r, c, player);
            lemma_mirror_wins_at(pos, r, 6 - c, player);
            assert(m.wins_at(r, 6 - c, player));
        }
    }
}

/// A column wins at once in the mirror image exactly when its mirror column
/// does in the position.
pub proof fn lemma_mirror_wins_by(pos: Position, col: int)
    requires
        pos.shaped(),
    ensures
        pos.mirror().wins_by(col) == pos.wins_by(6 - col),
{
    lemma_mirror_play(pos, col);
    lemma_mirror_is_legal(pos, col);
}

/// The pieces of a player among four cells of the mirror image, where each
/// cell is the mirror cell of one of four cells of the position.
proof fn lemma_line_count_cells(
    a: Position,
    row_a: int,
    col_a: int,
    d_row_a: int,
    d_col_a: int,
    b: Position,
    row_b: int,
    col_b: int,
    d_row_b: int,
    d_col_b: int,
    player: Player,
    reversed: bool,
)
    requires
        !reversed ==> {
            &&& a.cell(row_a, col_a) == b.cell(row_b, col_b)
            &&& a.cell(row_a + d_row_a, col_a + d_col_a) == b.cell(row_b + d_row_b, col_b + d_col_b)
            &&& a.cell(row_a + 2 * d_row_a, col_a + 2 * d_col_a) == b.cell(
                row_b + 2 * d_row_b,
                col_b + 2 * d_col_b,
            )
            &&& a.cell(row_a + 3 * d_row_a, col_a + 3 * d_col_a) == b.cell(
                row_b + 3 * d_row_b,
                col_b + 3 * d_col_b,
            )
        },
        reversed ==> {
            &&& a.cell(row_a, col_a) == b.cell(row_b + 3 * d_row_b, col_b + 3 * d_col_b)
            &&& a.cell(row_a + d_row_a, col_a + d_col_a) == b.cell(
                row_b + 2 * d_row_b,
                col_b + 2 * d_col_b,
            )
            &&& a.cell(row_a + 2 * d_row_a, col_a + 2 * d_col_a) == b.cell(
                row_b + d_row_b,
                col_b + d_col_b,
            )
            &&& a.cell(row_a + 3 * d_row_a, col_a + 3 * d_col_a) == b.cell(row_b, col_b)
        },
    ensures
        a.line_count(row_a, col_a, d_row_a, d_col_a, player, 4) == b.line_count(
            row_b,
            col_b,
            d_row_b,
            d_col_b,
            player,
            4,
        ),
{
    reveal_with_fuel(Position::line_count, 5);
    let a0 = tally(a.cell(row_a, col_a), player);
    let a1 = tally(a.cell(row_a + d_row_a, col_a + d_col_a), player);
    let a2 = tally(a.cell(row_a + 2 * d_row_a, col_a + 2 * d_col_a), player);
    let a3 = tally(a.cell(row_a + 3 * d_row_a, col_a + 3 * d_col_a), player);
    assert(a.line_count(row_a, col_a, d_row_a, d_col_a, player, 4) == a0 + a1 + a2 + a3) by {
        assert(row_a + d_row_a + d_row_a == row_a + 2 * d_row_a);
        assert(row_a + d_row_a + d_row_a + d_row_a == row_a + 3 * d_row_a);
        assert(col_a + d_col_a + d_col_a == col_a + 2 * d_col_a);
        assert(col_a + d_col_a + d_col_a + d_col_a == col_a + 3 * d_col_a);
    }
    let b0 = tally(b.cell(row_b, col_b), player);
    let b1 = tally(b.cell(row_b + d_row_b, col_b + d_col_b), player);
    let b2 = tally(b.cell(row_b + 2 * d_row_b, col_b + 2 * d_col_b), player);
    let b3 = tally(b.cell(row_b + 3 * d_row_b, col_b + 3 * d_col_b), player);
    assert(b.line_count(row_b, col_b, d_row_b, d_col_b, player, 4) == b0 + b1 + b2 + b3) by {
        assert(row_b + d_row_b + d_row_b == row_b + 2 * d_row_b);
        assert(row_b + d_row_b + d_row_b + d_row_b == row_b + 3 * d_row_b);
        assert(col_b + d_col_b + d_col_b == col_b + 2 * d_col_b);
        assert(col_b + d_col_b + d_col_b + d_col_b == col_b + 3 * d_col_b);
    }
}

/// A vertical window of the mirror image is the vertical window of the
/// mirror column.
proof fn lemma_mirror_window_down(pos: Position, row: int, col: int)
    requires
        0 <= row < 6,
        0 <= col < 7,
    ensures
        pos.mirror().window_score(row, col, 1, 0) == pos.window_score(row, 6 - col, 1, 0),
{
    lemma_mirror_cells(pos);
    let m = pos.mirror();
    if row + 3 < 6 {
        assert(m.cell(row, col) == pos.cell(row, 6 - col));
        assert(m.cell(row + 1, col) == pos.cell(row + 1, 6 - col));
        assert(m.cell(row + 2, col) == pos.cell(row + 2, 6 - col));
        assert(m.cell(row + 3, col) == pos.cell(row + 3, 6 - col));
        lemma_line_count_cells(m, row, col, 1, 0, pos, row, 6 - col, 1, 0, Player::Red, false);
        lemma_line_count_cells(m, row, col, 1, 0, pos, row, 6 - col, 1, 0, Player::Yellow, false);
    }
}

/// A diagonal window of the mirror image is the window along the other
/// diagonal from the mirror column.
proof fn lemma_mirror_window_diagonal(pos: Position, row: int, col: int, d_col: int)
    requires
        0 <= row < 6,
        0 <= col < 7,
        d_col == 1 || d_col == -1,
    ensures
        pos.mirror().window_score(row, col, 1, d_col) == pos.window_score(row, 6 - col, 1, -d_col),
{
    lemma_mirror_cells(pos);
    let m = pos.mirror();
    if in_grid(row + 3, col + 3 * d_col) {
        assert(m.cell(row, col) == pos.cell(row, 6 - col));
        assert(m.cell(row + 1, col + d_col) == pos.cell(row + 1, 6 - (col + d_col)));
        assert(m.cell(row + 2, col + 2 * d_col) == pos.cell(row + 2, 6 - (col + 2 * d_col)));
        assert(m.cell(row + 3, col + 3 * d_col) == pos.cell(row + 3, 6 - (col + 3 * d_col)));
        lemma_line_count_cells(m, row, col, 1, d_col, pos, row, 6 - col, 1, -d_col, Player::Red, false);
        lemma_line_count_cells(
            m,
            row,
            col,
            1,
            d_col,
            pos,
            row,
            6 - col,
            1,
            -d_col,
            Player::Yellow,
            false,
        );
    }
}

/// A horizontal window of the mirror image is a horizontal window of the
/// position, read from the right.
proof fn lemma_mirror_window_across(pos: Position, row: int, col: int)
    requires
        0 <= row < 6,
        0 <= col < 7,
    ensures
        pos.mirror().window_score(row, col, 0, 1) == pos.window_score(row, 3 - col, 0, 1),
        col > 3 ==> pos.window_score(row, col, 0, 1) == 0,
{
    lemma_mirror_cells(pos);
    let m = pos.mirror();
    if col + 3 < 7 {
        assert(m.cell(row, col) == pos.cell(row, 6 - col));
        assert(m.cell(row, col + 1) == pos.cell(row, 6 - (col + 1)));
        assert(m.cell(row, col + 2) == pos.cell(row, 6 - (col + 2)));
        assert(m.cell(row, col + 3) == pos.cell(row, 6 - (col + 3)));
        lemma_line_count_cells(m, row, col, 0, 1, pos, row, 3 - col, 0, 1, Player::Red, true);
        lemma_line_count_cells(m, row, col, 0, 1, pos, row, 3 - col, 0, 1, Player::Yellow, true);
    }
}

/// The windows of the mirror image are the windows of the position, read
/// from the other side.
pub proof fn lemma_mirror_windows(pos: Position, row: int, col: int)
    requires
        0 <= row < 6,
        0 <= col < 7,
    ensures
        pos.mirror().window_score(row, col, 1, 0) == pos.window_score(row, 6 - col, 1, 0),
        pos.mirror().window_score(row, col, 1, 1) == pos.window_score(row, 6 - col, 1, -1),
        pos.mirror().window_score(row, col, 1, -1) == pos.window_score(row, 6 - col, 1, 1),
        pos.mirror().window_score(row, col, 0, 1) == pos.window_score(row, 3 - col, 0, 1),
        col > 3 ==> pos.window_score(row, col, 0, 1) == 0,
{
    lemma_mirror_window_down(pos, row, col);
    lemma_mirror_window_diagonal(pos, row, col, 1);
    lemma_mirror_window_diagonal(pos, row, col, -1);
    lemma_mirror_window_across(pos, row, col);
}

/// The windows that start in a row are worth the same in the mirror image.
pub proof fn lemma_mirror_row_score(pos: Position, row: int)
    requires
        0 <= row < 6,
    ensures
        pos.mirror().row_score(row, 7) == pos.row_score(row, 7),
{
    reveal_with_fuel(Position::row_score, 8);
    lemma_mirror_windows(pos, row, 0);
    lemma_mirror_windows(pos, row, 1);
    lemma_mirror_windows(pos, row, 2);
    lemma_mirror_windows(pos, row, 3);
    lemma_mirror_windows(pos, row, 4);
    lemma_mirror_windows(pos, row, 5);
    lemma_mirror_windows(pos, row, 6);
}

/// The static evaluation does not tell a position from its mirror image:
/// the scores match exactly.
pub proof fn lemma_mirror_static_score(pos: Position)
    ensures
        pos.mirror().static_score() == pos.static_score(),
        pos.mirror().decided() == pos.decided(),
        pos.mirror().static_eval() == pos.static_eval(),
{
    reveal_with_fuel(Position::rows_score, 7);
    reveal_with_fuel(Position::center_count, 7);
    lemma_mirror_cells(pos);
    let m = pos.mirror();
    lemma_mirror_row_score(pos, 0);
    lemma_mirror_row_score(pos, 1);
    lemma_mirror_row_score(pos, 2);
    lemma_mirror_row_score(pos, 3);
    lemma_mirror_row_score(pos, 4);
    lemma_mirror_row_score(pos, 5);
    assert(m.cell(0, 3) == pos.cell(0, 3));
    assert(m.cell(1, 3) == pos.cell(1, 3));
    assert(m.cell(2, 3) == pos.cell(2, 3));
    assert(m.cell(3, 3) == pos.cell(3, 3));
    assert(m.cell(4, 3) == pos.cell(4, 3));
    assert(m.cell(5, 3) == pos.cell(5, 3));
    assert(m.rows_score(6) == pos.rows_score(6));
    assert(m.center_count(Player::Red, 6) == pos.center_count(Player::Red, 6));
    assert(m.center_count(Player::Yellow, 6) == pos.center_count(Player::Yellow, 6));
}

} // verus!
