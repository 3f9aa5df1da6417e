//! The key under which the transposition cache files a position: the grid,
//! the side to move and the depth that is left, packed into one integer.
//!
//! The cells are the digits of a number in base 3, row by row from the top
//! left; the side to move and the depth follow as the lowest nine bits.

use vstd::prelude::*;

use crate::board::{Board, Cell};
use crate::player::Player;
use crate::position::Position;
use crate::solver::Solver;
use crate::{COLS, ROWS};

verus! {

/// The digit that stands for a cell.
pub open spec fn cell_digit(cell: Cell) -> nat {
    match cell {
        Cell::Empty => 0,
        Cell::Occupied(Player::Red) => 1,
        Cell::Occupied(Player::Yellow) => 2,
    }
}

/// The bit that stands for the side to move.
pub open spec fn side_digit(player: Player) -> nat {
    match player {
        Player::Red => 0,
        Player::Yellow => 1,
    }
}

/// 3 to the power `n`.
pub open spec fn three_to(n: nat) -> nat
    decreases n,
{
    if n == 0 {
        1
    } else {
        3 * three_to((n - 1) as nat)
    }
}

/// 2187 to the power `n`: the number of ways to fill `n` rows.
pub open spec fn rows_to(n: nat) -> nat
    decreases n,
{
    if n == 0 {
        1
    } else {
        2187 * rows_to((n - 1) as nat)
    }
}

impl Position {
    /// The first `n` cells of `row`, read as a number in base 3.
    pub open spec fn row_digits(self, row: int, n: nat) -> nat
        decreases n,
    {
        if n == 0 {
            0
        } else {
            3 * self.row_digits(row, (n - 1) as nat) + cell_digit(self.cell(row, n - 1))
        }
    }

    /// The first `n` rows, read as a number in base 2187, one digit per row.
    pub open spec fn grid_digits(self, n: nat) -> nat
        decreases n,
    {
        if n == 0 {
            0
        } else {
            2187 * self.grid_digits((n - 1) as nat) + self.row_digits(n - 1, 7)
        }
    }

    /// The grid, the side to move and `depth` as one number.
    pub open spec fn key_value(self, depth: u8) -> nat {
        (self.grid_digits(6) * 2 + side_digit(self.to_move)) * 256 + depth as nat
    }
}

/// The key of the cache entry for `pos` searched to `depth`.
pub open spec fn cache_key(pos: Position, depth: u8) -> u128 {
    pos.key_value(depth) as u128
}

/// The first `n` cells of a row make a number below 3 to the `n`.
pub proof fn lemma_row_digits_bound(pos: Position, row: int, n: nat)
    ensures
        pos.row_digits(row, n) < three_to(n),
    decreases n,
{
    if n > 0 {
        lemma_row_digits_bound(pos, row, (n - 1) as nat);
    }
}

/// The first `n` rows make a number below 2187 to the `n`.
pub proof fn lemma_grid_digits_bound(pos: Position, n: nat)
    ensures
        pos.grid_digits(n) < rows_to(n),
    decreases n,
{
    if n > 0 {
        lemma_grid_digits_bound(pos, (n - 1) as nat);
        lemma_row_digits_bound(pos, n - 1, 7);
        assert(three_to(7) == 2187) by {
            reveal_with_fuel(three_to, 8);
        }
    }
}

/// The powers of 3 up to the seventh are at most 2187, and those of 2187 up
/// to the sixth at most 109418989131512359209.
pub proof fn lemma_power_values(n: nat)
    ensures
        n <= 7 ==> three_to(n) <= 2187,
        n <= 6 ==> rows_to(n) <= 109418989131512359209,
{
    reveal_with_fuel(three_to, 8);
    reveal_with_fuel(rows_to, 7);
}

/// Every key fits into 128 bits.
pub proof fn lemma_key_value_bound(pos: Position, depth: u8)
    ensures
        pos.key_value(depth) <= u128::MAX,
{
    lemma_grid_digits_bound(pos, 6);
    lemma_power_values(6);
}

/// Two rows with the same number hold the same cells.
proof fn lemma_row_digits_injective(a: Position, b: Position, row: int, n: nat)
    requires
        a.row_digits(row, n) == b.row_digits(row, n),
    ensures
        forall|c: int| 0 <= c < n ==> a.cell(row, c) == b.cell(row, c),
    decreases n,
{
    if n > 0 {
        let (ra, rb) = (a.row_digits(row, (n - 1) as nat), b.row_digits(row, (n - 1) as nat));
        let (da, db) = (cell_digit(a.cell(row, n - 1)), cell_digit(b.cell(row, n - 1)));
        assert(3 * ra + da == 3 * rb + db);
        assert(ra == rb && da == db);
        lemma_row_digits_injective(a, b, row, (n - 1) as nat);
    }
}

/// Two grids with the same number hold the same cells.
proof fn lemma_grid_digits_injective(a: Position, b: Position, n: nat)
    requires
        a.grid_digits(n) == b.grid_digits(n),
    ensures
        forall|r: int, c: int| 0 <= r < n && 0 <= c < 7 ==> a.cell(r, c) == b.cell(r, c),
    decreases n,
{
    if n > 0 {
        let (ga, gb) = (a.grid_digits((n - 1) as nat), b.grid_digits((n - 1) as nat));
        let (ra, rb) = (a.row_digits(n - 1, 7), b.row_digits(n - 1, 7));
        lemma_row_digits_bound(a, n - 1, 7);
        lemma_row_digits_bound(b, n - 1, 7);
        lemma_power_values(7);
        assert(2187 * ga + ra == 2187 * gb + rb);
        assert(ga == gb && ra == rb);
        lemma_grid_digits_injective(a, b, (n - 1) as nat);
        lemma_row_digits_injective(a, b, n - 1, 7);
    }
}

/// The key tells positions and depths apart: two shaped positions with equal
/// keys have the same grid, the same side to move and the same depth.
pub proof fn lemma_cache_key_injective(a: Position, depth_a: u8, b: Position, depth_b: u8)
    requires
        a.shaped(),
        b.shaped(),
        cache_key(a, depth_a) == cache_key(b, depth_b),
    ensures
        a.grid == b.grid,
        a.to_move == b.to_move,
        depth_a == depth_b,
{
    lemma_key_value_bound(a, depth_a);
    lemma_key_value_bound(b, depth_b);
    let (ga, gb) = (a.grid_digits(6), b.grid_digits(6));
    let (sa, sb) = (side_digit(a.to_move), side_digit(b.to_move));
    assert((ga * 2 + sa) * 256 + depth_a == (gb * 2 + sb) * 256 + depth_b);
    assert(ga * 2 + sa == gb * 2 + sb && depth_a == depth_b);
    assert(ga == gb && sa == sb);
    lemma_grid_digits_injective(a, b, 6);
    assert forall|r: int| 0 <= r < 6 implies #[trigger] a.grid[r] =~= b.grid[r] by {
        assert forall|c: int| 0 <= c < 7 implies a.grid[r][c] == b.grid[r][c] by {
            assert(a.cell(r, c) == b.cell(r, c));
        }
    }
    assert(a.grid =~= b.grid);
}

impl Solver {
    /// Packs the grid of `board`, its side to move and `depth` into the key
    /// of the cache.
    pub fn board_key(&self, board: &Board, depth: u8) -> (key: u128)
        ensures
            key == cache_key(board@, depth),
    {
        let mut digits: u128 = 0;
        let mut row: usize = 0;
        while row < ROWS
            invariant
                row <= ROWS,
                digits == board@.grid_digits(row as nat),
            decreases ROWS - row,
        {
            let mut line: u128 = 0;
            let mut col: usize = 0;
            while col < COLS
                invariant
                    row < ROWS,
                    col <= COLS,
                    line == board@.row_digits(row as int, col as nat),
                decreases COLS - col,
            {
                proof {
                    lemma_row_digits_bound(board@, row as int, col as nat);
                    lemma_power_values(col as nat);
                }
                let digit: u128 = match board.get_cell(row, col) {
                    Cell::Empty => 0,
                    Cell::Occupied(Player::Red) => 1,
                    Cell::Occupied(Player::Yellow) => 2,
                };
                line = line * 3 + digit;
                col = col + 1;
            }
            proof {
                lemma_grid_digits_bound(board@, row as nat);
                lemma_row_digits_bound(board@, row as int, 7);
                lemma_power_values(row as nat);
                lemma_power_values(7);
            }
            digits = digits * 2187 + line;
            row = row + 1;
        }
        proof {
            lemma_grid_digits_bound(board@, 6);
            lemma_power_values(6);
        }
        let side: u128 = match board.current_player() {
            Player::Red => 0,
            Player::Yellow => 1,
        };
        (digits * 2 + side) * 256 + depth as u128
    }
}

} // verus!
