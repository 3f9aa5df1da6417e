//! Lines of play: what a score and a ply count of the search stand for.
//!
//! Every result of the search is the static score of the position at the end
//! of a line of legal moves, and its ply count is the length of that line
//! when the line ends the game.

use vstd::prelude::*;

use crate::evaluation::{lemma_static_score_bound, EvalResult};
use crate::player::Player;
use crate::position::{lemma_same_grid, lemma_same_grid_lines, Position};
use crate::search::{one_more, MoveResult};

verus! {

/// Every move of `line` is legal in the position in which it is made, when
/// the moves are played from `pos` in turn.
pub open spec fn line_legal(pos: Position, line: Seq<usize>) -> bool
    decreases line.len(),
{
    line.len() == 0 || (pos.is_legal(line[0] as int) && line_legal(
        pos.play(line[0] as int),
        line.drop_first(),
    ))
}

/// The position after the moves of `line` are played from `pos` in turn.
pub open spec fn line_end(pos: Position, line: Seq<usize>) -> Position
    decreases line.len(),
{
    if line.len() == 0 {
        pos
    } else {
        line_end(pos.play(line[0] as int), line.drop_first())
    }
}

/// `line` is a line of play from `pos` that gives `result` in a search to
/// `depth`: its moves are legal, it is no longer than the depth, the score
/// is the static score of the position at its end, and either it ends the
/// game and the ply count is its length, or it runs for the whole depth and
/// there is no ply count.
pub open spec fn follows(line: Seq<usize>, pos: Position, result: EvalResult, depth: nat) -> bool {
    &&& line_legal(pos, line)
    &&& line.len() <= depth
    &&& result.score == line_end(pos, line).static_score()
    &&& if line_end(pos, line).over {
        result.moves_to_outcome matches Some(m) && m == line.len()
    } else {
        line.len() == depth && result.moves_to_outcome is None
    }
}

/// Some line of play from `pos` gives `result` in a search to `depth`.
pub open spec fn realized(pos: Position, result: EvalResult, depth: nat) -> bool {
    exists|line: Seq<usize>| #[trigger] follows(line, pos, result, depth)
}

/// `line` is a line of play from `pos` that stands behind the answer
/// `chosen` of a search to `depth`: it starts with the chosen column, its
/// moves are legal, and either it ends the game and the answer's ply count
/// is its length, or it runs one ply further than the depth without ending
/// the game and the answer has no ply count.
pub open spec fn backs(line: Seq<usize>, pos: Position, chosen: MoveResult, depth: nat) -> bool {
    &&& line.len() >= 1
    &&& line[0] == chosen.column
    &&& line_legal(pos, line)
    &&& line.len() <= depth + 1
    &&& if line_end(pos, line).over {
        chosen.moves_to_win matches Some(m) && m == line.len()
    } else {
        line.len() == depth + 1 && chosen.moves_to_win is None
    }
}

/// Some line of play from `pos` stands behind the answer `chosen`.
pub open spec fn backed(pos: Position, chosen: MoveResult, depth: nat) -> bool {
    exists|line: Seq<usize>| #[trigger] backs(line, pos, chosen, depth)
}

/// A line of play with a move put in front of it.
pub proof fn lemma_line_with_first_move(pos: Position, col: usize, rest: Seq<usize>)
    ensures
        line_legal(pos, seq![col] + rest) == (pos.is_legal(col as int) && line_legal(
            pos.play(col as int),
            rest,
        )),
        line_end(pos, seq![col] + rest) == line_end(pos.play(col as int), rest),
        (seq![col] + rest).len() == rest.len() + 1,
        (seq![col] + rest)[0] == col,
{
    let line = seq![col] + rest;
    assert(line.drop_first() =~= rest);
}

/// The static evaluation of a position at the search horizon or at the end
/// of the game is realized by the line without moves.
pub proof fn lemma_leaf_realized(pos: Position, depth: nat)
    requires
        pos.wf(),
        depth == 0 || pos.over,
    ensures
        realized(pos, pos.static_eval(), depth),
{
    lemma_static_score_bound(pos);
    let line = Seq::<usize>::empty();
    assert(follows(line, pos, pos.static_eval(), depth));
}

/// A result that is realized in the position after a legal move is realized
/// one ply further in the position before it.
pub proof fn lemma_step_realized(pos: Position, col: usize, child: EvalResult, depth: nat)
    requires
        pos.is_legal(col as int),
        depth >= 1,
        realized(pos.play(col as int), child, (depth - 1) as nat),
        child.moves_to_outcome matches Some(m) ==> m < 255,
    ensures
        realized(
            pos,
            EvalResult { score: child.score, moves_to_outcome: one_more(child.moves_to_outcome) },
            depth,
        ),
{
    let rest = choose|rest: Seq<usize>| #[trigger]
        follows(rest, pos.play(col as int), child, (depth - 1) as nat);
    lemma_line_with_first_move(pos, col, rest);
    let parent = EvalResult {
        score: child.score,
        moves_to_outcome: one_more(child.moves_to_outcome),
    };
    assert(follows(seq![col] + rest, pos, parent, depth));
}

/// A result that is realized in the position after a candidate move stands
/// behind the answer that chooses the candidate.
pub proof fn lemma_step_backed(pos: Position, col: usize, child: EvalResult, depth: nat)
    requires
        pos.is_legal(col as int),
        realized(pos.play(col as int), child, depth),
        child.moves_to_outcome matches Some(m) ==> m < 255,
    ensures
        backed(
            pos,
            MoveResult { column: col, moves_to_win: one_more(child.moves_to_outcome) },
            depth,
        ),
{
    let rest = choose|rest: Seq<usize>| #[trigger] follows(rest, pos.play(col as int), child, depth);
    lemma_line_with_first_move(pos, col, rest);
    let chosen = MoveResult { column: col, moves_to_win: one_more(child.moves_to_outcome) };
    assert(backs(seq![col] + rest, pos, chosen, depth));
}

/// A move that wins at once stands behind the answer that announces a win
/// in one ply.
pub proof fn lemma_win_backed(pos: Position, col: usize, depth: nat)
    requires
        pos.wins_by(col as int),
    ensures
        backed(pos, MoveResult { column: col, moves_to_win: Some(1u8) }, depth),
{
    let rest = Seq::<usize>::empty();
    lemma_line_with_first_move(pos, col, rest);
    assert(seq![col] + rest =~= seq![col]);
    let chosen = MoveResult { column: col, moves_to_win: Some(1u8) };
    assert(backs(seq![col], pos, chosen, depth));
}

/// Among reachable positions the grid and the side to move make up the
/// whole position: two reachable positions that agree on them are equal.
pub proof fn lemma_grid_tells_position(a: Position, b: Position)
    requires
        a.wf(),
        b.wf(),
        a.grid == b.grid,
        a.to_move == b.to_move,
    ensures
        a == b,
{
    lemma_same_grid_lines(a, b, Player::Red);
    lemma_same_grid_lines(a, b, Player::Yellow);
    lemma_same_grid(a, b);
    assert(a.has_line(Player::Red) <==> a.winner == Some(Player::Red));
    assert(a.has_line(Player::Yellow) <==> a.winner == Some(Player::Yellow));
    assert(b.has_line(Player::Red) <==> b.winner == Some(Player::Red));
    assert(b.has_line(Player::Yellow) <==> b.winner == Some(Player::Yellow));
    assert(a.winner == b.winner) by {
        match a.winner {
            Some(Player::Red) => {},
            Some(Player::Yellow) => {},
            None => {
                match b.winner {
                    Some(Player::Red) => {},
                    Some(Player::Yellow) => {},
                    None => {},
                }
            },
        }
    }
}

} // verus!
