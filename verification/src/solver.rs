//! The search engine: a depth-bounded alpha-beta search with a transposition
//! cache.

use std::collections::HashMap;
use vstd::prelude::*;

use crate::board::Board;
use crate::evaluation::{lemma_static_score_bound, EvalResult, SCORE_LIMIT};
use crate::line::{
    backed, lemma_leaf_realized, lemma_step_backed, lemma_step_realized, lemma_win_backed, realized,
};
use crate::player::Player;
use crate::position::{lemma_immediate_win_from, lemma_play, lemma_room_bounds};
use crate::replay::{filed, lemma_minimax_keeps_entries, lemma_settled_stays, no_better, settled};
use crate::search::{
    at_distance, best_move, cache_ok, candidates, center_out, center_out_below, entry_ok,
    faster_win, lemma_cache_insert, lemma_candidates, lemma_ordered_moves,
    lemma_running_game_has_move, minimax_value, root_search, search_moves, worst_score,
};
use crate::COLS;

pub use crate::search::MoveResult;

verus! {

/// The engine. It owns the transposition cache, which lives as long as the
/// engine does.
pub struct Solver {
    memo: HashMap<u128, EvalResult>,
}

impl View for Solver {
    type V = Map<u128, EvalResult>;

    /// The entries of the transposition cache.
    closed spec fn view(&self) -> Map<u128, EvalResult> {
        self.memo@
    }
}

impl Default for Solver {
    /// An engine with an empty cache.
    fn default() -> (solver: Solver)
        ensures
            solver@ == Map::<u128, EvalResult>::empty(),
            solver.wf(),
    {
        Solver::new()
    }
}

impl Solver {
    /// Every entry of the cache is a possible result of a search.
    pub open spec fn wf(&self) -> bool {
        cache_ok(self@)
    }

    /// Creates an engine with an empty cache.
    pub fn new() -> (solver: Solver)
        ensures
            solver@ == Map::<u128, EvalResult>::empty(),
            solver.wf(),
    {
        Solver { memo: HashMap::new() }
    }

    /// Forgets every entry of the cache.
    pub fn clear_cache(&mut self)
        ensures
            final(self)@ == Map::<u128, EvalResult>::empty(),
            final(self).wf(),
    {
        self.memo.clear();
    }

    /// Breaks a tie between a new result and the best so far, both of the
    /// same score, by their ply counts.
    pub fn is_faster_win(
        &self,
        new_moves: Option<u8>,
        current_best: Option<u8>,
        ai_maximizes: bool,
    ) -> (faster: bool)
        ensures
            faster == faster_win(new_moves, current_best, ai_maximizes),
    {
        match (new_moves, current_best) {
            (Some(new), Some(current)) => {
                if ai_maximizes {
                    new < current
                } else {
                    new > current
                }
            },
            (Some(_), None) => true,
            _ => false,
        }
    }

    /// Arranges columns of the board by distance from the center column, the
    /// center first; columns at the same distance keep their order.
    pub fn order_moves_center_out(&self, moves: &mut Vec<usize>)
        requires
            forall|i: int| 0 <= i < old(moves)@.len() ==> old(moves)@[i] < COLS,
        ensures
            final(moves)@ == center_out(old(moves)@),
    {
        let mut ordered: Vec<usize> = Vec::new();
        let mut distance: usize = 0;
        while distance < 4
            invariant
                distance <= 4,
                *moves == *old(moves),
                ordered@ == center_out_below(moves@, distance as nat),
            decreases 4 - distance,
        {
            let mut i: usize = 0;
            proof {
                assert(moves@.subrange(0, 0).filter(at_distance(distance as int)) =~= Seq::<
                    usize,
                >::empty()) by {
                    reveal(Seq::filter);
                }
                assert(ordered@ + Seq::<usize>::empty() =~= ordered@);
            }
            while i < moves.len()
                invariant
                    distance < 4,
                    i <= moves.len(),
                    *moves == *old(moves),
                    ordered@ == center_out_below(moves@, distance as nat) + moves@.subrange(
                        0,
                        i as int,
                    ).filter(at_distance(distance as int)),
                decreases moves.len() - i,
            {
                let col = moves[i];
                let away: usize = if col >= 3 {
                    col - 3
                } else {
                    3 - col
                };
                proof {
                    let before = moves@.subrange(0, i as int);
                    assert(moves@.subrange(0, i + 1) =~= before.push(col));
                    before.lemma_filter_push(col, at_distance(distance as int));
                    let kept = before.filter(at_distance(distance as int));
                    let head = center_out_below(moves@, distance as nat);
                    assert((head + kept).push(col) =~= head + kept.push(col));
                }
                if away == distance {
                    ordered.push(col);
                }
                i = i + 1;
            }
            proof {
                assert(moves@.subrange(0, moves@.len() as int) =~= moves@);
            }
            distance = distance + 1;
        }
        proof {
            reveal_with_fuel(center_out_below, 5);
            let cols = moves@;
            assert(Seq::<usize>::empty() + cols.filter(at_distance(0)) =~= cols.filter(
                at_distance(0),
            ));
        }
        *moves = ordered;
    }

    /// Looks for a column with which the side to move wins at once, from
    /// column 0 upwards.
    pub fn find_immediate_win(&self, board: &Board) -> (win: Option<usize>)
        requires
            board.wf(),
        ensures
            win == board@.immediate_win(),
    {
        let me = board.current_player();
        let mut col: usize = 0;
        while col < COLS
            invariant
                col <= COLS,
                board.wf(),
                me == board@.to_move,
                board@.immediate_win_from(col as int) == board@.immediate_win(),
            decreases COLS - col,
        {
            if board.is_valid_move(col) {
                let mut nb = *board;
                nb.make_move(col);
                let won = match nb.winner() {
                    Some(winner) => winner == me,
                    None => false,
                };
                if nb.is_game_over() && won {
                    return Some(col);
                }
            }
            col = col + 1;
        }
        None
    }

    /// Searches `board` to `depth` within the window from `alpha` to `beta`
    /// and returns the score that the side to move can reach, with the
    /// plies to the end of the game where the line of play ends it.
    /// `maximizing` says whether the side to move seeks the high scores.
    pub fn minimax(
        &mut self,
        board: &Board,
        depth: u8,
        alpha: i32,
        beta: i32,
        maximizing: bool,
    ) -> (result: EvalResult)
        requires
            old(self).wf(),
            board.wf(),
        ensures
            final(self).wf(),
            (result, final(self)@) == minimax_value(
                old(self)@,
                board@,
                depth as nat,
                alpha,
                beta,
                maximizing,
            ),
            entry_ok(result, board@, depth as nat),
        decreases depth,
    {
        broadcast use vstd::std_specs::hash::group_hash_axioms;

        if depth == 0 || board.is_game_over() {
            proof {
                lemma_room_bounds(board@);
                lemma_static_score_bound(board@);
                lemma_leaf_realized(board@, depth as nat);
            }
            return self.evaluate_board_with_depth(board, depth);
        }
        let board_key = self.board_key(board, depth);
        match self.memo.get(&board_key) {
            Some(cached) => {
                return *cached;
            },
            None => {},
        }
        let mut valid_moves = board.get_valid_moves();
        proof {
            lemma_ordered_moves(board@);
            lemma_running_game_has_move(board@);
        }
        self.order_moves_center_out(&mut valid_moves);
        let ghost start = self@;
        let ghost first = EvalResult { score: worst_score(maximizing), moves_to_outcome: None };
        let ghost goal = search_moves(
            start,
            board@,
            valid_moves@,
            0,
            depth as nat,
            alpha,
            beta,
            maximizing,
            first,
        );
        let mut alpha = alpha;
        let mut beta = beta;
        let mut best_result = EvalResult {
            score: if maximizing {
                i32::MIN
            } else {
                i32::MAX
            },
            moves_to_outcome: None,
        };
        let mut i: usize = 0;
        while i < valid_moves.len()
            invariant_except_break
                i > 0 ==> -SCORE_LIMIT <= best_result.score <= SCORE_LIMIT,
                i > 0 ==> realized(board@, best_result, depth as nat),
                i == 0 ==> best_result == first,
                search_moves(
                    self@,
                    board@,
                    valid_moves@,
                    i as int,
                    depth as nat,
                    alpha,
                    beta,
                    maximizing,
                    best_result,
                ) == goal,
            invariant
                self.wf(),
                board.wf(),
                !board@.over,
                depth > 0,
                valid_moves@ == board@.ordered_moves(),
                valid_moves@.len() > 0,
                i <= valid_moves.len(),
                first == (EvalResult { score: worst_score(maximizing), moves_to_outcome: None }),
                best_result.moves_to_outcome matches Some(m) ==> m <= depth && m <= board@.room(),
            ensures
                self.wf(),
                (best_result, self@) == goal,
                entry_ok(best_result, board@, depth as nat),
            decreases valid_moves.len() - i,
        {
            let col = valid_moves[i];
            let mut new_board = *board;
            proof {
                lemma_ordered_moves(board@);
                assert(board@.is_legal(valid_moves@[i as int] as int));
                lemma_play(board@, col as int);
            }
            new_board.make_move(col);
            let eval_result = self.minimax(&new_board, depth - 1, alpha, beta, !maximizing);
            proof {
                lemma_step_realized(board@, col, eval_result, depth as nat);
            }
            let is_better = if maximizing {
                eval_result.score > best_result.score || (eval_result.score == best_result.score
                    && self.is_faster_win(
                    eval_result.moves_to_outcome,
                    best_result.moves_to_outcome,
                    true,
                ))
            } else {
                eval_result.score < best_result.score || (eval_result.score == best_result.score
                    && self.is_faster_win(
                    eval_result.moves_to_outcome,
                    best_result.moves_to_outcome,
                    false,
                ))
            };
            if is_better {
                best_result =
                EvalResult {
                    score: eval_result.score,
                    moves_to_outcome: match eval_result.moves_to_outcome {
                        Some(m) => Some(m + 1),
                        None => None,
                    },
                };
            }
            if maximizing {
                if eval_result.score > alpha {
                    alpha = eval_result.score;
                }
            } else {
                if eval_result.score < beta {
                    beta = eval_result.score;
                }
            }
            if beta <= alpha {
                break ;
            }
            i = i + 1;
        }
        proof {
            lemma_cache_insert(self@, board@, depth, best_result);
        }
        self.memo.insert(board_key, best_result);
        best_result
    }

    /// Chooses a column for the side to move, searching each candidate to
    /// `depth`. Returns `None` when the game is over.
    pub fn find_best_move(&mut self, board: &Board, depth: u8) -> (result: Option<MoveResult>)
        requires
            old(self).wf(),
            board.wf(),
        ensures
            final(self).wf(),
            (result, final(self)@) == best_move(old(self)@, board@, depth as nat),
            result is None <==> board@.over,
            result matches Some(chosen) ==> board@.is_legal(chosen.column as int),
            board@.immediate_win() matches Some(col) ==> board@.wins_by(col as int) && result
                == Some(MoveResult { column: col, moves_to_win: Some(1u8) }),
            (exists|c: int| board@.wins_by(c)) ==> (result matches Some(chosen) && board@.wins_by(
                chosen.column as int,
            ) && chosen.moves_to_win == Some(1u8)),
            (exists|c: int| board@.is_legal(c) && !board@.hands_win(c)) ==> (result matches Some(
                chosen,
            ) && !board@.hands_win(chosen.column as int)),
            result matches Some(chosen) ==> (chosen.moves_to_win matches Some(m) ==> 1 <= m
                <= board@.room() && m <= depth + 1),
            result matches Some(chosen) ==> backed(board@, chosen, depth as nat),
            board@.immediate_win() is None ==> (result matches Some(chosen) ==> candidates(
                board@,
            ).contains(chosen.column) && forall|j: int|
                0 <= j < candidates(board@).len() ==> no_better(
                    board@.to_move,
                    filed(
                        final(self)@,
                        board@.play((#[trigger] candidates(board@)[j]) as int),
                        depth as nat,
                    ).score,
                    filed(final(self)@, board@.play(chosen.column as int), depth as nat).score,
                )),
    {
        proof {
            lemma_ordered_moves(board@);
            lemma_candidates(board@);
            lemma_immediate_win_from(board@, 0);
            lemma_room_bounds(board@);
        }
        if board.is_game_over() {
            return None;
        }
        proof {
            lemma_running_game_has_move(board@);
        }
        let mut valid_moves = board.get_valid_moves();
        if valid_moves.len() == 0 {
            return None;
        }
        if let Some(winning_col) = self.find_immediate_win(board) {
            proof {
                lemma_play(board@, winning_col as int);
                lemma_room_bounds(board@.play(winning_col as int));
                lemma_win_backed(board@, winning_col, depth as nat);
                lemma_immediate_win_from(board@.play(winning_col as int), 0);
            }
            return Some(MoveResult { column: winning_col, moves_to_win: Some(1) });
        }
        self.order_moves_center_out(&mut valid_moves);
        let mut best_move = valid_moves[0];
        let mut best_moves_to_win: Option<u8> = None;
        let ai_maximizes = board.current_player() == Player::Red;
        let mut best_score: i32 = if ai_maximizes {
            i32::MIN
        } else {
            i32::MAX
        };
        let mut non_losing_candidates: Vec<usize> = Vec::new();
        let mut k: usize = 0;
        proof {
            assert(valid_moves@.subrange(0, 0).filter(board@.safe_pred()) =~= Seq::<usize>::empty())
                by {
                reveal(Seq::filter);
            }
        }
        while k < valid_moves.len()
            invariant
                board.wf(),
                k <= valid_moves.len(),
                valid_moves@ == board@.ordered_moves(),
                non_losing_candidates@ == valid_moves@.subrange(0, k as int).filter(
                    board@.safe_pred(),
                ),
            decreases valid_moves.len() - k,
        {
            let col = valid_moves[k];
            let mut new_board = *board;
            proof {
                lemma_play(board@, col as int);
            }
            new_board.make_move(col);
            let opponent_has_mate_in_1 = self.find_immediate_win(&new_board).is_some();
            proof {
                let before = valid_moves@.subrange(0, k as int);
                assert(valid_moves@.subrange(0, k + 1) =~= before.push(col));
                before.lemma_filter_push(col, board@.safe_pred());
            }
            if !opponent_has_mate_in_1 {
                non_losing_candidates.push(col);
            }
            k = k + 1;
        }
        proof {
            assert(valid_moves@.subrange(0, valid_moves@.len() as int) =~= valid_moves@);
        }
        let search_space: Vec<usize> = if non_losing_candidates.len() > 0 {
            non_losing_candidates
        } else {
            valid_moves
        };
        let ghost start = self@;
        let ghost goal = root_search(
            start,
            board@,
            search_space@,
            0,
            depth as nat,
            ai_maximizes,
            best_score,
            MoveResult { column: best_move, moves_to_win: None },
        );
        let ghost mut picked: int = -1;
        let ghost mut values: Seq<EvalResult> = Seq::empty();
        let mut i: usize = 0;
        while i < search_space.len()
            invariant
                self.wf(),
                board.wf(),
                !board@.over,
                search_space@ == candidates(board@),
                i <= search_space.len(),
                ai_maximizes == (board@.to_move == Player::Red),
                i > 0 ==> -SCORE_LIMIT <= best_score <= SCORE_LIMIT && 0 <= picked < i && best_move
                    == search_space@[picked],
                i > 0 ==> backed(
                    board@,
                    MoveResult { column: best_move, moves_to_win: best_moves_to_win },
                    depth as nat,
                ),
                values.len() == i,
                forall|j: int|
                    0 <= j < i ==> settled(
                        self@,
                        board@.play(search_space@[j] as int),
                        depth as nat,
                        #[trigger] values[j],
                    ),
                forall|j: int|
                    0 <= j < i ==> no_better(board@.to_move, (#[trigger] values[j]).score, best_score),
                i > 0 ==> best_score == values[picked].score,
                i == 0 ==> best_score == worst_score(ai_maximizes) && best_moves_to_win is None,
                best_moves_to_win matches Some(m) ==> 1 <= m <= board@.room() && m <= depth + 1,
                root_search(
                    self@,
                    board@,
                    search_space@,
                    i as int,
                    depth as nat,
                    ai_maximizes,
                    best_score,
                    MoveResult { column: best_move, moves_to_win: best_moves_to_win },
                ) == goal,
            decreases search_space.len() - i,
        {
            let col = search_space[i];
            let mut new_board = *board;
            proof {
                lemma_candidates(board@);
                assert(board@.is_legal(search_space@[i as int] as int));
                lemma_play(board@, col as int);
                lemma_room_bounds(board@.play(col as int));
            }
            new_board.make_move(col);
            let ghost before = self@;
            let eval_result = self.minimax(&new_board, depth, i32::MIN, i32::MAX, !ai_maximizes);
            proof {
                lemma_step_backed(board@, col, eval_result, depth as nat);
                lemma_minimax_keeps_entries(
                    before,
                    new_board@,
                    depth as nat,
                    i32::MIN,
                    i32::MAX,
                    !ai_maximizes,
                );
                assert forall|j: int| 0 <= j < i implies settled(
                    self@,
                    board@.play(search_space@[j] as int),
                    depth as nat,
                    #[trigger] values[j],
                ) by {
                    lemma_settled_stays(
                        before,
                        self@,
                        board@.play(search_space@[j] as int),
                        depth as nat,
                        values[j],
                    );
                }
                values = values.push(eval_result);
            }
            let is_better = if ai_maximizes {
                eval_result.score > best_score || (eval_result.score == best_score
                    && self.is_faster_win(eval_result.moves_to_outcome, best_moves_to_win, ai_maximizes))
            } else {
                eval_result.score < best_score || (eval_result.score == best_score
                    && self.is_faster_win(eval_result.moves_to_outcome, best_moves_to_win, ai_maximizes))
            };
            if is_better {
                best_score = eval_result.score;
                best_move = col;
                best_moves_to_win =
                match eval_result.moves_to_outcome {
                    Some(m) => Some(m + 1),
                    None => None,
                };
                proof {
                    picked = i as int;
                }
            }
            i = i + 1;
        }
        proof {
            lemma_candidates(board@);
            assert(board@.is_legal(search_space@[picked] as int));
            assert forall|j: int| 0 <= j < search_space@.len() implies no_better(
                board@.to_move,
                filed(self@, board@.play((#[trigger] search_space@[j]) as int), depth as nat).score,
                filed(self@, board@.play(best_move as int), depth as nat).score,
            ) by {
                lemma_settled_stays(
                    self@,
                    self@,
                    board@.play(search_space@[j] as int),
                    depth as nat,
                    values[j],
                );
                lemma_settled_stays(
                    self@,
                    self@,
                    board@.play(search_space@[picked] as int),
                    depth as nat,
                    values[picked],
                );
            }
        }
        Some(MoveResult { column: best_move, moves_to_win: best_moves_to_win })
    }
}

} // verus!
