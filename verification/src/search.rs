//! What the search returns, as mathematics.
//!
//! The engine's answer depends on the position, the depth and the entries
//! that the transposition cache holds when the search starts: a search under
//! a narrowed window files its result under the position's key, and a later
//! search that meets the key takes the entry as it stands. The functions of
//! this module therefore thread the cache through the search.

use vstd::prelude::*;

use crate::cache_key::{cache_key, lemma_cache_key_injective};
use crate::evaluation::{EvalResult, SCORE_LIMIT};
use crate::line::{lemma_grid_tells_position, realized};
use crate::player::Player;
use crate::position::{columns_upto, Position};

verus! {

/// The engine's answer: the column to play and, where the line of play that
/// was chosen ends the game within the search horizon, the number of plies
/// to that end, the chosen move included.
#[derive(Debug, Clone, Copy)]
pub struct MoveResult {
    pub column: usize,
    pub moves_to_win: Option<u8>,
}

/// The distance of a column from the center column.
pub open spec fn center_distance(col: usize) -> int {
    if col >= 3 {
        col - 3
    } else {
        3 - col
    }
}

/// The test that picks the columns at distance `d` from the center.
pub open spec fn at_distance(d: int) -> spec_fn(usize) -> bool {
    |c: usize| center_distance(c) == d
}

/// The columns of `cols` by distance from the center, the center first;
/// columns at the same distance keep their order.
pub open spec fn center_out(cols: Seq<usize>) -> Seq<usize> {
    cols.filter(at_distance(0)) + cols.filter(at_distance(1)) + cols.filter(at_distance(2))
        + cols.filter(at_distance(3))
}

/// One ply more: the ply count of a position seen from its parent.
pub open spec fn one_more(moves: Option<u8>) -> Option<u8> {
    match moves {
        Some(m) => Some((m + 1) as u8),
        None => None,
    }
}

/// The rule that breaks a tie between two results of equal score. A known
/// outcome beats an unknown one. Of two known outcomes the maximizing side
/// takes the one with fewer plies, the minimizing side the one with more.
pub open spec fn faster_win(new_moves: Option<u8>, current_best: Option<u8>, maximizing: bool) -> bool {
    match (new_moves, current_best) {
        (Some(new), Some(current)) => if maximizing {
            new < current
        } else {
            new > current
        },
        (Some(_), None) => true,
        _ => false,
    }
}

/// Whether a result replaces the best one so far: by a better score, or by
/// the tie-break at equal score.
pub open spec fn improves(
    candidate: EvalResult,
    best_score: i32,
    best_moves: Option<u8>,
    maximizing: bool,
) -> bool {
    if maximizing {
        candidate.score > best_score || (candidate.score == best_score && faster_win(
            candidate.moves_to_outcome,
            best_moves,
            true,
        ))
    } else {
        candidate.score < best_score || (candidate.score == best_score && faster_win(
            candidate.moves_to_outcome,
            best_moves,
            false,
        ))
    }
}

/// The score that every result improves on.
pub open spec fn worst_score(maximizing: bool) -> i32 {
    if maximizing {
        i32::MIN
    } else {
        i32::MAX
    }
}

/// The larger of two scores.
pub open spec fn higher(a: i32, b: i32) -> i32 {
    if a >= b {
        a
    } else {
        b
    }
}

/// The smaller of two scores.
pub open spec fn lower(a: i32, b: i32) -> i32 {
    if a <= b {
        a
    } else {
        b
    }
}

impl Position {
    /// The legal columns in the order in which the search tries them.
    pub open spec fn ordered_moves(self) -> Seq<usize> {
        center_out(self.legal_columns())
    }

    /// The test that picks the columns that do not let the opponent win with
    /// the reply.
    pub open spec fn safe_pred(self) -> spec_fn(usize) -> bool {
        |c: usize| !self.hands_win(c as int)
    }

    /// The static evaluation as a result of the search.
    pub open spec fn static_eval(self) -> EvalResult {
        EvalResult {
            score: self.static_score() as i32,
            moves_to_outcome: if self.decided() {
                Some(0u8)
            } else {
                None
            },
        }
    }
}

/// The result of trying the moves `moves[from..]` of `pos` in turn, with
/// `best` the best result of the moves before them, and the cache after it.
/// `depth` is the depth left at `pos`, at least 1.
pub open spec fn search_moves(
    cache: Map<u128, EvalResult>,
    pos: Position,
    moves: Seq<usize>,
    from: int,
    depth: nat,
    alpha: i32,
    beta: i32,
    maximizing: bool,
    best: EvalResult,
) -> (EvalResult, Map<u128, EvalResult>)
    decreases depth, 0nat, moves.len() - from,
{
    if from < 0 || from >= moves.len() || depth == 0 {
        (best, cache)
    } else {
        let (child, cache1) = minimax_value(
            cache,
            pos.play(moves[from] as int),
            (depth - 1) as nat,
            alpha,
            beta,
            !maximizing,
        );
        let best1 = if improves(child, best.score, best.moves_to_outcome, maximizing) {
            EvalResult { score: child.score, moves_to_outcome: one_more(child.moves_to_outcome) }
        } else {
            best
        };
        let alpha1 = if maximizing {
            higher(alpha, child.score)
        } else {
            alpha
        };
        let beta1 = if maximizing {
            beta
        } else {
            lower(beta, child.score)
        };
        if beta1 <= alpha1 {
            (best1, cache1)
        } else {
            search_moves(cache1, pos, moves, from + 1, depth, alpha1, beta1, maximizing, best1)
        }
    }
}

/// The result of the search of `pos` to `depth` within the window from
/// `alpha` to `beta`, and the cache after it. At depth 0 and at the end of
/// the game it is the static evaluation. Otherwise an entry of the cache for
/// the position and the depth is returned as it is; where there is none, the
/// moves are tried center first, the best result is kept, the search stops
/// when the window closes, and the result is filed in the cache.
pub open spec fn minimax_value(
    cache: Map<u128, EvalResult>,
    pos: Position,
    depth: nat,
    alpha: i32,
    beta: i32,
    maximizing: bool,
) -> (EvalResult, Map<u128, EvalResult>)
    decreases depth, 1nat, 0nat,
{
    if depth == 0 || pos.over {
        (pos.static_eval(), cache)
    } else {
        let key = cache_key(pos, depth as u8);
        if cache.contains_key(key) {
            (cache[key], cache)
        } else {
            let (best, cache1) = search_moves(
                cache,
                pos,
                pos.ordered_moves(),
                0,
                depth,
                alpha,
                beta,
                maximizing,
                EvalResult { score: worst_score(maximizing), moves_to_outcome: None },
            );
            (best, cache1.insert(key, best))
        }
    }
}

/// The choice among the candidates `space[from..]` at the root, with the
/// best of the candidates before them, and the cache after it. Each
/// candidate is searched to `depth` within the full window.
pub open spec fn root_search(
    cache: Map<u128, EvalResult>,
    pos: Position,
    space: Seq<usize>,
    from: int,
    depth: nat,
    maximizing: bool,
    best_score: i32,
    best: MoveResult,
) -> (MoveResult, Map<u128, EvalResult>)
    decreases space.len() - from,
{
    if from < 0 || from >= space.len() {
        (best, cache)
    } else {
        let (child, cache1) = minimax_value(
            cache,
            pos.play(space[from] as int),
            depth,
            i32::MIN,
            i32::MAX,
            !maximizing,
        );
        if improves(child, best_score, best.moves_to_win, maximizing) {
            root_search(
                cache1,
                pos,
                space,
                from + 1,
                depth,
                maximizing,
                child.score,
                MoveResult { column: space[from], moves_to_win: one_more(child.moves_to_outcome) },
            )
        } else {
            root_search(cache1, pos, space, from + 1, depth, maximizing, best_score, best)
        }
    }
}

/// The candidates of the root: the legal columns, center first, that do not
/// let the opponent win with the reply; all legal columns, center first, if
/// every one of them does.
pub open spec fn candidates(pos: Position) -> Seq<usize> {
    let safe = pos.ordered_moves().filter(pos.safe_pred());
    if safe.len() > 0 {
        safe
    } else {
        pos.ordered_moves()
    }
}

/// The engine's answer for `pos` at `depth` with the cache `cache`, and the
/// cache after the search. There is no answer when the game is over or no
/// column is legal. A column that wins at once is answered without search,
/// the lowest such column, with one ply to the win. Otherwise the candidates
/// are searched; `Red` keeps the highest score and `Yellow` the lowest.
pub open spec fn best_move(cache: Map<u128, EvalResult>, pos: Position, depth: nat) -> (
    Option<MoveResult>,
    Map<u128, EvalResult>,
) {
    if pos.over || pos.legal_columns().len() == 0 {
        (None, cache)
    } else {
        match pos.immediate_win() {
            Some(col) => (Some(MoveResult { column: col, moves_to_win: Some(1u8) }), cache),
            None => {
                let maximizing = pos.to_move == Player::Red;
                let (best, cache1) = root_search(
                    cache,
                    pos,
                    candidates(pos),
                    0,
                    depth,
                    maximizing,
                    worst_score(maximizing),
                    MoveResult { column: pos.ordered_moves()[0], moves_to_win: None },
                );
                (Some(best), cache1)
            },
        }
    }
}

/// What holds of a result of the search of `pos` to `depth`: the score is
/// within the limit, a ply count is no more than the depth and no more than
/// the cells that are left, and some line of play from `pos` gives the
/// result.
pub open spec fn entry_ok(entry: EvalResult, pos: Position, depth: nat) -> bool {
    &&& -SCORE_LIMIT <= entry.score <= SCORE_LIMIT
    &&& entry.moves_to_outcome matches Some(m) ==> m <= depth && m <= pos.room()
    &&& realized(pos, entry, depth)
}

/// The invariant of the cache: every entry is a possible result for every
/// reachable position and depth that it is filed under.
pub open spec fn cache_ok(cache: Map<u128, EvalResult>) -> bool {
    forall|pos: Position, depth: u8|
        pos.wf() && #[trigger] cache.contains_key(cache_key(pos, depth)) ==> entry_ok(
            cache[cache_key(pos, depth)],
            pos,
            depth as nat,
        )
}

/// The columns of `cols` at a distance below `d` from the center, by
/// distance.
pub open spec fn center_out_below(cols: Seq<usize>, d: nat) -> Seq<usize>
    decreases d,
{
    if d == 0 {
        Seq::empty()
    } else {
        center_out_below(cols, (d - 1) as nat) + cols.filter(at_distance(d - 1))
    }
}

/// The legal columns make up the ordered moves: a column is among the
/// ordered moves exactly when it is legal, and there is an ordered move when
/// there is a legal column.
pub proof fn lemma_ordered_moves(pos: Position)
    ensures
        forall|i: int|
            0 <= i < pos.ordered_moves().len() ==> pos.is_legal(
                (#[trigger] pos.ordered_moves()[i]) as int,
            ),
        forall|c: int|
            pos.is_legal(c) ==> 0 <= c < 7 && #[trigger] pos.ordered_moves().contains(c as usize),
        forall|i: int|
            0 <= i < pos.legal_columns().len() ==> pos.is_legal(
                (#[trigger] pos.legal_columns()[i]) as int,
            ),
        pos.legal_columns().len() > 0 <==> pos.ordered_moves().len() > 0,
        pos.legal_columns().len() > 0 <==> exists|c: int| pos.is_legal(c),
{
    broadcast use vstd::seq_lib::group_filter_ensures;

    let all = columns_upto(7);
    let legal = pos.legal_columns();
    let ordered = pos.ordered_moves();
    let (f0, f1, f2, f3) = (
        legal.filter(at_distance(0)),
        legal.filter(at_distance(1)),
        legal.filter(at_distance(2)),
        legal.filter(at_distance(3)),
    );
    assert forall|i: int| 0 <= i < legal.len() implies pos.is_legal((#[trigger] legal[i]) as int) by {
        all.lemma_filter_pred(pos.legal_pred(), i);
    }
    assert forall|i: int| 0 <= i < ordered.len() implies pos.is_legal(
        (#[trigger] ordered[i]) as int,
    ) by {
        let c = ordered[i];
        assert(f0.contains(c) || f1.contains(c) || f2.contains(c) || f3.contains(c)) by {
            if i < f0.len() {
                assert(f0[i] == c);
            } else if i < f0.len() + f1.len() {
                assert(f1[i - f0.len()] == c);
            } else if i < f0.len() + f1.len() + f2.len() {
                assert(f2[i - f0.len() - f1.len()] == c);
            } else {
                assert(f3[i - f0.len() - f1.len() - f2.len()] == c);
            }
        }
        if f0.contains(c) {
            legal.lemma_filter_contains_rev(at_distance(0), c);
        } else if f1.contains(c) {
            legal.lemma_filter_contains_rev(at_distance(1), c);
        } else if f2.contains(c) {
            legal.lemma_filter_contains_rev(at_distance(2), c);
        } else {
            legal.lemma_filter_contains_rev(at_distance(3), c);
        }
        let j = choose|j: int| 0 <= j < legal.len() && legal[j] == c;
        assert(pos.is_legal(legal[j] as int));
    }
    assert forall|c: int| pos.is_legal(c) implies 0 <= c < 7 && #[trigger] ordered.contains(
        c as usize,
    ) by {
        let col = c as usize;
        assert(all[c] == col);
        assert((pos.legal_pred())(all[c]));
        all.lemma_filter_contains(pos.legal_pred(), c);
        let j = choose|j: int| 0 <= j < legal.len() && legal[j] == col;
        let d = center_distance(col);
        assert(0 <= d <= 3);
        assert((at_distance(d))(legal[j]));
        legal.lemma_filter_contains(at_distance(d), j);
        let fd = legal.filter(at_distance(d));
        let k = choose|k: int| 0 <= k < fd.len() && fd[k] == col;
        if d == 0 {
            assert(ordered[k] == col);
        } else if d == 1 {
            assert(ordered[f0.len() + k] == col);
        } else if d == 2 {
            assert(ordered[f0.len() + f1.len() + k] == col);
        } else {
            assert(ordered[f0.len() + f1.len() + f2.len() + k] == col);
        }
    }
    if legal.len() > 0 {
        let c = legal[0] as int;
        assert(pos.is_legal(c));
        assert(pos.ordered_moves().contains(c as usize));
    }
    if ordered.len() > 0 {
        assert(pos.is_legal(ordered[0] as int));
        if legal.len() == 0 {
            assert(f0.len() == 0 && f1.len() == 0 && f2.len() == 0 && f3.len() == 0);
        }
    }
    if exists|c: int| pos.is_legal(c) {
        let c = choose|c: int| pos.is_legal(c);
        assert(ordered.contains(c as usize));
    }
}

/// A reachable position whose game is not over has a legal column.
pub proof fn lemma_running_game_has_move(pos: Position)
    requires
        pos.wf(),
        !pos.over,
    ensures
        pos.legal_columns().len() > 0,
        pos.ordered_moves().len() > 0,
{
    lemma_ordered_moves(pos);
    let c = choose|c: int| 0 <= c < 7 && pos.cell(0, c) is Empty;
    assert(pos.is_legal(c));
}

/// The candidates of the root are legal columns; there is one when a column
/// is legal; and where some legal column does not let the opponent win with
/// the reply, no candidate does.
pub proof fn lemma_candidates(pos: Position)
    ensures
        forall|i: int|
            0 <= i < candidates(pos).len() ==> pos.is_legal((#[trigger] candidates(pos)[i]) as int),
        pos.legal_columns().len() > 0 ==> candidates(pos).len() > 0,
        (exists|c: int| pos.is_legal(c) && !pos.hands_win(c)) ==> forall|i: int|
            0 <= i < candidates(pos).len() ==> !pos.hands_win((#[trigger] candidates(pos)[i]) as int),
{
    lemma_ordered_moves(pos);
    let ordered = pos.ordered_moves();
    let safe = ordered.filter(pos.safe_pred());
    assert forall|i: int| 0 <= i < safe.len() implies pos.is_legal((#[trigger] safe[i]) as int)
        && !pos.hands_win(safe[i] as int) by {
        ordered.lemma_filter_pred(pos.safe_pred(), i);
        assert(safe.contains(safe[i]));
        ordered.lemma_filter_contains_rev(pos.safe_pred(), safe[i]);
        let j = choose|j: int| 0 <= j < ordered.len() && ordered[j] == safe[i];
        assert(pos.is_legal(ordered[j] as int));
    }
    if exists|c: int| pos.is_legal(c) && !pos.hands_win(c) {
        let c = choose|c: int| pos.is_legal(c) && !pos.hands_win(c);
        assert(ordered.contains(c as usize));
        let j = choose|j: int| 0 <= j < ordered.len() && ordered[j] == c as usize;
        assert((pos.safe_pred())(ordered[j]));
        ordered.lemma_filter_contains(pos.safe_pred(), j);
        assert(safe.len() > 0);
    }
}

/// A possible result for a position stays one when it is filed in a cache
/// that holds only possible results.
pub proof fn lemma_cache_insert(
    cache: Map<u128, EvalResult>,
    pos: Position,
    depth: u8,
    entry: EvalResult,
)
    requires
        cache_ok(cache),
        pos.wf(),
        entry_ok(entry, pos, depth as nat),
    ensures
        cache_ok(cache.insert(cache_key(pos, depth), entry)),
{
    let key = cache_key(pos, depth);
    let after = cache.insert(key, entry);
    assert forall|other: Position, d: u8|
        other.wf() && #[trigger] after.contains_key(cache_key(other, d)) implies entry_ok(
        after[cache_key(other, d)],
        other,
        d as nat,
    ) by {
        if cache_key(other, d) == key {
            lemma_cache_key_injective(other, d, pos, depth);
            lemma_grid_tells_position(other, pos);
        } else {
            assert(cache.contains_key(cache_key(other, d)));
        }
    }
}

} // verus!
