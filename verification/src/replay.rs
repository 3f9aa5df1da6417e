//! How the answer of a search depends on the transposition cache.
//!
//! A search only adds entries to the cache, and it leaves the result of every
//! position that it has searched on file. So a search that is run again on
//! the cache that it left behind gives the same answer and adds nothing. At
//! depth 0 the cache is not consulted at all.

use vstd::prelude::*;

use crate::cache_key::cache_key;
use crate::evaluation::EvalResult;
use crate::position::Position;
use crate::player::Player;
use crate::search::{
    best_move, candidates, higher, improves, lower, minimax_value, one_more, root_search,
    search_moves, worst_score, MoveResult,
};

verus! {

/// Every entry of `small` is an entry of `big`.
pub open spec fn extends(big: Map<u128, EvalResult>, small: Map<u128, EvalResult>) -> bool {
    forall|key: u128| #[trigger]
        small.contains_key(key) ==> big.contains_key(key) && big[key] == small[key]
}

/// With `cache`, the search of `pos` to `depth` has the result `result`
/// whatever the window: it is the static evaluation, or it is on file.
pub open spec fn settled(
    cache: Map<u128, EvalResult>,
    pos: Position,
    depth: nat,
    result: EvalResult,
) -> bool {
    if depth == 0 || pos.over {
        result == pos.static_eval()
    } else {
        cache.contains_key(cache_key(pos, depth as u8)) && cache[cache_key(pos, depth as u8)]
            == result
    }
}

/// The result of the search of `pos` to `depth` that is on file in `cache`:
/// the static evaluation at depth 0 and at the end of the game, else the
/// entry of the cache.
pub open spec fn filed(cache: Map<u128, EvalResult>, pos: Position, depth: nat) -> EvalResult {
    if depth == 0 || pos.over {
        pos.static_eval()
    } else {
        cache[cache_key(pos, depth as u8)]
    }
}

/// The score `other` is no better for `mover` than the score `mine`: no
/// higher for `Red`, no lower for `Yellow`.
pub open spec fn no_better(mover: Player, other: i32, mine: i32) -> bool {
    if mover == Player::Red {
        other <= mine
    } else {
        other >= mine
    }
}

/// A settled result stays settled when the cache grows.
pub proof fn lemma_settled_stays(
    cache: Map<u128, EvalResult>,
    later: Map<u128, EvalResult>,
    pos: Position,
    depth: nat,
    result: EvalResult,
)
    requires
        settled(cache, pos, depth, result),
        extends(later, cache),
    ensures
        settled(later, pos, depth, result),
        filed(later, pos, depth) == result,
{
    if !(depth == 0 || pos.over) {
        assert(cache.contains_key(cache_key(pos, depth as u8)));
    }
}

/// A search keeps the entries of the cache, and leaves its result settled.
pub proof fn lemma_minimax_keeps_entries(
    cache: Map<u128, EvalResult>,
    pos: Position,
    depth: nat,
    alpha: i32,
    beta: i32,
    maximizing: bool,
)
    ensures
        extends(minimax_value(cache, pos, depth, alpha, beta, maximizing).1, cache),
        settled(
            minimax_value(cache, pos, depth, alpha, beta, maximizing).1,
            pos,
            depth,
            minimax_value(cache, pos, depth, alpha, beta, maximizing).0,
        ),
    decreases depth, 1nat, 0nat,
{
    if depth == 0 || pos.over {
    } else {
        let key = cache_key(pos, depth as u8);
        if !cache.contains_key(key) {
            let first = EvalResult { score: worst_score(maximizing), moves_to_outcome: None };
            lemma_search_moves_keeps_entries(
                cache,
                pos,
                pos.ordered_moves(),
                0,
                depth,
                alpha,
                beta,
                maximizing,
                first,
            );
        }
    }
}

/// Trying the moves of a position keeps the entries of the cache.
pub proof fn lemma_search_moves_keeps_entries(
    cache: Map<u128, EvalResult>,
    pos: Position,
    moves: Seq<usize>,
    from: int,
    depth: nat,
    alpha: i32,
    beta: i32,
    maximizing: bool,
    best: EvalResult,
)
    ensures
        extends(search_moves(cache, pos, moves, from, depth, alpha, beta, maximizing, best).1, cache),
    decreases depth, 0nat, moves.len() - from,
{
    if from < 0 || from >= moves.len() || depth == 0 {
    } else {
        let child_pos = pos.play(moves[from] as int);
        let (child, cache1) = minimax_value(
            cache,
            child_pos,
            (depth - 1) as nat,
            alpha,
            beta,
            !maximizing,
        );
        lemma_minimax_keeps_entries(cache, child_pos, (depth - 1) as nat, alpha, beta, !maximizing);
        let best1 = if improves(child, best.score, best.moves_to_outcome, maximizing) {
            EvalResult { score: child.score, moves_to_outcome: one_more(child.moves_to_outcome) }
        } else {
            best
        };
        let alpha1 = if maximizing {
            higher(alpha, child.score)
        } else {
            alpha
        };
        let beta1 = if maximizing {
            beta
        } else {
            lower(beta, child.score)
        };
        if beta1 > alpha1 {
            lemma_search_moves_keeps_entries(
                cache1,
                pos,
                moves,
                from + 1,
                depth,
                alpha1,
                beta1,
                maximizing,
                best1,
            );
        }
    }
}

/// A settled result is what the search returns, and the search then leaves
/// the cache as it is.
pub proof fn lemma_settled_is_returned(
    cache: Map<u128, EvalResult>,
    pos: Position,
    depth: nat,
    result: EvalResult,
    alpha: i32,
    beta: i32,
    maximizing: bool,
)
    requires
        settled(cache, pos, depth, result),
    ensures
        minimax_value(cache, pos, depth, alpha, beta, maximizing) == (result, cache),
{
}

/// The choice at the root keeps the entries of the cache.
pub proof fn lemma_root_search_keeps_entries(
    cache: Map<u128, EvalResult>,
    pos: Position,
    space: Seq<usize>,
    from: int,
    depth: nat,
    maximizing: bool,
    best_score: i32,
    best: MoveResult,
)
    ensures
        extends(root_search(cache, pos, space, from, depth, maximizing, best_score, best).1, cache),
    decreases space.len() - from,
{
    if from < 0 || from >= space.len() {
    } else {
        let child_pos = pos.play(space[from] as int);
        let (child, cache1) = minimax_value(
            cache,
            child_pos,
            depth,
            i32::MIN,
            i32::MAX,
            !maximizing,
        );
        lemma_minimax_keeps_entries(cache, child_pos, depth, i32::MIN, i32::MAX, !maximizing);
        if improves(child, best_score, best.moves_to_win, maximizing) {
            lemma_root_search_keeps_entries(
                cache1,
                pos,
                space,
                from + 1,
                depth,
                maximizing,
                child.score,
                MoveResult { column: space[from], moves_to_win: one_more(child.moves_to_outcome) },
            );
        } else {
            lemma_root_search_keeps_entries(
                cache1,
                pos,
                space,
                from + 1,
                depth,
                maximizing,
                best_score,
                best,
            );
        }
    }
}

/// The choice at the root, made again on a cache that holds all that the
/// first choice left behind, comes out the same and leaves that cache as it
/// is.
pub proof fn lemma_root_search_again(
    cache: Map<u128, EvalResult>,
    later: Map<u128, EvalResult>,
    pos: Position,
    space: Seq<usize>,
    from: int,
    depth: nat,
    maximizing: bool,
    best_score: i32,
    best: MoveResult,
)
    requires
        extends(later, root_search(cache, pos, space, from, depth, maximizing, best_score, best).1),
    ensures
        root_search(later, pos, space, from, depth, maximizing, best_score, best) == (
            root_search(cache, pos, space, from, depth, maximizing, best_score, best).0,
            later,
        ),
    decreases space.len() - from,
{
    if from < 0 || from >= space.len() {
    } else {
        let child_pos = pos.play(space[from] as int);
        let (child, cache1) = minimax_value(
            cache,
            child_pos,
            depth,
            i32::MIN,
            i32::MAX,
            !maximizing,
        );
        lemma_minimax_keeps_entries(cache, child_pos, depth, i32::MIN, i32::MAX, !maximizing);
        let (score1, best1) = if improves(child, best_score, best.moves_to_win, maximizing) {
            (
                child.score,
                MoveResult { column: space[from], moves_to_win: one_more(child.moves_to_outcome) },
            )
        } else {
            (best_score, best)
        };
        lemma_root_search_keeps_entries(cache1, pos, space, from + 1, depth, maximizing, score1, best1);
        let last = root_search(cache1, pos, space, from + 1, depth, maximizing, score1, best1).1;
        assert(settled(later, child_pos, depth, child)) by {
            if !(depth == 0 || child_pos.over) {
                let key = cache_key(child_pos, depth as u8);
                assert(cache1.contains_key(key));
                assert(last.contains_key(key));
                assert(later.contains_key(key));
            }
        }
        lemma_settled_is_returned(later, child_pos, depth, child, i32::MIN, i32::MAX, !maximizing);
        lemma_root_search_again(cache1, later, pos, space, from + 1, depth, maximizing, score1, best1);
    }
}

/// A search only adds to the cache: every entry that the cache held before
/// the search it holds after it, unchanged.
pub proof fn lemma_search_keeps_entries(cache: Map<u128, EvalResult>, pos: Position, depth: nat)
    ensures
        extends(best_move(cache, pos, depth).1, cache),
{
    let maximizing = pos.to_move == Player::Red;
    lemma_root_search_keeps_entries(
        cache,
        pos,
        candidates(pos),
        0,
        depth,
        maximizing,
        worst_score(maximizing),
        MoveResult { column: pos.ordered_moves()[0], moves_to_win: None },
    );
}

/// The same search run twice in a row gives the same answer twice, and the
/// second run adds nothing to the cache: the entries that the first run left
/// behind do not change what is returned.
pub proof fn lemma_repeated_search(cache: Map<u128, EvalResult>, pos: Position, depth: nat)
    ensures
        best_move(best_move(cache, pos, depth).1, pos, depth) == best_move(cache, pos, depth),
{
    let maximizing = pos.to_move == Player::Red;
    let after = best_move(cache, pos, depth).1;
    if !pos.over && pos.legal_columns().len() > 0 && pos.immediate_win() is None {
        lemma_root_search_again(
            cache,
            after,
            pos,
            candidates(pos),
            0,
            depth,
            maximizing,
            worst_score(maximizing),
            MoveResult { column: pos.ordered_moves()[0], moves_to_win: None },
        );
    }
}

/// At depth 0 the choice at the root does not consult the cache.
pub proof fn lemma_root_search_without_cache(
    one: Map<u128, EvalResult>,
    other: Map<u128, EvalResult>,
    pos: Position,
    space: Seq<usize>,
    from: int,
    maximizing: bool,
    best_score: i32,
    best: MoveResult,
)
    ensures
        root_search(one, pos, space, from, 0, maximizing, best_score, best).1 == one,
        root_search(one, pos, space, from, 0, maximizing, best_score, best).0 == root_search(
            other,
            pos,
            space,
            from,
            0,
            maximizing,
            best_score,
            best,
        ).0,
    decreases space.len() - from,
{
    if from < 0 || from >= space.len() {
    } else {
        let child = pos.play(space[from] as int).static_eval();
        if improves(child, best_score, best.moves_to_win, maximizing) {
            lemma_root_search_without_cache(
                one,
                other,
                pos,
                space,
                from + 1,
                maximizing,
                child.score,
                MoveResult { column: space[from], moves_to_win: one_more(child.moves_to_outcome) },
            );
        } else {
            lemma_root_search_without_cache(
                one,
                other,
                pos,
                space,
                from + 1,
                maximizing,
                best_score,
                best,
            );
        }
    }
}

/// At depth 0 the answer is the same with every cache, a cleared one
/// included, and the search leaves the cache as it is.
pub proof fn lemma_depth_zero_ignores_cache(
    one: Map<u128, EvalResult>,
    other: Map<u128, EvalResult>,
    pos: Position,
)
    ensures
        best_move(one, pos, 0).0 == best_move(other, pos, 0).0,
        best_move(one, pos, 0).1 == one,
{
    let maximizing = pos.to_move == Player::Red;
    lemma_root_search_without_cache(
        one,
        other,
        pos,
        candidates(pos),
        0,
        maximizing,
        worst_score(maximizing),
        MoveResult { column: pos.ordered_moves()[0], moves_to_win: None },
    );
}

/// An answer that needs no search does not depend on the cache: a finished
/// game has none, and a win at once is taken, at every depth and with every
/// cache.
pub proof fn lemma_immediate_answers_ignore_cache(
    one: Map<u128, EvalResult>,
    other: Map<u128, EvalResult>,
    pos: Position,
    depth: nat,
)
    requires
        pos.over || pos.legal_columns().len() == 0 || pos.immediate_win() is Some,
    ensures
        best_move(one, pos, depth).0 == best_move(other, pos, depth).0,
        best_move(one, pos, depth).1 == one,
{
}

} // verus!
