//! Which entries of the cache a search can meet.
//!
//! A search of a position to a depth looks up and files only entries whose
//! position has as many cells left beyond the depth filed with it as the
//! searched position has beyond the depth of the search: one ply down the
//! tree takes one cell and one ply of depth. Entries of another such margin
//! play no part. So a cache that holds only entries of other margins, as the
//! searches of earlier turns of a game at one depth leave behind, can be
//! cleared without a change to the answer.

use vstd::prelude::*;

use crate::cache_key::{cache_key, lemma_cache_key_injective};
use crate::evaluation::EvalResult;
use crate::line::lemma_grid_tells_position;
use crate::player::Player;
use crate::position::{lemma_play, Position};
use crate::search::{
    best_move, candidates, higher, improves, lemma_candidates, lemma_ordered_moves, lower,
    minimax_value, one_more, root_search, search_moves, worst_score, MoveResult,
};

verus! {

/// The two caches hold the same entries for the reachable positions and
/// depths of margin `margin`: those with `margin` cells left beyond the
/// depth.
pub open spec fn agree_at(
    one: Map<u128, EvalResult>,
    other: Map<u128, EvalResult>,
    margin: int,
) -> bool {
    forall|pos: Position, depth: u8|
        pos.wf() && pos.room() - depth == margin ==> {
            let key = #[trigger] cache_key(pos, depth);
            &&& one.contains_key(key) == other.contains_key(key)
            &&& one.contains_key(key) ==> one[key] == other[key]
        }
}

/// The cache holds no entry for a reachable position and depth of margin
/// `margin`.
pub open spec fn silent_at(cache: Map<u128, EvalResult>, margin: int) -> bool {
    forall|pos: Position, depth: u8|
        pos.wf() && pos.room() - depth == margin ==> !cache.contains_key(
            #[trigger] cache_key(pos, depth),
        )
}

/// Caches that agree at a margin still agree at it when the same entry is
/// filed in both.
proof fn lemma_insert_agrees(
    one: Map<u128, EvalResult>,
    other: Map<u128, EvalResult>,
    margin: int,
    key: u128,
    entry: EvalResult,
)
    requires
        agree_at(one, other, margin),
    ensures
        agree_at(one.insert(key, entry), other.insert(key, entry), margin),
{
    assert forall|pos: Position, depth: u8| pos.wf() && pos.room() - depth == margin implies {
        let k = #[trigger] cache_key(pos, depth);
        &&& one.insert(key, entry).contains_key(k) == other.insert(key, entry).contains_key(k)
        &&& one.insert(key, entry).contains_key(k) ==> one.insert(key, entry)[k] == other.insert(
            key,
            entry,
        )[k]
    } by {
        let k = cache_key(pos, depth);
        if k != key {
            assert(one.contains_key(k) == other.contains_key(k));
        }
    }
}

/// An entry filed for a position of one margin leaves a cache silent at
/// every other margin at which it was silent.
proof fn lemma_insert_keeps_silence(
    cache: Map<u128, EvalResult>,
    pos: Position,
    depth: u8,
    entry: EvalResult,
    margin: int,
)
    requires
        pos.wf(),
        silent_at(cache, margin),
        margin != pos.room() - depth,
    ensures
        silent_at(cache.insert(cache_key(pos, depth), entry), margin),
{
    let after = cache.insert(cache_key(pos, depth), entry);
    assert forall|other: Position, d: u8|
        other.wf() && other.room() - d == margin implies !after.contains_key(
        #[trigger] cache_key(other, d),
    ) by {
        if cache_key(other, d) == cache_key(pos, depth) {
            lemma_cache_key_injective(other, d, pos, depth);
            lemma_grid_tells_position(other, pos);
        } else {
            assert(!cache.contains_key(cache_key(other, d)));
        }
    }
}

/// Two searches of a position whose caches agree at the margin of the
/// search give the same result, and their caches agree at that margin
/// afterwards. A cache that is silent at another margin stays silent at it.
pub proof fn lemma_minimax_margin(
    one: Map<u128, EvalResult>,
    other: Map<u128, EvalResult>,
    pos: Position,
    depth: nat,
    alpha: i32,
    beta: i32,
    maximizing: bool,
    quiet: int,
)
    requires
        pos.wf(),
        depth <= 255,
        agree_at(one, other, pos.room() - depth),
    ensures
        minimax_value(one, pos, depth, alpha, beta, maximizing).0 == minimax_value(
            other,
            pos,
            depth,
            alpha,
            beta,
            maximizing,
        ).0,
        agree_at(
            minimax_value(one, pos, depth, alpha, beta, maximizing).1,
            minimax_value(other, pos, depth, alpha, beta, maximizing).1,
            pos.room() - depth,
        ),
        silent_at(one, quiet) && quiet != pos.room() - depth ==> silent_at(
            minimax_value(one, pos, depth, alpha, beta, maximizing).1,
            quiet,
        ),
    decreases depth, 1nat, 0nat,
{
    if depth == 0 || pos.over {
    } else {
        let key = cache_key(pos, depth as u8);
        assert(one.contains_key(key) == other.contains_key(key));
        if !one.contains_key(key) {
            let first = EvalResult { score: worst_score(maximizing), moves_to_outcome: None };
            lemma_ordered_moves(pos);
            lemma_search_moves_margin(
                one,
                other,
                pos,
                pos.ordered_moves(),
                0,
                depth,
                alpha,
                beta,
                maximizing,
                first,
                quiet,
            );
            let (best, one1) = search_moves(
                one,
                pos,
                pos.ordered_moves(),
                0,
                depth,
                alpha,
                beta,
                maximizing,
                first,
            );
            let other1 = search_moves(
                other,
                pos,
                pos.ordered_moves(),
                0,
                depth,
                alpha,
                beta,
                maximizing,
                first,
            ).1;
            lemma_insert_agrees(one1, other1, pos.room() - depth, key, best);
            if silent_at(one, quiet) && quiet != pos.room() - depth {
                lemma_insert_keeps_silence(one1, pos, depth as u8, best, quiet);
            }
        }
    }
}

/// What `lemma_minimax_margin` says of a search, for the trying of the moves
/// of a position.
pub proof fn lemma_search_moves_margin(
    one: Map<u128, EvalResult>,
    other: Map<u128, EvalResult>,
    pos: Position,
    moves: Seq<usize>,
    from: int,
    depth: nat,
    alpha: i32,
    beta: i32,
    maximizing: bool,
    best: EvalResult,
    quiet: int,
)
    requires
        pos.wf(),
        1 <= depth <= 255,
        forall|i: int| 0 <= i < moves.len() ==> pos.is_legal((#[trigger] moves[i]) as int),
        agree_at(one, other, pos.room() - depth),
    ensures
        search_moves(one, pos, moves, from, depth, alpha, beta, maximizing, best).0 == search_moves(
            other,
            pos,
            moves,
            from,
            depth,
            alpha,
            beta,
            maximizing,
            best,
        ).0,
        agree_at(
            search_moves(one, pos, moves, from, depth, alpha, beta, maximizing, best).1,
            search_moves(other, pos, moves, from, depth, alpha, beta, maximizing, best).1,
            pos.room() - depth,
        ),
        silent_at(one, quiet) && quiet != pos.room() - depth ==> silent_at(
            search_moves(one, pos, moves, from, depth, alpha, beta, maximizing, best).1,
            quiet,
        ),
    decreases depth, 0nat, moves.len() - from,
{
    if from < 0 || from >= moves.len() {
    } else {
        let child_pos = pos.play(moves[from] as int);
        lemma_play(pos, moves[from] as int);
        lemma_minimax_margin(
            one,
            other,
            child_pos,
            (depth - 1) as nat,
            alpha,
            beta,
            !maximizing,
            quiet,
        );
        let (child, one1) = minimax_value(
            one,
            child_pos,
            (depth - 1) as nat,
            alpha,
            beta,
            !maximizing,
        );
        let other1 = minimax_value(other, child_pos, (depth - 1) as nat, alpha, beta, !maximizing).1;
        let best1 = if improves(child, best.score, best.moves_to_outcome, maximizing) {
            EvalResult { score: child.score, moves_to_outcome: one_more(child.moves_to_outcome) }
        } else {
            best
        };
        let alpha1 = if maximizing {
            higher(alpha, child.score)
        } else {
            alpha
        };
        let beta1 = if maximizing {
            beta
        } else {
            lower(beta, child.score)
        };
        if beta1 > alpha1 {
            lemma_search_moves_margin(
                one1,
                other1,
                pos,
                moves,
                from + 1,
                depth,
                alpha1,
                beta1,
                maximizing,
                best1,
                quiet,
            );
        }
    }
}

/// What `lemma_minimax_margin` says of a search, for the choice at the root.
pub proof fn lemma_root_search_margin(
    one: Map<u128, EvalResult>,
    other: Map<u128, EvalResult>,
    pos: Position,
    space: Seq<usize>,
    from: int,
    depth: nat,
    maximizing: bool,
    best_score: i32,
    best: MoveResult,
    quiet: int,
)
    requires
        pos.wf(),
        depth <= 255,
        forall|i: int| 0 <= i < space.len() ==> pos.is_legal((#[trigger] space[i]) as int),
        agree_at(one, other, pos.room() - 1 - depth),
    ensures
        root_search(one, pos, space, from, depth, maximizing, best_score, best).0 == root_search(
            other,
            pos,
            space,
            from,
            depth,
            maximizing,
            best_score,
            best,
        ).0,
        agree_at(
            root_search(one, pos, space, from, depth, maximizing, best_score, best).1,
            root_search(other, pos, space, from, depth, maximizing, best_score, best).1,
            pos.room() - 1 - depth,
        ),
        silent_at(one, quiet) && quiet != pos.room() - 1 - depth ==> silent_at(
            root_search(one, pos, space, from, depth, maximizing, best_score, best).1,
            quiet,
        ),
    decreases space.len() - from,
{
    if from < 0 || from >= space.len() {
    } else {
        let child_pos = pos.play(space[from] as int);
        lemma_play(pos, space[from] as int);
        lemma_minimax_margin(one, other, child_pos, depth, i32::MIN, i32::MAX, !maximizing, quiet);
        let (child, one1) = minimax_value(one, child_pos, depth, i32::MIN, i32::MAX, !maximizing);
        let other1 = minimax_value(other, child_pos, depth, i32::MIN, i32::MAX, !maximizing).1;
        if improves(child, best_score, best.moves_to_win, maximizing) {
            lemma_root_search_margin(
                one1,
                other1,
                pos,
                space,
                from + 1,
                depth,
                maximizing,
                child.score,
                MoveResult { column: space[from], moves_to_win: one_more(child.moves_to_outcome) },
                quiet,
            );
        } else {
            lemma_root_search_margin(
                one1,
                other1,
                pos,
                space,
                from + 1,
                depth,
                maximizing,
                best_score,
                best,
                quiet,
            );
        }
    }
}

/// The answer of a search depends on the cache only through the entries of
/// the margin of the search: two caches that agree there give the same
/// answer.
pub proof fn lemma_answer_depends_on_margin(
    one: Map<u128, EvalResult>,
    other: Map<u128, EvalResult>,
    pos: Position,
    depth: nat,
)
    requires
        pos.wf(),
        depth <= 255,
        agree_at(one, other, pos.room() - 1 - depth),
    ensures
        best_move(one, pos, depth).0 == best_move(other, pos, depth).0,
        agree_at(best_move(one, pos, depth).1, best_move(other, pos, depth).1, pos.room() - 1 - depth),
{
    let maximizing = pos.to_move == Player::Red;
    lemma_candidates(pos);
    lemma_root_search_margin(
        one,
        other,
        pos,
        candidates(pos),
        0,
        depth,
        maximizing,
        worst_score(maximizing),
        MoveResult { column: pos.ordered_moves()[0], moves_to_win: None },
        0,
    );
}

/// To clear a cache that holds no entry of the margin of a search does not
/// change the answer of the search.
pub proof fn lemma_clearing_keeps_answer(cache: Map<u128, EvalResult>, pos: Position, depth: nat)
    requires
        pos.wf(),
        depth <= 255,
        silent_at(cache, pos.room() - 1 - depth),
    ensures
        best_move(cache, pos, depth).0 == best_move(Map::empty(), pos, depth).0,
{
    let cleared = Map::<u128, EvalResult>::empty();
    assert(agree_at(cache, cleared, pos.room() - 1 - depth));
    lemma_answer_depends_on_margin(cache, cleared, pos, depth);
}

/// A search files entries of its own margin only: a cache that holds no
/// entry of some other margin holds none after the search.
pub proof fn lemma_search_keeps_silence(
    cache: Map<u128, EvalResult>,
    pos: Position,
    depth: nat,
    margin: int,
)
    requires
        pos.wf(),
        depth <= 255,
        silent_at(cache, margin),
        margin != pos.room() - 1 - depth,
    ensures
        silent_at(best_move(cache, pos, depth).1, margin),
{
    let maximizing = pos.to_move == Player::Red;
    lemma_candidates(pos);
    assert(agree_at(cache, cache, pos.room() - 1 - depth));
    lemma_root_search_margin(
        cache,
        cache,
        pos,
        candidates(pos),
        0,
        depth,
        maximizing,
        worst_score(maximizing),
        MoveResult { column: pos.ordered_moves()[0], moves_to_win: None },
        margin,
    );
}

/// The empty cache holds no entry of any margin.
pub proof fn lemma_empty_cache_is_silent(margin: int)
    ensures
        silent_at(Map::<u128, EvalResult>::empty(), margin),
{
}

} // verus!
