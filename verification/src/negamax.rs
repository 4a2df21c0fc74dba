//! The search measured against plain negamax: what pruning and move ordering
//! leave unchanged.

use vstd::prelude::*;
use crate::board::BoardView;
use crate::config::AIConfig;
use crate::moves::legal_moves;
use crate::ordering::{lemma_sorted_same_moves, order_key_fn, sorted_by_key};
use crate::search::{
    ab, ab_moves, best_move_of, deepen, first_same, is_mate_score, killers_at,
    lemma_first_same_in_range, lemma_fronted_same_moves, max_of, moved_to_front, q_value,
    root_order, root_search, LoopResult, SearchModel, INFINITY, MATE_SCORE,
};
use crate::tt::tt_lookup;
use crate::types::{Move, Player};
use crate::zobrist::position_hash;

verus! {

/// What the move `m` is worth to the side that makes it, by plain negamax to
/// `depth`: the negated value of the position after it, one ply deeper.
pub open spec fn reply_value(
    b: BoardView,
    m: Move,
    depth: int,
    player: Player,
    ply: int,
    cfg: AIConfig,
) -> int
    decreases depth, 0int, 0int,
{
    if depth <= 0 {
        0
    } else {
        -negamax(b.after_move(m), depth - 1, (3 - player) as Player, ply + 1, cfg)
    }
}

/// The value of a position by plain negamax to `depth`, without window,
/// table or move ordering: the quiescence value at depth 0, the mate score
/// where there is no legal move, and else the best that a legal move is worth.
pub open spec fn negamax(b: BoardView, depth: int, player: Player, ply: int, cfg: AIConfig) -> int
    decreases depth, 2int, 0int,
{
    if depth <= 0 {
        q_value(b, player, 0, cfg)
    } else if legal_moves(b).len() == 0 {
        -MATE_SCORE + ply
    } else {
        best_reply(b, legal_moves(b), legal_moves(b).len() as int, depth, player, ply, cfg)
    }
}

/// The most that one of the first `upto` of `moves` is worth; `upto` is at least 1.
pub open spec fn best_reply(
    b: BoardView,
    moves: Seq<Move>,
    upto: int,
    depth: int,
    player: Player,
    ply: int,
    cfg: AIConfig,
) -> int
    decreases depth, 1int, upto,
{
    if depth <= 0 {
        0
    } else if upto <= 1 {
        reply_value(b, moves[0], depth, player, ply, cfg)
    } else {
        max_of(
            best_reply(b, moves, upto - 1, depth, player, ply, cfg),
            reply_value(b, moves[upto - 1], depth, player, ply, cfg),
        )
    }
}

/// `best_reply` is the largest of the values of the moves it ranges over.
proof fn lemma_best_reply_is_max(
    b: BoardView,
    moves: Seq<Move>,
    upto: int,
    depth: int,
    player: Player,
    ply: int,
    cfg: AIConfig,
)
    requires
        depth >= 1,
        1 <= upto <= moves.len(),
    ensures
        forall|k: int|
            0 <= k < upto ==> reply_value(b, #[trigger] moves[k], depth, player, ply, cfg)
                <= best_reply(b, moves, upto, depth, player, ply, cfg),
        exists|k: int|
            0 <= k < upto && reply_value(b, #[trigger] moves[k], depth, player, ply, cfg)
                == best_reply(b, moves, upto, depth, player, ply, cfg),
    decreases upto,
{
    let top = best_reply(b, moves, upto, depth, player, ply, cfg);
    if upto <= 1 {
        assert(reply_value(b, moves[0], depth, player, ply, cfg) == top);
    } else {
        lemma_best_reply_is_max(b, moves, upto - 1, depth, player, ply, cfg);
        let before = best_reply(b, moves, upto - 1, depth, player, ply, cfg);
        let last = reply_value(b, moves[upto - 1], depth, player, ply, cfg);
        if last >= before {
            assert(reply_value(b, moves[upto - 1], depth, player, ply, cfg) == top);
        } else {
            let k = choose|k: int|
                0 <= k < upto - 1 && reply_value(b, #[trigger] moves[k], depth, player, ply, cfg)
                    == before;
            assert(reply_value(b, moves[k], depth, player, ply, cfg) == top);
        }
    }
}

/// How a score `v` found with the window `(alpha, beta)` stands to the true
/// value `n`: at or below `alpha` it is an upper bound, at or above `beta` a
/// lower bound, and in between it is the value itself.
pub open spec fn bounds_value(v: int, n: int, alpha: int, beta: int) -> bool {
    &&& v <= alpha ==> n <= v
    &&& v >= beta ==> n >= v
    &&& alpha < v < beta ==> n == v
}

/// What the search of a list of moves with the window `(alpha, beta)` says
/// about their values: a best score at or below `alpha` bounds them all from
/// above; one at or above `beta` is reached by some move; and one in between
/// is the largest of the values, and the value of the move returned.
pub open spec fn loop_bounds_values(
    r: LoopResult,
    b: BoardView,
    moves: Seq<Move>,
    depth: int,
    alpha: int,
    beta: int,
    player: Player,
    ply: int,
    cfg: AIConfig,
) -> bool {
    let v = r.best;
    &&& v <= alpha ==> forall|k: int|
        0 <= k < moves.len() ==> reply_value(b, #[trigger] moves[k], depth, player, ply, cfg) <= v
    &&& v >= beta ==> exists|k: int|
        0 <= k < moves.len() && reply_value(b, #[trigger] moves[k], depth, player, ply, cfg) >= v
    &&& alpha < v < beta ==> {
        &&& forall|k: int|
            0 <= k < moves.len() ==> reply_value(b, #[trigger] moves[k], depth, player, ply, cfg)
                <= v
        &&& r.best_move matches Some(m)
        &&& moves.contains(m)
        &&& reply_value(b, m, depth, player, ply, cfg) == v
    }
}

/// Without the transposition table, the search of the moves from `moves[i]`
/// on bounds their values as `loop_bounds_values` says, where the best score
/// so far bounds the values of the moves before `moves[i]` from above and,
/// if it is above `alpha`, is the value of the best move so far. `floor` is
/// the lower end of the window as it stands.
proof fn lemma_ab_moves_bounds(
    st: SearchModel,
    b: BoardView,
    moves: Seq<Move>,
    i: int,
    depth: int,
    alpha: int,
    floor: int,
    beta: int,
    player: Player,
    ply: int,
    killers_on: bool,
    cfg: AIConfig,
    best: int,
    best_move: Option<Move>,
)
    requires
        !cfg.use_tt,
        depth >= 1,
        0 <= i <= moves.len(),
        -INFINITY <= alpha <= floor < beta <= INFINITY,
        -INFINITY <= best,
        floor == max_of(alpha, best),
        forall|k: int|
            0 <= k < i ==> reply_value(b, #[trigger] moves[k], depth, player, ply, cfg) <= best,
        best > alpha ==> (best_move matches Some(m) && moves.contains(m) && reply_value(
            b,
            m,
            depth,
            player,
            ply,
            cfg,
        ) == best),
    ensures
        loop_bounds_values(
            ab_moves(
                st,
                b,
                moves,
                i,
                depth,
                floor,
                beta,
                player,
                ply,
                killers_on,
                cfg,
                best,
                best_move,
            ),
            b,
            moves,
            depth,
            alpha,
            beta,
            player,
            ply,
            cfg,
        ),
    decreases depth, 0int, moves.len() - i,
{
    if i < moves.len() {
        let m = moves[i];
        let next = (3 - player) as Player;
        let child = b.after_move(m);
        lemma_alpha_beta_bounds(st, child, depth - 1, -beta, -floor, next, ply + 1, cfg);
        let reply = ab(st, child, depth - 1, -beta, -floor, next, ply + 1, cfg);
        let score = -reply.0;
        let worth = reply_value(b, m, depth, player, ply, cfg);
        assert(worth == -negamax(child, depth - 1, next, ply + 1, cfg));
        assert(score >= beta ==> worth >= score);
        assert(score <= floor ==> worth <= score);
        assert(floor < score < beta ==> worth == score);
        let best1 = if score > best {
            score
        } else {
            best
        };
        let move1 = if score > best {
            Some(m)
        } else {
            best_move
        };
        let floor1 = max_of(floor, best1);
        if floor1 >= beta {
            assert(reply_value(b, moves[i], depth, player, ply, cfg) >= best1);
        } else {
            assert forall|k: int| 0 <= k < i + 1 implies reply_value(
                b,
                #[trigger] moves[k],
                depth,
                player,
                ply,
                cfg,
            ) <= best1 by {
                if k == i {
                } else {
                    assert(reply_value(b, moves[k], depth, player, ply, cfg) <= best);
                }
            }
            if score > best {
                assert(moves.contains(m));
            }
            lemma_ab_moves_bounds(
                reply.1,
                b,
                moves,
                i + 1,
                depth,
                alpha,
                floor1,
                beta,
                player,
                ply,
                killers_on,
                cfg,
                best1,
                move1,
            );
        }
    }
}

/// Without the transposition table, pruning costs nothing: the score that
/// the search gives a position with the window `(alpha, beta)` is the
/// negamax value of the same depth wherever it lies inside the window, and a
/// bound of it on the side on which it lies outside. This holds whatever the
/// memory of the search holds, so move ordering and killer moves change no
/// value.
pub proof fn lemma_alpha_beta_bounds(
    st: SearchModel,
    b: BoardView,
    depth: int,
    alpha: int,
    beta: int,
    player: Player,
    ply: int,
    cfg: AIConfig,
)
    requires
        !cfg.use_tt,
        depth >= 0,
        -INFINITY <= alpha < beta <= INFINITY,
    ensures
        bounds_value(
            ab(st, b, depth, alpha, beta, player, ply, cfg).0,
            negamax(b, depth, player, ply, cfg),
            alpha,
            beta,
        ),
    decreases depth, 1int, 0int,
{
    let moves = legal_moves(b);
    if depth > 0 && moves.len() > 0 {
        let key = order_key_fn(b, None, killers_at(st, ply, cfg));
        let ordered = sorted_by_key(moves, key);
        lemma_sorted_same_moves(moves, key);
        lemma_ab_moves_bounds(
            st,
            b,
            ordered,
            0,
            depth,
            alpha,
            alpha,
            beta,
            player,
            ply,
            true,
            cfg,
            -INFINITY as int,
            None,
        );
        let r = ab_moves(
            st,
            b,
            ordered,
            0,
            depth,
            alpha,
            beta,
            player,
            ply,
            true,
            cfg,
            -INFINITY as int,
            None,
        );
        lemma_values_of_same_moves(r.best, b, ordered, moves, depth, player, ply, cfg);
        lemma_values_of_same_moves(r.best, b, moves, ordered, depth, player, ply, cfg);
        lemma_best_reply_is_max(b, moves, moves.len() as int, depth, player, ply, cfg);
        let n = negamax(b, depth, player, ply, cfg);
        let v = r.best;
        assert(n == best_reply(b, moves, moves.len() as int, depth, player, ply, cfg));
        let top = choose|k: int|
            0 <= k < moves.len() && reply_value(b, #[trigger] moves[k], depth, player, ply, cfg)
                == n;
        assert(reply_value(b, moves[top], depth, player, ply, cfg) == n);
        if v >= beta {
            let k = choose|k: int|
                0 <= k < ordered.len() && reply_value(
                    b,
                    #[trigger] ordered[k],
                    depth,
                    player,
                    ply,
                    cfg,
                ) >= v;
            assert(ordered.contains(ordered[k]));
            assert(moves.contains(ordered[k]));
            let j = choose|j: int| 0 <= j < moves.len() && moves[j] == ordered[k];
            assert(reply_value(b, moves[j], depth, player, ply, cfg) <= n);
        } else if v > alpha {
            let m = r.best_move.unwrap();
            assert(moves.contains(m));
            let j = choose|j: int| 0 <= j < moves.len() && moves[j] == m;
            assert(reply_value(b, moves[j], depth, player, ply, cfg) <= n);
        }
    }
}

/// Where `v` is at least the value of every move of `some`, it is at least
/// the value of every move of a list that holds no other moves.
proof fn lemma_values_of_same_moves(
    v: int,
    b: BoardView,
    some: Seq<Move>,
    other: Seq<Move>,
    depth: int,
    player: Player,
    ply: int,
    cfg: AIConfig,
)
    requires
        forall|x: Move| #[trigger] other.contains(x) ==> some.contains(x),
    ensures
        (forall|k: int|
            0 <= k < some.len() ==> reply_value(b, #[trigger] some[k], depth, player, ply, cfg)
                <= v) ==> (forall|k: int|
            0 <= k < other.len() ==> reply_value(b, #[trigger] other[k], depth, player, ply, cfg)
                <= v),
{
    if forall|k: int|
        0 <= k < some.len() ==> reply_value(b, #[trigger] some[k], depth, player, ply, cfg) <= v {
        assert forall|k: int| 0 <= k < other.len() implies reply_value(
            b,
            #[trigger] other[k],
            depth,
            player,
            ply,
            cfg,
        ) <= v by {
            assert(other.contains(other[k]));
            let j = choose|j: int| 0 <= j < some.len() && some[j] == other[k];
            assert(reply_value(b, some[j], depth, player, ply, cfg) <= v);
        }
    }
}

/// Without the transposition table, a search with the full window returns
/// the negamax value itself, as long as that value lies between
/// `-INFINITY` and `INFINITY`.
pub proof fn lemma_alpha_beta_is_negamax(
    st: SearchModel,
    b: BoardView,
    depth: int,
    player: Player,
    ply: int,
    cfg: AIConfig,
)
    requires
        !cfg.use_tt,
        depth >= 0,
        -INFINITY < negamax(b, depth, player, ply, cfg) < INFINITY,
    ensures
        ab(st, b, depth, -INFINITY as int, INFINITY as int, player, ply, cfg).0 == negamax(
            b,
            depth,
            player,
            ply,
            cfg,
        ),
{
    lemma_alpha_beta_bounds(st, b, depth, -INFINITY as int, INFINITY as int, player, ply, cfg);
}

/// Without the transposition table, the search of the root returns the
/// negamax value of the position and a legal move that is worth it, as long
/// as that value lies between `-INFINITY` and `INFINITY`.
pub proof fn lemma_root_search_is_negamax(
    st: SearchModel,
    b: BoardView,
    player: Player,
    depth: int,
    cfg: AIConfig,
)
    requires
        !cfg.use_tt,
        depth >= 1,
        legal_moves(b).len() > 0,
        -INFINITY < negamax(b, depth, player, 0, cfg) < INFINITY,
    ensures
        ({
            let r = root_search(st, b, player, depth, cfg);
            &&& r.0 == negamax(b, depth, player, 0, cfg)
            &&& r.1 matches Some(m)
            &&& legal_moves(b).contains(m)
            &&& reply_value(b, m, depth, player, 0, cfg) == r.0
        }),
{
    let moves = legal_moves(b);
    let ordered = root_order(st, b, cfg);
    let fronted = match tt_lookup(st.tt, position_hash(b)) {
        Some(e) => match e.best_move {
            Some(t) => moved_to_front(moves, t),
            None => moves,
        },
        None => moves,
    };
    let key = order_key_fn(b, None, killers_at(st, 0, cfg));
    lemma_sorted_same_moves(fronted, key);
    lemma_fronted_same_moves(moves, fronted);
    lemma_fronted_all_moves(moves, fronted);
    let lo = -INFINITY as int;
    let hi = INFINITY as int;
    lemma_ab_moves_bounds(st, b, ordered, 0, depth, lo, lo, hi, player, 0, false, cfg, lo, None);
    let r = ab_moves(st, b, ordered, 0, depth, lo, hi, player, 0, false, cfg, lo, None);
    lemma_values_of_same_moves(r.best, b, ordered, moves, depth, player, 0, cfg);
    lemma_best_reply_is_max(b, moves, moves.len() as int, depth, player, 0, cfg);
    let n = negamax(b, depth, player, 0, cfg);
    let v = r.best;
    let top = choose|k: int|
        0 <= k < moves.len() && reply_value(b, #[trigger] moves[k], depth, player, 0, cfg) == n;
    assert(reply_value(b, moves[top], depth, player, 0, cfg) == n);
    if v >= hi {
        let k = choose|k: int|
            0 <= k < ordered.len() && reply_value(b, #[trigger] ordered[k], depth, player, 0, cfg)
                >= v;
        assert(ordered.contains(ordered[k]));
        assert(fronted.contains(ordered[k]));
        assert(moves.contains(ordered[k]));
        let j = choose|j: int| 0 <= j < moves.len() && moves[j] == ordered[k];
        assert(reply_value(b, moves[j], depth, player, 0, cfg) <= n);
    } else if v > lo {
        let m = r.best_move.unwrap();
        assert(ordered.contains(m));
        assert(fronted.contains(m));
        assert(moves.contains(m));
        let j = choose|j: int| 0 <= j < moves.len() && moves[j] == m;
        assert(reply_value(b, moves[j], depth, player, 0, cfg) <= n);
    } else {
        assert(moves.contains(moves[top]));
        assert(fronted.contains(moves[top]));
        assert(ordered.contains(moves[top]));
        let j = choose|j: int| 0 <= j < ordered.len() && ordered[j] == moves[top];
        assert(reply_value(b, ordered[j], depth, player, 0, cfg) <= v);
    }
}

/// A list that is `all` or `all` with two of its moves exchanged holds every
/// move of `all`.
proof fn lemma_fronted_all_moves(all: Seq<Move>, fronted: Seq<Move>)
    requires
        fronted == all || exists|t: Move| fronted == moved_to_front(all, t),
    ensures
        fronted.len() == all.len(),
        forall|x: Move| #[trigger] all.contains(x) ==> fronted.contains(x),
{
    if fronted != all {
        let t = choose|t: Move| fronted == moved_to_front(all, t);
        lemma_first_same_in_range(all, t, 0);
        assert forall|x: Move| #[trigger] all.contains(x) implies fronted.contains(x) by {
            let i = choose|i: int| 0 <= i < all.len() && all[i] == x;
            if let Some(pos) = first_same(all, t, 0) {
                if i == pos {
                    assert(fronted[0] == x);
                } else if i == 0 {
                    assert(fronted[pos] == x);
                } else {
                    assert(fronted[i] == x);
                }
            }
        }
    }
}

/// Without the transposition table, what earlier searches have left in the
/// memory changes no score of the root: a search that follows others returns
/// the score of the same search made alone.
pub proof fn lemma_root_score_ignores_memory(
    st1: SearchModel,
    st2: SearchModel,
    b: BoardView,
    player: Player,
    depth: int,
    cfg: AIConfig,
)
    requires
        !cfg.use_tt,
        depth >= 1,
        legal_moves(b).len() > 0,
        -INFINITY < negamax(b, depth, player, 0, cfg) < INFINITY,
    ensures
        root_search(st1, b, player, depth, cfg).0 == root_search(st2, b, player, depth, cfg).0,
{
    lemma_root_search_is_negamax(st1, b, player, depth, cfg);
    lemma_root_search_is_negamax(st2, b, player, depth, cfg);
}

/// Without the transposition table, iterative deepening from `depth` on
/// arrives at a legal move that is best by plain negamax for one of the
/// depths it searches, as long as the negamax values of the root for these
/// depths lie between `-INFINITY` and `INFINITY`.
pub proof fn lemma_deepening_is_negamax_optimal(
    st: SearchModel,
    b: BoardView,
    player: Player,
    depth: int,
    cfg: AIConfig,
    best_move: Move,
    best_score: int,
)
    requires
        !cfg.use_tt,
        1 <= depth <= cfg.max_depth,
        legal_moves(b).len() > 0,
        forall|d: int|
            depth <= d <= cfg.max_depth ==> -INFINITY < #[trigger] negamax(b, d, player, 0, cfg)
                < INFINITY,
    ensures
        ({
            let m = deepen(st, b, player, depth, cfg, best_move, best_score);
            &&& legal_moves(b).contains(m)
            &&& exists|d: int|
                depth <= d <= cfg.max_depth && reply_value(b, m, d, player, 0, cfg)
                    == #[trigger] negamax(b, d, player, 0, cfg)
        }),
    decreases cfg.max_depth - depth,
{
    assert(-INFINITY < negamax(b, depth, player, 0, cfg) < INFINITY);
    lemma_root_search_is_negamax(st, b, player, depth, cfg);
    let r = root_search(st, b, player, depth, cfg);
    let found = r.1.unwrap();
    assert(reply_value(b, found, depth, player, 0, cfg) == negamax(b, depth, player, 0, cfg));
    if is_mate_score(r.0) {
    } else if depth + 1 > cfg.max_depth {
        assert(deepen(r.2, b, player, depth + 1, cfg, found, r.0) == found);
    } else {
        lemma_deepening_is_negamax_optimal(r.2, b, player, depth + 1, cfg, found, r.0);
        let m = deepen(r.2, b, player, depth + 1, cfg, found, r.0);
        let d = choose|d: int|
            depth + 1 <= d <= cfg.max_depth && reply_value(b, m, d, player, 0, cfg)
                == #[trigger] negamax(b, d, player, 0, cfg);
        assert(depth <= d <= cfg.max_depth);
    }
}

/// Without the transposition table, the move that the engine plays is a
/// legal move that is best by plain negamax for one of the depths from 1 to
/// `cfg.max_depth`, as long as the negamax values of the root for these
/// depths lie between `-INFINITY` and `INFINITY`.
pub proof fn lemma_best_move_is_negamax_optimal(b: BoardView, player: Player, cfg: AIConfig)
    requires
        !cfg.use_tt,
        cfg.max_depth >= 1,
        legal_moves(b).len() > 0,
        forall|d: int|
            1 <= d <= cfg.max_depth ==> -INFINITY < #[trigger] negamax(b, d, player, 0, cfg)
                < INFINITY,
    ensures
        best_move_of(b, player, cfg) matches Ok(m) && legal_moves(b).contains(m) && exists|d: int|
            1 <= d <= cfg.max_depth && reply_value(b, m, d, player, 0, cfg)
                == #[trigger] negamax(b, d, player, 0, cfg),
{
    lemma_deepening_is_negamax_optimal(
        SearchModel::fresh(cfg.tt_size_mb),
        b,
        player,
        1,
        cfg,
        legal_moves(b)[0],
        -INFINITY as int,
    );
}

} // verus!
