//! The search: quiescence, alpha-beta with transposition table and killer
//! moves, the search of the root, and iterative deepening.

use vstd::prelude::*;
use crate::board::{lemma_make_keeps_well_formed, Board, BoardView};
use crate::config::AIConfig;
use crate::eval::{
    evaluate, evaluation, lemma_evaluation_bounded, MAX_CELL_SCORE, MAX_HAND_SCORE,
};
use crate::move_laws::lemma_legal_moves_are_legal;
use crate::moves::{generate_moves, is_legal, legal_moves};
use crate::ordering::{
    holds, lemma_sorted_same_moves, order_key_fn, slot_holds, sort_moves, sorted_by_key, Killers,
};
use crate::tt::{tt_capacity, tt_lookup, tt_stored, Bound, TTEntry, TranspositionTable, MEGABYTE};
use crate::types::{valid_player, EngineError, Move, Player};
use crate::zobrist::{position_hash, ZobristHasher, MAX_HASH_SIZE};

verus! {

/// Wider than any score that the search tells apart.
pub const INFINITY: i32 = 1_000_000;

/// The score of being mated at the root.
pub const MATE_SCORE: i32 = 100_000;

/// Plies for which killer moves are kept.
pub const MAX_PLY: usize = 64;

/// What a search remembers between nodes: the transposition table and the
/// killer moves of each ply.
pub struct SearchModel {
    pub tt: Seq<Option<TTEntry>>,
    pub killers: Seq<Killers>,
}

/// The state of one search.
pub struct SearchState {
    tt: TranspositionTable,
    killer_moves: Vec<Killers>,
    hasher: ZobristHasher,
}

impl View for SearchState {
    type V = SearchModel;

    /// The table and the killer moves.
    closed spec fn view(&self) -> SearchModel {
        SearchModel { tt: self.tt@, killers: self.killer_moves@ }
    }
}

impl SearchModel {
    /// Killer moves are kept for `MAX_PLY` plies, and every stored score lies
    /// between `-INFINITY` and `INFINITY`.
    pub open spec fn well_formed(self) -> bool {
        &&& self.killers.len() == MAX_PLY
        &&& forall|i: int|
            0 <= i < self.tt.len() ==> (#[trigger] self.tt[i] matches Some(e) ==> -INFINITY
                <= e.score <= INFINITY)
    }

    /// The memory of a search that has not begun: an empty table of the
    /// capacity that `size_mb` megabytes give, and no killer moves.
    pub open spec fn fresh(size_mb: usize) -> SearchModel {
        SearchModel {
            tt: Seq::new(tt_capacity(size_mb), |i: int| None),
            killers: Seq::new(MAX_PLY as nat, |i: int| (None, None)),
        }
    }
}

/// The sum of the scores that a position can at most reach with `extra` more
/// pieces in hand fits in an `i32`.
pub open spec fn fits_with(b: BoardView, extra: int) -> bool {
    b.size() * (b.size() * MAX_CELL_SCORE) + (b.hand_count() + extra) * MAX_HAND_SCORE
        <= i32::MAX
}

/// `x`, but at least `lo` and at most `hi`.
pub open spec fn clamp(x: int, lo: int, hi: int) -> int {
    if x < lo {
        lo
    } else if x > hi {
        hi
    } else {
        x
    }
}

/// The larger of two scores.
pub open spec fn max_of(a: int, b: int) -> int {
    if a >= b {
        a
    } else {
        b
    }
}

/// The static score of a position as `player` sees it.
pub open spec fn stand_pat(b: BoardView, player: Player, cfg: AIConfig) -> int {
    if player == b.current_player {
        evaluation(b, cfg.use_pst)
    } else {
        -evaluation(b, cfg.use_pst)
    }
}

/// Those of the first `upto` of `moves` that capture, in their order.
pub open spec fn captures_among(b: BoardView, moves: Seq<Move>, upto: int) -> Seq<Move>
    decreases upto,
{
    if upto <= 0 {
        Seq::empty()
    } else {
        let rest = captures_among(b, moves, upto - 1);
        if b.at(moves[upto - 1].to) is Some {
            rest.push(moves[upto - 1])
        } else {
            rest
        }
    }
}

/// The legal captures of the side to move.
pub open spec fn legal_captures(b: BoardView) -> Seq<Move> {
    captures_among(b, legal_moves(b), legal_moves(b).len() as int)
}

/// The quiescence value of a position for `player`: its static score, or the
/// best that a capture leads to if that is more, captures being followed
/// until `cfg.qsearch_depth` of them have been made in a row.
pub open spec fn q_value(b: BoardView, player: Player, qdepth: int, cfg: AIConfig) -> int
    decreases cfg.qsearch_depth - qdepth, 1int, 0int,
{
    if qdepth >= cfg.qsearch_depth {
        stand_pat(b, player, cfg)
    } else {
        q_best(b, legal_captures(b), legal_captures(b).len() as int, player, qdepth, cfg)
    }
}

/// The larger of the static score and the best among the first `upto` of the
/// captures `caps`.
pub open spec fn q_best(
    b: BoardView,
    caps: Seq<Move>,
    upto: int,
    player: Player,
    qdepth: int,
    cfg: AIConfig,
) -> int
    decreases cfg.qsearch_depth - qdepth, 0int, upto,
{
    if upto <= 0 || qdepth >= cfg.qsearch_depth {
        stand_pat(b, player, cfg)
    } else {
        max_of(
            q_best(b, caps, upto - 1, player, qdepth, cfg),
            -q_value(b.after_move(caps[upto - 1]), (3 - player) as Player, qdepth + 1, cfg),
        )
    }
}

/// The best among more captures is no less than the best among fewer, and
/// never less than the static score.
proof fn lemma_q_best_grows(
    b: BoardView,
    caps: Seq<Move>,
    lo: int,
    hi: int,
    player: Player,
    qdepth: int,
    cfg: AIConfig,
)
    requires
        0 <= lo <= hi,
    ensures
        stand_pat(b, player, cfg) <= q_best(b, caps, lo, player, qdepth, cfg) <= q_best(
            b,
            caps,
            hi,
            player,
            qdepth,
            cfg,
        ),
    decreases hi,
{
    if qdepth >= cfg.qsearch_depth {
    } else if hi > lo {
        lemma_q_best_grows(b, caps, lo, hi - 1, player, qdepth, cfg);
    } else if lo > 0 {
        lemma_q_best_grows(b, caps, lo - 1, lo - 1, player, qdepth, cfg);
    }
}

/// The captures among legal moves are legal, and each ends on an occupied square.
proof fn lemma_captures_are_legal(b: BoardView, moves: Seq<Move>, upto: int)
    requires
        0 <= upto <= moves.len(),
        forall|i: int| 0 <= i < moves.len() ==> is_legal(b, #[trigger] moves[i]),
    ensures
        forall|i: int|
            0 <= i < captures_among(b, moves, upto).len() ==> is_legal(
                b,
                #[trigger] captures_among(b, moves, upto)[i],
            ) && b.at(captures_among(b, moves, upto)[i].to) is Some,
    decreases upto,
{
    if upto > 0 {
        lemma_captures_are_legal(b, moves, upto - 1);
    }
}

impl SearchState {
    /// The state of a search that has not begun.
    pub fn new(config: &AIConfig) -> (state: Self)
        requires
            config.tt_size_mb * MEGABYTE <= usize::MAX,
        ensures
            state@ == SearchModel::fresh(config.tt_size_mb),
            state@.well_formed(),
    {
        let tt = TranspositionTable::new(config.tt_size_mb);
        let mut killer_moves: Vec<Killers> = Vec::new();
        let mut i: usize = 0;
        while i < MAX_PLY
            invariant
                i <= MAX_PLY,
                killer_moves@.len() == i,
                forall|j: int| 0 <= j < i ==> killer_moves@[j] == (None::<Move>, None::<Move>),
            decreases MAX_PLY - i,
        {
            killer_moves.push((None, None));
            i += 1;
        }
        let state = SearchState { tt, killer_moves, hasher: ZobristHasher::new() };
        assert(state@.tt =~= SearchModel::fresh(config.tt_size_mb).tt);
        assert(state@.killers =~= SearchModel::fresh(config.tt_size_mb).killers);
        state
    }

    /// The killer moves kept for `ply`; none beyond the plies that are kept.
    pub fn killers(&self, ply: usize) -> (killers: Killers)
        ensures
            killers == (if ply < self@.killers.len() {
                self@.killers[ply as int]
            } else {
                (None, None)
            }),
    {
        if ply < self.killer_moves.len() {
            self.killer_moves[ply]
        } else {
            (None, None)
        }
    }
}

/// The legal moves of `moves` that capture.
fn capture_moves(board: &Board, moves: &Vec<Move>) -> (caps: Vec<Move>)
    ensures
        caps@ == captures_among(board@, moves@, moves@.len() as int),
{
    let mut caps: Vec<Move> = Vec::new();
    let mut i: usize = 0;
    while i < moves.len()
        invariant
            i <= moves@.len(),
            caps@ == captures_among(board@, moves@, i as int),
        decreases moves.len() - i,
    {
        if board.get(moves[i].to).is_some() {
            caps.push(moves[i]);
        }
        i += 1;
    }
    caps
}

/// Searches captures only, so that the score is taken from a quiet position:
/// the quiescence value of the position, kept between `alpha` and `beta`.
///
/// The window lies within `-INFINITY` and `INFINITY` with `alpha` not above
/// `beta`, and the scores of the position and of those that captures lead to
/// fit in an `i32`.
pub fn quiescence(
    board: &Board,
    alpha: i32,
    beta: i32,
    player: Player,
    depth: u8,
    config: &AIConfig,
    state: &mut SearchState,
) -> (score: i32)
    requires
        board@.well_formed(),
        valid_player(player),
        -INFINITY <= alpha <= beta <= INFINITY,
        fits_with(board@, config.qsearch_depth - depth),
        fits_with(board@, 0),
    ensures
        score == clamp(q_value(board@, player, depth as int, *config), alpha as int, beta as int),
        final(state)@ == old(state)@,
    decreases config.qsearch_depth - depth,
{
    let ghost b = board@;
    let ghost cfg = *config;
    proof {
        lemma_evaluation_bounded(b, cfg.use_pst, b.current_player);
    }
    let stand_pat_score = evaluate(board, config);
    let stand_pat_player = if player == board.current_player {
        stand_pat_score
    } else {
        -stand_pat_score
    };
    let ghost caps_spec = legal_captures(b);
    proof {
        lemma_q_best_grows(b, caps_spec, 0, caps_spec.len() as int, player, depth as int, cfg);
    }
    if stand_pat_player >= beta {
        return beta;
    }
    let mut floor = alpha;
    if stand_pat_player > floor {
        floor = stand_pat_player;
    }
    if depth >= config.qsearch_depth {
        return floor;
    }
    let moves = generate_moves(board);
    let capture_moves = capture_moves(board, &moves);
    proof {
        lemma_captures_are_legal(b, moves@, moves@.len() as int);
    }
    let mut i: usize = 0;
    while i < capture_moves.len()
        invariant
            b == board@,
            cfg == *config,
            b.well_formed(),
            valid_player(player),
            depth < cfg.qsearch_depth,
            fits_with(b, cfg.qsearch_depth - depth),
            capture_moves@ == caps_spec,
            caps_spec == legal_captures(b),
            forall|k: int|
                0 <= k < caps_spec.len() ==> is_legal(b, #[trigger] caps_spec[k]) && b.at(
                    caps_spec[k].to,
                ) is Some,
            i <= caps_spec.len(),
            -INFINITY <= alpha <= floor <= beta <= INFINITY,
            floor == max_of(
                alpha as int,
                q_best(b, caps_spec, i as int, player, depth as int, cfg),
            ),
            state@ == old(state)@,
        decreases capture_moves.len() - i,
    {
        let m = capture_moves[i];
        assert(is_legal(b, caps_spec[i as int]));
        let mut new_board = board.clone();
        let captured = match new_board.get(m.to) {
            Some(p) => Some(p.piece_type),
            None => None,
        };
        let mut made = m;
        proof {
            lemma_make_keeps_well_formed(b, m);
            lemma_q_best_grows(
                b,
                caps_spec,
                i as int + 1,
                caps_spec.len() as int,
                player,
                depth as int,
                cfg,
            );
            lemma_q_best_grows(
                b,
                caps_spec,
                i as int,
                caps_spec.len() as int,
                player,
                depth as int,
                cfg,
            );
            let reply = -q_value(b.after_move(m), (3 - player) as Player, depth as int + 1, cfg);
            assert(q_best(b, caps_spec, i as int + 1, player, depth as int, cfg) == max_of(
                q_best(b, caps_spec, i as int, player, depth as int, cfg),
                reply,
            ));
            assert(q_value(b, player, depth as int, cfg) == q_best(
                b,
                caps_spec,
                caps_spec.len() as int,
                player,
                depth as int,
                cfg,
            ));
        }
        match new_board.make_move(&mut made) {
            Err(_) => {
                // A legal move can always be made, so there is nothing to skip.
                assert(b.make_error(m) is None);
            },
            Ok(()) => {
                let score = -quiescence(
                    &new_board,
                    -beta,
                    -floor,
                    3 - player,
                    depth + 1,
                    config,
                    state,
                );
                let _ = new_board.unmake_move(&made, captured);
                if score >= beta {
                    return beta;
                }
                if score > floor {
                    floor = score;
                }
            },
        }
        i += 1;
    }
    floor
}

/// What the search of a list of moves comes to: the memory it leaves, the
/// best score found and the move that gave it.
pub struct LoopResult {
    pub state: SearchModel,
    pub best: int,
    pub best_move: Option<Move>,
}

/// The killer moves that ordering uses at `ply`: those kept for it, or none
/// where killer moves are off or the ply is beyond `MAX_PLY`.
pub open spec fn killers_at(st: SearchModel, ply: int, cfg: AIConfig) -> Killers {
    if cfg.use_killers && 0 <= ply < MAX_PLY && ply < st.killers.len() {
        st.killers[ply]
    } else {
        (None, None)
    }
}

/// The memory after `m` has cut off the search at `ply`: `m` becomes the
/// first killer there and the former first the second, unless `m` is the
/// first already.
pub open spec fn with_killer(st: SearchModel, ply: int, m: Move) -> SearchModel {
    if holds(st.killers[ply].0, m) {
        st
    } else {
        SearchModel { killers: st.killers.update(ply, (Some(m), st.killers[ply].0)), ..st }
    }
}

/// What the table holds for a position, where the table is in use.
pub open spec fn tt_probe(st: SearchModel, hash: u64, cfg: AIConfig) -> Option<TTEntry> {
    if cfg.use_tt {
        tt_lookup(st.tt, hash)
    } else {
        None
    }
}

/// What a table entry means for a search of `depth` with the window
/// `(alpha, beta)`: a score to return at once, if any, and the lower end of
/// the window to go on with. Only an entry at least as deep counts. An exact
/// score is returned; a lower bound raises `alpha`; an upper bound is
/// returned if it is below `beta`; and whenever the window is then empty the
/// entry's score is returned.
pub open spec fn probe_outcome(entry: Option<TTEntry>, depth: int, alpha: int, beta: int) -> (
    Option<int>,
    int,
) {
    match entry {
        Some(e) => if e.depth >= depth {
            match e.bound {
                Bound::Exact => (Some(e.score as int), alpha),
                Bound::Lower => {
                    let raised = max_of(alpha, e.score as int);
                    if raised >= beta {
                        (Some(e.score as int), raised)
                    } else {
                        (None, raised)
                    }
                },
                Bound::Upper => if e.score < beta || alpha >= beta {
                    (Some(e.score as int), alpha)
                } else {
                    (None, alpha)
                },
            }
        } else {
            (None, alpha)
        },
        None => (None, alpha),
    }
}

/// What kind of bound a score is that was found with the window `(alpha, beta)`.
pub open spec fn bound_of(best: int, alpha: int, beta: int) -> Bound {
    if best <= alpha {
        Bound::Upper
    } else if best >= beta {
        Bound::Lower
    } else {
        Bound::Exact
    }
}

/// The memory after a result has been offered to the table.
pub open spec fn remembered(
    st: SearchModel,
    hash: u64,
    depth: int,
    best: int,
    bound: Bound,
    best_move: Option<Move>,
) -> SearchModel {
    SearchModel {
        tt: tt_stored(
            st.tt,
            TTEntry { hash, depth: depth as u8, score: best as i32, bound, best_move },
        ),
        ..st
    }
}

/// The score that the search gives a position, and the memory it leaves.
///
/// A table entry that is deep enough may answer at once or raise `alpha`. At
/// depth 0 the score is the quiescence value, kept within the window. A side
/// without a legal move is mated, and the score is worse the nearer to the
/// root. Otherwise the legal moves are ordered and searched one after
/// another with `ab_moves`, and the result is offered to the table.
pub open spec fn ab(
    st: SearchModel,
    b: BoardView,
    depth: int,
    alpha: int,
    beta: int,
    player: Player,
    ply: int,
    cfg: AIConfig,
) -> (int, SearchModel)
    decreases depth, 1int, 0int,
{
    let hash = position_hash(b);
    let entry = tt_probe(st, hash, cfg);
    let outcome = probe_outcome(entry, depth, alpha, beta);
    if outcome.0 is Some {
        (outcome.0.unwrap(), st)
    } else if depth <= 0 {
        (clamp(q_value(b, player, 0, cfg), outcome.1, beta), st)
    } else if legal_moves(b).len() == 0 {
        (-MATE_SCORE + ply, st)
    } else {
        let tt_move = match entry {
            Some(e) => e.best_move,
            None => None,
        };
        let ordered = sorted_by_key(
            legal_moves(b),
            order_key_fn(b, tt_move, killers_at(st, ply, cfg)),
        );
        let r = ab_moves(
            st,
            b,
            ordered,
            0,
            depth,
            outcome.1,
            beta,
            player,
            ply,
            true,
            cfg,
            -INFINITY as int,
            None,
        );
        let after = if cfg.use_tt {
            remembered(r.state, hash, depth, r.best, bound_of(r.best, alpha, beta), r.best_move)
        } else {
            r.state
        };
        (r.best, after)
    }
}

/// The search of the moves `moves[i..]` of a position, `best` being the best
/// score so far and `alpha` the lower end of the window as it stands.
///
/// Each move is answered by `ab` one ply deeper with the window turned
/// round, and the answer negated is the move's score. A score above `best`
/// replaces it. When the best score reaches `beta` the search of this
/// position ends; a move that does so without capturing is remembered as a
/// killer move where `killers_on` and the configuration say so.
pub open spec fn ab_moves(
    st: SearchModel,
    b: BoardView,
    moves: Seq<Move>,
    i: int,
    depth: int,
    alpha: int,
    beta: int,
    player: Player,
    ply: int,
    killers_on: bool,
    cfg: AIConfig,
    best: int,
    best_move: Option<Move>,
) -> LoopResult
    decreases depth, 0int, moves.len() - i,
{
    if i < 0 || i >= moves.len() || depth <= 0 {
        LoopResult { state: st, best, best_move }
    } else {
        let m = moves[i];
        let reply = ab(
            st,
            b.after_move(m),
            depth - 1,
            -beta,
            -alpha,
            (3 - player) as Player,
            ply + 1,
            cfg,
        );
        let score = -reply.0;
        let best1 = if score > best {
            score
        } else {
            best
        };
        let move1 = if score > best {
            Some(m)
        } else {
            best_move
        };
        let alpha1 = max_of(alpha, best1);
        if alpha1 >= beta {
            let after = if killers_on && cfg.use_killers && ply < MAX_PLY && b.at(m.to) is None {
                with_killer(reply.1, ply, m)
            } else {
                reply.1
            };
            LoopResult { state: after, best: best1, best_move: move1 }
        } else {
            ab_moves(
                reply.1,
                b,
                moves,
                i + 1,
                depth,
                alpha1,
                beta,
                player,
                ply,
                killers_on,
                cfg,
                best1,
                move1,
            )
        }
    }
}

/// The first index from `from` on at which `moves` holds the same candidate as `t`.
pub open spec fn first_same(moves: Seq<Move>, t: Move, from: int) -> Option<int>
    decreases moves.len() - from,
{
    if from < 0 || from >= moves.len() {
        None
    } else if moves[from].same_as(t) {
        Some(from)
    } else {
        first_same(moves, t, from + 1)
    }
}

/// `moves` with its first candidate equal to `t`, if it has one, exchanged
/// with the move in front.
pub open spec fn moved_to_front(moves: Seq<Move>, t: Move) -> Seq<Move> {
    match first_same(moves, t, 0) {
        Some(pos) => moves.update(0, moves[pos]).update(pos, moves[0]),
        None => moves,
    }
}

/// The moves of the root in the order in which they are searched: the legal
/// moves, the table's move for this position in front if the table has one,
/// then sorted by ordering key.
pub open spec fn root_order(st: SearchModel, b: BoardView, cfg: AIConfig) -> Seq<Move> {
    let moves = legal_moves(b);
    let fronted = match tt_lookup(st.tt, position_hash(b)) {
        Some(e) => match e.best_move {
            Some(t) => moved_to_front(moves, t),
            None => moves,
        },
        None => moves,
    };
    sorted_by_key(fronted, order_key_fn(b, None, killers_at(st, 0, cfg)))
}

/// The search of the root to `depth`: the best score, the move that gave it,
/// and the memory that the search leaves. The window is as wide as it can
/// be. A root without a legal move scores as mated and has no move.
pub open spec fn root_search(
    st: SearchModel,
    b: BoardView,
    player: Player,
    depth: int,
    cfg: AIConfig,
) -> (int, Option<Move>, SearchModel) {
    if legal_moves(b).len() == 0 {
        (-MATE_SCORE as int, None, st)
    } else {
        let r = ab_moves(
            st,
            b,
            root_order(st, b, cfg),
            0,
            depth,
            -INFINITY as int,
            INFINITY as int,
            player,
            0,
            false,
            cfg,
            -INFINITY as int,
            None,
        );
        let after = if cfg.use_tt {
            remembered(r.state, position_hash(b), depth, r.best, Bound::Exact, r.best_move)
        } else {
            r.state
        };
        (r.best, r.best_move, after)
    }
}

/// Whether a score says that one side is being mated.
pub open spec fn is_mate_score(score: int) -> bool {
    score > MATE_SCORE - 100 || score < -(MATE_SCORE - 100)
}

/// The move that iterative deepening from `depth` on arrives at, `best_move`
/// and `best_score` being what the shallower searches have found. Each depth
/// up to `cfg.max_depth` is searched from the root; a search that finds a
/// move replaces the best; a mate score ends the deepening.
pub open spec fn deepen(
    st: SearchModel,
    b: BoardView,
    player: Player,
    depth: int,
    cfg: AIConfig,
    best_move: Move,
    best_score: int,
) -> Move
    decreases cfg.max_depth + 1 - depth,
{
    if depth < 1 || depth > cfg.max_depth {
        best_move
    } else {
        let r = root_search(st, b, player, depth, cfg);
        let chosen = match r.1 {
            Some(m) => m,
            None => best_move,
        };
        let score = match r.1 {
            Some(_) => r.0,
            None => best_score,
        };
        if is_mate_score(score) {
            chosen
        } else {
            deepen(r.2, b, player, depth + 1, cfg, chosen, score)
        }
    }
}

/// The move that the engine plays in a position: none if the side to move has
/// no legal move, else what iterative deepening arrives at, starting from the
/// first legal move and an empty memory.
pub open spec fn best_move_of(b: BoardView, player: Player, cfg: AIConfig) -> Result<
    Move,
    EngineError,
> {
    if legal_moves(b).len() == 0 {
        Err(EngineError::NoLegalMoves)
    } else {
        Ok(
            deepen(
                SearchModel::fresh(cfg.tt_size_mb),
                b,
                player,
                1,
                cfg,
                legal_moves(b)[0],
                -INFINITY as int,
            ),
        )
    }
}

/// The deepest that a search may reach below the root, counted in plies.
pub const MAX_SEARCH_PLY: usize = 255;

/// Orders `moves` for the search: ascending by ordering key, the killer
/// moves being those of `ply`.
pub fn order_moves(
    board: &Board,
    moves: &mut Vec<Move>,
    tt_move: Option<&Move>,
    ply: usize,
    config: &AIConfig,
    state: &SearchState,
)
    ensures
        final(moves)@ == sorted_by_key(
            old(moves)@,
            order_key_fn(
                board@,
                match tt_move {
                    Some(t) => Some(*t),
                    None => None,
                },
                killers_at(state@, ply as int, *config),
            ),
        ),
{
    let killers: Killers = if config.use_killers && ply < MAX_PLY && ply
        < state.killer_moves.len() {
        state.killer_moves[ply]
    } else {
        (None, None)
    };
    let table_move: Option<Move> = match tt_move {
        Some(t) => Some(*t),
        None => None,
    };
    sort_moves(board, moves, &table_move, &killers);
}

/// Searches the moves of a position one after another and returns the best
/// score with the move that gave it.
fn search_moves(
    board: &Board,
    moves: &Vec<Move>,
    depth: u8,
    alpha: i32,
    beta: i32,
    player: Player,
    ply: usize,
    record_killers: bool,
    config: &AIConfig,
    state: &mut SearchState,
) -> (res: (i32, Option<Move>))
    requires
        board@.well_formed(),
        board@.size() <= MAX_HASH_SIZE,
        valid_player(player),
        old(state)@.well_formed(),
        depth >= 1,
        -INFINITY <= alpha < beta <= INFINITY,
        fits_with(board@, depth + config.qsearch_depth),
        ply + depth <= MAX_SEARCH_PLY,
        forall|k: int| 0 <= k < moves@.len() ==> is_legal(board@, #[trigger] moves@[k]),
    ensures
        (LoopResult { state: final(state)@, best: res.0 as int, best_move: res.1 }) == ab_moves(
            old(state)@,
            board@,
            moves@,
            0,
            depth as int,
            alpha as int,
            beta as int,
            player,
            ply as int,
            record_killers,
            *config,
            -INFINITY as int,
            None,
        ),
        -INFINITY <= res.0 <= INFINITY,
        final(state)@.well_formed(),
        res.1 matches Some(m) ==> moves@.contains(m),
    decreases depth, 0int,
{
    let ghost b = board@;
    let ghost cfg = *config;
    let ghost target = ab_moves(
        old(state)@,
        b,
        moves@,
        0,
        depth as int,
        alpha as int,
        beta as int,
        player,
        ply as int,
        record_killers,
        cfg,
        -INFINITY as int,
        None,
    );
    let mut best_score: i32 = -INFINITY;
    let mut best_move: Option<Move> = None;
    let mut floor = alpha;
    let mut i: usize = 0;
    let mut cut = false;
    while !cut && i < moves.len()
        invariant
            b == board@,
            cfg == *config,
            b.well_formed(),
            b.size() <= MAX_HASH_SIZE,
            valid_player(player),
            depth >= 1,
            fits_with(b, depth + cfg.qsearch_depth),
            ply + depth <= MAX_SEARCH_PLY,
            forall|k: int| 0 <= k < moves@.len() ==> is_legal(b, #[trigger] moves@[k]),
            i <= moves@.len(),
            state@.well_formed(),
            -INFINITY <= alpha <= floor,
            floor <= INFINITY,
            beta <= INFINITY,
            -INFINITY <= best_score <= INFINITY,
            best_move matches Some(m) ==> moves@.contains(m),
            !cut ==> floor < beta && ab_moves(
                state@,
                b,
                moves@,
                i as int,
                depth as int,
                floor as int,
                beta as int,
                player,
                ply as int,
                record_killers,
                cfg,
                best_score as int,
                best_move,
            ) == target,
            cut ==> (LoopResult { state: state@, best: best_score as int, best_move }) == target,
        decreases moves.len() - i + (if cut { 0int } else { 1int }),
    {
        let m = moves[i];
        assert(is_legal(b, moves@[i as int]));
        let mut new_board = board.clone();
        let captured = match new_board.get(m.to) {
            Some(p) => Some(p.piece_type),
            None => None,
        };
        let mut made = m;
        proof {
            lemma_make_keeps_well_formed(b, m);
        }
        let ghost before = state@;
        match new_board.make_move(&mut made) {
            Err(_) => {
                // A legal move can always be made, so there is nothing to skip.
                assert(b.make_error(m) is None);
            },
            Ok(()) => {
                let score = -alpha_beta(
                    &new_board,
                    depth - 1,
                    -beta,
                    -floor,
                    3 - player,
                    ply + 1,
                    config,
                    state,
                );
                let _ = new_board.unmake_move(&made, captured);
                if score > best_score {
                    best_score = score;
                    best_move = Some(m);
                    assert(moves@[i as int] == m);
                }
                if best_score > floor {
                    floor = best_score;
                }
                if floor >= beta {
                    if record_killers && config.use_killers && ply < MAX_PLY
                        && captured.is_none() {
                        let current = state.killer_moves[ply];
                        if !slot_holds(&current.0, &m) {
                            state.killer_moves[ply] = (Some(m), current.0);
                        }
                    }
                    cut = true;
                }
            },
        }
        i += 1;
    }
    (best_score, best_move)
}

/// Scores a position by searching `depth` plies with the window
/// `(alpha, beta)`, with the help of the table and of the killer moves.
///
/// The window is not empty and lies within `-INFINITY` and `INFINITY`; the
/// board has at most nine rows, so that it can be hashed; the search ends
/// within `MAX_SEARCH_PLY` plies of the root; and the scores of the positions
/// that it can reach fit in an `i32`.
pub fn alpha_beta(
    board: &Board,
    depth: u8,
    alpha: i32,
    beta: i32,
    player: Player,
    ply: usize,
    config: &AIConfig,
    state: &mut SearchState,
) -> (score: i32)
    requires
        board@.well_formed(),
        board@.size() <= MAX_HASH_SIZE,
        valid_player(player),
        old(state)@.well_formed(),
        -INFINITY <= alpha < beta <= INFINITY,
        fits_with(board@, depth + config.qsearch_depth),
        ply + depth <= MAX_SEARCH_PLY,
    ensures
        (score as int, final(state)@) == ab(
            old(state)@,
            board@,
            depth as int,
            alpha as int,
            beta as int,
            player,
            ply as int,
            *config,
        ),
        -INFINITY <= score <= INFINITY,
        final(state)@.well_formed(),
    decreases depth, 1int,
{
    let ghost b = board@;
    let ghost st = state@;
    let hash = state.hasher.hash(board);
    let mut floor = alpha;
    let mut table_move: Option<Move> = None;
    if config.use_tt {
        if let Some(entry) = state.tt.get(hash) {
            let e = *entry;
            assert(st.tt[crate::tt::tt_index(hash, st.tt.len())] == Some(e));
            table_move = e.best_move;
            if e.depth >= depth {
                match e.bound {
                    Bound::Exact => {
                        return e.score;
                    },
                    Bound::Lower => {
                        if e.score > floor {
                            floor = e.score;
                        }
                    },
                    Bound::Upper => {
                        if e.score < beta {
                            return e.score;
                        }
                    },
                }
                if floor >= beta {
                    return e.score;
                }
            }
        }
    }
    if depth == 0 {
        return quiescence(board, floor, beta, player, 0, config, state);
    }
    let mut moves = generate_moves(board);
    if moves.len() == 0 {
        return -MATE_SCORE + (ply as i32);
    }
    let ghost key = order_key_fn(b, table_move, killers_at(st, ply as int, *config));
    order_moves(board, &mut moves, table_move.as_ref(), ply, config, state);
    proof {
        lemma_sorted_same_moves(legal_moves(b), key);
        assert forall|k: int| 0 <= k < moves@.len() implies is_legal(b, #[trigger] moves@[k]) by {
            assert(moves@.contains(moves@[k]));
            assert(legal_moves(b).contains(moves@[k]));
        }
    }
    let (best_score, best_move) = search_moves(
        board,
        &moves,
        depth,
        floor,
        beta,
        player,
        ply,
        true,
        config,
        state,
    );
    if config.use_tt {
        let bound = if best_score <= alpha {
            Bound::Upper
        } else if best_score >= beta {
            Bound::Lower
        } else {
            Bound::Exact
        };
        let ghost found = state@;
        state.tt.store(hash, depth, best_score, bound, best_move);
        assert(state@ == remembered(found, hash, depth as int, best_score as int, bound, best_move));
    }
    best_score
}

/// Puts the first candidate equal to `t` in front by exchanging it with the
/// move that stands there.
fn bring_to_front(moves: &mut Vec<Move>, t: &Move)
    ensures
        final(moves)@ == moved_to_front(old(moves)@, *t),
{
    let mut pos: usize = 0;
    while pos < moves.len()
        invariant
            moves@ == old(moves)@,
            pos <= moves@.len(),
            first_same(moves@, *t, 0) == first_same(moves@, *t, pos as int),
        decreases moves.len() - pos,
    {
        if moves[pos].same(t) {
            let front = moves[0];
            let found = moves[pos];
            moves[0] = found;
            moves[pos] = front;
            return ;
        }
        pos += 1;
    }
}

/// Searches the root to `depth` and returns the best score with its move.
///
/// The depth is at least 1; the board has at most nine rows, so that it can
/// be hashed; and the scores of the positions that the search can reach fit
/// in an `i32`.
pub fn search_root(
    board: &Board,
    player: Player,
    depth: u8,
    config: &AIConfig,
    state: &mut SearchState,
) -> (res: (i32, Option<Move>))
    requires
        board@.well_formed(),
        board@.size() <= MAX_HASH_SIZE,
        valid_player(player),
        old(state)@.well_formed(),
        depth >= 1,
        fits_with(board@, depth + config.qsearch_depth),
    ensures
        (res.0 as int, res.1, final(state)@) == root_search(
            old(state)@,
            board@,
            player,
            depth as int,
            *config,
        ),
        final(state)@.well_formed(),
        res.1 matches Some(m) ==> legal_moves(board@).contains(m),
{
    let ghost b = board@;
    let ghost st = state@;
    let mut moves = generate_moves(board);
    if moves.len() == 0 {
        return (-MATE_SCORE, None);
    }
    let hash = state.hasher.hash(board);
    if let Some(tt_entry) = state.tt.get(hash) {
        if let Some(tt_move) = tt_entry.best_move {
            bring_to_front(&mut moves, &tt_move);
        }
    }
    let ghost fronted = moves@;
    order_moves(board, &mut moves, None, 0, config, state);
    proof {
        let key = order_key_fn(b, None, killers_at(st, 0, *config));
        lemma_sorted_same_moves(fronted, key);
        lemma_fronted_same_moves(legal_moves(b), fronted);
        assert forall|k: int| 0 <= k < moves@.len() implies is_legal(b, #[trigger] moves@[k])
            && legal_moves(b).contains(moves@[k]) by {
            assert(moves@.contains(moves@[k]));
            assert(fronted.contains(moves@[k]));
            assert(legal_moves(b).contains(moves@[k]));
        }
    }
    let (best_score, best_move) = search_moves(
        board,
        &moves,
        depth,
        -INFINITY,
        INFINITY,
        player,
        0,
        false,
        config,
        state,
    );
    if config.use_tt {
        let ghost found = state@;
        state.tt.store(hash, depth, best_score, Bound::Exact, best_move);
        assert(state@ == remembered(
            found,
            hash,
            depth as int,
            best_score as int,
            Bound::Exact,
            best_move,
        ));
    }
    (best_score, best_move)
}

/// A list that is `all` or `all` with two of its moves exchanged holds the
/// moves of `all` and no others.
pub proof fn lemma_fronted_same_moves(all: Seq<Move>, fronted: Seq<Move>)
    requires
        fronted == all || exists|t: Move| fronted == moved_to_front(all, t),
    ensures
        forall|x: Move| #[trigger] fronted.contains(x) ==> all.contains(x),
{
    if fronted != all {
        let t = choose|t: Move| fronted == moved_to_front(all, t);
        lemma_first_same_in_range(all, t, 0);
        assert forall|x: Move| #[trigger] fronted.contains(x) implies all.contains(x) by {
            let i = choose|i: int| 0 <= i < fronted.len() && fronted[i] == x;
            if let Some(pos) = first_same(all, t, 0) {
                if i == pos {
                    assert(all[0] == x);
                } else if i == 0 {
                    assert(all[pos] == x);
                } else {
                    assert(all[i] == x);
                }
            }
        }
    }
}

/// Where `first_same` finds an index, it is an index of `moves` at or after `from`.
pub proof fn lemma_first_same_in_range(moves: Seq<Move>, t: Move, from: int)
    requires
        0 <= from,
    ensures
        first_same(moves, t, from) matches Some(pos) ==> from <= pos < moves.len(),
    decreases moves.len() - from,
{
    if from < moves.len() && !moves[from].same_as(t) {
        lemma_first_same_in_range(moves, t, from + 1);
    }
}

/// Chooses a move for the side to move by iterative deepening: each depth
/// from 1 to `config.max_depth` is searched from the root, and the move of
/// the deepest search that found one is returned. A mate score ends the
/// deepening early. A position without a legal move is an error.
///
/// The board has at most nine rows, so that it can be hashed; the table's
/// size in bytes is a `usize`; and the scores of the positions that the
/// search can reach fit in an `i32`. `Engine::best_move` tests all this.
pub fn find_best_move(board: &Board, player: Player, config: &AIConfig) -> (res: Result<
    Move,
    EngineError,
>)
    requires
        board@.well_formed(),
        board@.size() <= MAX_HASH_SIZE,
        valid_player(player),
        config.tt_size_mb * MEGABYTE <= usize::MAX,
        fits_with(board@, config.max_depth + config.qsearch_depth),
    ensures
        res == best_move_of(board@, player, *config),
        res is Err <==> legal_moves(board@).len() == 0,
        res matches Ok(m) ==> legal_moves(board@).contains(m) && is_legal(board@, m),
{
    let ghost b = board@;
    let ghost cfg = *config;
    let moves = generate_moves(board);
    if moves.len() == 0 {
        return Err(EngineError::NoLegalMoves);
    }
    let mut state = SearchState::new(config);
    let mut best_move = moves[0];
    let mut best_score: i32 = -INFINITY;
    let ghost target = deepen(state@, b, player, 1, cfg, best_move, best_score as int);
    let mut depth: u8 = 1;
    let mut done = config.max_depth == 0;
    proof {
        lemma_legal_moves_are_legal(b);
        assert(legal_moves(b)[0] == best_move);
    }
    while !done
        invariant
            b == board@,
            cfg == *config,
            b.well_formed(),
            b.size() <= MAX_HASH_SIZE,
            valid_player(player),
            fits_with(b, cfg.max_depth + cfg.qsearch_depth),
            state@.well_formed(),
            legal_moves(b).contains(best_move),
            !done ==> 1 <= depth <= cfg.max_depth && deepen(
                state@,
                b,
                player,
                depth as int,
                cfg,
                best_move,
                best_score as int,
            ) == target,
            done ==> best_move == target,
        decreases cfg.max_depth - depth + (if done { 0int } else { 1int }),
    {
        let (score, mv) = search_root(board, player, depth, config, &mut state);
        if let Some(m) = mv {
            best_move = m;
            best_score = score;
        }
        if best_score > MATE_SCORE - 100 || best_score < -(MATE_SCORE - 100) {
            done = true;
        } else if depth >= config.max_depth {
            assert(deepen(state@, b, player, depth + 1, cfg, best_move, best_score as int)
                == best_move);
            done = true;
        } else {
            depth += 1;
        }
    }
    proof {
        let i = choose|i: int| 0 <= i < legal_moves(b).len() && legal_moves(b)[i] == best_move;
        assert(is_legal(b, legal_moves(b)[i]));
    }
    Ok(best_move)
}

} // verus!
