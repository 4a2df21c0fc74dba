//! What holds of every generated move.

use vstd::prelude::*;
use crate::board::{lemma_unmake_restores, BoardView};
use crate::moves::{
    ahead, all_lines, can_enter, castle_move, castling_moves, cell_moves, chess_knight_jumps,
    crossed_file, diagonal, forward, gold_steps, grid_moves, is_attacked, is_legal,
    king_steps, knight_jumps, legal_among, legal_moves, move_record, opponent_of, orthogonal,
    pawn_capture, pawn_double, pawn_push, piece_moves, pseudo_moves, ray_moves, row_moves,
    shifted, silver_steps, slide_moves, step_moves,
};
use crate::types::{valid_player, Move, Piece, Position};

verus! {


/// Whether every move of `s` satisfies `p`.
pub open spec fn every(s: Seq<Move>, p: spec_fn(Move) -> bool) -> bool {
    forall|i: int| 0 <= i < s.len() ==> p(#[trigger] s[i])
}

/// What holds of every move of two lists holds of every move of both together.
proof fn lemma_every_concat(a: Seq<Move>, b: Seq<Move>, p: spec_fn(Move) -> bool)
    requires
        every(a, p),
        every(b, p),
    ensures
        every(a + b, p),
{
    assert forall|i: int| 0 <= i < (a + b).len() implies p(#[trigger] (a + b)[i]) by {
        if i < a.len() {
            assert((a + b)[i] == a[i]);
        } else {
            assert((a + b)[i] == b[i - a.len()]);
        }
    }
}

/// What holds of every plain record of `piece` entering a square of the
/// board holds of each of its one-step moves.
proof fn lemma_step_moves_every(
    b: BoardView,
    from: Position,
    piece: Piece,
    deltas: Seq<(i32, i32)>,
    p: spec_fn(Move) -> bool,
)
    requires
        b.well_formed(),
        forall|to: Position|
            b.in_bounds(to) && can_enter(b, to, piece.player) ==> p(
                #[trigger] move_record(from, to, piece, false),
            ),
    ensures
        every(step_moves(b, from, piece, deltas), p),
    decreases deltas.len(),
{
    if deltas.len() > 0 {
        lemma_step_moves_every(b, from, piece, deltas.drop_last(), p);
        let d = deltas.last();
        if let Some(to) = shifted(from, d.0 as int, d.1 as int, b.size()) {
            lemma_shifted_in_bounds(b, from, d.0 as int, d.1 as int);
        }
    }
}

/// On a well-formed board, a shifted square is a square of the board.
pub proof fn lemma_shifted_in_bounds(b: BoardView, pos: Position, dr: int, dc: int)
    requires
        b.well_formed(),
    ensures
        shifted(pos, dr, dc, b.size()) matches Some(to) ==> b.in_bounds(to),
{
    if let Some(to) = shifted(pos, dr, dc, b.size()) {
        assert(b.cells[to.row as int].len() == b.cells.len());
    }
}

/// What holds of every plain record of `piece` entering a square of the
/// board holds of each of its moves along a line.
proof fn lemma_ray_moves_every(
    b: BoardView,
    from: Position,
    piece: Piece,
    cur: Position,
    dr: int,
    dc: int,
    fuel: nat,
    p: spec_fn(Move) -> bool,
)
    requires
        b.well_formed(),
        forall|to: Position|
            b.in_bounds(to) && can_enter(b, to, piece.player) ==> p(
                #[trigger] move_record(from, to, piece, false),
            ),
    ensures
        every(ray_moves(b, from, piece, cur, dr, dc, fuel), p),
    decreases fuel,
{
    if fuel > 0 {
        lemma_shifted_in_bounds(b, cur, dr, dc);
        if let Some(next) = shifted(cur, dr, dc, b.size()) {
            if b.at(next) is None {
                lemma_ray_moves_every(b, from, piece, next, dr, dc, (fuel - 1) as nat, p);
                lemma_every_concat(
                    seq![move_record(from, next, piece, false)],
                    ray_moves(b, from, piece, next, dr, dc, (fuel - 1) as nat),
                    p,
                );
            }
        }
    }
}

/// What holds of every plain record of `piece` entering a square of the
/// board holds of each of its sliding moves.
proof fn lemma_slide_moves_every(
    b: BoardView,
    from: Position,
    piece: Piece,
    dirs: Seq<(i32, i32)>,
    p: spec_fn(Move) -> bool,
)
    requires
        b.well_formed(),
        forall|to: Position|
            b.in_bounds(to) && can_enter(b, to, piece.player) ==> p(
                #[trigger] move_record(from, to, piece, false),
            ),
    ensures
        every(slide_moves(b, from, piece, dirs), p),
    decreases dirs.len(),
{
    if dirs.len() > 0 {
        let d = dirs.last();
        lemma_slide_moves_every(b, from, piece, dirs.drop_last(), p);
        lemma_ray_moves_every(b, from, piece, from, d.0 as int, d.1 as int, b.size(), p);
        lemma_every_concat(
            slide_moves(b, from, piece, dirs.drop_last()),
            ray_moves(b, from, piece, from, d.0 as int, d.1 as int, b.size()),
            p,
        );
    }
}

/// Whatever holds of every plain record of `piece` moving from `from` holds
/// of every move that its kind's movement gives it.
pub proof fn lemma_piece_moves_every(
    b: BoardView,
    from: Position,
    piece: Piece,
    p: spec_fn(Move) -> bool,
)
    requires
        b.well_formed(),
        forall|to: Position|
            b.in_bounds(to) && can_enter(b, to, piece.player) ==> p(
                #[trigger] move_record(from, to, piece, false),
            ),
    ensures
        every(piece_moves(b, from, piece), p),
{
    let f = forward(piece.player);
    lemma_step_moves_every(b, from, piece, king_steps(), p);
    lemma_step_moves_every(b, from, piece, diagonal(), p);
    lemma_step_moves_every(b, from, piece, orthogonal(), p);
    lemma_step_moves_every(b, from, piece, chess_knight_jumps(), p);
    lemma_step_moves_every(b, from, piece, knight_jumps(f), p);
    lemma_step_moves_every(b, from, piece, gold_steps(f), p);
    lemma_step_moves_every(b, from, piece, silver_steps(f), p);
    lemma_step_moves_every(b, from, piece, ahead(f), p);
    lemma_slide_moves_every(b, from, piece, orthogonal(), p);
    lemma_slide_moves_every(b, from, piece, diagonal(), p);
    lemma_slide_moves_every(b, from, piece, all_lines(), p);
    lemma_slide_moves_every(b, from, piece, ahead(f), p);
    lemma_every_concat(
        slide_moves(b, from, piece, orthogonal()),
        step_moves(b, from, piece, diagonal()),
        p,
    );
    lemma_every_concat(
        slide_moves(b, from, piece, diagonal()),
        step_moves(b, from, piece, orthogonal()),
        p,
    );
    lemma_shifted_in_bounds(b, from, f as int, 0);
    lemma_shifted_in_bounds(b, from, f as int, -1);
    lemma_shifted_in_bounds(b, from, f as int, 1);
    lemma_shifted_in_bounds(b, from, 2 * f, 0);
    let push = pawn_push(b, from, piece);
    let left = pawn_capture(b, from, piece, -1);
    let right = pawn_capture(b, from, piece, 1);
    let double = pawn_double(b, from, piece);
    assert(every(push, p));
    assert(every(left, p));
    assert(every(right, p));
    assert(every(double, p));
    lemma_every_concat(push, left, p);
    lemma_every_concat(push + left, right, p);
    lemma_every_concat(push + left + right, double, p);
}

/// How far `cur` is from the edge towards which the direction `(dr, dc)` leads.
pub open spec fn edge_distance(cur: Position, dr: int, dc: int, n: nat) -> int {
    if dr > 0 {
        n - 1 - cur.row
    } else if dr < 0 {
        cur.row as int
    } else if dc > 0 {
        n - 1 - cur.col
    } else {
        cur.col as int
    }
}

/// A line ends at the edge of the board at the latest: once the fuel exceeds
/// the distance to the edge, more fuel adds no move.
pub proof fn lemma_ray_moves_end_at_the_edge(
    b: BoardView,
    from: Position,
    piece: Piece,
    cur: Position,
    dr: int,
    dc: int,
    fuel: nat,
    more: nat,
)
    requires
        dr != 0 || dc != 0,
        b.size() <= usize::MAX,
        cur.row < b.size(),
        cur.col < b.size(),
        edge_distance(cur, dr, dc, b.size()) < fuel <= more,
    ensures
        ray_moves(b, from, piece, cur, dr, dc, fuel) == ray_moves(b, from, piece, cur, dr, dc, more),
    decreases fuel,
{
    if let Some(next) = shifted(cur, dr, dc, b.size()) {
        if b.at(next) is None {
            lemma_ray_moves_end_at_the_edge(
                b,
                from,
                piece,
                next,
                dr,
                dc,
                (fuel - 1) as nat,
                (more - 1) as nat,
            );
        }
    }
}

/// The sliding moves along a line from a square of the board are all the
/// moves along that line: the bound on their number, the size of the board,
/// cuts none off.
pub proof fn lemma_ray_moves_are_complete(
    b: BoardView,
    from: Position,
    piece: Piece,
    dr: int,
    dc: int,
    more: nat,
)
    requires
        dr != 0 || dc != 0,
        b.size() <= usize::MAX,
        from.row < b.size(),
        from.col < b.size(),
        more >= b.size(),
    ensures
        ray_moves(b, from, piece, from, dr, dc, b.size()) == ray_moves(
            b,
            from,
            piece,
            from,
            dr,
            dc,
            more,
        ),
{
    lemma_ray_moves_end_at_the_edge(b, from, piece, from, dr, dc, b.size(), more);
}

/// What justifies a castling move of the side to move: the right for that
/// side is set and the squares between king and rook are empty, and the other
/// side attacks none of the squares where the king stands, which it crosses,
/// and where it arrives.
pub open spec fn castling_justified(b: BoardView, m: Move) -> bool {
    let me = b.current_player;
    let king_side = m.to.col > m.from.col;
    &&& b.castling_rights.flag(me, king_side)
    &&& b.can_castle(me, king_side)
    &&& !is_attacked(b, m.from, opponent_of(me))
    &&& !is_attacked(b, Position { row: m.from.row, col: crossed_file(king_side) }, opponent_of(me))
    &&& !is_attacked(b, m.to, opponent_of(me))
}

/// A move is either no castling move or a justified one.
pub open spec fn castles_only_justified(b: BoardView) -> spec_fn(Move) -> bool {
    |m: Move| m.is_castling ==> castling_justified(b, m)
}

/// A castling move among the candidates from one square is justified.
proof fn lemma_cell_moves_castling(b: BoardView, r: int, c: int)
    requires
        b.well_formed(),
        0 <= r < b.cells.len(),
        0 <= c < b.cells[r].len(),
    ensures
        every(cell_moves(b, r, c), castles_only_justified(b)),
{
    let p = castles_only_justified(b);
    if let Some(piece) = b.cells[r][c] {
        if piece.player == b.current_player {
            let from = Position { row: r as usize, col: c as usize };
            lemma_piece_moves_every(b, from, piece, p);
            assert(every(castling_moves(b, from, piece), p));
            lemma_every_concat(piece_moves(b, from, piece), castling_moves(b, from, piece), p);
        }
    }
}

/// A castling move among the candidates from the first `upto` squares of a
/// row is justified.
proof fn lemma_row_moves_castling(b: BoardView, r: int, upto: int)
    requires
        b.well_formed(),
        0 <= r < b.cells.len(),
        0 <= upto <= b.cells[r].len(),
    ensures
        every(row_moves(b, r, upto), castles_only_justified(b)),
    decreases upto,
{
    if upto > 0 {
        lemma_row_moves_castling(b, r, upto - 1);
        lemma_cell_moves_castling(b, r, upto - 1);
        lemma_every_concat(
            row_moves(b, r, upto - 1),
            cell_moves(b, r, upto - 1),
            castles_only_justified(b),
        );
    }
}

/// A castling move among the candidates from the first `upto` rows is justified.
proof fn lemma_grid_moves_castling(b: BoardView, upto: int)
    requires
        b.well_formed(),
        0 <= upto <= b.cells.len(),
    ensures
        every(grid_moves(b, upto), castles_only_justified(b)),
    decreases upto,
{
    if upto > 0 {
        lemma_grid_moves_castling(b, upto - 1);
        assert(b.cells[upto - 1].len() == b.cells.len());
        lemma_row_moves_castling(b, upto - 1, b.cells.len() as int);
        lemma_every_concat(
            grid_moves(b, upto - 1),
            row_moves(b, upto - 1, b.cells.len() as int),
            castles_only_justified(b),
        );
    }
}

/// The legal ones among moves are legal, no more than the moves they are
/// chosen from, and keep what holds of all of those.
proof fn lemma_legal_among(b: BoardView, moves: Seq<Move>, upto: int, p: spec_fn(Move) -> bool)
    requires
        0 <= upto <= moves.len(),
        every(moves, p),
    ensures
        every(legal_among(b, moves, upto), p),
        every(legal_among(b, moves, upto), |m: Move| is_legal(b, m)),
        legal_among(b, moves, upto).len() <= upto,
    decreases upto,
{
    if upto > 0 {
        lemma_legal_among(b, moves, upto - 1, p);
    }
}

/// No legal move leaves the mover's king attacked: each can be made, and after
/// it the king of the player who moved is not in check.
pub proof fn lemma_legal_moves_are_legal(b: BoardView)
    ensures
        forall|i: int|
            0 <= i < legal_moves(b).len() ==> is_legal(b, #[trigger] legal_moves(b)[i]),
{
    let all = pseudo_moves(b);
    lemma_legal_among(b, all, all.len() as int, |m: Move| true);
    let legal = |m: Move| is_legal(b, m);
    assert forall|i: int| 0 <= i < legal_moves(b).len() implies is_legal(
        b,
        #[trigger] legal_moves(b)[i],
    ) by {
        assert(legal(legal_moves(b)[i]));
    }
}

/// A castling move is among the legal moves only where the right for its
/// side is set, the squares between king and rook are empty, and none of the
/// king's three squares is attacked.
pub proof fn lemma_castling_only_when_justified(b: BoardView)
    requires
        b.well_formed(),
    ensures
        forall|i: int|
            0 <= i < legal_moves(b).len() && (#[trigger] legal_moves(b)[i]).is_castling
                ==> castling_justified(b, legal_moves(b)[i]),
{
    let all = pseudo_moves(b);
    let p = castles_only_justified(b);
    lemma_grid_moves_castling(b, b.cells.len() as int);
    lemma_legal_among(b, all, all.len() as int, p);
    assert forall|i: int|
        0 <= i < legal_moves(b).len() && (#[trigger] legal_moves(b)[i]).is_castling implies castling_justified(
        b,
        legal_moves(b)[i],
    ) by {
        assert(p(legal_moves(b)[i]));
    }
}

/// What every generated move looks like: it starts on a square of the board
/// on which a piece of the side to move stands, records that piece's kind and
/// promotion state, promotes nothing and carries neither a captured kind nor
/// saved rights, and ends on a square of the board that holds no piece of
/// the mover.
pub open spec fn well_shaped(b: BoardView, m: Move) -> bool {
    &&& b.in_bounds(m.from)
    &&& b.at(m.from) matches Some(p)
    &&& p.player == b.current_player
    &&& m.piece_type == p.piece_type
    &&& m.promoted == p.promoted
    &&& !m.promotion
    &&& m.captured is None
    &&& m.old_castling_rights is None
    &&& b.in_bounds(m.to)
    &&& can_enter(b, m.to, b.current_player)
}

/// `well_shaped` as a function of the move.
pub open spec fn shaped_in(b: BoardView) -> spec_fn(Move) -> bool {
    |m: Move| well_shaped(b, m)
}

/// The candidates from one square are well shaped.
proof fn lemma_cell_moves_shaped(b: BoardView, r: int, c: int)
    requires
        b.well_formed(),
        0 <= r < b.cells.len(),
        0 <= c < b.cells[r].len(),
    ensures
        every(cell_moves(b, r, c), shaped_in(b)),
{
    let p = shaped_in(b);
    if let Some(piece) = b.cells[r][c] {
        if piece.player == b.current_player {
            let from = Position { row: r as usize, col: c as usize };
            assert(b.at(from) == Some(piece));
            lemma_piece_moves_every(b, from, piece, p);
            let castles = castling_moves(b, from, piece);
            assert forall|i: int| 0 <= i < castles.len() implies p(#[trigger] castles[i]) by {
                let m = castles[i];
                let row = b.home_row(piece.player);
                assert(b.cells[row].len() == b.cells.len());
                assert(m == castle_move(from, piece, true) || m == castle_move(from, piece, false));
            }
            lemma_every_concat(piece_moves(b, from, piece), castles, p);
        }
    }
}

/// The candidates from the first `upto` squares of a row are well shaped.
proof fn lemma_row_moves_shaped(b: BoardView, r: int, upto: int)
    requires
        b.well_formed(),
        0 <= r < b.cells.len(),
        0 <= upto <= b.cells[r].len(),
    ensures
        every(row_moves(b, r, upto), shaped_in(b)),
    decreases upto,
{
    if upto > 0 {
        lemma_row_moves_shaped(b, r, upto - 1);
        lemma_cell_moves_shaped(b, r, upto - 1);
        lemma_every_concat(row_moves(b, r, upto - 1), cell_moves(b, r, upto - 1), shaped_in(b));
    }
}

/// The candidates from the first `upto` rows are well shaped.
proof fn lemma_grid_moves_shaped(b: BoardView, upto: int)
    requires
        b.well_formed(),
        0 <= upto <= b.cells.len(),
    ensures
        every(grid_moves(b, upto), shaped_in(b)),
    decreases upto,
{
    if upto > 0 {
        lemma_grid_moves_shaped(b, upto - 1);
        assert(b.cells[upto - 1].len() == b.cells.len());
        lemma_row_moves_shaped(b, upto - 1, b.cells.len() as int);
        lemma_every_concat(
            grid_moves(b, upto - 1),
            row_moves(b, upto - 1, b.cells.len() as int),
            shaped_in(b),
        );
    }
}

/// Every legal move is well shaped.
pub proof fn lemma_legal_moves_are_well_shaped(b: BoardView)
    requires
        b.well_formed(),
    ensures
        forall|i: int|
            0 <= i < legal_moves(b).len() ==> well_shaped(b, #[trigger] legal_moves(b)[i]),
{
    let all = pseudo_moves(b);
    let p = shaped_in(b);
    lemma_grid_moves_shaped(b, b.cells.len() as int);
    lemma_legal_among(b, all, all.len() as int, p);
    assert forall|i: int| 0 <= i < legal_moves(b).len() implies well_shaped(
        b,
        #[trigger] legal_moves(b)[i],
    ) by {
        assert(p(legal_moves(b)[i]));
    }
}

/// Making a generated move and taking it back restores the position: grid,
/// hands, side to move and castling rights. The one exception is a move that
/// captures a promoted piece, which comes back unpromoted.
pub proof fn lemma_generated_move_round_trip(b: BoardView, i: int)
    requires
        b.well_formed(),
        0 <= i < legal_moves(b).len(),
        b.at(legal_moves(b)[i].to) matches Some(victim) ==> !victim.promoted,
    ensures
        ({
            let m = legal_moves(b)[i];
            let made = Move { old_castling_rights: Some(b.castling_rights), ..m };
            let captured = match b.at(m.to) {
                Some(victim) => Some(victim.piece_type),
                None => None,
            };
            &&& b.make_error(m) is None
            &&& b.after_move(m).unmake_error(made) is None
            &&& b.after_move(m).before_move(made, captured) == b
        }),
{
    let m = legal_moves(b)[i];
    lemma_legal_moves_are_legal(b);
    lemma_legal_moves_are_well_shaped(b);
    assert(is_legal(b, m));
    assert(well_shaped(b, m));
    if let Some(victim) = b.at(m.to) {
        assert(b.cells[m.to.row as int][m.to.col as int] == Some(victim));
        assert(valid_player(victim.player));
    }
    lemma_unmake_restores(b, m);
}

} // verus!
