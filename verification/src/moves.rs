//! Move generation: the movement of each kind of piece, castling, the attack
//! on a square, and the legal moves of a position.

use vstd::prelude::*;
use crate::board::{
    Board, BoardView, KING_FILE, KING_SIDE_CROSSED, KING_SIDE_ROOK_FILE, KING_SIDE_TARGET,
    QUEEN_SIDE_CROSSED, QUEEN_SIDE_ROOK_FILE, QUEEN_SIDE_TARGET,
};
use crate::move_laws::lemma_legal_moves_are_legal;
use crate::eval::is_under_attack;
use crate::types::{valid_player, Move, Piece, PieceType, Player, Position};

verus! {

/// The row direction in which a player's pieces advance: up the board for
/// player 1, down for player 2.
pub open spec fn forward(player: Player) -> i32 {
    if player == 1 {
        -1i32
    } else {
        1i32
    }
}

/// The other of the two players.
pub open spec fn opponent_of(player: Player) -> Player {
    if player == 1 {
        2
    } else {
        1
    }
}

/// The square `dr` rows and `dc` columns away from `pos` on a board of side
/// `n`, if there is one.
pub open spec fn shifted(pos: Position, dr: int, dc: int, n: nat) -> Option<Position> {
    let r = pos.row + dr;
    let c = pos.col + dc;
    if 0 <= r < n && 0 <= c < n {
        Some(Position { row: r as usize, col: c as usize })
    } else {
        None
    }
}

/// The record of `piece` moving from `from` to `to`.
pub open spec fn move_record(from: Position, to: Position, piece: Piece, promotion: bool) -> Move {
    Move {
        from,
        to,
        piece_type: piece.piece_type,
        promoted: piece.promoted,
        promotion,
        captured: None,
        is_castling: false,
        old_castling_rights: None,
    }
}

/// A square that a piece of `player` may enter: empty or held by the other side.
pub open spec fn can_enter(b: BoardView, pos: Position, player: Player) -> bool {
    match b.at(pos) {
        Some(p) => p.player != player,
        None => true,
    }
}

/// The moves of `piece` by one step along each of `deltas` in turn, to every
/// square that is on the board and that it may enter.
pub open spec fn step_moves(b: BoardView, from: Position, piece: Piece, deltas: Seq<(i32, i32)>) -> Seq<
    Move,
>
    decreases deltas.len(),
{
    if deltas.len() == 0 {
        Seq::empty()
    } else {
        let rest = step_moves(b, from, piece, deltas.drop_last());
        let d = deltas.last();
        match shifted(from, d.0 as int, d.1 as int, b.size()) {
            Some(to) => if can_enter(b, to, piece.player) {
                rest.push(move_record(from, to, piece, false))
            } else {
                rest
            },
            None => rest,
        }
    }
}

/// The moves of `piece` along one line from `cur` on: every empty square up
/// to the first occupied one, and that one too if the other side holds it.
/// `fuel` bounds the length of the line; a line has fewer squares than the
/// board has rows.
pub open spec fn ray_moves(
    b: BoardView,
    from: Position,
    piece: Piece,
    cur: Position,
    dr: int,
    dc: int,
    fuel: nat,
) -> Seq<Move>
    decreases fuel,
{
    if fuel == 0 {
        Seq::empty()
    } else {
        match shifted(cur, dr, dc, b.size()) {
            None => Seq::empty(),
            Some(next) => match b.at(next) {
                Some(target) => if target.player != piece.player {
                    seq![move_record(from, next, piece, false)]
                } else {
                    Seq::empty()
                },
                None => seq![move_record(from, next, piece, false)] + ray_moves(
                    b,
                    from,
                    piece,
                    next,
                    dr,
                    dc,
                    (fuel - 1) as nat,
                ),
            },
        }
    }
}

/// The sliding moves of `piece` along each of `dirs` in turn.
pub open spec fn slide_moves(b: BoardView, from: Position, piece: Piece, dirs: Seq<(i32, i32)>) -> Seq<
    Move,
>
    decreases dirs.len(),
{
    if dirs.len() == 0 {
        Seq::empty()
    } else {
        let d = dirs.last();
        slide_moves(b, from, piece, dirs.drop_last()) + ray_moves(
            b,
            from,
            piece,
            from,
            d.0 as int,
            d.1 as int,
            b.size(),
        )
    }
}

/// The eight neighbouring squares.
pub open spec fn king_steps() -> Seq<(i32, i32)> {
    seq![
        (-1i32, -1i32),
        (-1i32, 0i32),
        (-1i32, 1i32),
        (0i32, -1i32),
        (0i32, 1i32),
        (1i32, -1i32),
        (1i32, 0i32),
        (1i32, 1i32),
    ]
}

/// Along rows and columns.
pub open spec fn orthogonal() -> Seq<(i32, i32)> {
    seq![(0i32, 1i32), (0i32, -1i32), (1i32, 0i32), (-1i32, 0i32)]
}

/// Along diagonals.
pub open spec fn diagonal() -> Seq<(i32, i32)> {
    seq![(-1i32, -1i32), (-1i32, 1i32), (1i32, -1i32), (1i32, 1i32)]
}

/// Along rows, columns and diagonals.
pub open spec fn all_lines() -> Seq<(i32, i32)> {
    seq![
        (0i32, 1i32),
        (0i32, -1i32),
        (1i32, 0i32),
        (-1i32, 0i32),
        (-1i32, -1i32),
        (-1i32, 1i32),
        (1i32, -1i32),
        (1i32, 1i32),
    ]
}

/// The eight jumps of a chess knight.
pub open spec fn chess_knight_jumps() -> Seq<(i32, i32)> {
    seq![
        (-2i32, -1i32),
        (-2i32, 1i32),
        (-1i32, -2i32),
        (-1i32, 2i32),
        (1i32, -2i32),
        (1i32, 2i32),
        (2i32, -1i32),
        (2i32, 1i32),
    ]
}

/// The two jumps of a Shogi knight: two rows forward and one column aside.
pub open spec fn knight_jumps(f: i32) -> Seq<(i32, i32)> {
    seq![((f * 2) as i32, -1i32), ((f * 2) as i32, 1i32)]
}

/// The steps of a gold general: the three squares ahead, the two beside, and
/// the one straight behind.
pub open spec fn gold_steps(f: i32) -> Seq<(i32, i32)> {
    seq![(f, -1i32), (f, 0i32), (f, 1i32), (0i32, -1i32), (0i32, 1i32), ((-f) as i32, 0i32)]
}

/// The steps of a silver general: the three squares ahead and the two
/// diagonally behind.
pub open spec fn silver_steps(f: i32) -> Seq<(i32, i32)> {
    seq![(f, -1i32), (f, 0i32), (f, 1i32), ((-f) as i32, -1i32), ((-f) as i32, 1i32)]
}

/// Straight ahead.
pub open spec fn ahead(f: i32) -> Seq<(i32, i32)> {
    seq![(f, 0i32)]
}

/// The moves of a gold general, and of every promoted piece that moves like one.
pub open spec fn gold_moves(b: BoardView, from: Position, piece: Piece) -> Seq<Move> {
    step_moves(b, from, piece, gold_steps(forward(piece.player)))
}

/// The row on which a player's chess pawns start.
pub open spec fn pawn_start_row(player: Player) -> int {
    if player == 1 {
        6
    } else {
        1
    }
}

/// A chess pawn's step ahead, onto an empty square only.
pub open spec fn pawn_push(b: BoardView, from: Position, piece: Piece) -> Seq<Move> {
    match shifted(from, forward(piece.player) as int, 0, b.size()) {
        Some(to) => if b.at(to) is None {
            seq![move_record(from, to, piece, false)]
        } else {
            Seq::empty()
        },
        None => Seq::empty(),
    }
}

/// A chess pawn's capture diagonally ahead, onto a piece of the other side only.
pub open spec fn pawn_capture(b: BoardView, from: Position, piece: Piece, dc: int) -> Seq<Move> {
    match shifted(from, forward(piece.player) as int, dc, b.size()) {
        Some(to) => match b.at(to) {
            Some(target) => if target.player != piece.player {
                seq![move_record(from, to, piece, false)]
            } else {
                Seq::empty()
            },
            None => Seq::empty(),
        },
        None => Seq::empty(),
    }
}

/// A chess pawn's double step from its start row, over an empty square onto
/// an empty square.
pub open spec fn pawn_double(b: BoardView, from: Position, piece: Piece) -> Seq<Move> {
    let f = forward(piece.player) as int;
    if from.row == pawn_start_row(piece.player) {
        match shifted(from, f, 0, b.size()) {
            Some(middle) => if b.at(middle) is None {
                match shifted(from, 2 * f, 0, b.size()) {
                    Some(to) => if b.at(to) is None {
                        seq![move_record(from, to, piece, false)]
                    } else {
                        Seq::empty()
                    },
                    None => Seq::empty(),
                }
            } else {
                Seq::empty()
            },
            None => Seq::empty(),
        }
    } else {
        Seq::empty()
    }
}

/// The moves of a pawn. A Shogi pawn steps ahead and captures there (promoted,
/// it moves like a gold general); any other pawn steps ahead onto an empty
/// square, and a chess pawn also captures diagonally and may start with a
/// double step.
pub open spec fn pawn_moves(b: BoardView, from: Position, piece: Piece) -> Seq<Move> {
    if piece.piece_type == PieceType::Pawn {
        if piece.promoted {
            gold_moves(b, from, piece)
        } else {
            step_moves(b, from, piece, ahead(forward(piece.player)))
        }
    } else if piece.piece_type == PieceType::ChessPawn {
        pawn_push(b, from, piece) + pawn_capture(b, from, piece, -1) + pawn_capture(
            b,
            from,
            piece,
            1,
        ) + pawn_double(b, from, piece)
    } else {
        pawn_push(b, from, piece)
    }
}

/// The moves of a knight: a chess knight jumps eight ways; a Shogi knight
/// jumps two ways forward, and promoted it moves like a gold general.
pub open spec fn knight_moves(b: BoardView, from: Position, piece: Piece) -> Seq<Move> {
    if piece.piece_type == PieceType::ChessKnight {
        step_moves(b, from, piece, chess_knight_jumps())
    } else if piece.promoted {
        gold_moves(b, from, piece)
    } else {
        step_moves(b, from, piece, knight_jumps(forward(piece.player)))
    }
}

/// The moves of a Shogi rook: along rows and columns, and promoted also one
/// step diagonally.
pub open spec fn rook_moves(b: BoardView, from: Position, piece: Piece) -> Seq<Move> {
    if piece.promoted {
        slide_moves(b, from, piece, orthogonal()) + step_moves(b, from, piece, diagonal())
    } else {
        slide_moves(b, from, piece, orthogonal())
    }
}

/// The moves of a Shogi bishop: along diagonals, and promoted also one step
/// along rows and columns.
pub open spec fn bishop_moves(b: BoardView, from: Position, piece: Piece) -> Seq<Move> {
    if piece.promoted {
        slide_moves(b, from, piece, diagonal()) + step_moves(b, from, piece, orthogonal())
    } else {
        slide_moves(b, from, piece, diagonal())
    }
}

/// The moves of a lance: straight ahead as far as the way is free; promoted,
/// it moves like a gold general.
pub open spec fn lance_moves(b: BoardView, from: Position, piece: Piece) -> Seq<Move> {
    if piece.promoted {
        gold_moves(b, from, piece)
    } else {
        slide_moves(b, from, piece, ahead(forward(piece.player)))
    }
}

/// The moves of a silver general; promoted, it moves like a gold general.
pub open spec fn silver_moves(b: BoardView, from: Position, piece: Piece) -> Seq<Move> {
    if piece.promoted {
        gold_moves(b, from, piece)
    } else {
        step_moves(b, from, piece, silver_steps(forward(piece.player)))
    }
}

/// The moves of `piece` standing on `from` by the movement of its kind,
/// whether or not they expose its king. Castling is no part of them.
pub open spec fn piece_moves(b: BoardView, from: Position, piece: Piece) -> Seq<Move> {
    match piece.piece_type {
        PieceType::King | PieceType::ChessKing => step_moves(b, from, piece, king_steps()),
        PieceType::Rook => rook_moves(b, from, piece),
        PieceType::Bishop => bishop_moves(b, from, piece),
        PieceType::ChessQueen => slide_moves(b, from, piece, all_lines()),
        PieceType::ChessRook => slide_moves(b, from, piece, orthogonal()),
        PieceType::ChessBishop => slide_moves(b, from, piece, diagonal()),
        PieceType::Knight | PieceType::ChessKnight => knight_moves(b, from, piece),
        PieceType::Lance => lance_moves(b, from, piece),
        PieceType::Pawn | PieceType::ChessPawn => pawn_moves(b, from, piece),
        PieceType::Gold => gold_moves(b, from, piece),
        PieceType::Silver => silver_moves(b, from, piece),
    }
}

/// Whether `piece` on `from` has a move by its kind's movement that ends on `target`.
pub open spec fn attacks(b: BoardView, from: Position, piece: Piece, target: Position) -> bool {
    exists|i: int|
        0 <= i < piece_moves(b, from, piece).len() && (#[trigger] piece_moves(b, from, piece)[i]).to
            == target
}

/// Whether a piece of `by` stands on `(r, c)` and attacks `target` from there.
pub open spec fn attacked_from(b: BoardView, r: int, c: int, target: Position, by: Player) -> bool {
    &&& 0 <= r < b.cells.len()
    &&& 0 <= c < b.cells[r].len()
    &&& b.cells[r][c] matches Some(p)
    &&& p.player == by
    &&& attacks(b, Position { row: r as usize, col: c as usize }, p, target)
}

/// Whether some piece of `by` attacks `target`.
pub open spec fn is_attacked(b: BoardView, target: Position, by: Player) -> bool {
    exists|r: int, c: int| #[trigger] attacked_from(b, r, c, target, by)
}

/// Whether the square holds a king, of either family, of `player`.
pub open spec fn is_king_of(cell: Option<Piece>, player: Player) -> bool {
    cell matches Some(p) && p.player == player && p.piece_type.is_king()
}

/// The column of the first king of `player` in `row` at or after `from_col`.
pub open spec fn first_king_col(row: Seq<Option<Piece>>, player: Player, from_col: int) -> Option<
    int,
>
    decreases row.len() - from_col,
{
    if from_col < 0 || from_col >= row.len() {
        None
    } else if is_king_of(row[from_col], player) {
        Some(from_col)
    } else {
        first_king_col(row, player, from_col + 1)
    }
}

/// The first square, row by row from `from_row` on, with a king of `player`.
pub open spec fn first_king(b: BoardView, player: Player, from_row: int) -> Option<Position>
    decreases b.cells.len() - from_row,
{
    if from_row < 0 || from_row >= b.cells.len() {
        None
    } else {
        match first_king_col(b.cells[from_row], player, 0) {
            Some(c) => Some(Position { row: from_row as usize, col: c as usize }),
            None => first_king(b, player, from_row + 1),
        }
    }
}

/// Whether the king of `player` is attacked: the first one in reading order,
/// should there be several. A player without a king is not in check.
pub open spec fn in_check(b: BoardView, player: Player) -> bool {
    match first_king(b, player, 0) {
        None => false,
        Some(king) => is_attacked(b, king, opponent_of(player)),
    }
}

/// Whether the side to move can make `m` and its king is not attacked afterwards.
pub open spec fn is_legal(b: BoardView, m: Move) -> bool {
    b.make_error(m) is None && !in_check(b.after_move(m), b.current_player)
}

/// The castling move of the king `piece` to one side.
pub open spec fn castle_move(from: Position, piece: Piece, king_side: bool) -> Move {
    Move {
        from,
        to: Position {
            row: from.row,
            col: if king_side {
                KING_SIDE_TARGET
            } else {
                QUEEN_SIDE_TARGET
            },
        },
        piece_type: piece.piece_type,
        promoted: piece.promoted,
        promotion: false,
        captured: None,
        is_castling: true,
        old_castling_rights: None,
    }
}

/// The square that the king crosses when it castles to one side.
pub open spec fn crossed_file(king_side: bool) -> usize {
    if king_side {
        KING_SIDE_CROSSED
    } else {
        QUEEN_SIDE_CROSSED
    }
}

/// Whether the chess king `piece` on `from` may castle to one side: it stands
/// on its file on its home rank, the right is there and the squares between
/// king and rook are empty, its own chess rook stands in the corner, and the
/// other side attacks none of the squares where the king stands, which it
/// crosses, and where it arrives.
pub open spec fn may_castle(b: BoardView, from: Position, piece: Piece, king_side: bool) -> bool {
    let me = piece.player;
    let row = b.home_row(me);
    let corner = if king_side {
        KING_SIDE_ROOK_FILE
    } else {
        QUEEN_SIDE_ROOK_FILE
    };
    let target = castle_move(from, piece, king_side).to;
    &&& piece.piece_type == PieceType::ChessKing
    &&& b.can_castle(me, king_side)
    &&& from.row == row
    &&& from.col == KING_FILE
    &&& b.cells[row][corner as int] matches Some(rook)
    &&& rook.piece_type == PieceType::ChessRook
    &&& rook.player == me
    &&& !is_attacked(b, from, opponent_of(me))
    &&& !is_attacked(b, Position { row: from.row, col: crossed_file(king_side) }, opponent_of(me))
    &&& !is_attacked(b, target, opponent_of(me))
}

/// The castling moves of `piece` on `from`: to the king side, then to the
/// queen side, each where it may castle.
pub open spec fn castling_moves(b: BoardView, from: Position, piece: Piece) -> Seq<Move> {
    let king_side: Seq<Move> = if may_castle(b, from, piece, true) {
        seq![castle_move(from, piece, true)]
    } else {
        Seq::empty()
    };
    let queen_side: Seq<Move> = if may_castle(b, from, piece, false) {
        seq![castle_move(from, piece, false)]
    } else {
        Seq::empty()
    };
    king_side + queen_side
}

/// The candidate moves from one square: those of a piece of the side to move
/// that stands there, by its movement and then by castling.
pub open spec fn cell_moves(b: BoardView, r: int, c: int) -> Seq<Move> {
    match b.cells[r][c] {
        Some(p) => if p.player == b.current_player {
            let from = Position { row: r as usize, col: c as usize };
            piece_moves(b, from, p) + castling_moves(b, from, p)
        } else {
            Seq::empty()
        },
        None => Seq::empty(),
    }
}

/// The candidate moves from the first `upto` squares of row `r`.
pub open spec fn row_moves(b: BoardView, r: int, upto: int) -> Seq<Move>
    decreases upto,
{
    if upto <= 0 {
        Seq::empty()
    } else {
        row_moves(b, r, upto - 1) + cell_moves(b, r, upto - 1)
    }
}

/// The candidate moves from the first `upto` rows.
pub open spec fn grid_moves(b: BoardView, upto: int) -> Seq<Move>
    decreases upto,
{
    if upto <= 0 {
        Seq::empty()
    } else {
        grid_moves(b, upto - 1) + row_moves(b, upto - 1, b.cells.len() as int)
    }
}

/// All candidate moves of the side to move, square by square in reading order.
pub open spec fn pseudo_moves(b: BoardView) -> Seq<Move> {
    grid_moves(b, b.cells.len() as int)
}

/// Those of the first `upto` of `moves` that are legal, in their order.
pub open spec fn legal_among(b: BoardView, moves: Seq<Move>, upto: int) -> Seq<Move>
    decreases upto,
{
    if upto <= 0 {
        Seq::empty()
    } else {
        let rest = legal_among(b, moves, upto - 1);
        if is_legal(b, moves[upto - 1]) {
            rest.push(moves[upto - 1])
        } else {
            rest
        }
    }
}

/// The legal moves of the side to move: the candidates that can be made and
/// do not leave the mover's king attacked, in the order of the candidates.
pub open spec fn legal_moves(b: BoardView) -> Seq<Move> {
    legal_among(b, pseudo_moves(b), pseudo_moves(b).len() as int)
}

/// The square `dr` rows and `dc` columns away from `pos`, if it is on a board
/// of side `board_size`.
pub fn add_delta(pos: Position, dr: i32, dc: i32, board_size: usize) -> (res: Option<Position>)
    ensures
        res == shifted(pos, dr as int, dc as int, board_size as nat),
{
    let new_row: i128 = pos.row as i128 + dr as i128;
    let new_col: i128 = pos.col as i128 + dc as i128;
    if new_row >= 0 && new_row < board_size as i128 && new_col >= 0 && new_col
        < board_size as i128 {
        Some(Position { row: new_row as usize, col: new_col as usize })
    } else {
        None
    }
}

/// Whether a piece of `player` may enter `pos`.
pub fn can_move_to(board: &Board, pos: Position, player: Player) -> (ok: bool)
    ensures
        ok == can_enter(board@, pos, player),
{
    match board.piece_at(pos) {
        Some(p) => p.player != player,
        None => true,
    }
}

/// Appends the record of `piece` moving from `from` to `to`.
pub fn add_move(moves: &mut Vec<Move>, from: Position, to: Position, piece: &Piece, promotion: bool)
    ensures
        final(moves)@ == old(moves)@.push(move_record(from, to, *piece, promotion)),
{
    moves.push(
        Move {
            from,
            to,
            piece_type: piece.piece_type,
            promoted: piece.promoted,
            promotion,
            captured: None,
            is_castling: false,
            old_castling_rights: None,
        },
    );
}

/// Appends the one-step moves of `piece` along each of `deltas`.
fn add_steps(
    board: &Board,
    from: Position,
    piece: &Piece,
    deltas: &[(i32, i32)],
    moves: &mut Vec<Move>,
)
    ensures
        final(moves)@ == old(moves)@ + step_moves(board@, from, *piece, deltas@),
{
    let n = board.size();
    let mut i: usize = 0;
    assert(deltas@.subrange(0, 0) =~= Seq::empty());
    assert(moves@ =~= old(moves)@ + step_moves(board@, from, *piece, deltas@.subrange(0, 0)));
    while i < deltas.len()
        invariant
            i <= deltas@.len(),
            n == board@.size(),
            moves@ == old(moves)@ + step_moves(board@, from, *piece, deltas@.subrange(0, i as int)),
        decreases deltas.len() - i,
    {
        let (dr, dc) = deltas[i];
        let ghost before = deltas@.subrange(0, i as int);
        let ghost now = deltas@.subrange(0, i + 1);
        assert(now.drop_last() =~= before);
        assert(now.last() == (dr, dc));
        if let Some(to) = add_delta(from, dr, dc, n) {
            if can_move_to(board, to, piece.player) {
                add_move(moves, from, to, piece, false);
            }
        }
        assert(moves@ =~= old(moves)@ + step_moves(board@, from, *piece, now));
        i += 1;
    }
    assert(deltas@.subrange(0, deltas@.len() as int) =~= deltas@);
}

/// Appends the sliding moves of `piece` along each of `directions`.
pub fn generate_sliding_moves(
    board: &Board,
    from: Position,
    piece: &Piece,
    directions: &[(i32, i32)],
    moves: &mut Vec<Move>,
)
    ensures
        final(moves)@ == old(moves)@ + slide_moves(board@, from, *piece, directions@),
{
    let n = board.size();
    let ghost b = board@;
    let mut d: usize = 0;
    assert(directions@.subrange(0, 0) =~= Seq::empty());
    assert(moves@ =~= old(moves)@ + slide_moves(b, from, *piece, directions@.subrange(0, 0)));
    while d < directions.len()
        invariant
            d <= directions@.len(),
            b == board@,
            n == b.size(),
            moves@ == old(moves)@ + slide_moves(b, from, *piece, directions@.subrange(0, d as int)),
        decreases directions.len() - d,
    {
        let (dr, dc) = directions[d];
        let ghost before = directions@.subrange(0, d as int);
        let ghost now = directions@.subrange(0, d + 1);
        assert(now.drop_last() =~= before);
        assert(now.last() == (dr, dc));
        let ghost target = moves@ + ray_moves(b, from, *piece, from, dr as int, dc as int, n as nat);
        let mut current = from;
        let mut steps: usize = 0;
        let mut going = true;
        while going && steps < n
            invariant
                steps <= n,
                b == board@,
                n == b.size(),
                going ==> moves@ + ray_moves(
                    b,
                    from,
                    *piece,
                    current,
                    dr as int,
                    dc as int,
                    (n - steps) as nat,
                ) == target,
                !going ==> moves@ == target,
            decreases n - steps + (if going { 1int } else { 0int }),
        {
            let ghost pre = moves@;
            let ghost rest = ray_moves(
                b,
                from,
                *piece,
                current,
                dr as int,
                dc as int,
                (n - steps) as nat,
            );
            match add_delta(current, dr, dc, n) {
                None => {
                    assert(pre + rest =~= pre);
                    going = false;
                },
                Some(next) => {
                    match board.piece_at(next) {
                        Some(target_piece) => {
                            if target_piece.player != piece.player {
                                add_move(moves, from, next, piece, false);
                                assert(moves@ =~= pre + rest);
                            } else {
                                assert(pre + rest =~= pre);
                            }
                            going = false;
                        },
                        None => {
                            add_move(moves, from, next, piece, false);
                            let ghost tail = ray_moves(
                                b,
                                from,
                                *piece,
                                next,
                                dr as int,
                                dc as int,
                                (n - steps - 1) as nat,
                            );
                            assert(moves@ + tail =~= pre + rest);
                            current = next;
                            steps += 1;
                        },
                    }
                },
            }
        }
        proof {
            if going {
                assert(moves@ + Seq::<Move>::empty() =~= moves@);
            }
            assert(moves@ =~= old(moves)@ + slide_moves(b, from, *piece, now));
        }
        d += 1;
    }
    assert(directions@.subrange(0, directions@.len() as int) =~= directions@);
}

/// The row direction in which `player` advances.
fn forward_of(player: Player) -> (f: i32)
    ensures
        f == forward(player),
{
    if player == 1 {
        -1
    } else {
        1
    }
}

/// Appends the moves of a king: one step to each neighbouring square.
pub fn generate_king_moves(board: &Board, from: Position, piece: &Piece, moves: &mut Vec<Move>)
    ensures
        final(moves)@ == old(moves)@ + step_moves(board@, from, *piece, king_steps()),
{
    let directions: [(i32, i32); 8] = [
        (-1, -1),
        (-1, 0),
        (-1, 1),
        (0, -1),
        (0, 1),
        (1, -1),
        (1, 0),
        (1, 1),
    ];
    assert(directions@ =~= king_steps());
    add_steps(board, from, piece, &directions, moves);
}

/// Appends the moves of a gold general.
pub fn generate_gold_moves(board: &Board, from: Position, piece: &Piece, moves: &mut Vec<Move>)
    ensures
        final(moves)@ == old(moves)@ + gold_moves(board@, from, *piece),
{
    let f = forward_of(piece.player);
    let directions: [(i32, i32); 6] = [(f, -1), (f, 0), (f, 1), (0, -1), (0, 1), (-f, 0)];
    assert(directions@ =~= gold_steps(f));
    add_steps(board, from, piece, &directions, moves);
}

/// Appends the moves of a silver general.
pub fn generate_silver_moves(board: &Board, from: Position, piece: &Piece, moves: &mut Vec<Move>)
    ensures
        final(moves)@ == old(moves)@ + silver_moves(board@, from, *piece),
{
    if piece.promoted {
        generate_gold_moves(board, from, piece, moves);
        return ;
    }
    let f = forward_of(piece.player);
    let directions: [(i32, i32); 5] = [(f, -1), (f, 0), (f, 1), (-f, -1), (-f, 1)];
    assert(directions@ =~= silver_steps(f));
    add_steps(board, from, piece, &directions, moves);
}

/// Appends the moves of a Shogi rook.
pub fn generate_rook_moves(board: &Board, from: Position, piece: &Piece, moves: &mut Vec<Move>)
    ensures
        final(moves)@ == old(moves)@ + rook_moves(board@, from, *piece),
{
    let directions: [(i32, i32); 4] = [(0, 1), (0, -1), (1, 0), (-1, 0)];
    assert(directions@ =~= orthogonal());
    generate_sliding_moves(board, from, piece, &directions, moves);
    if piece.promoted {
        let diag_dirs: [(i32, i32); 4] = [(-1, -1), (-1, 1), (1, -1), (1, 1)];
        assert(diag_dirs@ =~= diagonal());
        add_steps(board, from, piece, &diag_dirs, moves);
        assert(moves@ =~= old(moves)@ + rook_moves(board@, from, *piece));
    }
}

/// Appends the moves of a Shogi bishop.
pub fn generate_bishop_moves(board: &Board, from: Position, piece: &Piece, moves: &mut Vec<Move>)
    ensures
        final(moves)@ == old(moves)@ + bishop_moves(board@, from, *piece),
{
    let directions: [(i32, i32); 4] = [(-1, -1), (-1, 1), (1, -1), (1, 1)];
    assert(directions@ =~= diagonal());
    generate_sliding_moves(board, from, piece, &directions, moves);
    if piece.promoted {
        let orth_dirs: [(i32, i32); 4] = [(0, 1), (0, -1), (1, 0), (-1, 0)];
        assert(orth_dirs@ =~= orthogonal());
        add_steps(board, from, piece, &orth_dirs, moves);
        assert(moves@ =~= old(moves)@ + bishop_moves(board@, from, *piece));
    }
}

/// Appends the moves of a chess queen.
pub fn generate_queen_moves(board: &Board, from: Position, piece: &Piece, moves: &mut Vec<Move>)
    ensures
        final(moves)@ == old(moves)@ + slide_moves(board@, from, *piece, all_lines()),
{
    let directions: [(i32, i32); 8] = [
        (0, 1),
        (0, -1),
        (1, 0),
        (-1, 0),
        (-1, -1),
        (-1, 1),
        (1, -1),
        (1, 1),
    ];
    assert(directions@ =~= all_lines());
    generate_sliding_moves(board, from, piece, &directions, moves);
}

/// Appends the moves of a chess rook.
pub fn generate_chess_rook_moves(
    board: &Board,
    from: Position,
    piece: &Piece,
    moves: &mut Vec<Move>,
)
    ensures
        final(moves)@ == old(moves)@ + slide_moves(board@, from, *piece, orthogonal()),
{
    let directions: [(i32, i32); 4] = [(0, 1), (0, -1), (1, 0), (-1, 0)];
    assert(directions@ =~= orthogonal());
    generate_sliding_moves(board, from, piece, &directions, moves);
}

/// Appends the moves of a chess bishop.
pub fn generate_chess_bishop_moves(
    board: &Board,
    from: Position,
    piece: &Piece,
    moves: &mut Vec<Move>,
)
    ensures
        final(moves)@ == old(moves)@ + slide_moves(board@, from, *piece, diagonal()),
{
    let directions: [(i32, i32); 4] = [(-1, -1), (-1, 1), (1, -1), (1, 1)];
    assert(directions@ =~= diagonal());
    generate_sliding_moves(board, from, piece, &directions, moves);
}

/// Appends the moves of a knight of either family.
pub fn generate_knight_moves(board: &Board, from: Position, piece: &Piece, moves: &mut Vec<Move>)
    ensures
        final(moves)@ == old(moves)@ + knight_moves(board@, from, *piece),
{
    if piece.piece_type == PieceType::ChessKnight {
        let deltas: [(i32, i32); 8] = [
            (-2, -1),
            (-2, 1),
            (-1, -2),
            (-1, 2),
            (1, -2),
            (1, 2),
            (2, -1),
            (2, 1),
        ];
        assert(deltas@ =~= chess_knight_jumps());
        add_steps(board, from, piece, &deltas, moves);
    } else {
        if piece.promoted {
            generate_gold_moves(board, from, piece, moves);
            return ;
        }
        let f = forward_of(piece.player);
        let deltas: [(i32, i32); 2] = [(f * 2, -1), (f * 2, 1)];
        assert(deltas@ =~= knight_jumps(f));
        add_steps(board, from, piece, &deltas, moves);
    }
}

/// Appends the moves of a lance.
pub fn generate_lance_moves(board: &Board, from: Position, piece: &Piece, moves: &mut Vec<Move>)
    ensures
        final(moves)@ == old(moves)@ + lance_moves(board@, from, *piece),
{
    if piece.promoted {
        generate_gold_moves(board, from, piece, moves);
        return ;
    }
    let f = forward_of(piece.player);
    let directions: [(i32, i32); 1] = [(f, 0)];
    assert(directions@ =~= ahead(f));
    generate_sliding_moves(board, from, piece, &directions, moves);
}

/// Appends the moves of a pawn of either family.
pub fn generate_pawn_moves(board: &Board, from: Position, piece: &Piece, moves: &mut Vec<Move>)
    ensures
        final(moves)@ == old(moves)@ + pawn_moves(board@, from, *piece),
{
    let f = forward_of(piece.player);
    let n = board.size();
    let ghost b = board@;
    if piece.piece_type == PieceType::Pawn {
        if piece.promoted {
            generate_gold_moves(board, from, piece, moves);
            return ;
        }
        let directions: [(i32, i32); 1] = [(f, 0)];
        assert(directions@ =~= ahead(f));
        add_steps(board, from, piece, &directions, moves);
    } else {
        // Straight ahead, onto an empty square only.
        if let Some(to) = add_delta(from, f, 0, n) {
            if board.piece_at(to).is_none() {
                add_move(moves, from, to, piece, false);
            }
        }
        assert(moves@ =~= old(moves)@ + pawn_push(b, from, *piece));
        if piece.piece_type == PieceType::ChessPawn {
            // Diagonally ahead, onto a piece of the other side only.
            let sides: [i32; 2] = [-1, 1];
            let mut i: usize = 0;
            while i < 2
                invariant
                    i <= 2,
                    b == board@,
                    n == b.size(),
                    f == forward(piece.player),
                    sides@ =~= seq![-1i32, 1i32],
                    i == 0 ==> moves@ == old(moves)@ + pawn_push(b, from, *piece),
                    i == 1 ==> moves@ == old(moves)@ + pawn_push(b, from, *piece) + pawn_capture(
                        b,
                        from,
                        *piece,
                        -1,
                    ),
                    i == 2 ==> moves@ == old(moves)@ + pawn_push(b, from, *piece) + pawn_capture(
                        b,
                        from,
                        *piece,
                        -1,
                    ) + pawn_capture(b, from, *piece, 1),
                decreases 2 - i,
            {
                let dc = sides[i];
                let ghost pre = moves@;
                if let Some(to) = add_delta(from, f, dc, n) {
                    if let Some(target_piece) = board.piece_at(to) {
                        if target_piece.player != piece.player {
                            add_move(moves, from, to, piece, false);
                        }
                    }
                }
                assert(moves@ =~= pre + pawn_capture(b, from, *piece, dc as int));
                i += 1;
            }
            // Two squares ahead from the start row, over and onto empty squares.
            let ghost pre = moves@;
            let start_row: usize = if piece.player == 1 {
                6
            } else {
                1
            };
            if from.row == start_row {
                if let Some(middle) = add_delta(from, f, 0, n) {
                    if board.piece_at(middle).is_none() {
                        if let Some(to) = add_delta(from, f * 2, 0, n) {
                            if board.piece_at(to).is_none() {
                                add_move(moves, from, to, piece, false);
                            }
                        }
                    }
                }
            }
            assert(moves@ =~= pre + pawn_double(b, from, *piece));
            assert(moves@ =~= old(moves)@ + pawn_moves(b, from, *piece));
        }
    }
}

/// Appends the moves of `piece` on `from` by the movement of its kind.
pub fn generate_piece_moves(board: &Board, from: Position, piece: &Piece, moves: &mut Vec<Move>)
    ensures
        final(moves)@ == old(moves)@ + piece_moves(board@, from, *piece),
{
    match piece.piece_type {
        PieceType::King | PieceType::ChessKing => generate_king_moves(board, from, piece, moves),
        PieceType::Rook => generate_rook_moves(board, from, piece, moves),
        PieceType::Bishop => generate_bishop_moves(board, from, piece, moves),
        PieceType::ChessQueen => generate_queen_moves(board, from, piece, moves),
        PieceType::ChessRook => generate_chess_rook_moves(board, from, piece, moves),
        PieceType::ChessBishop => generate_chess_bishop_moves(board, from, piece, moves),
        PieceType::Knight | PieceType::ChessKnight => generate_knight_moves(
            board,
            from,
            piece,
            moves,
        ),
        PieceType::Lance => generate_lance_moves(board, from, piece, moves),
        PieceType::Pawn | PieceType::ChessPawn => generate_pawn_moves(board, from, piece, moves),
        PieceType::Gold => generate_gold_moves(board, from, piece, moves),
        PieceType::Silver => generate_silver_moves(board, from, piece, moves),
    }
}

/// Whether `piece` on `from` attacks `to`: whether one of its moves ends there.
pub fn can_attack(board: &Board, from: Position, to: Position, piece: &Piece) -> (hit: bool)
    ensures
        hit == attacks(board@, from, *piece, to),
{
    let mut attack_moves: Vec<Move> = Vec::new();
    generate_piece_moves(board, from, piece, &mut attack_moves);
    let ghost all = piece_moves(board@, from, *piece);
    assert(attack_moves@ =~= all);
    let mut i: usize = 0;
    while i < attack_moves.len()
        invariant
            i <= attack_moves@.len(),
            attack_moves@ == all,
            all == piece_moves(board@, from, *piece),
            forall|j: int| 0 <= j < i ==> (#[trigger] all[j]).to != to,
        decreases attack_moves.len() - i,
    {
        if attack_moves[i].to == to {
            assert(all[i as int].to == to);
            return true;
        }
        i += 1;
    }
    false
}

/// The first square, in reading order, with a king of `player`.
pub fn find_king(board: &Board, player: Player) -> (res: Option<Position>)
    ensures
        res == first_king(board@, player, 0),
{
    let ghost b = board@;
    let n = board.cells.len();
    let mut row: usize = 0;
    while row < n
        invariant
            b == board@,
            n == b.cells.len(),
            row <= n,
            first_king(b, player, 0) == first_king(b, player, row as int),
        decreases n - row,
    {
        let cells = &board.cells[row];
        assert(cells@ == b.cells[row as int]);
        let mut col: usize = 0;
        while col < cells.len()
            invariant
                col <= cells@.len(),
                row < n,
                b == board@,
                n == b.cells.len(),
                cells@ == b.cells[row as int],
                first_king(b, player, 0) == first_king(b, player, row as int),
                first_king_col(cells@, player, 0) == first_king_col(cells@, player, col as int),
            decreases cells.len() - col,
        {
            if let Some(piece) = cells[col] {
                if piece.player == player && (piece.piece_type == PieceType::King
                    || piece.piece_type == PieceType::ChessKing) {
                    return Some(Position { row, col });
                }
            }
            col += 1;
        }
        row += 1;
    }
    None
}

/// Whether the king of `player` is attacked.
pub fn is_in_check(board: &Board, player: Player) -> (check: bool)
    ensures
        check == in_check(board@, player),
{
    let king_pos = match find_king(board, player) {
        Some(pos) => pos,
        None => {
            return false;
        },
    };
    let opponent: Player = if player == 1 {
        2
    } else {
        1
    };
    is_under_attack(board, king_pos, opponent)
}

/// Whether the side to move can make `mv` without leaving its king attacked.
pub fn is_legal_move(board: &Board, mv: &Move) -> (ok: bool)
    requires
        valid_player(board.current_player),
    ensures
        ok == is_legal(board@, *mv),
{
    let mut test_board = board.clone();
    let mut m = *mv;
    match test_board.make_move(&mut m) {
        Err(_) => false,
        Ok(()) => {
            // The turn has passed, so the mover is the player who is not to move now.
            let player_after_move = 3 - test_board.current_player;
            !is_in_check(&test_board, player_after_move)
        },
    }
}

/// Whether the chess king `piece` on `from` may castle to one side.
fn may_castle_now(board: &Board, from: Position, piece: &Piece, king_side: bool) -> (ok: bool)
    ensures
        ok == may_castle(board@, from, *piece, king_side),
{
    if piece.piece_type != PieceType::ChessKing {
        return false;
    }
    let me = piece.player;
    if !board.can_castle(me, king_side) {
        return false;
    }
    let n = board.size();
    let row: usize = if me == 1 {
        n - 1
    } else {
        0
    };
    if from.row != row || from.col != KING_FILE {
        return false;
    }
    let corner = if king_side {
        KING_SIDE_ROOK_FILE
    } else {
        QUEEN_SIDE_ROOK_FILE
    };
    let rook_there = match board.cells[row][corner] {
        Some(p) => p.piece_type == PieceType::ChessRook && p.player == me,
        None => false,
    };
    if !rook_there {
        return false;
    }
    let foe: Player = if me == 1 {
        2
    } else {
        1
    };
    let crossed = if king_side {
        KING_SIDE_CROSSED
    } else {
        QUEEN_SIDE_CROSSED
    };
    let target = if king_side {
        KING_SIDE_TARGET
    } else {
        QUEEN_SIDE_TARGET
    };
    !is_under_attack(board, from, foe) && !is_under_attack(
        board,
        Position { row, col: crossed },
        foe,
    ) && !is_under_attack(board, Position { row, col: target }, foe)
}

/// Appends the castling moves of `piece` on `from`: king side first.
pub fn generate_castling_moves(board: &Board, from: Position, piece: &Piece, moves: &mut Vec<Move>)
    ensures
        final(moves)@ == old(moves)@ + castling_moves(board@, from, *piece),
{
    if may_castle_now(board, from, piece, true) {
        moves.push(
            Move {
                from,
                to: Position { row: from.row, col: KING_SIDE_TARGET },
                piece_type: piece.piece_type,
                promoted: piece.promoted,
                promotion: false,
                captured: None,
                is_castling: true,
                old_castling_rights: None,
            },
        );
    }
    if may_castle_now(board, from, piece, false) {
        moves.push(
            Move {
                from,
                to: Position { row: from.row, col: QUEEN_SIDE_TARGET },
                piece_type: piece.piece_type,
                promoted: piece.promoted,
                promotion: false,
                captured: None,
                is_castling: true,
                old_castling_rights: None,
            },
        );
    }
    assert(moves@ =~= old(moves)@ + castling_moves(board@, from, *piece));
}

/// All legal moves of the side to move: the moves of its pieces by their
/// movement and by castling, square by square in reading order, without those
/// that cannot be made or that leave its king attacked.
pub fn generate_moves(board: &Board) -> (moves: Vec<Move>)
    requires
        board@.well_formed(),
    ensures
        moves@ == legal_moves(board@),
        forall|i: int| 0 <= i < moves@.len() ==> is_legal(board@, #[trigger] moves@[i]),
{
    let ghost b = board@;
    let n = board.size();
    let mut pseudo: Vec<Move> = Vec::new();
    let mut row: usize = 0;
    assert(pseudo@ =~= grid_moves(b, 0));
    while row < n
        invariant
            b == board@,
            b.well_formed(),
            n == b.cells.len(),
            row <= n,
            pseudo@ == grid_moves(b, row as int),
        decreases n - row,
    {
        let mut col: usize = 0;
        assert(pseudo@ =~= grid_moves(b, row as int) + row_moves(b, row as int, 0));
        while col < n
            invariant
                b == board@,
                b.well_formed(),
                n == b.cells.len(),
                row < n,
                col <= n,
                pseudo@ == grid_moves(b, row as int) + row_moves(b, row as int, col as int),
            decreases n - col,
        {
            let ghost pre = pseudo@;
            assert(b.cells[row as int].len() == n);
            let from = Position { row, col };
            if let Some(piece) = board.piece_at(from) {
                if piece.player == board.current_player {
                    generate_piece_moves(board, from, &piece, &mut pseudo);
                    generate_castling_moves(board, from, &piece, &mut pseudo);
                }
            }
            assert(pseudo@ =~= pre + cell_moves(b, row as int, col as int));
            assert(pseudo@ =~= grid_moves(b, row as int) + row_moves(b, row as int, col + 1));
            col += 1;
        }
        row += 1;
    }
    let mut moves: Vec<Move> = Vec::new();
    let mut i: usize = 0;
    while i < pseudo.len()
        invariant
            b == board@,
            b.well_formed(),
            pseudo@ == pseudo_moves(b),
            i <= pseudo@.len(),
            moves@ == legal_among(b, pseudo@, i as int),
        decreases pseudo.len() - i,
    {
        if is_legal_move(board, &pseudo[i]) {
            moves.push(pseudo[i]);
        }
        i += 1;
    }
    proof {
        lemma_legal_moves_are_legal(b);
    }
    moves
}

} // verus!
