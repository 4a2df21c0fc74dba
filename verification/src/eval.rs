//! Static evaluation of a position, and the attack test.

use vstd::prelude::*;
use crate::board::{Board, BoardView};
use crate::config::AIConfig;
use crate::moves::{attacked_from, can_attack, is_attacked};
use crate::pst::{get_pst_value, lemma_pst_bounded, pst_value};
use crate::types::{valid_player, Piece, PieceType, Player, Position};

verus! {

/// No piece is worth more than this.
pub const MAX_PIECE_VALUE: i32 = 100_000;

/// No square adds more than this to a score: a piece and its positional bonus.
pub const MAX_CELL_SCORE: i32 = 100_500;

/// No piece in hand adds more than this to a score.
pub const MAX_HAND_SCORE: i32 = 50_000;

/// Material value of a piece in centipawns.
pub open spec fn piece_value(kind: PieceType, promoted: bool) -> int {
    match kind {
        PieceType::King => 100_000,
        PieceType::Rook => if promoted {
            1000
        } else {
            900
        },
        PieceType::Bishop => if promoted {
            850
        } else {
            750
        },
        PieceType::Gold => 600,
        PieceType::Silver => if promoted {
            600
        } else {
            500
        },
        PieceType::Knight => if promoted {
            600
        } else {
            350
        },
        PieceType::Lance => if promoted {
            600
        } else {
            300
        },
        PieceType::Pawn => if promoted {
            600
        } else {
            100
        },
        PieceType::ChessKing => 100_000,
        PieceType::ChessQueen => 950,
        PieceType::ChessRook => 500,
        PieceType::ChessBishop => 330,
        PieceType::ChessKnight => 320,
        PieceType::ChessPawn => 100,
    }
}

/// What the square `(r, c)` adds to the score of `side`: the value of the
/// piece on it, with its positional bonus if those are in use, counted for
/// `side` if the piece is its own and against it otherwise.
pub open spec fn cell_score(
    cell: Option<Piece>,
    r: int,
    c: int,
    use_pst: bool,
    side: Player,
) -> int {
    match cell {
        None => 0,
        Some(p) => {
            let bonus = if use_pst {
                pst_value(p.piece_type, r, c, p.player)
            } else {
                0
            };
            let worth = piece_value(p.piece_type, p.promoted) + bonus;
            if p.player == side {
                worth
            } else {
                -worth
            }
        },
    }
}

/// The sum of `cell_score` over the first `upto` squares of row `r`.
pub open spec fn row_score(
    row: Seq<Option<Piece>>,
    r: int,
    upto: int,
    use_pst: bool,
    side: Player,
) -> int
    decreases upto,
{
    if upto <= 0 {
        0
    } else {
        row_score(row, r, upto - 1, use_pst, side) + cell_score(
            row[upto - 1],
            r,
            upto - 1,
            use_pst,
            side,
        )
    }
}

/// The sum of `cell_score` over the first `upto` rows of a grid.
pub open spec fn grid_score(
    cells: Seq<Seq<Option<Piece>>>,
    upto: int,
    use_pst: bool,
    side: Player,
) -> int
    decreases upto,
{
    if upto <= 0 {
        0
    } else {
        grid_score(cells, upto - 1, use_pst, side) + row_score(
            cells[upto - 1],
            upto - 1,
            cells[upto - 1].len() as int,
            use_pst,
            side,
        )
    }
}

/// What the first `upto` pieces of a hand are worth: half the unpromoted
/// value of each.
pub open spec fn hand_score(hand: Seq<PieceType>, upto: int) -> int
    decreases upto,
{
    if upto <= 0 {
        0
    } else {
        hand_score(hand, upto - 1) + piece_value(hand[upto - 1], false) / 2
    }
}

/// The score of a position for `side`: every square, then the own hand
/// counted for and the other hand counted against.
pub open spec fn score_for(b: BoardView, use_pst: bool, side: Player) -> int {
    grid_score(b.cells, b.cells.len() as int, use_pst, side) + hand_score(
        b.hand(side),
        b.hand(side).len() as int,
    ) - hand_score(b.hand((3 - side) as Player), b.hand((3 - side) as Player).len() as int)
}

/// The score of a position for the side to move.
pub open spec fn evaluation(b: BoardView, use_pst: bool) -> int {
    score_for(b, use_pst, b.current_player)
}

/// The largest score in absolute value that a position of this size and with
/// this many pieces in hand can have.
pub open spec fn score_limit(b: BoardView) -> int {
    b.size() * (b.size() * MAX_CELL_SCORE) + b.hand_count() * MAX_HAND_SCORE
}

/// Whether every score of the position can be held in an `i32`.
pub open spec fn eval_fits(b: BoardView) -> bool {
    score_limit(b) <= i32::MAX
}

/// No square adds more than `MAX_CELL_SCORE` to a score, for or against.
pub proof fn lemma_cell_score_bounded(
    cell: Option<Piece>,
    r: int,
    c: int,
    use_pst: bool,
    side: Player,
)
    ensures
        -MAX_CELL_SCORE <= cell_score(cell, r, c, use_pst, side) <= MAX_CELL_SCORE,
{
    if let Some(p) = cell {
        lemma_pst_bounded(p.piece_type, r, c, p.player);
    }
}

/// The score of the first `upto` squares of a row lies within `upto` times
/// `MAX_CELL_SCORE` of zero.
pub proof fn lemma_row_score_bounded(
    row: Seq<Option<Piece>>,
    r: int,
    upto: int,
    use_pst: bool,
    side: Player,
)
    requires
        0 <= upto,
    ensures
        -upto * MAX_CELL_SCORE <= row_score(row, r, upto, use_pst, side) <= upto
            * MAX_CELL_SCORE,
    decreases upto,
{
    if upto > 0 {
        lemma_row_score_bounded(row, r, upto - 1, use_pst, side);
        lemma_cell_score_bounded(row[upto - 1], r, upto - 1, use_pst, side);
    }
}

/// The score of the first `upto` rows of a square grid lies within `upto`
/// times the most that a row can score.
pub proof fn lemma_grid_score_bounded(
    cells: Seq<Seq<Option<Piece>>>,
    upto: int,
    use_pst: bool,
    side: Player,
)
    requires
        0 <= upto <= cells.len(),
        forall|r: int| 0 <= r < cells.len() ==> (#[trigger] cells[r]).len() == cells.len(),
    ensures
        -(upto * (cells.len() * MAX_CELL_SCORE)) <= grid_score(cells, upto, use_pst, side) <= upto
            * (cells.len() * MAX_CELL_SCORE),
    decreases upto,
{
    if upto > 0 {
        lemma_grid_score_bounded(cells, upto - 1, use_pst, side);
        let row = cells[upto - 1];
        lemma_row_score_bounded(row, upto - 1, row.len() as int, use_pst, side);
        let w = cells.len() * MAX_CELL_SCORE;
        assert((upto - 1) * w + w == upto * w) by (nonlinear_arith);
    }
}

/// The first `upto` pieces of a hand are worth at most `upto` times
/// `MAX_HAND_SCORE`, and never less than nothing.
pub proof fn lemma_hand_score_bounded(hand: Seq<PieceType>, upto: int)
    requires
        0 <= upto,
    ensures
        0 <= hand_score(hand, upto) <= upto * MAX_HAND_SCORE,
    decreases upto,
{
    if upto > 0 {
        lemma_hand_score_bounded(hand, upto - 1);
    }
}

/// The score of a well-formed position lies within its `score_limit`.
pub proof fn lemma_evaluation_bounded(b: BoardView, use_pst: bool, side: Player)
    requires
        b.well_formed(),
    ensures
        -score_limit(b) <= score_for(b, use_pst, side) <= score_limit(b),
{
    let n = b.cells.len() as int;
    lemma_grid_score_bounded(b.cells, n, use_pst, side);
    let other = (3 - side) as Player;
    lemma_hand_score_bounded(b.hand(side), b.hand(side).len() as int);
    lemma_hand_score_bounded(b.hand(other), b.hand(other).len() as int);
    assert(b.hand(side).len() <= b.hand_count());
    assert(b.hand(other).len() <= b.hand_count());
    assert(b.hand(side).len() * MAX_HAND_SCORE <= b.hand_count() * MAX_HAND_SCORE)
        by (nonlinear_arith)
        requires
            b.hand(side).len() <= b.hand_count(),
    ;
    assert(b.hand(other).len() * MAX_HAND_SCORE <= b.hand_count() * MAX_HAND_SCORE)
        by (nonlinear_arith)
        requires
            b.hand(other).len() <= b.hand_count(),
    ;
}

/// A row scores the opposite for the other side.
proof fn lemma_row_score_negates(
    row: Seq<Option<Piece>>,
    r: int,
    upto: int,
    use_pst: bool,
    side: Player,
)
    requires
        valid_player(side),
        0 <= upto <= row.len(),
        forall|c: int|
            0 <= c < row.len() ==> (#[trigger] row[c] matches Some(p) ==> valid_player(p.player)),
    ensures
        row_score(row, r, upto, use_pst, (3 - side) as Player) == -row_score(
            row,
            r,
            upto,
            use_pst,
            side,
        ),
    decreases upto,
{
    if upto > 0 {
        lemma_row_score_negates(row, r, upto - 1, use_pst, side);
        assert(row[upto - 1] matches Some(p) ==> valid_player(p.player));
    }
}

/// The first `upto` rows score the opposite for the other side.
proof fn lemma_grid_score_negates(b: BoardView, upto: int, use_pst: bool, side: Player)
    requires
        b.well_formed(),
        valid_player(side),
        0 <= upto <= b.cells.len(),
    ensures
        grid_score(b.cells, upto, use_pst, (3 - side) as Player) == -grid_score(
            b.cells,
            upto,
            use_pst,
            side,
        ),
    decreases upto,
{
    if upto > 0 {
        lemma_grid_score_negates(b, upto - 1, use_pst, side);
        let row = b.cells[upto - 1];
        assert forall|c: int| 0 <= c < row.len() implies (#[trigger] row[c] matches Some(p)
            ==> valid_player(p.player)) by {
            assert(b.cells[upto - 1][c] matches Some(p) ==> valid_player(p.player));
        }
        lemma_row_score_negates(row, upto - 1, row.len() as int, use_pst, side);
    }
}

/// Seen from the other side, a position scores the opposite: passing the turn
/// and changing nothing else negates the evaluation.
pub proof fn lemma_evaluation_antisymmetric(b: BoardView, use_pst: bool)
    requires
        b.well_formed(),
    ensures
        evaluation(BoardView { current_player: (3 - b.current_player) as Player, ..b }, use_pst)
            == -evaluation(b, use_pst),
{
    lemma_grid_score_negates(b, b.cells.len() as int, use_pst, b.current_player);
}

/// Material value of a piece in centipawns.
pub fn get_piece_value(piece_type: &PieceType, promoted: bool) -> (v: i32)
    ensures
        v == piece_value(*piece_type, promoted),
        0 < v <= MAX_PIECE_VALUE,
{
    match piece_type {
        PieceType::King => 100000,
        PieceType::Rook => {
            if promoted {
                1000
            } else {
                900
            }
        },
        PieceType::Bishop => {
            if promoted {
                850
            } else {
                750
            }
        },
        PieceType::Gold => 600,
        PieceType::Silver => {
            if promoted {
                600
            } else {
                500
            }
        },
        PieceType::Knight => {
            if promoted {
                600
            } else {
                350
            }
        },
        PieceType::Lance => {
            if promoted {
                600
            } else {
                300
            }
        },
        PieceType::Pawn => {
            if promoted {
                600
            } else {
                100
            }
        },
        PieceType::ChessKing => 100000,
        PieceType::ChessQueen => 950,
        PieceType::ChessRook => 500,
        PieceType::ChessBishop => 330,
        PieceType::ChessKnight => 320,
        PieceType::ChessPawn => 100,
    }
}

/// What the pieces of a hand are worth together.
fn hand_value(hand: &Vec<PieceType>) -> (v: i32)
    requires
        hand@.len() * MAX_HAND_SCORE <= i32::MAX,
    ensures
        v == hand_score(hand@, hand@.len() as int),
{
    let mut v: i32 = 0;
    let mut i: usize = 0;
    while i < hand.len()
        invariant
            i <= hand@.len(),
            hand@.len() * MAX_HAND_SCORE <= i32::MAX,
            v == hand_score(hand@, i as int),
        decreases hand.len() - i,
    {
        proof {
            lemma_hand_score_bounded(hand@, i as int);
            lemma_hand_score_bounded(hand@, i + 1);
        }
        v += get_piece_value(&hand[i], false) / 2;
        i += 1;
    }
    v
}

/// Scores the position for the side to move: material, positional bonuses
/// where the configuration uses them, and half the material value of each
/// piece in hand.
pub fn evaluate(board: &Board, config: &AIConfig) -> (score: i32)
    requires
        board@.well_formed(),
        eval_fits(board@),
    ensures
        score == evaluation(board@, config.use_pst),
        -score_limit(board@) <= score <= score_limit(board@),
{
    let n = board.size();
    let me = board.current_player;
    let use_pst = config.use_pst;
    let ghost b = board@;
    let ghost w = n as int * MAX_CELL_SCORE;
    let mut score: i32 = 0;
    let mut row: usize = 0;
    proof {
        assert(w <= n * w) by (nonlinear_arith)
            requires
                n >= 1,
                w >= 0,
        ;
    }
    while row < n
        invariant
            b == board@,
            b.well_formed(),
            eval_fits(b),
            n == b.cells.len(),
            me == b.current_player,
            use_pst == config.use_pst,
            row <= n,
            w == n as int * MAX_CELL_SCORE,
            0 <= w <= n * w,
            score == grid_score(b.cells, row as int, use_pst, me),
        decreases n - row,
    {
        let ghost cells_row = b.cells[row as int];
        assert(cells_row.len() == n);
        let mut row_sum: i32 = 0;
        let mut col: usize = 0;
        while col < n
            invariant
                b == board@,
                b.well_formed(),
                eval_fits(b),
                n == b.cells.len(),
                row < n,
                cells_row == b.cells[row as int],
                cells_row.len() == n,
                use_pst == config.use_pst,
                col <= n,
                w == n as int * MAX_CELL_SCORE,
                0 <= w <= n * w,
                row_sum == row_score(cells_row, row as int, col as int, use_pst, me),
            decreases n - col,
        {
            proof {
                lemma_row_score_bounded(cells_row, row as int, col as int, use_pst, me);
                lemma_row_score_bounded(cells_row, row as int, col + 1, use_pst, me);
            }
            if let Some(piece) = board.get(Position { row, col }) {
                let value = get_piece_value(&piece.piece_type, piece.promoted);
                let bonus = if use_pst {
                    get_pst_value(&piece.piece_type, row, col, piece.player)
                } else {
                    0
                };
                if piece.player == me {
                    row_sum += value + bonus;
                } else {
                    row_sum -= value + bonus;
                }
            }
            col += 1;
        }
        proof {
            lemma_grid_score_bounded(b.cells, row as int, use_pst, me);
            lemma_grid_score_bounded(b.cells, row + 1, use_pst, me);
            assert((row + 1) * w <= n * w) by (nonlinear_arith)
                requires
                    row + 1 <= n,
                    w >= 0,
            ;
            assert(0 <= row * w) by (nonlinear_arith)
                requires
                    w >= 0,
            ;
        }
        score += row_sum;
        row += 1;
    }
    let own = &board.hands[(me - 1) as usize];
    let other = &board.hands[(3 - me - 1) as usize];
    proof {
        lemma_evaluation_bounded(b, use_pst, me);
        lemma_grid_score_bounded(b.cells, n as int, use_pst, me);
        lemma_hand_score_bounded(own@, own@.len() as int);
        lemma_hand_score_bounded(other@, other@.len() as int);
        assert(own@ == b.hand(me));
        assert(other@ == b.hand((3 - me) as Player));
        assert(own@.len() * MAX_HAND_SCORE <= b.hand_count() * MAX_HAND_SCORE)
            by (nonlinear_arith)
            requires
                own@.len() <= b.hand_count(),
        ;
        assert(other@.len() * MAX_HAND_SCORE <= b.hand_count() * MAX_HAND_SCORE)
            by (nonlinear_arith)
            requires
                other@.len() <= b.hand_count(),
        ;
    }
    score += hand_value(own);
    score -= hand_value(other);
    score
}

/// Whether some piece of `by_player` attacks `pos`: whether one of its moves,
/// by the movement of its kind and as the board stands, ends on `pos`.
pub fn is_under_attack(board: &Board, pos: Position, by_player: Player) -> (hit: bool)
    ensures
        hit == is_attacked(board@, pos, by_player),
{
    let ghost b = board@;
    let n = board.cells.len();
    let mut row: usize = 0;
    while row < n
        invariant
            b == board@,
            n == b.cells.len(),
            row <= n,
            forall|r: int, c: int| 0 <= r < row ==> !#[trigger] attacked_from(b, r, c, pos, by_player),
        decreases n - row,
    {
        let cells = &board.cells[row];
        let mut col: usize = 0;
        while col < cells.len()
            invariant
                b == board@,
                n == b.cells.len(),
                row < n,
                cells@ == b.cells[row as int],
                col <= cells@.len(),
                forall|r: int, c: int|
                    0 <= r < row ==> !#[trigger] attacked_from(b, r, c, pos, by_player),
                forall|c: int|
                    0 <= c < col ==> !#[trigger] attacked_from(b, row as int, c, pos, by_player),
            decreases cells.len() - col,
        {
            if let Some(piece) = cells[col] {
                if piece.player == by_player {
                    if can_attack(board, Position { row, col }, pos, &piece) {
                        assert(attacked_from(b, row as int, col as int, pos, by_player));
                        return true;
                    }
                }
            }
            col += 1;
        }
        row += 1;
    }
    false
}

} // verus!
