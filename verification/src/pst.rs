//! Piece-square tables: what a piece is worth for standing where it stands.

use vstd::prelude::*;
use crate::types::{PieceType, Player};

verus! {

// Piece-square tables in centipawns, seen from player 1, who starts at the
// bottom and moves up. The entry of a square is at `row * 9 + col`.

/// Shogi pawns: the further up the board, the better.
pub const PST_S_PAWN: [i32; 81] = [
    200, 200, 200, 200, 200, 200, 200, 200, 200,
    150, 150, 150, 150, 150, 150, 150, 150, 150,
    100, 100, 100, 100, 100, 100, 100, 100, 100,
    60, 60, 60, 80, 80, 80, 60, 60, 60,
    30, 30, 50, 100, 100, 50, 30, 30, 30,
    10, 10, 20, 80, 80, 20, 10, 10, 10,
    0, 0, 0, 30, 30, 0, 0, 0, 0,
    -10, -10, -10, -20, -20, -10, -10, -10, -10,
    -20, -20, -20, -30, -30, -20, -20, -20, -20,
];

/// Chess pawns: the nearer to the far rank, the better.
pub const PST_C_PAWN: [i32; 81] = [
    500, 500, 500, 500, 500, 500, 500, 500, 500,
    300, 300, 300, 300, 300, 300, 300, 300, 300,
    150, 150, 150, 150, 150, 150, 150, 150, 150,
    80, 80, 100, 120, 120, 100, 80, 80, 80,
    40, 40, 60, 100, 100, 60, 40, 40, 40,
    20, 20, 30, 50, 50, 30, 20, 20, 20,
    0, 0, 0, 20, 20, 0, 0, 0, 0,
    -10, -10, -10, 0, 0, -10, -10, -10, -10,
    -20, -20, -20, -10, -10, -20, -20, -20, -20,
];

/// Knights of both families: best three rows from the far rank, worst in the home corners.
pub const PST_KNIGHT: [i32; 81] = [
    100, 100, 100, 100, 100, 100, 100, 100, 100,
    150, 150, 150, 150, 150, 150, 150, 150, 150,
    180, 180, 180, 180, 180, 180, 180, 180, 180,
    100, 100, 150, 150, 150, 150, 150, 100, 100,
    50, 50, 80, 100, 100, 80, 50, 50, 50,
    20, 20, 40, 60, 60, 40, 20, 20, 20,
    0, 0, 20, 30, 30, 20, 0, 0, 0,
    -20, 0, -10, 0, 0, -10, 0, -20, -20,
    -50, -100, -30, -20, -20, -30, -100, -50, -50,
];

/// Kings of both families: safe at home, in danger up the board.
pub const PST_KING: [i32; 81] = [
    -300, -400, -400, -400, -400, -400, -400, -400, -300,
    -300, -400, -400, -400, -400, -400, -400, -400, -300,
    -300, -400, -400, -400, -400, -400, -400, -400, -300,
    -200, -300, -300, -300, -300, -300, -300, -300, -200,
    -100, -150, -150, -150, -150, -150, -150, -150, -100,
    -50, -80, -80, -80, -80, -80, -80, -80, -50,
    50, 20, 20, 20, 20, 20, 20, 20, 50,
    150, 100, 50, 30, 30, 50, 100, 150, 150,
    200, 300, 200, 100, 50, 100, 200, 300, 200,
];

/// All other kinds: advanced and central squares are best.
pub const PST_GENERIC: [i32; 81] = [
    120, 120, 120, 120, 120, 120, 120, 120, 120,
    80, 80, 80, 100, 120, 100, 80, 80, 80,
    50, 60, 70, 80, 100, 80, 70, 60, 50,
    30, 40, 60, 100, 120, 100, 60, 40, 30,
    20, 30, 50, 100, 120, 100, 50, 30, 20,
    10, 20, 30, 60, 80, 60, 30, 20, 10,
    -10, 0, 10, 30, 40, 30, 10, 0, -10,
    -30, -20, -10, 0, 10, 0, -10, -20, -30,
    -80, -60, -40, -30, -20, -30, -40, -60, -80,
];

/// No table entry is larger than this in absolute value.
pub const PST_BOUND: i32 = 500;

/// The table that a piece kind is scored with.
pub open spec fn pst_table(kind: PieceType) -> Seq<i32> {
    match kind {
        PieceType::Pawn => PST_S_PAWN@,
        PieceType::ChessPawn => PST_C_PAWN@,
        PieceType::Knight | PieceType::ChessKnight => PST_KNIGHT@,
        PieceType::King | PieceType::ChessKing => PST_KING@,
        _ => PST_GENERIC@,
    }
}

/// The table index of a square for a player: player 1 reads the table as it
/// stands, any other player reads it turned by half a turn.
pub open spec fn pst_index(row: int, col: int, player: Player) -> int {
    if player == 1 {
        row * 9 + col
    } else {
        (8 - row) * 9 + (8 - col)
    }
}

/// The positional bonus of a piece of `kind`, owned by `player`, on a square.
/// Squares outside the 9x9 area have no bonus.
pub open spec fn pst_value(kind: PieceType, row: int, col: int, player: Player) -> int {
    if 0 <= row < 9 && 0 <= col < 9 {
        pst_table(kind)[pst_index(row, col, player)] as int
    } else {
        0
    }
}

/// Every bonus lies within `PST_BOUND` of zero.
pub proof fn lemma_pst_bounded(kind: PieceType, row: int, col: int, player: Player)
    ensures
        -PST_BOUND <= pst_value(kind, row, col, player) <= PST_BOUND,
{
    if 0 <= row < 9 && 0 <= col < 9 {
        let i = pst_index(row, col, player);
        assert(0 <= i < 81);
        assert(forall|j: int| 0 <= j < 81 ==> -500 <= #[trigger] PST_S_PAWN@[j] <= 500);
        assert(forall|j: int| 0 <= j < 81 ==> -500 <= #[trigger] PST_C_PAWN@[j] <= 500);
        assert(forall|j: int| 0 <= j < 81 ==> -500 <= #[trigger] PST_KNIGHT@[j] <= 500);
        assert(forall|j: int| 0 <= j < 81 ==> -500 <= #[trigger] PST_KING@[j] <= 500);
        assert(forall|j: int| 0 <= j < 81 ==> -500 <= #[trigger] PST_GENERIC@[j] <= 500);
    }
}

/// Positional bonus for a piece on a square, from its owner's side of the board.
pub fn get_pst_value(piece_type: &PieceType, row: usize, col: usize, player: Player) -> (v: i32)
    ensures
        v == pst_value(*piece_type, row as int, col as int, player),
        -PST_BOUND <= v <= PST_BOUND,
{
    proof {
        lemma_pst_bounded(*piece_type, row as int, col as int, player);
    }
    if row >= 9 || col >= 9 {
        return 0;
    }
    let idx: usize = if player == 1 {
        row * 9 + col
    } else {
        (8 - row) * 9 + (8 - col)
    };
    match piece_type {
        PieceType::Pawn => PST_S_PAWN[idx],
        PieceType::ChessPawn => PST_C_PAWN[idx],
        PieceType::Knight | PieceType::ChessKnight => PST_KNIGHT[idx],
        PieceType::King | PieceType::ChessKing => PST_KING[idx],
        _ => PST_GENERIC[idx],
    }
}

} // verus!
