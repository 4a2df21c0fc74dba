//! The pieces, squares and moves of the game, and the errors of the engine.

use vstd::prelude::*;

verus! {

/// The four castling flags: one per player and flank.
#[derive(Clone, Copy, Debug, PartialEq, Eq, Structural)]
pub struct CastlingRights {
    pub white_king_side: bool,
    pub white_queen_side: bool,
    pub black_king_side: bool,
    pub black_queen_side: bool,
}

impl Default for CastlingRights {
    /// At the start of a game every flag is set.
    fn default() -> (r: Self)
        ensures
            r == CastlingRights::all(),
    {
        CastlingRights {
            white_king_side: true,
            white_queen_side: true,
            black_king_side: true,
            black_queen_side: true,
        }
    }
}

impl CastlingRights {
    /// The rights with every flag set.
    pub open spec fn all() -> CastlingRights {
        CastlingRights {
            white_king_side: true,
            white_queen_side: true,
            black_king_side: true,
            black_queen_side: true,
        }
    }

    /// The flag of one player and flank. Player 1 holds the `white` flags,
    /// every other player value the `black` ones.
    pub open spec fn flag(self, player: Player, king_side: bool) -> bool {
        if player == 1 {
            if king_side {
                self.white_king_side
            } else {
                self.white_queen_side
            }
        } else {
            if king_side {
                self.black_king_side
            } else {
                self.black_queen_side
            }
        }
    }

    /// The rights after `player` has moved a king: both of that player's flags are cleared.
    pub open spec fn without(self, player: Player) -> CastlingRights {
        if player == 1 {
            CastlingRights { white_king_side: false, white_queen_side: false, ..self }
        } else {
            CastlingRights { black_king_side: false, black_queen_side: false, ..self }
        }
    }

    /// `self` grants nothing that `earlier` did not grant.
    pub open spec fn within(self, earlier: CastlingRights) -> bool {
        &&& self.white_king_side ==> earlier.white_king_side
        &&& self.white_queen_side ==> earlier.white_queen_side
        &&& self.black_king_side ==> earlier.black_king_side
        &&& self.black_queen_side ==> earlier.black_queen_side
    }
}

/// Kind of a piece: eight Shogi kinds and six Chess kinds.
#[derive(Debug, Clone, Copy, PartialEq, Eq, Structural)]
pub enum PieceType {
    King,
    Rook,
    Bishop,
    Gold,
    Silver,
    Knight,
    Lance,
    Pawn,
    ChessKing,
    ChessQueen,
    ChessRook,
    ChessBishop,
    ChessKnight,
    ChessPawn,
}

impl PieceType {
    /// Kings of either family.
    pub open spec fn is_king(self) -> bool {
        self == PieceType::King || self == PieceType::ChessKing
    }

    /// The Shogi kinds that have a promoted form.
    pub open spec fn can_promote(self) -> bool {
        self == PieceType::Rook || self == PieceType::Bishop || self == PieceType::Silver
            || self == PieceType::Knight || self == PieceType::Lance || self == PieceType::Pawn
    }
}

/// Player 1 or player 2.
pub type Player = u8;

/// Whether `p` names one of the two players.
pub open spec fn valid_player(p: Player) -> bool {
    p == 1 || p == 2
}

/// A piece on the board.
#[derive(Debug, Clone, Copy, PartialEq, Eq, Structural)]
pub struct Piece {
    pub piece_type: PieceType,
    pub player: Player,
    pub promoted: bool,
}

/// A square, by zero-based row and column. Row 0 is player 2's home rank.
#[derive(Debug, Clone, Copy, PartialEq, Eq, Structural)]
pub struct Position {
    pub row: usize,
    pub col: usize,
}

/// A move of one piece, with what is needed to take it back.
#[derive(Clone, Copy, Debug, PartialEq, Eq, Structural)]
pub struct Move {
    pub from: Position,
    pub to: Position,
    pub piece_type: PieceType,
    /// Whether the piece was promoted before the move.
    pub promoted: bool,
    /// Whether the move promotes the piece.
    pub promotion: bool,
    pub captured: Option<PieceType>,
    pub is_castling: bool,
    /// The castling rights before the move; filled in when the move is made.
    pub old_castling_rights: Option<CastlingRights>,
}

impl Move {
    /// Two moves are the same candidate when they agree on source, destination,
    /// piece kind and both promotion flags.
    pub open spec fn same_as(self, other: Move) -> bool {
        &&& self.from == other.from
        &&& self.to == other.to
        &&& self.piece_type == other.piece_type
        &&& self.promoted == other.promoted
        &&& self.promotion == other.promotion
    }

    /// Decides [`Move::same_as`].
    pub fn same(&self, other: &Move) -> (r: bool)
        ensures
            r == self.same_as(*other),
    {
        self.from == other.from && self.to == other.to && self.piece_type == other.piece_type
            && self.promoted == other.promoted && self.promotion == other.promotion
    }
}

/// Hands as they arrive with a position: the kinds each player holds.
#[derive(Debug)]
pub struct HandPieces {
    pub player1: Vec<PieceType>,
    pub player2: Vec<PieceType>,
}

/// A position as it arrives from the caller.
#[derive(Debug)]
pub struct GameStateInput {
    pub board: Vec<Vec<Option<Piece>>>,
    pub current_player: Player,
    pub hands: Option<HandPieces>,
}

/// The part of a move that is reported back to the caller.
#[derive(Debug, Clone, Copy, PartialEq, Eq, Structural)]
pub struct MoveOutput {
    pub from: Position,
    pub to: Position,
    pub piece_type: PieceType,
    pub promoted: bool,
    pub promotion: bool,
}

impl MoveOutput {
    /// The reported part of a move.
    pub fn from_move(m: &Move) -> (out: Self)
        ensures
            out == (MoveOutput {
                from: m.from,
                to: m.to,
                piece_type: m.piece_type,
                promoted: m.promoted,
                promotion: m.promotion,
            }),
    {
        MoveOutput {
            from: m.from,
            to: m.to,
            piece_type: m.piece_type,
            promoted: m.promoted,
            promotion: m.promotion,
        }
    }
}

/// Why a request or a move was refused.
#[derive(Debug, Clone, Copy, PartialEq, Eq, Structural)]
pub enum EngineError {
    /// The board has no rows, or some row is not as long as the board is high.
    InvalidBoardDimensions,
    /// The side to move, or the owner of a piece, is neither 1 nor 2.
    InvalidPlayer,
    /// The side to move has no legal move.
    NoLegalMoves,
    /// A move names a square outside the board.
    OutOfBounds,
    /// A move starts from an empty square.
    EmptySource,
    /// A castling move is asked for where the rights or the path do not allow it.
    IllegalCastlingPath,
    /// The board is wider than the engine hashes, or the hands are so full
    /// that scores would overflow.
    PositionTooLarge,
}

impl EngineError {
    /// The text shown to the caller for each error.
    pub open spec fn text(self) -> Seq<char> {
        match self {
            EngineError::InvalidBoardDimensions => "Invalid board dimensions"@,
            EngineError::InvalidPlayer => "Invalid player"@,
            EngineError::NoLegalMoves => "No legal moves available"@,
            EngineError::OutOfBounds => "Position out of bounds"@,
            EngineError::EmptySource => "No piece at from position"@,
            EngineError::IllegalCastlingPath => "Castling is not possible"@,
            EngineError::PositionTooLarge => "Position too large to search"@,
        }
    }

    /// The text shown to the caller for this error.
    pub fn message(&self) -> (s: &'static str)
        ensures
            s@ == self.text(),
    {
        match self {
            EngineError::InvalidBoardDimensions => "Invalid board dimensions",
            EngineError::InvalidPlayer => "Invalid player",
            EngineError::NoLegalMoves => "No legal moves available",
            EngineError::OutOfBounds => "Position out of bounds",
            EngineError::EmptySource => "No piece at from position",
            EngineError::IllegalCastlingPath => "Castling is not possible",
            EngineError::PositionTooLarge => "Position too large to search",
        }
    }
}

} // verus!
