//! The position and the two ways to change it: making a move and taking it
//! back.

use vstd::prelude::*;
use crate::types::{
    valid_player, CastlingRights, EngineError, GameStateInput, Move, Piece, PieceType, Player,
    Position,
};

verus! {

/// The file on which a king stands while it may still castle.
pub const KING_FILE: usize = 4;

/// The file from which the king-side rook castles.
pub const KING_SIDE_ROOK_FILE: usize = 7;

/// The file from which the queen-side rook castles.
pub const QUEEN_SIDE_ROOK_FILE: usize = 0;

/// The file that the king crosses, and on which the rook lands, when they
/// castle on the king side.
pub const KING_SIDE_CROSSED: usize = 5;

/// The file on which the king lands when it castles on the king side.
pub const KING_SIDE_TARGET: usize = 6;

/// The file that the king crosses, and on which the rook lands, when they
/// castle on the queen side.
pub const QUEEN_SIDE_CROSSED: usize = 3;

/// The file on which the king lands when it castles on the queen side.
pub const QUEEN_SIDE_TARGET: usize = 2;

/// The file next to the queen-side rook, which must be empty as well.
pub const QUEEN_SIDE_INNER: usize = 1;

/// A board needs this many files before anyone can castle on it.
pub const CASTLING_WIDTH: usize = 8;

/// A position of the game: the grid, the side to move, both hands and the
/// castling rights. `hands[0]` belongs to player 1 and `hands[1]` to player 2.
#[derive(Debug, PartialEq)]
pub struct Board {
    pub cells: Vec<Vec<Option<Piece>>>,
    pub current_player: Player,
    pub hands: [Vec<PieceType>; 2],
    pub castling_rights: CastlingRights,
}

/// The mathematical content of a [`Board`].
#[verifier::ext_equal]
pub struct BoardView {
    pub cells: Seq<Seq<Option<Piece>>>,
    pub current_player: Player,
    pub hand1: Seq<PieceType>,
    pub hand2: Seq<PieceType>,
    pub castling_rights: CastlingRights,
}

/// The rows of a grid as sequences.
pub open spec fn grid_view(cells: Seq<Vec<Option<Piece>>>) -> Seq<Seq<Option<Piece>>> {
    Seq::new(cells.len(), |r: int| cells[r]@)
}

/// `hand` without the last entry that equals `kind`; `hand` itself where none does.
pub open spec fn remove_last(hand: Seq<PieceType>, kind: PieceType) -> Seq<PieceType>
    decreases hand.len(),
{
    if hand.len() == 0 {
        hand
    } else if hand.last() == kind {
        hand.drop_last()
    } else {
        remove_last(hand.drop_last(), kind).push(hand.last())
    }
}

impl BoardView {
    /// The number of rows.
    pub open spec fn size(self) -> nat {
        self.cells.len()
    }

    /// A square grid with at least one row and no more rows than a `usize`
    /// counts, on which the side to move and the owner of every piece is
    /// player 1 or player 2.
    pub open spec fn well_formed(self) -> bool {
        &&& 1 <= self.cells.len() <= usize::MAX
        &&& forall|r: int|
            0 <= r < self.cells.len() ==> (#[trigger] self.cells[r]).len() == self.cells.len()
        &&& valid_player(self.current_player)
        &&& forall|r: int, c: int|
            0 <= r < self.cells.len() && 0 <= c < self.cells[r].len() ==> (
            #[trigger] self.cells[r][c] matches Some(p) ==> valid_player(p.player))
    }

    /// Whether every promoted piece on the grid is of a kind that has a
    /// promoted form.
    pub open spec fn promotions_valid(self) -> bool {
        forall|r: int, c: int|
            0 <= r < self.cells.len() && 0 <= c < self.cells[r].len() ==> (
            #[trigger] self.cells[r][c] matches Some(p) ==> (p.promoted
                ==> p.piece_type.can_promote()))
    }

    /// Whether `pos` names a square of the grid.
    pub open spec fn in_bounds(self, pos: Position) -> bool {
        pos.row < self.cells.len() && pos.col < self.cells[pos.row as int].len()
    }

    /// What stands on `pos`; nothing stands outside the grid.
    pub open spec fn at(self, pos: Position) -> Option<Piece> {
        if self.in_bounds(pos) {
            self.cells[pos.row as int][pos.col as int]
        } else {
            None
        }
    }

    /// The hand of a player: player 1 holds the first, anyone else the second.
    pub open spec fn hand(self, player: Player) -> Seq<PieceType> {
        if player == 1 {
            self.hand1
        } else {
            self.hand2
        }
    }

    /// The number of pieces in both hands.
    pub open spec fn hand_count(self) -> nat {
        self.hand1.len() + self.hand2.len()
    }

    /// The position with the square `pos` holding `v`.
    pub open spec fn with_cell(self, pos: Position, v: Option<Piece>) -> BoardView {
        BoardView {
            cells: self.cells.update(
                pos.row as int,
                self.cells[pos.row as int].update(pos.col as int, v),
            ),
            ..self
        }
    }

    /// The position with `hand` as the hand of `player`.
    pub open spec fn with_hand(self, player: Player, hand: Seq<PieceType>) -> BoardView {
        if player == 1 {
            BoardView { hand1: hand, ..self }
        } else {
            BoardView { hand2: hand, ..self }
        }
    }

    /// The home rank of a player: the last row for player 1, row 0 for player 2.
    pub open spec fn home_row(self, player: Player) -> int {
        if player == 1 {
            self.cells.len() - 1
        } else {
            0
        }
    }

    /// Whether `player` still has the right to castle on a flank and the
    /// squares between king and rook on the home rank are empty.
    pub open spec fn can_castle(self, player: Player, king_side: bool) -> bool {
        let row = self.home_row(player);
        &&& self.cells.len() >= CASTLING_WIDTH
        &&& self.cells[row].len() >= CASTLING_WIDTH
        &&& self.castling_rights.flag(player, king_side)
        &&& if king_side {
            self.cells[row][KING_SIDE_CROSSED as int] is None
                && self.cells[row][KING_SIDE_TARGET as int] is None
        } else {
            self.cells[row][QUEEN_SIDE_INNER as int] is None
                && self.cells[row][QUEEN_SIDE_TARGET as int] is None
                && self.cells[row][QUEEN_SIDE_CROSSED as int] is None
        }
    }

    /// Whether `m` has the shape of a castling move of `player`: from the king's
    /// file on the home rank, two files to either side.
    pub open spec fn castling_shape(self, m: Move, player: Player) -> bool {
        let row = self.home_row(player);
        &&& self.cells.len() >= CASTLING_WIDTH
        &&& self.cells[row].len() >= CASTLING_WIDTH
        &&& m.from.row == row
        &&& m.from.col == KING_FILE
        &&& m.to.row == row
        &&& (m.to.col == KING_SIDE_TARGET || m.to.col == QUEEN_SIDE_TARGET)
    }

    /// Whether the side to move may make the castling move `m`: it has the
    /// shape of one, the right and the free path are there, its own chess king
    /// stands on the source and its own chess rook in the corner.
    pub open spec fn castling_allowed(self, m: Move) -> bool {
        let me = self.current_player;
        let row = self.home_row(me);
        let king_side = m.to.col > m.from.col;
        let corner = if king_side {
            KING_SIDE_ROOK_FILE
        } else {
            QUEEN_SIDE_ROOK_FILE
        };
        &&& self.castling_shape(m, me)
        &&& self.can_castle(me, king_side)
        &&& self.cells[row][KING_FILE as int] == Some(
            Piece {
                piece_type: PieceType::ChessKing,
                player: me,
                promoted: self.cells[row][KING_FILE as int].unwrap().promoted,
            },
        )
        &&& self.cells[row][corner as int] == Some(
            Piece {
                piece_type: PieceType::ChessRook,
                player: me,
                promoted: self.cells[row][corner as int].unwrap().promoted,
            },
        )
    }

    /// Why the move `m` cannot be made, if it cannot.
    pub open spec fn make_error(self, m: Move) -> Option<EngineError> {
        if !self.in_bounds(m.from) || !self.in_bounds(m.to) {
            Some(EngineError::OutOfBounds)
        } else if self.at(m.from) is None {
            Some(EngineError::EmptySource)
        } else if m.is_castling && !self.castling_allowed(m) {
            Some(EngineError::IllegalCastlingPath)
        } else {
            None
        }
    }

    /// The rook's part of castling on `row`: from the corner to the square the
    /// king has crossed.
    pub open spec fn rook_castled(self, row: usize, king_side: bool) -> BoardView {
        if king_side {
            let rook = self.cells[row as int][KING_SIDE_ROOK_FILE as int];
            self.with_cell(Position { row, col: KING_SIDE_CROSSED }, rook).with_cell(
                Position { row, col: KING_SIDE_ROOK_FILE },
                None,
            )
        } else {
            let rook = self.cells[row as int][QUEEN_SIDE_ROOK_FILE as int];
            self.with_cell(Position { row, col: QUEEN_SIDE_CROSSED }, rook).with_cell(
                Position { row, col: QUEEN_SIDE_ROOK_FILE },
                None,
            )
        }
    }

    /// The rook's way back: if a piece stands where a castled rook would, it
    /// returns to the corner.
    pub open spec fn rook_uncastled(self, row: usize, king_side: bool) -> BoardView {
        if king_side {
            let rook = self.cells[row as int][KING_SIDE_CROSSED as int];
            if rook is Some {
                self.with_cell(Position { row, col: KING_SIDE_CROSSED }, None).with_cell(
                    Position { row, col: KING_SIDE_ROOK_FILE },
                    rook,
                )
            } else {
                self
            }
        } else {
            let rook = self.cells[row as int][QUEEN_SIDE_CROSSED as int];
            if rook is Some {
                self.with_cell(Position { row, col: QUEEN_SIDE_CROSSED }, None).with_cell(
                    Position { row, col: QUEEN_SIDE_ROOK_FILE },
                    rook,
                )
            } else {
                self
            }
        }
    }

    /// The position after the side to move has made `m`, where
    /// `make_error(m)` is `None`: a piece on the destination goes to the
    /// mover's hand by its kind, the piece moves (promoted if the move says
    /// so), the rook follows if the move castles, a king's move costs the mover
    /// both castling rights, and the turn passes.
    pub open spec fn after_move(self, m: Move) -> BoardView {
        let me = self.current_player;
        let piece = self.at(m.from).unwrap();
        let moved = Piece { promoted: piece.promoted || m.promotion, ..piece };
        let taken = match self.at(m.to) {
            Some(victim) => self.with_hand(me, self.hand(me).push(victim.piece_type)),
            None => self,
        };
        let placed = taken.with_cell(m.from, None).with_cell(m.to, Some(moved));
        let castled = if m.is_castling {
            placed.rook_castled(m.to.row, m.to.col > m.from.col)
        } else {
            placed
        };
        BoardView {
            current_player: (3 - me) as Player,
            castling_rights: if m.piece_type.is_king() {
                self.castling_rights.without(me)
            } else {
                self.castling_rights
            },
            ..castled
        }
    }

    /// Why the move `m` cannot be taken back, if it cannot.
    pub open spec fn unmake_error(self, m: Move) -> Option<EngineError> {
        if !self.in_bounds(m.to) || !self.in_bounds(m.from) {
            Some(EngineError::OutOfBounds)
        } else if self.at(m.to) is None {
            Some(EngineError::EmptySource)
        } else if m.is_castling && !self.castling_shape(m, (3 - self.current_player) as Player) {
            Some(EngineError::IllegalCastlingPath)
        } else {
            None
        }
    }

    /// The position after `m` has been taken back, where `unmake_error(m)` is
    /// `None`: the turn returns to the mover, the rights are those saved in the
    /// move, a castled rook returns, the piece goes back to its source (with
    /// the promotion state recorded in the move, if the move promoted), and a
    /// captured kind reappears on the destination as an unpromoted piece of the
    /// other player while the mover's hand loses its last entry of that kind.
    pub open spec fn before_move(self, m: Move, captured: Option<PieceType>) -> BoardView {
        let other = self.current_player;
        let mover = (3 - other) as Player;
        let uncastled = if m.is_castling {
            self.rook_uncastled(m.to.row, m.to.col > m.from.col)
        } else {
            self
        };
        let piece = uncastled.at(m.to).unwrap();
        let restored = Piece {
            promoted: if m.promotion {
                m.promoted
            } else {
                piece.promoted
            },
            ..piece
        };
        let back = uncastled.with_cell(m.to, None).with_cell(m.from, Some(restored));
        let refilled = match captured {
            Some(kind) => back.with_cell(
                m.to,
                Some(Piece { piece_type: kind, player: other, promoted: false }),
            ).with_hand(mover, remove_last(back.hand(mover), kind)),
            None => back,
        };
        BoardView {
            current_player: mover,
            castling_rights: match m.old_castling_rights {
                Some(rights) => rights,
                None => self.castling_rights,
            },
            ..refilled
        }
    }
}

impl View for Board {
    type V = BoardView;

    /// The grid row by row, the side to move, both hands and the rights.
    open spec fn view(&self) -> BoardView {
        BoardView {
            cells: grid_view(self.cells@),
            current_player: self.current_player,
            hand1: self.hands@[0]@,
            hand2: self.hands@[1]@,
            castling_rights: self.castling_rights,
        }
    }
}

/// The error with which a position is refused, if it is: a grid that is empty
/// or not square, then a player that is neither 1 nor 2.
pub open spec fn input_error(state: &GameStateInput) -> Option<EngineError> {
    let grid = grid_view(state.board@);
    if grid.len() == 0 || exists|r: int| 0 <= r < grid.len() && #[trigger] grid[r].len() != grid.len() {
        Some(EngineError::InvalidBoardDimensions)
    } else if !valid_player(state.current_player) || exists|r: int, c: int|
        0 <= r < grid.len() && 0 <= c < grid[r].len() && (#[trigger] grid[r][c] matches Some(p)
            && !valid_player(p.player)) {
        Some(EngineError::InvalidPlayer)
    } else {
        None
    }
}

/// The position that an accepted input describes: its grid and side to move,
/// its hands (empty where it names none), and every castling right.
pub open spec fn input_board(state: &GameStateInput) -> BoardView {
    BoardView {
        cells: grid_view(state.board@),
        current_player: state.current_player,
        hand1: match state.hands {
            Some(h) => h.player1@,
            None => Seq::empty(),
        },
        hand2: match state.hands {
            Some(h) => h.player2@,
            None => Seq::empty(),
        },
        castling_rights: CastlingRights::all(),
    }
}

/// A copy of a row of squares.
fn copy_row(row: &Vec<Option<Piece>>) -> (out: Vec<Option<Piece>>)
    ensures
        out@ == row@,
{
    let mut out: Vec<Option<Piece>> = Vec::new();
    let mut c: usize = 0;
    while c < row.len()
        invariant
            c <= row.len(),
            out@ == row@.subrange(0, c as int),
        decreases row.len() - c,
    {
        out.push(row[c]);
        c += 1;
    }
    out
}

/// A copy of a grid.
fn copy_grid(cells: &Vec<Vec<Option<Piece>>>) -> (out: Vec<Vec<Option<Piece>>>)
    ensures
        grid_view(out@) == grid_view(cells@),
{
    let mut out: Vec<Vec<Option<Piece>>> = Vec::new();
    let mut r: usize = 0;
    while r < cells.len()
        invariant
            r <= cells.len(),
            out@.len() == r,
            forall|i: int| 0 <= i < r ==> (#[trigger] out@[i])@ == cells@[i]@,
        decreases cells.len() - r,
    {
        let row = copy_row(&cells[r]);
        out.push(row);
        r += 1;
    }
    assert(grid_view(out@) =~= grid_view(cells@));
    out
}

/// A copy of a hand.
fn copy_hand(hand: &Vec<PieceType>) -> (out: Vec<PieceType>)
    ensures
        out@ == hand@,
{
    let mut out: Vec<PieceType> = Vec::new();
    let mut i: usize = 0;
    while i < hand.len()
        invariant
            i <= hand.len(),
            out@ == hand@.subrange(0, i as int),
        decreases hand.len() - i,
    {
        out.push(hand[i]);
        i += 1;
    }
    out
}

/// Whether every row of the grid is as long as the grid is high.
fn is_square(cells: &Vec<Vec<Option<Piece>>>) -> (ok: bool)
    ensures
        ok == (forall|r: int|
            0 <= r < cells@.len() ==> (#[trigger] grid_view(cells@)[r]).len() == cells@.len()),
{
    let n = cells.len();
    let mut r: usize = 0;
    while r < n
        invariant
            n == cells@.len(),
            r <= n,
            forall|i: int| 0 <= i < r ==> (#[trigger] grid_view(cells@)[i]).len() == n,
        decreases n - r,
    {
        if cells[r].len() != n {
            assert(grid_view(cells@)[r as int].len() != n);
            return false;
        }
        r += 1;
    }
    true
}

/// Whether every piece on the grid belongs to player 1 or player 2.
fn owners_valid(cells: &Vec<Vec<Option<Piece>>>) -> (ok: bool)
    ensures
        ok == (forall|r: int, c: int|
            0 <= r < cells@.len() && 0 <= c < grid_view(cells@)[r].len() ==> (
            #[trigger] grid_view(cells@)[r][c] matches Some(p) ==> valid_player(p.player))),
{
    let mut r: usize = 0;
    while r < cells.len()
        invariant
            r <= cells@.len(),
            forall|i: int, c: int|
                0 <= i < r && 0 <= c < grid_view(cells@)[i].len() ==> (
                #[trigger] grid_view(cells@)[i][c] matches Some(p) ==> valid_player(p.player)),
        decreases cells.len() - r,
    {
        let row = &cells[r];
        let mut c: usize = 0;
        while c < row.len()
            invariant
                r < cells@.len(),
                row@ == grid_view(cells@)[r as int],
                c <= row@.len(),
                forall|j: int|
                    0 <= j < c ==> (#[trigger] row@[j] matches Some(p) ==> valid_player(p.player)),
            decreases row.len() - c,
        {
            if let Some(p) = row[c] {
                if p.player != 1 && p.player != 2 {
                    assert(grid_view(cells@)[r as int][c as int] == Some(p));
                    return false;
                }
            }
            c += 1;
        }
        r += 1;
    }
    true
}

impl Clone for Board {
    /// A copy with the same content.
    fn clone(&self) -> (copy: Self)
        ensures
            copy@ == self@,
    {
        let cells = copy_grid(&self.cells);
        let hand1 = copy_hand(&self.hands[0]);
        let hand2 = copy_hand(&self.hands[1]);
        Board {
            cells,
            current_player: self.current_player,
            hands: [hand1, hand2],
            castling_rights: self.castling_rights,
        }
    }
}

impl Board {
    /// Builds the position that `state` describes. A grid that is empty or not
    /// square, and a player that is neither 1 nor 2, are refused.
    pub fn from_game_state(state: &GameStateInput) -> (res: Result<Self, EngineError>)
        ensures
            match res {
                Ok(board) => input_error(state) is None && board@ == input_board(state)
                    && board@.well_formed(),
                Err(e) => input_error(state) == Some(e),
            },
    {
        let size = state.board.len();
        if size == 0 || !is_square(&state.board) {
            return Err(EngineError::InvalidBoardDimensions);
        }
        if (state.current_player != 1 && state.current_player != 2) || !owners_valid(
            &state.board,
        ) {
            return Err(EngineError::InvalidPlayer);
        }
        let (hand1, hand2) = match &state.hands {
            Some(h) => (copy_hand(&h.player1), copy_hand(&h.player2)),
            None => (Vec::new(), Vec::new()),
        };
        let board = Board {
            cells: copy_grid(&state.board),
            current_player: state.current_player,
            hands: [hand1, hand2],
            castling_rights: CastlingRights::default(),
        };
        assert(board@ =~= input_board(state));
        Ok(board)
    }

    /// The number of rows.
    pub fn size(&self) -> (n: usize)
        ensures
            n == self@.size(),
    {
        self.cells.len()
    }

    /// The piece on `pos`, if `pos` is on the board and occupied.
    pub fn get(&self, pos: Position) -> (res: Option<&Piece>)
        ensures
            match res {
                Some(p) => self@.at(pos) == Some(*p),
                None => self@.at(pos) is None,
            },
    {
        if pos.row < self.cells.len() {
            let row = &self.cells[pos.row];
            if pos.col < row.len() {
                return row[pos.col].as_ref();
            }
        }
        None
    }

    /// The square `pos` for writing, if `pos` is on the board. What the caller
    /// leaves in the square is what the board then holds there.
    pub fn get_mut(&mut self, pos: Position) -> (res: Option<&mut Option<Piece>>)
        ensures
            match res {
                Some(cell) => old(self)@.in_bounds(pos) && *cell == old(self)@.at(pos) && final(self)@ == old(self)@.with_cell(pos, *final(cell)),
                None => !old(self)@.in_bounds(pos) && final(self)@ == old(self)@,
            },
    {
        if pos.row < self.cells.len() {
            if pos.col < self.cells[pos.row].len() {
                return Some(&mut self.cells[pos.row][pos.col]);
            }
        }
        None
    }

    /// Whether `pos` is on the board.
    pub fn in_bounds(&self, pos: Position) -> (ok: bool)
        ensures
            ok == self@.in_bounds(pos),
    {
        pos.row < self.cells.len() && pos.col < self.cells[pos.row].len()
    }

    /// What stands on `pos`; nothing stands outside the board.
    pub fn piece_at(&self, pos: Position) -> (res: Option<Piece>)
        ensures
            res == self@.at(pos),
    {
        if pos.row < self.cells.len() {
            let row = &self.cells[pos.row];
            if pos.col < row.len() {
                return row[pos.col];
            }
        }
        None
    }

    /// Puts `v` on the square `pos`.
    fn set_cell(&mut self, pos: Position, v: Option<Piece>)
        requires
            old(self)@.in_bounds(pos),
        ensures
            final(self)@ == old(self)@.with_cell(pos, v),
    {
        self.cells[pos.row][pos.col] = v;
        assert(self@ =~~= old(self)@.with_cell(pos, v));
    }

    /// Adds `kind` to the hand of `player`.
    fn push_hand(&mut self, player: Player, kind: PieceType)
        requires
            valid_player(player),
        ensures
            final(self)@ == old(self)@.with_hand(player, old(self)@.hand(player).push(kind)),
    {
        self.hands[(player - 1) as usize].push(kind);
        assert(self@ =~~= old(self)@.with_hand(player, old(self)@.hand(player).push(kind)));
    }

    /// Takes the last entry of `kind` out of the hand of `player`, if there is one.
    fn take_from_hand(&mut self, player: Player, kind: PieceType)
        requires
            valid_player(player),
        ensures
            final(self)@ == old(self)@.with_hand(
                player,
                remove_last(old(self)@.hand(player), kind),
            ),
    {
        let idx = (player - 1) as usize;
        let ghost hand = self.hands[idx as int]@;
        let mut i: usize = self.hands[idx].len();
        while i > 0
            invariant
                valid_player(player),
                idx == player - 1,
                hand == self.hands[idx as int]@,
                *self == *old(self),
                i <= hand.len(),
                forall|j: int| i <= j < hand.len() ==> hand[j] != kind,
            decreases i,
        {
            i -= 1;
            if self.hands[idx][i] == kind {
                proof {
                    lemma_remove_last_at(hand, kind, i as int);
                }
                self.hands[idx].remove(i);
                assert(self@ =~~= old(self)@.with_hand(
                    player,
                    remove_last(old(self)@.hand(player), kind),
                ));
                return ;
            }
        }
        proof {
            lemma_remove_last_absent(hand, kind);
        }
        assert(self@ =~~= old(self)@.with_hand(
            player,
            remove_last(old(self)@.hand(player), kind),
        ));
    }

    /// Whether `player` may still castle on the given flank and the squares
    /// between king and rook are empty.
    pub fn can_castle(&self, player: Player, king_side: bool) -> (ok: bool)
        ensures
            ok == self@.can_castle(player, king_side),
    {
        let n = self.cells.len();
        if n < CASTLING_WIDTH {
            return false;
        }
        let y: usize = if player == 1 {
            n - 1
        } else {
            0
        };
        let row = &self.cells[y];
        if row.len() < CASTLING_WIDTH {
            return false;
        }
        let rights = self.castling_rights;
        let has_right = if player == 1 {
            if king_side {
                rights.white_king_side
            } else {
                rights.white_queen_side
            }
        } else {
            if king_side {
                rights.black_king_side
            } else {
                rights.black_queen_side
            }
        };
        if !has_right {
            return false;
        }
        if king_side {
            row[KING_SIDE_CROSSED].is_none() && row[KING_SIDE_TARGET].is_none()
        } else {
            row[QUEEN_SIDE_INNER].is_none() && row[QUEEN_SIDE_TARGET].is_none()
                && row[QUEEN_SIDE_CROSSED].is_none()
        }
    }

    /// Whether `m` has the shape of a castling move of `player`.
    fn castling_shape(&self, m: &Move, player: Player) -> (ok: bool)
        ensures
            ok == self@.castling_shape(*m, player),
    {
        let n = self.cells.len();
        if n < CASTLING_WIDTH {
            return false;
        }
        let y: usize = if player == 1 {
            n - 1
        } else {
            0
        };
        self.cells[y].len() >= CASTLING_WIDTH && m.from.row == y && m.from.col == KING_FILE
            && m.to.row == y && (m.to.col == KING_SIDE_TARGET || m.to.col == QUEEN_SIDE_TARGET)
    }

    /// Whether the side to move may make the castling move `m`.
    fn castling_allowed(&self, m: &Move) -> (ok: bool)
        ensures
            ok == self@.castling_allowed(*m),
    {
        let me = self.current_player;
        if !self.castling_shape(m, me) {
            return false;
        }
        let king_side = m.to.col > m.from.col;
        if !self.can_castle(me, king_side) {
            return false;
        }
        let row = &self.cells[m.from.row];
        let corner = if king_side {
            KING_SIDE_ROOK_FILE
        } else {
            QUEEN_SIDE_ROOK_FILE
        };
        let king_there = match row[KING_FILE] {
            Some(p) => p.piece_type == PieceType::ChessKing && p.player == me,
            None => false,
        };
        let rook_there = match row[corner] {
            Some(p) => p.piece_type == PieceType::ChessRook && p.player == me,
            None => false,
        };
        king_there && rook_there
    }

    /// Makes the move `m` for the side to move and saves the castling rights
    /// in `m`. A move that names a square off the board, starts from an empty
    /// square, or castles where castling is not allowed is refused and leaves
    /// the board as it was.
    pub fn make_move(&mut self, m: &mut Move) -> (res: Result<(), EngineError>)
        requires
            valid_player(old(self).current_player),
        ensures
            *final(m) == (Move {
                old_castling_rights: Some(old(self).castling_rights),
                ..*old(m)
            }),
            match res {
                Ok(()) => {
                    &&& old(self)@.make_error(*old(m)) is None
                    &&& final(self)@ == old(self)@.after_move(*old(m))
                    &&& final(self).current_player == 3 - old(self).current_player
                    &&& final(self).castling_rights.within(old(self).castling_rights)
                },
                Err(e) => old(self)@.make_error(*old(m)) == Some(e) && final(self)@ == old(self)@,
            },
            old(self)@.well_formed() ==> final(self)@.well_formed(),
    {
        m.old_castling_rights = Some(self.castling_rights);
        let from = m.from;
        let to = m.to;
        if !self.in_bounds(from) || !self.in_bounds(to) {
            return Err(EngineError::OutOfBounds);
        }
        let piece = match self.piece_at(from) {
            Some(p) => p,
            None => {
                return Err(EngineError::EmptySource);
            },
        };
        if m.is_castling && !self.castling_allowed(m) {
            return Err(EngineError::IllegalCastlingPath);
        }
        let me = self.current_player;
        if let Some(victim) = self.piece_at(to) {
            self.push_hand(me, victim.piece_type);
        }
        let moved = Piece {
            piece_type: piece.piece_type,
            player: piece.player,
            promoted: piece.promoted || m.promotion,
        };
        self.set_cell(from, None);
        self.set_cell(to, Some(moved));
        if m.is_castling {
            let row = to.row;
            if to.col > from.col {
                let rook = self.piece_at(Position { row, col: KING_SIDE_ROOK_FILE });
                self.set_cell(Position { row, col: KING_SIDE_CROSSED }, rook);
                self.set_cell(Position { row, col: KING_SIDE_ROOK_FILE }, None);
            } else {
                let rook = self.piece_at(Position { row, col: QUEEN_SIDE_ROOK_FILE });
                self.set_cell(Position { row, col: QUEEN_SIDE_CROSSED }, rook);
                self.set_cell(Position { row, col: QUEEN_SIDE_ROOK_FILE }, None);
            }
        }
        if m.piece_type == PieceType::ChessKing || m.piece_type == PieceType::King {
            if me == 1 {
                self.castling_rights.white_king_side = false;
                self.castling_rights.white_queen_side = false;
            } else {
                self.castling_rights.black_king_side = false;
                self.castling_rights.black_queen_side = false;
            }
        }
        self.current_player = 3 - me;
        proof {
            assert(self@ =~~= old(self)@.after_move(*old(m)));
            if old(self)@.well_formed() {
                lemma_make_keeps_well_formed(old(self)@, *old(m));
            }
        }
        Ok(())
    }

    /// Takes the move `m` back, `captured` being the kind that the move took,
    /// if it took one. A move that names a square off the board, whose
    /// destination is empty, or that castles without the shape of a castling
    /// move is refused and leaves the board as it was.
    pub fn unmake_move(&mut self, m: &Move, captured: Option<PieceType>) -> (res: Result<
        (),
        EngineError,
    >)
        requires
            valid_player(old(self).current_player),
        ensures
            match res {
                Ok(()) => {
                    &&& old(self)@.unmake_error(*m) is None
                    &&& final(self)@ == old(self)@.before_move(*m, captured)
                    &&& final(self).current_player == 3 - old(self).current_player
                },
                Err(e) => old(self)@.unmake_error(*m) == Some(e) && final(self)@ == old(self)@,
            },
    {
        let from = m.from;
        let to = m.to;
        if !self.in_bounds(to) || !self.in_bounds(from) {
            return Err(EngineError::OutOfBounds);
        }
        let piece = match self.piece_at(to) {
            Some(p) => p,
            None => {
                return Err(EngineError::EmptySource);
            },
        };
        let other = self.current_player;
        let mover = 3 - other;
        if m.is_castling && !self.castling_shape(m, mover) {
            return Err(EngineError::IllegalCastlingPath);
        }
        if m.is_castling {
            let row = to.row;
            if to.col > from.col {
                let rook = self.piece_at(Position { row, col: KING_SIDE_CROSSED });
                if rook.is_some() {
                    self.set_cell(Position { row, col: KING_SIDE_CROSSED }, None);
                    self.set_cell(Position { row, col: KING_SIDE_ROOK_FILE }, rook);
                }
            } else {
                let rook = self.piece_at(Position { row, col: QUEEN_SIDE_CROSSED });
                if rook.is_some() {
                    self.set_cell(Position { row, col: QUEEN_SIDE_CROSSED }, None);
                    self.set_cell(Position { row, col: QUEEN_SIDE_ROOK_FILE }, rook);
                }
            }
        }
        // A castling move ends on a square that the rook does not touch.
        assert(self@.at(to) == Some(piece));
        let restored = Piece {
            piece_type: piece.piece_type,
            player: piece.player,
            promoted: if m.promotion {
                m.promoted
            } else {
                piece.promoted
            },
        };
        self.set_cell(to, None);
        self.set_cell(from, Some(restored));
        if let Some(kind) = captured {
            self.set_cell(to, Some(Piece { piece_type: kind, player: other, promoted: false }));
            self.take_from_hand(mover, kind);
        }
        if let Some(rights) = m.old_castling_rights {
            self.castling_rights = rights;
        }
        self.current_player = mover;
        proof {
            assert(self@ =~~= old(self)@.before_move(*m, captured));
        }
        Ok(())
    }
}

/// Where `hand[i]` is the last entry equal to `kind`, `remove_last` takes out
/// exactly that entry.
pub proof fn lemma_remove_last_at(hand: Seq<PieceType>, kind: PieceType, i: int)
    requires
        0 <= i < hand.len(),
        hand[i] == kind,
        forall|j: int| i < j < hand.len() ==> hand[j] != kind,
    ensures
        remove_last(hand, kind) == hand.remove(i),
    decreases hand.len(),
{
    if i == hand.len() - 1 {
        assert(hand.drop_last() =~= hand.remove(i));
    } else {
        lemma_remove_last_at(hand.drop_last(), kind, i);
        assert(hand.drop_last().remove(i).push(hand.last()) =~= hand.remove(i));
    }
}

/// Where no entry equals `kind`, `remove_last` changes nothing.
pub proof fn lemma_remove_last_absent(hand: Seq<PieceType>, kind: PieceType)
    requires
        forall|j: int| 0 <= j < hand.len() ==> hand[j] != kind,
    ensures
        remove_last(hand, kind) == hand,
    decreases hand.len(),
{
    if hand.len() > 0 {
        lemma_remove_last_absent(hand.drop_last(), kind);
        assert(hand.drop_last().push(hand.last()) =~= hand);
    }
}

/// A move that can be made leaves a well-formed position well-formed, with
/// the same size.
pub proof fn lemma_make_keeps_well_formed(b: BoardView, m: Move)
    requires
        b.well_formed(),
        b.make_error(m) is None,
    ensures
        b.after_move(m).well_formed(),
        b.after_move(m).size() == b.size(),
        b.after_move(m).hand_count() <= b.hand_count() + 1,
        b.after_move(m).hand_count() >= b.hand_count(),
{
    let a = b.after_move(m);
    assert(a.cells.len() == b.cells.len());
    assert forall|r: int| 0 <= r < a.cells.len() implies (#[trigger] a.cells[r]).len()
        == a.cells.len() by {
        assert(b.cells[r].len() == b.cells.len());
    }
    assert forall|r: int, c: int| 0 <= r < a.cells.len() && 0 <= c < a.cells[r].len() implies (
    #[trigger] a.cells[r][c] matches Some(p) ==> valid_player(p.player)) by {
        assert(b.cells[r].len() == b.cells.len());
        assert(b.cells[r][c] matches Some(p) ==> valid_player(p.player));
        assert(b.cells[m.from.row as int][m.from.col as int] matches Some(p) ==> valid_player(
            p.player,
        ));
        if m.is_castling {
            let row = m.to.row as int;
            assert(b.cells[row][KING_SIDE_ROOK_FILE as int] matches Some(p) ==> valid_player(
                p.player,
            ));
            assert(b.cells[row][QUEEN_SIDE_ROOK_FILE as int] matches Some(p) ==> valid_player(
                p.player,
            ));
        }
    }
}

/// A move creates no piece and changes neither kind nor owner of any: what
/// stands on a square afterwards stood on some square before, with the same
/// kind and owner, and with the same promotion state unless it is the moved
/// piece and the move promotes.
pub proof fn lemma_make_moves_pieces_only(b: BoardView, m: Move, pos: Position)
    requires
        b.well_formed(),
        b.make_error(m) is None,
        b.after_move(m).at(pos) is Some,
    ensures
        exists|src: Position|
            {
                let q = b.after_move(m).at(pos).unwrap();
                &&& (#[trigger] b.at(src)) matches Some(p)
                &&& p.piece_type == q.piece_type
                &&& p.player == q.player
                &&& (p.promoted == q.promoted || (m.promotion && src == m.from))
            },
{
    lemma_make_keeps_well_formed(b, m);
    let a = b.after_move(m);
    assert(b.cells[pos.row as int].len() == b.cells.len());
    assert(b.cells[m.from.row as int].len() == b.cells.len());
    assert(b.cells[m.to.row as int].len() == b.cells.len());
    let king_side = m.to.col > m.from.col;
    let corner = Position {
        row: m.to.row,
        col: if king_side {
            KING_SIDE_ROOK_FILE
        } else {
            QUEEN_SIDE_ROOK_FILE
        },
    };
    let landing = Position {
        row: m.to.row,
        col: if king_side {
            KING_SIDE_CROSSED
        } else {
            QUEEN_SIDE_CROSSED
        },
    };
    if m.is_castling && pos == landing {
        assert(b.at(corner) is Some);
    } else if pos == m.to {
        assert(b.at(m.from) is Some);
    } else {
        assert(b.at(pos) is Some);
    }
}

/// Where only pieces that have a promoted form are promoted, a move that
/// promotes no other piece keeps it so.
pub proof fn lemma_make_keeps_promotions(b: BoardView, m: Move)
    requires
        b.well_formed(),
        b.make_error(m) is None,
        b.promotions_valid(),
        m.promotion ==> b.at(m.from).unwrap().piece_type.can_promote(),
    ensures
        b.after_move(m).promotions_valid(),
{
    let a = b.after_move(m);
    lemma_make_keeps_well_formed(b, m);
    assert forall|r: int, c: int| 0 <= r < a.cells.len() && 0 <= c < a.cells[r].len() implies (
    #[trigger] a.cells[r][c] matches Some(q) ==> (q.promoted ==> q.piece_type.can_promote())) by {
        if let Some(q) = a.cells[r][c] {
            let pos = Position { row: r as usize, col: c as usize };
            assert(a.at(pos) == Some(q));
            lemma_make_moves_pieces_only(b, m, pos);
            let src = choose|src: Position|
                {
                    &&& (#[trigger] b.at(src)) matches Some(p)
                    &&& p.piece_type == q.piece_type
                    &&& p.player == q.player
                    &&& (p.promoted == q.promoted || (m.promotion && src == m.from))
                };
            assert(b.cells[src.row as int][src.col as int] == b.at(src));
        }
    }
}

/// Taking back a move that was just made restores the position: the grid,
/// both hands, the side to move and the castling rights. This holds where the
/// move records the promotion state of its piece, and a piece that it
/// captures is an unpromoted piece of the other player; `captured` is the kind
/// that stood on the destination.
pub proof fn lemma_unmake_restores(b: BoardView, m: Move)
    requires
        b.well_formed(),
        b.make_error(m) is None,
        m.promotion ==> m.promoted == b.at(m.from).unwrap().promoted,
        b.at(m.to) matches Some(victim) ==> !victim.promoted && victim.player == 3
            - b.current_player,
    ensures
        ({
            let made = Move { old_castling_rights: Some(b.castling_rights), ..m };
            let captured = match b.at(m.to) {
                Some(victim) => Some(victim.piece_type),
                None => None,
            };
            &&& b.after_move(m).unmake_error(made) is None
            &&& b.after_move(m).before_move(made, captured) == b
        }),
{
    let made = Move { old_castling_rights: Some(b.castling_rights), ..m };
    let captured = match b.at(m.to) {
        Some(victim) => Some(victim.piece_type),
        None => None,
    };
    let a = b.after_move(m);
    lemma_make_keeps_well_formed(b, m);
    assert(b.cells[m.from.row as int].len() == b.cells.len());
    assert(b.cells[m.to.row as int].len() == b.cells.len());
    let r = a.before_move(made, captured);
    assert(r.cells =~~= b.cells);
    assert(r.hand1 =~= b.hand1);
    assert(r.hand2 =~= b.hand2);
    assert(r =~= b);
}

/// After a move the turn is with the player who did not move, and after
/// taking it back the turn is with the mover again.
pub proof fn lemma_turn_alternates(b: BoardView, m: Move, captured: Option<PieceType>)
    requires
        valid_player(b.current_player),
    ensures
        b.after_move(m).current_player == 3 - b.current_player,
        b.after_move(m).before_move(m, captured).current_player == b.current_player,
{
}

} // verus!
