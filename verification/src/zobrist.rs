//! Zobrist hashing: the keys and the hash of a position.

use vstd::prelude::*;
use crate::board::{Board, BoardView};
use crate::types::{Piece, PieceType, Player, Position};

verus! {

/// The state from which the key generator starts.
pub const ZOBRIST_SEED: u64 = 0x123456789abcdef0;

/// Multiplier of the key generator.
pub const LCG_MULTIPLIER: u64 = 6364136223846793005;

/// Increment of the key generator.
pub const LCG_INCREMENT: u64 = 1442695040888963407;

/// Kinds that have keys of their own; the chess king, knight and pawn share
/// the keys of their Shogi namesakes.
pub const KEY_KINDS: usize = 11;

/// Squares that have keys: those of a 9x9 board.
pub const KEY_SQUARES: usize = 81;

/// The number of piece keys: two players, eleven kinds, eighty-one squares.
pub const PIECE_KEYS: usize = 1782;

/// The widest board that can be hashed.
pub const MAX_HASH_SIZE: usize = 9;

/// One step of the generator, in 64-bit arithmetic.
pub open spec fn lcg_next(x: u64) -> u64 {
    x.wrapping_mul(LCG_MULTIPLIER).wrapping_add(LCG_INCREMENT)
}

/// The state of the generator after `k` steps.
#[verifier::opaque]
pub open spec fn lcg_state(k: nat) -> u64
    decreases k,
{
    if k == 0 {
        ZOBRIST_SEED
    } else {
        lcg_next(lcg_state((k - 1) as nat))
    }
}

/// The key index of a kind.
pub open spec fn kind_index(kind: PieceType) -> int {
    match kind {
        PieceType::King => 0,
        PieceType::Rook => 1,
        PieceType::Bishop => 2,
        PieceType::Gold => 3,
        PieceType::Silver => 4,
        PieceType::Knight => 5,
        PieceType::Lance => 6,
        PieceType::Pawn => 7,
        PieceType::ChessKing => 0,
        PieceType::ChessQueen => 8,
        PieceType::ChessRook => 9,
        PieceType::ChessBishop => 10,
        PieceType::ChessKnight => 5,
        PieceType::ChessPawn => 7,
    }
}

/// The place of a piece key among all piece keys: player by player, kind by
/// kind, square by square.
pub open spec fn key_slot(player_idx: int, kind_idx: int, square: int) -> int {
    (player_idx * KEY_KINDS + kind_idx) * KEY_SQUARES + square
}

/// The key of a kind of piece of a player on a square: the keys are the
/// successive states of the generator, the piece keys first.
pub open spec fn piece_key(player_idx: int, kind_idx: int, square: int) -> u64 {
    lcg_state((key_slot(player_idx, kind_idx, square) + 1) as nat)
}

/// The key of the side to move; it follows the piece keys.
pub open spec fn player_key(player_idx: int) -> u64 {
    lcg_state((PIECE_KEYS + player_idx + 1) as nat)
}

/// What a square adds to the hash: nothing if it is empty, else the key of
/// its piece there.
pub open spec fn cell_key(cell: Option<Piece>, r: int, c: int) -> u64 {
    match cell {
        None => 0,
        Some(p) => piece_key(p.player - 1, kind_index(p.piece_type), r * 9 + c),
    }
}

/// The keys of the first `upto` squares of row `r`, combined by exclusive or.
pub open spec fn row_hash(row: Seq<Option<Piece>>, r: int, upto: int) -> u64
    decreases upto,
{
    if upto <= 0 {
        0
    } else {
        row_hash(row, r, upto - 1) ^ cell_key(row[upto - 1], r, upto - 1)
    }
}

/// The keys of the first `upto` rows, combined by exclusive or.
pub open spec fn grid_hash(cells: Seq<Seq<Option<Piece>>>, upto: int) -> u64
    decreases upto,
{
    if upto <= 0 {
        0
    } else {
        grid_hash(cells, upto - 1) ^ row_hash(
            cells[upto - 1],
            upto - 1,
            cells[upto - 1].len() as int,
        )
    }
}

/// The hash of a position: the keys of all pieces where they stand and the
/// key of the side to move. The hands have no part in it.
pub open spec fn position_hash(b: BoardView) -> u64 {
    grid_hash(b.cells, b.cells.len() as int) ^ player_key(b.current_player - 1)
}

/// Positions with the same pieces on the same squares and the same side to
/// move have the same hash, whatever their hands and castling rights.
pub proof fn lemma_hash_of_equal_positions(a: BoardView, b: BoardView)
    requires
        a.cells == b.cells,
        a.current_player == b.current_player,
    ensures
        position_hash(a) == position_hash(b),
{
}

/// Replacing the square `c` of a row changes the hash of a stretch of the
/// row that holds it by the keys of what stood and what stands there.
proof fn lemma_row_hash_update(row: Seq<Option<Piece>>, r: int, c: int, v: Option<Piece>, upto: int)
    requires
        0 <= c < row.len(),
        0 <= upto <= row.len(),
    ensures
        row_hash(row.update(c, v), r, upto) == if upto > c {
            row_hash(row, r, upto) ^ cell_key(row[c], r, c) ^ cell_key(v, r, c)
        } else {
            row_hash(row, r, upto)
        },
    decreases upto,
{
    if upto > 0 {
        lemma_row_hash_update(row, r, c, v, upto - 1);
        let a = row_hash(row, r, upto - 1);
        let ko = cell_key(row[c], r, c);
        let kv = cell_key(v, r, c);
        if upto - 1 == c {
            assert((a ^ ko) ^ ko ^ kv == a ^ kv) by (bit_vector);
        } else if upto - 1 > c {
            let x = cell_key(row[upto - 1], r, upto - 1);
            assert((a ^ ko ^ kv) ^ x == (a ^ x) ^ ko ^ kv) by (bit_vector);
        }
    }
}

/// Replacing one square of a grid changes the hash of a stretch of rows
/// that holds it by the keys of what stood and what stands there.
proof fn lemma_grid_hash_update(
    cells: Seq<Seq<Option<Piece>>>,
    r: int,
    c: int,
    v: Option<Piece>,
    upto: int,
)
    requires
        0 <= r < cells.len(),
        0 <= c < cells[r].len(),
        0 <= upto <= cells.len(),
    ensures
        grid_hash(cells.update(r, cells[r].update(c, v)), upto) == if upto > r {
            grid_hash(cells, upto) ^ cell_key(cells[r][c], r, c) ^ cell_key(v, r, c)
        } else {
            grid_hash(cells, upto)
        },
    decreases upto,
{
    if upto > 0 {
        lemma_grid_hash_update(cells, r, c, v, upto - 1);
        let a = grid_hash(cells, upto - 1);
        let ko = cell_key(cells[r][c], r, c);
        let kv = cell_key(v, r, c);
        if upto - 1 == r {
            lemma_row_hash_update(cells[r], r, c, v, cells[r].len() as int);
            let x = row_hash(cells[r], r, cells[r].len() as int);
            assert(a ^ (x ^ ko ^ kv) == (a ^ x) ^ ko ^ kv) by (bit_vector);
        } else if upto - 1 > r {
            let x = row_hash(cells[upto - 1], upto - 1, cells[upto - 1].len() as int);
            assert((a ^ ko ^ kv) ^ x == (a ^ x) ^ ko ^ kv) by (bit_vector);
        }
    }
}

/// Putting something else on one square changes the hash by the keys of what
/// stood there and of what stands there now; so the hash changes exactly when
/// those two keys differ.
pub proof fn lemma_hash_after_replacing(b: BoardView, pos: Position, v: Option<Piece>)
    requires
        b.in_bounds(pos),
    ensures
        ({
            let old_key = cell_key(b.at(pos), pos.row as int, pos.col as int);
            let new_key = cell_key(v, pos.row as int, pos.col as int);
            &&& position_hash(b.with_cell(pos, v)) == position_hash(b) ^ old_key ^ new_key
            &&& position_hash(b.with_cell(pos, v)) != position_hash(b) <==> old_key != new_key
        }),
{
    let r = pos.row as int;
    let c = pos.col as int;
    lemma_grid_hash_update(b.cells, r, c, v, b.cells.len() as int);
    let g = grid_hash(b.cells, b.cells.len() as int);
    let p = player_key(b.current_player - 1);
    let ko = cell_key(b.at(pos), r, c);
    let kv = cell_key(v, r, c);
    assert((g ^ ko ^ kv) ^ p == (g ^ p) ^ ko ^ kv) by (bit_vector);
    let h = position_hash(b);
    assert((h ^ ko ^ kv != h) <==> (ko != kv)) by (bit_vector);
}

/// The key index of a kind.
pub fn piece_type_to_index(piece_type: &PieceType) -> (idx: usize)
    ensures
        idx == kind_index(*piece_type),
        idx < KEY_KINDS,
{
    match piece_type {
        PieceType::King => 0,
        PieceType::Rook => 1,
        PieceType::Bishop => 2,
        PieceType::Gold => 3,
        PieceType::Silver => 4,
        PieceType::Knight => 5,
        PieceType::Lance => 6,
        PieceType::Pawn => 7,
        PieceType::ChessKing => 0,
        PieceType::ChessQueen => 8,
        PieceType::ChessRook => 9,
        PieceType::ChessBishop => 10,
        PieceType::ChessKnight => 5,
        PieceType::ChessPawn => 7,
    }
}

/// One step of the generator.
fn lcg_step(x: u64) -> (next: u64)
    ensures
        next == lcg_next(x),
{
    x.wrapping_mul(LCG_MULTIPLIER).wrapping_add(LCG_INCREMENT)
}

/// The keys with which positions are hashed. They depend on nothing but the
/// fixed seed, so every hasher holds the same keys.
pub struct ZobristHasher {
    piece_keys: Vec<u64>,
    player_keys: Vec<u64>,
}

/// All keys in order, the piece keys first: the successive states of the
/// generator after the seed.
pub open spec fn zobrist_keys() -> Seq<u64> {
    Seq::new((PIECE_KEYS + 2) as nat, |i: int| lcg_state((i + 1) as nat))
}

impl View for ZobristHasher {
    type V = Seq<u64>;

    /// The keys that the hasher holds, the piece keys first.
    closed spec fn view(&self) -> Seq<u64> {
        self.piece_keys@ + self.player_keys@
    }
}

impl ZobristHasher {
    /// The keys are the generator's states, in order.
    #[verifier::type_invariant]
    closed spec fn inv(&self) -> bool {
        &&& self.piece_keys@.len() == PIECE_KEYS
        &&& self.player_keys@.len() == 2
        &&& forall|i: int| 0 <= i < PIECE_KEYS ==> self.piece_keys@[i] == lcg_state((i + 1) as nat)
        &&& forall|i: int|
            0 <= i < 2 ==> self.player_keys@[i] == lcg_state((PIECE_KEYS + i + 1) as nat)
    }

    /// Fills `keys` with the next `count` states of the generator, which is
    /// in state `rng`, and returns the state it is left in.
    fn init_random_keys(keys: &mut Vec<u64>, rng: u64, count: usize, Ghost(step): Ghost<nat>) -> (out:
        u64)
        requires
            old(keys)@.len() == 0,
            rng == lcg_state(step),
        ensures
            final(keys)@.len() == count,
            forall|i: int| 0 <= i < count ==> final(keys)@[i] == lcg_state((step + i + 1) as nat),
            out == lcg_state(step + count as nat),
    {
        let mut rng = rng;
        let mut i: usize = 0;
        while i < count
            invariant
                i <= count,
                keys@.len() == i,
                rng == lcg_state(step + i as nat),
                forall|j: int| 0 <= j < i ==> keys@[j] == lcg_state((step + j + 1) as nat),
            decreases count - i,
        {
            rng = lcg_step(rng);
            reveal(lcg_state);
            assert(lcg_state(step + i as nat + 1) == lcg_next(
                lcg_state((step + i as nat + 1 - 1) as nat),
            ));
            keys.push(rng);
            i += 1;
        }
        rng
    }

    /// Builds the keys from the fixed seed.
    pub fn new() -> (hasher: Self)
        ensures
            hasher@ == zobrist_keys(),
    {
        let mut piece_keys: Vec<u64> = Vec::new();
        let mut player_keys: Vec<u64> = Vec::new();
        assert(lcg_state(0) == ZOBRIST_SEED) by {
            reveal(lcg_state);
        }
        let rng = Self::init_random_keys(&mut piece_keys, ZOBRIST_SEED, PIECE_KEYS, Ghost(0));
        let _ = Self::init_random_keys(&mut player_keys, rng, 2, Ghost(PIECE_KEYS as nat));
        let hasher = ZobristHasher { piece_keys, player_keys };
        assert(hasher@ =~= zobrist_keys());
        hasher
    }

    /// The hash of a position on a board of at most nine rows.
    pub fn hash(&self, board: &Board) -> (h: u64)
        requires
            board@.well_formed(),
            board@.size() <= MAX_HASH_SIZE,
        ensures
            h == position_hash(board@),
    {
        proof {
            use_type_invariant(self);
        }
        let n = board.size();
        let ghost b = board@;
        let mut hash: u64 = 0;
        let mut row: usize = 0;
        while row < n
            invariant
                b == board@,
                b.well_formed(),
                n == b.cells.len(),
                n <= MAX_HASH_SIZE,
                row <= n,
                self.inv(),
                hash == grid_hash(b.cells, row as int),
            decreases n - row,
        {
            let ghost cells_row = b.cells[row as int];
            assert(cells_row.len() == n);
            let mut row_hash_acc: u64 = 0;
            let mut col: usize = 0;
            while col < n
                invariant
                    b == board@,
                    b.well_formed(),
                    n == b.cells.len(),
                    n <= MAX_HASH_SIZE,
                    row < n,
                    cells_row == b.cells[row as int],
                    cells_row.len() == n,
                    col <= n,
                    self.inv(),
                    row_hash_acc == row_hash(cells_row, row as int, col as int),
                decreases n - col,
            {
                if let Some(piece) = board.get(Position { row, col }) {
                    assert(b.cells[row as int][col as int] == Some(*piece));
                    let player_idx = (piece.player - 1) as usize;
                    let piece_idx = piece_type_to_index(&piece.piece_type);
                    let pos_idx = row * 9 + col;
                    row_hash_acc ^= self.piece_keys[(player_idx * KEY_KINDS + piece_idx)
                        * KEY_SQUARES + pos_idx];
                } else {
                    assert(row_hash_acc ^ 0 == row_hash_acc) by (bit_vector);
                }
                col += 1;
            }
            hash ^= row_hash_acc;
            row += 1;
        }
        hash ^= self.player_keys[(board.current_player - 1) as usize];
        hash
    }

    /// The key of a kind of piece of a player (1 or 2) on a square of the 9x9 board.
    pub fn key_of(&self, player: Player, piece_type: &PieceType, row: usize, col: usize) -> (k: u64)
        requires
            player == 1 || player == 2,
            row < 9,
            col < 9,
        ensures
            k == piece_key(player - 1, kind_index(*piece_type), row * 9 + col),
    {
        proof {
            use_type_invariant(self);
        }
        let player_idx = (player - 1) as usize;
        let piece_idx = piece_type_to_index(piece_type);
        self.piece_keys[(player_idx * KEY_KINDS + piece_idx) * KEY_SQUARES + row * 9 + col]
    }
}

} // verus!
