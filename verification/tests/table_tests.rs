use wasm_ai::board::Board;
use wasm_ai::tt::{Bound, TTEntry, TranspositionTable};
use wasm_ai::types::{GameStateInput, HandPieces, Move, Piece, PieceType, Position};
use wasm_ai::zobrist::{piece_type_to_index, ZobristHasher};

fn piece(kind: PieceType, player: u8) -> Option<Piece> {
    Some(Piece { piece_type: kind, player, promoted: false })
}

fn empty(n: usize) -> Vec<Vec<Option<Piece>>> {
    vec![vec![None; n]; n]
}

fn board(cells: Vec<Vec<Option<Piece>>>, player: u8) -> Board {
    Board::from_game_state(&GameStateInput { board: cells, current_player: player, hands: None })
        .unwrap()
}

fn some_move() -> Move {
    Move {
        from: Position { row: 6, col: 4 },
        to: Position { row: 5, col: 4 },
        piece_type: PieceType::ChessPawn,
        promoted: false,
        promotion: false,
        captured: None,
        is_castling: false,
        old_castling_rights: None,
    }
}

fn lcg(x: u64) -> u64 {
    x.wrapping_mul(6364136223846793005).wrapping_add(1442695040888963407)
}

/// The number of slots of a table, found through its behaviour: the least
/// positive hash that shares the slot of hash 0.
fn capacity(tt: &mut TranspositionTable) -> u64 {
    tt.clear();
    tt.store(0, 1, 0, Bound::Exact, None);
    let mut h: u64 = 1;
    loop {
        tt.store(h, 1, 0, Bound::Exact, None);
        if tt.get(0).is_none() {
            tt.clear();
            return h;
        }
        h += 1;
    }
}

#[test]
fn a_table_of_no_size_stores_nothing() {
    let mut tt = TranspositionTable::new(0);
    assert!(!tt.is_enabled());
    tt.store(42, 3, 10, Bound::Exact, None);
    assert!(tt.get(42).is_none());
    tt.clear();
    assert!(tt.get(42).is_none());
}

#[test]
fn capacity_follows_the_byte_budget() {
    let slot = std::mem::size_of::<Option<TTEntry>>() as u64;
    let mut one = TranspositionTable::new(1);
    assert!(one.is_enabled());
    assert_eq!(capacity(&mut one), 1048576 / slot);
    let mut two = TranspositionTable::new(2);
    assert_eq!(capacity(&mut two), 2 * 1048576 / slot);
}

#[test]
fn store_then_get_returns_the_entry() {
    let mut tt = TranspositionTable::new(1);
    assert!(tt.get(7).is_none());
    tt.store(7, 3, -25, Bound::Lower, Some(some_move()));
    let e = tt.get(7).unwrap();
    assert_eq!(
        *e,
        TTEntry { hash: 7, depth: 3, score: -25, bound: Bound::Lower, best_move: Some(some_move()) }
    );
    assert!(tt.get(8).is_none());
}

#[test]
fn deeper_or_equal_entry_overwrites() {
    let mut tt = TranspositionTable::new(1);
    tt.store(7, 3, 10, Bound::Exact, None);
    tt.store(7, 3, 11, Bound::Upper, None);
    assert_eq!(tt.get(7).unwrap().score, 11);
    assert_eq!(tt.get(7).unwrap().bound, Bound::Upper);
    tt.store(7, 5, 12, Bound::Exact, Some(some_move()));
    assert_eq!(tt.get(7).unwrap().score, 12);
    assert_eq!(tt.get(7).unwrap().depth, 5);
}

#[test]
fn shallower_entry_of_the_same_position_is_dropped() {
    let mut tt = TranspositionTable::new(1);
    tt.store(7, 5, 12, Bound::Exact, Some(some_move()));
    tt.store(7, 4, 99, Bound::Lower, None);
    let e = tt.get(7).unwrap();
    assert_eq!(e.score, 12);
    assert_eq!(e.depth, 5);
    assert_eq!(e.best_move, Some(some_move()));
}

#[test]
fn another_position_takes_the_slot_whatever_its_depth() {
    let mut tt = TranspositionTable::new(1);
    let n = capacity(&mut tt);
    tt.store(5, 9, 1, Bound::Exact, None);
    tt.store(5 + n, 1, 2, Bound::Exact, None);
    assert!(tt.get(5).is_none());
    assert_eq!(tt.get(5 + n).unwrap().score, 2);
    // Hashes of other slots are not touched.
    tt.store(6, 2, 3, Bound::Exact, None);
    assert_eq!(tt.get(5 + n).unwrap().score, 2);
    assert_eq!(tt.get(6).unwrap().score, 3);
}

#[test]
fn the_slot_is_the_hash_modulo_the_capacity() {
    let mut tt = TranspositionTable::new(1);
    let n = capacity(&mut tt);
    let big = u64::MAX - 3;
    tt.store(big, 1, 5, Bound::Exact, None);
    assert_eq!(tt.get(big).unwrap().score, 5);
    tt.store(big % n, 1, 6, Bound::Exact, None);
    assert!(tt.get(big).is_none());
    assert_eq!(tt.get(big % n).unwrap().score, 6);
}

#[test]
fn clear_empties_the_table_and_keeps_its_size() {
    let mut tt = TranspositionTable::new(1);
    let n = capacity(&mut tt);
    tt.store(1, 1, 1, Bound::Exact, None);
    tt.store(2, 1, 1, Bound::Exact, None);
    tt.clear();
    assert!(tt.get(1).is_none());
    assert!(tt.get(2).is_none());
    assert!(tt.is_enabled());
    assert_eq!(capacity(&mut tt), n);
}

#[test]
fn kind_indices() {
    let expected = [
        (PieceType::King, 0usize),
        (PieceType::Rook, 1),
        (PieceType::Bishop, 2),
        (PieceType::Gold, 3),
        (PieceType::Silver, 4),
        (PieceType::Knight, 5),
        (PieceType::Lance, 6),
        (PieceType::Pawn, 7),
        (PieceType::ChessKing, 0),
        (PieceType::ChessQueen, 8),
        (PieceType::ChessRook, 9),
        (PieceType::ChessBishop, 10),
        (PieceType::ChessKnight, 5),
        (PieceType::ChessPawn, 7),
    ];
    for (kind, idx) in expected {
        assert_eq!(piece_type_to_index(&kind), idx);
    }
}

#[test]
fn keys_are_the_states_of_the_generator() {
    let z = ZobristHasher::new();
    let first = lcg(0x123456789abcdef0);
    assert_eq!(z.key_of(1, &PieceType::King, 0, 0), first);
    assert_eq!(z.key_of(1, &PieceType::King, 0, 1), lcg(first));
    let mut x: u64 = 0x123456789abcdef0;
    for player in 1..=2u8 {
        for kind in [
            PieceType::King,
            PieceType::Rook,
            PieceType::Bishop,
            PieceType::Gold,
            PieceType::Silver,
            PieceType::Knight,
            PieceType::Lance,
            PieceType::Pawn,
            PieceType::ChessQueen,
            PieceType::ChessRook,
            PieceType::ChessBishop,
        ] {
            for row in 0..9 {
                for col in 0..9 {
                    x = lcg(x);
                    assert_eq!(z.key_of(player, &kind, row, col), x);
                }
            }
        }
    }
    // The two keys of the side to move follow the piece keys.
    let key_one = lcg(x);
    let key_two = lcg(key_one);
    assert_eq!(z.hash(&board(empty(9), 1)), key_one);
    assert_eq!(z.hash(&board(empty(9), 2)), key_two);
}

#[test]
fn all_keys_differ() {
    let mut keys: Vec<u64> = Vec::new();
    let mut x: u64 = 0x123456789abcdef0;
    for _ in 0..1784 {
        x = lcg(x);
        keys.push(x);
    }
    keys.sort();
    keys.dedup();
    assert_eq!(keys.len(), 1784);
    assert!(!keys.contains(&0));
}

#[test]
fn hash_combines_piece_keys_and_turn_key() {
    let z = ZobristHasher::new();
    let turn = z.hash(&board(empty(9), 1));
    let mut cells = empty(9);
    cells[4][4] = piece(PieceType::Gold, 1);
    cells[0][8] = piece(PieceType::ChessQueen, 2);
    let h = z.hash(&board(cells, 1));
    assert_eq!(
        h,
        turn ^ z.key_of(1, &PieceType::Gold, 4, 4) ^ z.key_of(2, &PieceType::ChessQueen, 0, 8)
    );
}

#[test]
fn equal_positions_have_equal_hashes() {
    let mut cells = empty(9);
    cells[8][4] = piece(PieceType::ChessKing, 1);
    cells[0][4] = piece(PieceType::King, 2);
    cells[3][3] = piece(PieceType::Pawn, 2);
    let a = board(cells.clone(), 2);
    let b = board(cells.clone(), 2);
    assert_eq!(ZobristHasher::new().hash(&a), ZobristHasher::new().hash(&b));
    // Hands and castling rights have no part in the hash.
    let mut c = Board::from_game_state(&GameStateInput {
        board: cells,
        current_player: 2,
        hands: Some(HandPieces { player1: vec![PieceType::Rook], player2: vec![] }),
    })
    .unwrap();
    c.castling_rights.white_king_side = false;
    assert_eq!(ZobristHasher::new().hash(&a), ZobristHasher::new().hash(&c));
}

#[test]
fn changing_a_piece_or_the_turn_changes_the_hash() {
    let z = ZobristHasher::new();
    let mut cells = empty(9);
    cells[8][4] = piece(PieceType::ChessKing, 1);
    cells[3][3] = piece(PieceType::Pawn, 2);
    let base = z.hash(&board(cells.clone(), 1));
    assert_ne!(base, z.hash(&board(cells.clone(), 2)));
    let mut moved = cells.clone();
    moved[3][3] = None;
    moved[3][4] = piece(PieceType::Pawn, 2);
    assert_ne!(base, z.hash(&board(moved, 1)));
    let mut other_kind = cells.clone();
    other_kind[3][3] = piece(PieceType::Lance, 2);
    assert_ne!(base, z.hash(&board(other_kind, 1)));
    let mut other_owner = cells.clone();
    other_owner[3][3] = piece(PieceType::Pawn, 1);
    assert_ne!(base, z.hash(&board(other_owner, 1)));
    let mut removed = cells.clone();
    removed[3][3] = None;
    assert_ne!(base, z.hash(&board(removed, 1)));
}

#[test]
fn kinds_that_share_keys_share_hashes() {
    let z = ZobristHasher::new();
    for (a, b) in [
        (PieceType::King, PieceType::ChessKing),
        (PieceType::Knight, PieceType::ChessKnight),
        (PieceType::Pawn, PieceType::ChessPawn),
    ] {
        let mut one = empty(9);
        one[2][6] = piece(a, 1);
        let mut two = empty(9);
        two[2][6] = piece(b, 1);
        assert_eq!(z.hash(&board(one, 1)), z.hash(&board(two, 1)));
    }
    // Promotion has no part in the hash either.
    let mut plain = empty(9);
    plain[2][6] = piece(PieceType::Rook, 1);
    let mut promoted = empty(9);
    promoted[2][6] = Some(Piece { piece_type: PieceType::Rook, player: 1, promoted: true });
    assert_eq!(z.hash(&board(plain, 1)), z.hash(&board(promoted, 1)));
}
