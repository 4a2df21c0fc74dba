use wasm_ai::board::Board;
use wasm_ai::moves::generate_moves;
use wasm_ai::types::{
    CastlingRights, EngineError, GameStateInput, HandPieces, Move, Piece, PieceType, Position,
};

fn piece(kind: PieceType, player: u8) -> Option<Piece> {
    Some(Piece { piece_type: kind, player, promoted: false })
}

fn promoted(kind: PieceType, player: u8) -> Option<Piece> {
    Some(Piece { piece_type: kind, player, promoted: true })
}

fn empty(n: usize) -> Vec<Vec<Option<Piece>>> {
    vec![vec![None; n]; n]
}

fn board(cells: Vec<Vec<Option<Piece>>>, player: u8) -> Board {
    Board::from_game_state(&GameStateInput { board: cells, current_player: player, hands: None })
        .unwrap()
}

fn at(row: usize, col: usize) -> Position {
    Position { row, col }
}

fn mv(from: (usize, usize), to: (usize, usize), kind: PieceType) -> Move {
    Move {
        from: at(from.0, from.1),
        to: at(to.0, to.1),
        piece_type: kind,
        promoted: false,
        promotion: false,
        captured: None,
        is_castling: false,
        old_castling_rights: None,
    }
}

fn start_position() -> Board {
    let mut cells = empty(9);
    let back = [
        PieceType::ChessRook,
        PieceType::ChessKnight,
        PieceType::ChessBishop,
        PieceType::ChessQueen,
        PieceType::ChessKing,
        PieceType::ChessBishop,
        PieceType::ChessKnight,
        PieceType::ChessRook,
    ];
    for (col, kind) in back.iter().enumerate() {
        cells[8][col] = piece(*kind, 1);
    }
    for col in 0..9 {
        cells[6][col] = piece(PieceType::ChessPawn, 1);
        cells[2][col] = piece(PieceType::Pawn, 2);
    }
    let top = [
        PieceType::Lance,
        PieceType::Knight,
        PieceType::Silver,
        PieceType::Gold,
        PieceType::King,
        PieceType::Gold,
        PieceType::Silver,
        PieceType::Knight,
        PieceType::Lance,
    ];
    for (col, kind) in top.iter().enumerate() {
        cells[0][col] = piece(*kind, 2);
    }
    cells[1][1] = piece(PieceType::Rook, 2);
    cells[1][7] = piece(PieceType::Bishop, 2);
    board(cells, 1)
}

#[test]
fn from_game_state_builds_the_described_position() {
    let mut cells = empty(9);
    cells[8][4] = piece(PieceType::ChessKing, 1);
    cells[0][4] = piece(PieceType::King, 2);
    let state = GameStateInput {
        board: cells.clone(),
        current_player: 2,
        hands: Some(HandPieces {
            player1: vec![PieceType::Pawn, PieceType::Gold],
            player2: vec![PieceType::Rook],
        }),
    };
    let b = Board::from_game_state(&state).unwrap();
    assert_eq!(b.size(), 9);
    assert_eq!(b.cells, cells);
    assert_eq!(b.current_player, 2);
    assert_eq!(b.hands[0], vec![PieceType::Pawn, PieceType::Gold]);
    assert_eq!(b.hands[1], vec![PieceType::Rook]);
    assert_eq!(
        b.castling_rights,
        CastlingRights {
            white_king_side: true,
            white_queen_side: true,
            black_king_side: true,
            black_queen_side: true,
        }
    );
}

#[test]
fn from_game_state_without_hands_gives_empty_hands() {
    let b = board(empty(3), 1);
    assert!(b.hands[0].is_empty());
    assert!(b.hands[1].is_empty());
}

#[test]
fn from_game_state_rejects_empty_board() {
    let state = GameStateInput { board: vec![], current_player: 1, hands: None };
    assert_eq!(Board::from_game_state(&state).err(), Some(EngineError::InvalidBoardDimensions));
}

#[test]
fn from_game_state_rejects_non_square_board() {
    let state =
        GameStateInput { board: vec![vec![None; 3], vec![None; 3]], current_player: 1, hands: None };
    assert_eq!(Board::from_game_state(&state).err(), Some(EngineError::InvalidBoardDimensions));
}

#[test]
fn from_game_state_rejects_ragged_board() {
    let state = GameStateInput {
        board: vec![vec![None; 3], vec![None; 2], vec![None; 3]],
        current_player: 1,
        hands: None,
    };
    assert_eq!(Board::from_game_state(&state).err(), Some(EngineError::InvalidBoardDimensions));
}

#[test]
fn from_game_state_rejects_unknown_side_to_move() {
    let state = GameStateInput { board: empty(9), current_player: 3, hands: None };
    assert_eq!(Board::from_game_state(&state).err(), Some(EngineError::InvalidPlayer));
    let state = GameStateInput { board: empty(9), current_player: 0, hands: None };
    assert_eq!(Board::from_game_state(&state).err(), Some(EngineError::InvalidPlayer));
}

#[test]
fn from_game_state_rejects_unknown_piece_owner() {
    let mut cells = empty(9);
    cells[3][3] = piece(PieceType::Pawn, 7);
    let state = GameStateInput { board: cells, current_player: 1, hands: None };
    assert_eq!(Board::from_game_state(&state).err(), Some(EngineError::InvalidPlayer));
}

#[test]
fn dimension_error_comes_before_player_error() {
    let state = GameStateInput { board: vec![], current_player: 9, hands: None };
    assert_eq!(Board::from_game_state(&state).err(), Some(EngineError::InvalidBoardDimensions));
}

#[test]
fn error_messages() {
    assert_eq!(EngineError::InvalidBoardDimensions.message(), "Invalid board dimensions");
    assert_eq!(EngineError::NoLegalMoves.message(), "No legal moves available");
    assert_eq!(EngineError::EmptySource.message(), "No piece at from position");
    assert_eq!(EngineError::OutOfBounds.message(), "Position out of bounds");
    assert_eq!(EngineError::InvalidPlayer.message(), "Invalid player");
    assert_eq!(EngineError::IllegalCastlingPath.message(), "Castling is not possible");
}

#[test]
fn get_reads_squares_and_nothing_outside() {
    let mut cells = empty(9);
    cells[2][5] = piece(PieceType::Gold, 2);
    let b = board(cells, 1);
    assert_eq!(b.get(at(2, 5)), piece(PieceType::Gold, 2).as_ref());
    assert_eq!(b.get(at(5, 2)), None);
    assert_eq!(b.get(at(9, 0)), None);
    assert_eq!(b.get(at(0, 9)), None);
    assert_eq!(b.piece_at(at(2, 5)), piece(PieceType::Gold, 2));
    assert!(b.in_bounds(at(8, 8)));
    assert!(!b.in_bounds(at(8, 9)));
}

#[test]
fn get_mut_writes_a_square() {
    let mut b = board(empty(9), 1);
    *b.get_mut(at(4, 4)).unwrap() = piece(PieceType::Silver, 1);
    assert_eq!(b.get(at(4, 4)), piece(PieceType::Silver, 1).as_ref());
    assert!(b.get_mut(at(9, 4)).is_none());
    assert!(b.get_mut(at(4, 9)).is_none());
}

#[test]
fn clone_equals_original() {
    let b = start_position();
    let c = b.clone();
    assert_eq!(b, c);
}

#[test]
fn make_move_moves_the_piece_and_passes_the_turn() {
    let mut cells = empty(9);
    cells[6][4] = piece(PieceType::ChessPawn, 1);
    let mut b = board(cells, 1);
    let mut m = mv((6, 4), (5, 4), PieceType::ChessPawn);
    assert_eq!(b.make_move(&mut m), Ok(()));
    assert_eq!(b.get(at(6, 4)), None);
    assert_eq!(b.get(at(5, 4)), piece(PieceType::ChessPawn, 1).as_ref());
    assert_eq!(b.current_player, 2);
    assert_eq!(m.old_castling_rights, Some(CastlingRights::default()));
    assert!(b.hands[0].is_empty());
    assert!(b.hands[1].is_empty());
}

#[test]
fn turn_alternates_over_make_and_unmake() {
    let mut cells = empty(9);
    cells[2][4] = piece(PieceType::Pawn, 2);
    let mut b = board(cells, 2);
    let mut m = mv((2, 4), (3, 4), PieceType::Pawn);
    b.make_move(&mut m).unwrap();
    assert_eq!(b.current_player, 1);
    b.unmake_move(&m, None).unwrap();
    assert_eq!(b.current_player, 2);
}

#[test]
fn capture_goes_to_the_movers_hand_by_its_kind() {
    let mut cells = empty(9);
    cells[4][4] = piece(PieceType::Rook, 1);
    cells[4][7] = promoted(PieceType::Silver, 2);
    let mut b = board(cells, 1);
    let mut m = mv((4, 4), (4, 7), PieceType::Rook);
    b.make_move(&mut m).unwrap();
    assert_eq!(b.hands[0], vec![PieceType::Silver]);
    assert!(b.hands[1].is_empty());
    assert_eq!(b.get(at(4, 7)), piece(PieceType::Rook, 1).as_ref());
}

#[test]
fn second_player_captures_into_the_second_hand() {
    let mut cells = empty(9);
    cells[4][4] = piece(PieceType::Rook, 2);
    cells[4][7] = piece(PieceType::ChessQueen, 1);
    let mut b = board(cells, 2);
    let mut m = mv((4, 4), (4, 7), PieceType::Rook);
    b.make_move(&mut m).unwrap();
    assert!(b.hands[0].is_empty());
    assert_eq!(b.hands[1], vec![PieceType::ChessQueen]);
}

#[test]
fn promotion_is_applied_and_undone() {
    let mut cells = empty(9);
    cells[3][4] = piece(PieceType::Pawn, 1);
    let before = board(cells, 1);
    let mut b = before.clone();
    let mut m = mv((3, 4), (2, 4), PieceType::Pawn);
    m.promotion = true;
    b.make_move(&mut m).unwrap();
    assert_eq!(b.get(at(2, 4)), promoted(PieceType::Pawn, 1).as_ref());
    b.unmake_move(&m, None).unwrap();
    assert_eq!(b, before);
}

#[test]
fn make_move_rejects_squares_off_the_board() {
    let mut cells = empty(9);
    cells[4][4] = piece(PieceType::Gold, 1);
    let before = board(cells, 1);
    let mut b = before.clone();
    let mut m = mv((4, 4), (9, 4), PieceType::Gold);
    assert_eq!(b.make_move(&mut m), Err(EngineError::OutOfBounds));
    assert_eq!(b, before);
    let mut m = mv((4, 9), (4, 4), PieceType::Gold);
    assert_eq!(b.make_move(&mut m), Err(EngineError::OutOfBounds));
    assert_eq!(b, before);
}

#[test]
fn make_move_rejects_empty_source() {
    let before = board(empty(9), 1);
    let mut b = before.clone();
    let mut m = mv((4, 4), (3, 4), PieceType::Gold);
    assert_eq!(b.make_move(&mut m), Err(EngineError::EmptySource));
    assert_eq!(b, before);
}

#[test]
fn make_move_rejects_castling_without_its_conditions() {
    let mut cells = empty(9);
    cells[8][4] = piece(PieceType::ChessKing, 1);
    cells[8][7] = piece(PieceType::ChessRook, 1);
    cells[8][6] = piece(PieceType::ChessKnight, 1);
    let before = board(cells, 1);
    let mut b = before.clone();
    let mut m = mv((8, 4), (8, 6), PieceType::ChessKing);
    m.is_castling = true;
    assert_eq!(b.make_move(&mut m), Err(EngineError::IllegalCastlingPath));
    assert_eq!(b, before);
}

#[test]
fn make_move_rejects_castling_without_the_right() {
    let mut cells = empty(9);
    cells[8][4] = piece(PieceType::ChessKing, 1);
    cells[8][7] = piece(PieceType::ChessRook, 1);
    let mut b = board(cells, 1);
    b.castling_rights.white_king_side = false;
    let mut m = mv((8, 4), (8, 6), PieceType::ChessKing);
    m.is_castling = true;
    assert_eq!(b.make_move(&mut m), Err(EngineError::IllegalCastlingPath));
}

#[test]
fn make_move_rejects_castling_without_the_rook() {
    let mut cells = empty(9);
    cells[8][4] = piece(PieceType::ChessKing, 1);
    let mut b = board(cells, 1);
    let mut m = mv((8, 4), (8, 6), PieceType::ChessKing);
    m.is_castling = true;
    assert_eq!(b.make_move(&mut m), Err(EngineError::IllegalCastlingPath));
}

#[test]
fn king_move_clears_both_rights_of_the_mover_only() {
    let mut cells = empty(9);
    cells[8][4] = piece(PieceType::ChessKing, 1);
    cells[0][4] = piece(PieceType::King, 2);
    let mut b = board(cells, 1);
    let mut m = mv((8, 4), (7, 4), PieceType::ChessKing);
    b.make_move(&mut m).unwrap();
    assert_eq!(
        b.castling_rights,
        CastlingRights {
            white_king_side: false,
            white_queen_side: false,
            black_king_side: true,
            black_queen_side: true,
        }
    );
    let mut m = mv((0, 4), (1, 4), PieceType::King);
    b.make_move(&mut m).unwrap();
    assert_eq!(
        b.castling_rights,
        CastlingRights {
            white_king_side: false,
            white_queen_side: false,
            black_king_side: false,
            black_queen_side: false,
        }
    );
    b.unmake_move(&m, None).unwrap();
    assert!(b.castling_rights.black_king_side);
    assert!(b.castling_rights.black_queen_side);
    assert!(!b.castling_rights.white_king_side);
}

#[test]
fn other_moves_keep_the_rights() {
    let mut cells = empty(9);
    cells[8][7] = piece(PieceType::ChessRook, 1);
    let mut b = board(cells, 1);
    let mut m = mv((8, 7), (7, 7), PieceType::ChessRook);
    b.make_move(&mut m).unwrap();
    assert_eq!(b.castling_rights, CastlingRights::default());
}

#[test]
fn castling_on_both_sides_moves_the_rook_and_is_undone() {
    let mut cells = empty(9);
    cells[8][4] = piece(PieceType::ChessKing, 1);
    cells[8][7] = piece(PieceType::ChessRook, 1);
    cells[8][0] = piece(PieceType::ChessRook, 1);
    let before = board(cells, 1);

    let mut b = before.clone();
    let mut m = mv((8, 4), (8, 6), PieceType::ChessKing);
    m.is_castling = true;
    b.make_move(&mut m).unwrap();
    assert_eq!(b.get(at(8, 6)), piece(PieceType::ChessKing, 1).as_ref());
    assert_eq!(b.get(at(8, 5)), piece(PieceType::ChessRook, 1).as_ref());
    assert_eq!(b.get(at(8, 7)), None);
    assert_eq!(b.get(at(8, 4)), None);
    b.unmake_move(&m, None).unwrap();
    assert_eq!(b, before);

    let mut m = mv((8, 4), (8, 2), PieceType::ChessKing);
    m.is_castling = true;
    b.make_move(&mut m).unwrap();
    assert_eq!(b.get(at(8, 2)), piece(PieceType::ChessKing, 1).as_ref());
    assert_eq!(b.get(at(8, 3)), piece(PieceType::ChessRook, 1).as_ref());
    assert_eq!(b.get(at(8, 0)), None);
    b.unmake_move(&m, None).unwrap();
    assert_eq!(b, before);
}

#[test]
fn second_player_castles_on_row_zero() {
    let mut cells = empty(9);
    cells[0][4] = piece(PieceType::ChessKing, 2);
    cells[0][7] = piece(PieceType::ChessRook, 2);
    let before = board(cells, 2);
    let mut b = before.clone();
    assert!(b.can_castle(2, true));
    let mut m = mv((0, 4), (0, 6), PieceType::ChessKing);
    m.is_castling = true;
    b.make_move(&mut m).unwrap();
    assert_eq!(b.get(at(0, 5)), piece(PieceType::ChessRook, 2).as_ref());
    assert!(!b.castling_rights.black_king_side);
    assert!(!b.castling_rights.black_queen_side);
    assert!(b.castling_rights.white_king_side);
    b.unmake_move(&m, None).unwrap();
    assert_eq!(b, before);
}

#[test]
fn can_castle_needs_the_flag_and_an_empty_path() {
    let mut cells = empty(9);
    cells[8][4] = piece(PieceType::ChessKing, 1);
    cells[8][7] = piece(PieceType::ChessRook, 1);
    cells[8][0] = piece(PieceType::ChessRook, 1);
    cells[8][1] = piece(PieceType::ChessKnight, 1);
    let mut b = board(cells, 1);
    assert!(b.can_castle(1, true));
    assert!(!b.can_castle(1, false));
    b.castling_rights.white_king_side = false;
    assert!(!b.can_castle(1, true));
    assert!(b.can_castle(2, true));
    assert!(b.can_castle(2, false));
    let small = board(empty(7), 1);
    assert!(!small.can_castle(1, true));
    assert!(!small.can_castle(2, false));
}

#[test]
fn unmake_restores_a_capture_and_takes_one_entry_from_the_hand() {
    let mut cells = empty(9);
    cells[4][4] = piece(PieceType::Rook, 1);
    cells[4][7] = piece(PieceType::Pawn, 2);
    let state = GameStateInput {
        board: cells,
        current_player: 1,
        hands: Some(HandPieces {
            player1: vec![PieceType::Pawn, PieceType::Gold, PieceType::Pawn],
            player2: vec![PieceType::Pawn],
        }),
    };
    let before = Board::from_game_state(&state).unwrap();
    let mut b = before.clone();
    let mut m = mv((4, 4), (4, 7), PieceType::Rook);
    b.make_move(&mut m).unwrap();
    assert_eq!(
        b.hands[0],
        vec![PieceType::Pawn, PieceType::Gold, PieceType::Pawn, PieceType::Pawn]
    );
    b.unmake_move(&m, Some(PieceType::Pawn)).unwrap();
    assert_eq!(b, before);
}

#[test]
fn unmake_takes_the_last_matching_entry() {
    let mut cells = empty(9);
    cells[4][7] = piece(PieceType::Rook, 1);
    let state = GameStateInput {
        board: cells,
        current_player: 2,
        hands: Some(HandPieces {
            player1: vec![PieceType::Pawn, PieceType::Gold, PieceType::Pawn, PieceType::Lance],
            player2: vec![],
        }),
    };
    let mut b = Board::from_game_state(&state).unwrap();
    let m = mv((4, 4), (4, 7), PieceType::Rook);
    b.unmake_move(&m, Some(PieceType::Pawn)).unwrap();
    assert_eq!(b.hands[0], vec![PieceType::Pawn, PieceType::Gold, PieceType::Lance]);
    assert_eq!(b.get(at(4, 4)), piece(PieceType::Rook, 1).as_ref());
    assert_eq!(b.get(at(4, 7)), piece(PieceType::Pawn, 2).as_ref());
    assert_eq!(b.current_player, 1);
}

#[test]
fn unmake_with_a_kind_not_in_hand_leaves_the_hand() {
    let mut cells = empty(9);
    cells[4][7] = piece(PieceType::Rook, 1);
    let state = GameStateInput {
        board: cells,
        current_player: 2,
        hands: Some(HandPieces { player1: vec![PieceType::Gold], player2: vec![] }),
    };
    let mut b = Board::from_game_state(&state).unwrap();
    let m = mv((4, 4), (4, 7), PieceType::Rook);
    b.unmake_move(&m, Some(PieceType::Pawn)).unwrap();
    assert_eq!(b.hands[0], vec![PieceType::Gold]);
}

#[test]
fn unmake_loses_the_promotion_of_a_captured_piece() {
    let mut cells = empty(9);
    cells[4][4] = piece(PieceType::Rook, 1);
    cells[4][7] = promoted(PieceType::Silver, 2);
    let mut b = board(cells, 1);
    let mut m = mv((4, 4), (4, 7), PieceType::Rook);
    b.make_move(&mut m).unwrap();
    b.unmake_move(&m, Some(PieceType::Silver)).unwrap();
    assert_eq!(b.get(at(4, 7)), piece(PieceType::Silver, 2).as_ref());
    assert_eq!(b.get(at(4, 4)), piece(PieceType::Rook, 1).as_ref());
    assert!(b.hands[0].is_empty());
}

#[test]
fn unmake_rejects_bad_moves_and_leaves_the_board() {
    let mut cells = empty(9);
    cells[4][4] = piece(PieceType::Gold, 1);
    let before = board(cells, 2);
    let mut b = before.clone();
    let m = mv((4, 4), (9, 4), PieceType::Gold);
    assert_eq!(b.unmake_move(&m, None), Err(EngineError::OutOfBounds));
    let m = mv((9, 4), (4, 4), PieceType::Gold);
    assert_eq!(b.unmake_move(&m, None), Err(EngineError::OutOfBounds));
    let m = mv((4, 4), (3, 4), PieceType::Gold);
    assert_eq!(b.unmake_move(&m, None), Err(EngineError::EmptySource));
    let mut m = mv((5, 4), (4, 4), PieceType::Gold);
    m.is_castling = true;
    assert_eq!(b.unmake_move(&m, None), Err(EngineError::IllegalCastlingPath));
    assert_eq!(b, before);
}

#[test]
fn unmake_without_saved_rights_keeps_the_rights() {
    let mut cells = empty(9);
    cells[3][4] = piece(PieceType::Gold, 1);
    let mut b = board(cells, 2);
    b.castling_rights.black_king_side = false;
    let m = mv((4, 4), (3, 4), PieceType::Gold);
    b.unmake_move(&m, None).unwrap();
    assert!(!b.castling_rights.black_king_side);
    assert!(b.castling_rights.white_king_side);
    assert_eq!(b.get(at(4, 4)), piece(PieceType::Gold, 1).as_ref());
}

#[test]
fn every_generated_move_is_undone_exactly() {
    let before = start_position();
    let moves = generate_moves(&before);
    assert!(!moves.is_empty());
    for m in moves {
        let mut b = before.clone();
        let captured = b.get(m.to).map(|p| p.piece_type);
        let mut made = m;
        b.make_move(&mut made).unwrap();
        assert_eq!(b.current_player, 2);
        b.unmake_move(&made, captured).unwrap();
        assert_eq!(b, before);
    }
}

#[test]
fn unmake_round_trip() {
    let before = start_position();
    let mut b = before.clone();
    let mut line: Vec<(Move, Option<PieceType>)> = Vec::new();
    let mut rng: u64 = 2024;
    for _ in 0..20 {
        let moves = generate_moves(&b);
        assert!(!moves.is_empty());
        rng = rng.wrapping_mul(6364136223846793005).wrapping_add(1442695040888963407);
        let pick = ((rng >> 33) as usize) % moves.len();
        let mut m = moves[pick];
        let captured = b.get(m.to).map(|p| p.piece_type);
        b.make_move(&mut m).unwrap();
        line.push((m, captured));
    }
    assert_eq!(line.len(), 20);
    assert_ne!(b, before);
    while let Some((m, captured)) = line.pop() {
        b.unmake_move(&m, captured).unwrap();
    }
    assert_eq!(b, before);
    assert_eq!(b.cells, before.cells);
    assert_eq!(b.hands, before.hands);
    assert_eq!(b.castling_rights, before.castling_rights);
    assert_eq!(b.current_player, before.current_player);
}
