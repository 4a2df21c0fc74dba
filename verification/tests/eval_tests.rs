use wasm_ai::board::Board;
use wasm_ai::config::AIConfig;
use wasm_ai::eval::{evaluate, get_piece_value};
use wasm_ai::pst::get_pst_value;
use wasm_ai::types::{GameStateInput, HandPieces, Piece, PieceType};

fn piece(kind: PieceType, player: u8) -> Option<Piece> {
    Some(Piece { piece_type: kind, player, promoted: false })
}

fn empty(n: usize) -> Vec<Vec<Option<Piece>>> {
    vec![vec![None; n]; n]
}

fn board(cells: Vec<Vec<Option<Piece>>>, player: u8) -> Board {
    Board::from_game_state(&GameStateInput { board: cells, current_player: player, hands: None })
        .unwrap()
}

fn plain() -> AIConfig {
    AIConfig::from_level(1)
}

fn positional() -> AIConfig {
    AIConfig::from_level(2)
}

#[test]
fn material_values() {
    let table = [
        (PieceType::King, 100000, 100000),
        (PieceType::Rook, 900, 1000),
        (PieceType::Bishop, 750, 850),
        (PieceType::Gold, 600, 600),
        (PieceType::Silver, 500, 600),
        (PieceType::Knight, 350, 600),
        (PieceType::Lance, 300, 600),
        (PieceType::Pawn, 100, 600),
        (PieceType::ChessKing, 100000, 100000),
        (PieceType::ChessQueen, 950, 950),
        (PieceType::ChessRook, 500, 500),
        (PieceType::ChessBishop, 330, 330),
        (PieceType::ChessKnight, 320, 320),
        (PieceType::ChessPawn, 100, 100),
    ];
    for (kind, base, promoted) in table {
        assert_eq!(get_piece_value(&kind, false), base);
        assert_eq!(get_piece_value(&kind, true), promoted);
    }
}

#[test]
fn pst_values_for_player_one() {
    assert_eq!(get_pst_value(&PieceType::Pawn, 0, 0, 1), 200);
    assert_eq!(get_pst_value(&PieceType::Pawn, 8, 3, 1), -30);
    assert_eq!(get_pst_value(&PieceType::ChessPawn, 3, 3, 1), 120);
    assert_eq!(get_pst_value(&PieceType::ChessPawn, 0, 8, 1), 500);
    assert_eq!(get_pst_value(&PieceType::Knight, 8, 1, 1), -100);
    assert_eq!(get_pst_value(&PieceType::ChessKnight, 2, 4, 1), 180);
    assert_eq!(get_pst_value(&PieceType::King, 8, 1, 1), 300);
    assert_eq!(get_pst_value(&PieceType::ChessKing, 0, 1, 1), -400);
    assert_eq!(get_pst_value(&PieceType::Gold, 4, 4, 1), 120);
    assert_eq!(get_pst_value(&PieceType::ChessQueen, 8, 0, 1), -80);
    assert_eq!(get_pst_value(&PieceType::Rook, 7, 8, 1), -30);
}

#[test]
fn pst_values_are_mirrored_for_player_two() {
    assert_eq!(get_pst_value(&PieceType::Pawn, 0, 0, 2), -20);
    assert_eq!(get_pst_value(&PieceType::Pawn, 8, 8, 2), 200);
    assert_eq!(get_pst_value(&PieceType::King, 0, 4, 2), 50);
    assert_eq!(get_pst_value(&PieceType::King, 1, 0, 2), 150);
    assert_eq!(get_pst_value(&PieceType::Knight, 7, 0, 2), 150);
    for row in 0..9 {
        for col in 0..9 {
            for kind in [PieceType::Pawn, PieceType::ChessPawn, PieceType::Knight, PieceType::King, PieceType::Silver] {
                assert_eq!(
                    get_pst_value(&kind, row, col, 2),
                    get_pst_value(&kind, 8 - row, 8 - col, 1)
                );
            }
        }
    }
}

#[test]
fn pst_is_zero_off_the_nine_by_nine_area() {
    assert_eq!(get_pst_value(&PieceType::Pawn, 9, 0, 1), 0);
    assert_eq!(get_pst_value(&PieceType::Pawn, 0, 9, 1), 0);
    assert_eq!(get_pst_value(&PieceType::King, 9, 9, 2), 0);
    assert_eq!(get_pst_value(&PieceType::King, usize::MAX, 0, 2), 0);
}

#[test]
fn pst_stays_within_its_bound() {
    let kinds = [
        PieceType::King,
        PieceType::Rook,
        PieceType::Pawn,
        PieceType::ChessPawn,
        PieceType::Knight,
        PieceType::ChessKing,
    ];
    for kind in kinds {
        for row in 0..9 {
            for col in 0..9 {
                for player in [1u8, 2u8] {
                    let v = get_pst_value(&kind, row, col, player);
                    assert!(-500 <= v && v <= 500);
                }
            }
        }
    }
}

#[test]
fn empty_board_scores_zero() {
    assert_eq!(evaluate(&board(empty(9), 1), &plain()), 0);
    assert_eq!(evaluate(&board(empty(9), 2), &positional()), 0);
}

#[test]
fn material_is_counted_for_the_side_to_move() {
    let mut cells = empty(9);
    cells[8][0] = piece(PieceType::ChessRook, 1);
    cells[0][4] = piece(PieceType::King, 2);
    assert_eq!(evaluate(&board(cells.clone(), 1), &plain()), 500 - 100000);
    assert_eq!(evaluate(&board(cells, 2), &plain()), 100000 - 500);
}

#[test]
fn positional_bonus_is_added_when_enabled() {
    let mut cells = empty(9);
    cells[8][0] = piece(PieceType::ChessRook, 1);
    cells[0][4] = piece(PieceType::King, 2);
    assert_eq!(evaluate(&board(cells.clone(), 1), &positional()), (500 - 80) - (100000 + 50));
    assert_eq!(evaluate(&board(cells, 2), &positional()), (100000 + 50) - (500 - 80));
}

#[test]
fn promoted_pieces_count_their_promoted_value() {
    let mut cells = empty(9);
    cells[4][4] = Some(Piece { piece_type: PieceType::Pawn, player: 1, promoted: true });
    cells[4][5] = Some(Piece { piece_type: PieceType::Bishop, player: 2, promoted: true });
    assert_eq!(evaluate(&board(cells, 1), &plain()), 600 - 850);
}

#[test]
fn hands_count_half_their_unpromoted_value() {
    let state = GameStateInput {
        board: empty(9),
        current_player: 1,
        hands: Some(HandPieces {
            player1: vec![PieceType::Pawn, PieceType::Rook],
            player2: vec![PieceType::Gold],
        }),
    };
    let b = Board::from_game_state(&state).unwrap();
    assert_eq!(evaluate(&b, &plain()), 50 + 450 - 300);
    let state = GameStateInput {
        board: empty(9),
        current_player: 2,
        hands: Some(HandPieces {
            player1: vec![PieceType::Pawn, PieceType::Rook],
            player2: vec![PieceType::Gold],
        }),
    };
    let b = Board::from_game_state(&state).unwrap();
    assert_eq!(evaluate(&b, &plain()), 300 - 50 - 450);
}

#[test]
fn odd_values_are_halved_downwards() {
    let state = GameStateInput {
        board: empty(9),
        current_player: 1,
        hands: Some(HandPieces { player1: vec![PieceType::Knight], player2: vec![] }),
    };
    let b = Board::from_game_state(&state).unwrap();
    assert_eq!(evaluate(&b, &plain()), 175);
}

#[test]
fn evaluation_is_negated_when_the_turn_passes() {
    let mut cells = empty(9);
    cells[8][4] = piece(PieceType::ChessKing, 1);
    cells[8][0] = piece(PieceType::ChessRook, 1);
    cells[6][3] = piece(PieceType::ChessPawn, 1);
    cells[0][4] = piece(PieceType::King, 2);
    cells[1][1] = Some(Piece { piece_type: PieceType::Rook, player: 2, promoted: true });
    cells[2][5] = piece(PieceType::Pawn, 2);
    cells[3][6] = piece(PieceType::Knight, 2);
    for cfg in [plain(), positional()] {
        let hands = || {
            Some(HandPieces {
                player1: vec![PieceType::Silver, PieceType::Pawn],
                player2: vec![PieceType::Lance],
            })
        };
        let one = Board::from_game_state(&GameStateInput {
            board: cells.clone(),
            current_player: 1,
            hands: hands(),
        })
        .unwrap();
        let two = Board::from_game_state(&GameStateInput {
            board: cells.clone(),
            current_player: 2,
            hands: hands(),
        })
        .unwrap();
        assert_eq!(evaluate(&one, &cfg), -evaluate(&two, &cfg));
    }
}

#[test]
fn config_presets() {
    let expected = [
        (1u8, 3u8, false, 0usize, false, false, 2u8),
        (2, 3, false, 0, true, false, 3),
        (3, 4, true, 1, true, false, 4),
        (4, 4, true, 2, true, true, 4),
        (5, 5, true, 4, true, true, 5),
        (6, 6, true, 8, true, true, 6),
    ];
    for (level, depth, tt, mb, pst, killers, q) in expected {
        let c = AIConfig::from_level(level);
        assert_eq!(c.level, level);
        assert_eq!(c.max_depth, depth);
        assert_eq!(c.use_tt, tt);
        assert_eq!(c.tt_size_mb, mb);
        assert_eq!(c.use_pst, pst);
        assert_eq!(c.use_killers, killers);
        assert_eq!(c.qsearch_depth, q);
    }
}

#[test]
fn unknown_levels_take_the_third_preset() {
    for level in [0u8, 7, 100, 255] {
        let c = AIConfig::from_level(level);
        assert_eq!(c.level, 3);
        assert_eq!(c.max_depth, 4);
        assert!(c.use_tt);
        assert_eq!(c.tt_size_mb, 1);
        assert!(c.use_pst);
        assert!(!c.use_killers);
        assert_eq!(c.qsearch_depth, 4);
        assert_eq!(c.timeout_ms, 10000);
    }
    let d = AIConfig::default();
    assert_eq!(d.level, 3);
    assert_eq!(d.max_depth, 4);
}
