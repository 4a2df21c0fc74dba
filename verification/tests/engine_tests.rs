use wasm_ai::engine::Engine;
use wasm_ai::types::{EngineError, GameStateInput, HandPieces, Piece, PieceType, Position};

fn piece(kind: PieceType, player: u8) -> Option<Piece> {
    Some(Piece { piece_type: kind, player, promoted: false })
}

fn empty(n: usize) -> Vec<Vec<Option<Piece>>> {
    vec![vec![None; n]; n]
}

fn back_rank() -> GameStateInput {
    let mut cells = empty(9);
    cells[8][0] = piece(PieceType::ChessRook, 1);
    cells[8][4] = piece(PieceType::ChessKing, 1);
    cells[0][4] = piece(PieceType::ChessKing, 2);
    cells[1][3] = piece(PieceType::ChessPawn, 2);
    cells[1][4] = piece(PieceType::ChessPawn, 2);
    cells[1][5] = piece(PieceType::ChessPawn, 2);
    GameStateInput { board: cells, current_player: 1, hands: None }
}

#[test]
fn levels_and_depths() {
    let mut e = Engine::new(5);
    assert_eq!(e.get_level(), 5);
    assert_eq!(e.get_depth(), 5);
    e.set_level(2);
    assert_eq!(e.get_level(), 2);
    assert_eq!(e.get_depth(), 3);
    e.set_level(9);
    assert_eq!(e.get_level(), 3);
    assert_eq!(e.get_depth(), 4);
    assert_eq!(Engine::new(0).get_level(), 3);
}

#[test]
fn depth_is_kept_between_one_and_eight() {
    let mut e = Engine::new(1);
    e.set_depth(0);
    assert_eq!(e.get_depth(), 1);
    e.set_depth(1);
    assert_eq!(e.get_depth(), 1);
    e.set_depth(6);
    assert_eq!(e.get_depth(), 6);
    e.set_depth(8);
    assert_eq!(e.get_depth(), 8);
    e.set_depth(9);
    assert_eq!(e.get_depth(), 8);
    e.set_depth(255);
    assert_eq!(e.get_depth(), 8);
    assert_eq!(e.get_level(), 1);
}

#[test]
fn the_engine_finds_the_mate() {
    for level in 1..=4u8 {
        let out = Engine::new(level).best_move(&back_rank()).unwrap();
        assert_eq!(out.from, Position { row: 8, col: 0 });
        assert_eq!(out.to, Position { row: 0, col: 0 });
        assert_eq!(out.piece_type, PieceType::ChessRook);
        assert!(!out.promoted);
        assert!(!out.promotion);
    }
}

#[test]
fn the_engine_refuses_bad_input() {
    let e = Engine::new(1);
    let none = GameStateInput { board: vec![], current_player: 1, hands: None };
    assert_eq!(e.best_move(&none).err(), Some(EngineError::InvalidBoardDimensions));
    let oblong =
        GameStateInput { board: vec![vec![None; 2]; 3], current_player: 1, hands: None };
    assert_eq!(e.best_move(&oblong).err(), Some(EngineError::InvalidBoardDimensions));
    let nobody = GameStateInput { board: empty(9), current_player: 0, hands: None };
    assert_eq!(e.best_move(&nobody).err(), Some(EngineError::InvalidPlayer));
}

#[test]
fn the_engine_reports_a_side_without_moves() {
    let mut cells = empty(9);
    cells[0][4] = piece(PieceType::King, 2);
    let state = GameStateInput { board: cells, current_player: 1, hands: None };
    assert_eq!(Engine::new(3).best_move(&state).err(), Some(EngineError::NoLegalMoves));
}

#[test]
fn the_engine_refuses_what_it_cannot_search() {
    let e = Engine::new(1);
    let mut cells = empty(10);
    cells[9][4] = piece(PieceType::ChessKing, 1);
    let wide = GameStateInput { board: cells, current_player: 1, hands: None };
    assert_eq!(e.best_move(&wide).err(), Some(EngineError::PositionTooLarge));
    let mut cells = empty(9);
    cells[8][4] = piece(PieceType::ChessKing, 1);
    let full = GameStateInput {
        board: cells.clone(),
        current_player: 1,
        hands: Some(HandPieces { player1: vec![PieceType::Pawn; 43000], player2: vec![] }),
    };
    assert_eq!(e.best_move(&full).err(), Some(EngineError::PositionTooLarge));
    let fine = GameStateInput {
        board: cells,
        current_player: 1,
        hands: Some(HandPieces { player1: vec![PieceType::Pawn; 40000], player2: vec![] }),
    };
    assert!(e.best_move(&fine).is_ok());
    assert_eq!(EngineError::PositionTooLarge.message(), "Position too large to search");
}

#[test]
fn a_smaller_board_is_searched_too() {
    let mut cells = empty(5);
    cells[4][2] = piece(PieceType::King, 1);
    cells[0][2] = piece(PieceType::King, 2);
    cells[2][2] = piece(PieceType::Pawn, 2);
    cells[3][1] = piece(PieceType::Gold, 1);
    let state = GameStateInput { board: cells, current_player: 1, hands: None };
    let out = Engine::new(2).best_move(&state).unwrap();
    assert_eq!(out.to, Position { row: 2, col: 2 });
}

fn start() -> GameStateInput {
    let mut cells = empty(9);
    let back = [
        PieceType::ChessRook,
        PieceType::ChessKnight,
        PieceType::ChessBishop,
        PieceType::ChessQueen,
        PieceType::ChessKing,
        PieceType::ChessBishop,
        PieceType::ChessKnight,
        PieceType::ChessRook,
    ];
    for (col, kind) in back.iter().enumerate() {
        cells[8][col] = piece(*kind, 1);
    }
    for col in 0..9 {
        cells[6][col] = piece(PieceType::ChessPawn, 1);
        cells[2][col] = piece(PieceType::Pawn, 2);
    }
    let top = [
        PieceType::Lance,
        PieceType::Knight,
        PieceType::Silver,
        PieceType::Gold,
        PieceType::King,
        PieceType::Gold,
        PieceType::Silver,
        PieceType::Knight,
        PieceType::Lance,
    ];
    for (col, kind) in top.iter().enumerate() {
        cells[0][col] = piece(*kind, 2);
    }
    cells[1][1] = piece(PieceType::Rook, 2);
    cells[1][7] = piece(PieceType::Bishop, 2);
    GameStateInput { board: cells, current_player: 1, hands: None }
}

#[test]
fn a_full_board_is_searched_for_both_sides() {
    for level in 1..=3u8 {
        let mut state = start();
        let out = Engine::new(level).best_move(&state).unwrap();
        let mover = state.board[out.from.row][out.from.col].unwrap();
        assert_eq!(mover.player, 1);
        assert_eq!(mover.piece_type, out.piece_type);
        state.current_player = 2;
        let out = Engine::new(level).best_move(&state).unwrap();
        let mover = state.board[out.from.row][out.from.col].unwrap();
        assert_eq!(mover.player, 2);
        assert_eq!(mover.piece_type, out.piece_type);
    }
}
