use wasm_ai::board::Board;
use wasm_ai::config::AIConfig;
use wasm_ai::eval::evaluate;
use wasm_ai::moves::{generate_moves, is_in_check};
use wasm_ai::ordering::piece_value;
use wasm_ai::search::{
    alpha_beta, find_best_move, order_moves, quiescence, search_root, SearchState, INFINITY,
    MATE_SCORE,
};
use wasm_ai::types::{EngineError, GameStateInput, Move, MoveOutput, Piece, PieceType, Position};

fn piece(kind: PieceType, player: u8) -> Option<Piece> {
    Some(Piece { piece_type: kind, player, promoted: false })
}

fn empty(n: usize) -> Vec<Vec<Option<Piece>>> {
    vec![vec![None; n]; n]
}

fn board(cells: Vec<Vec<Option<Piece>>>, player: u8) -> Board {
    Board::from_game_state(&GameStateInput { board: cells, current_player: player, hands: None })
        .unwrap()
}

fn at(row: usize, col: usize) -> Position {
    Position { row, col }
}

fn config(max_depth: u8, qsearch_depth: u8) -> AIConfig {
    AIConfig {
        level: 1,
        max_depth,
        use_tt: false,
        tt_size_mb: 0,
        use_pst: false,
        use_killers: false,
        qsearch_depth,
        timeout_ms: 5000,
    }
}

fn back_rank() -> Board {
    let mut cells = empty(9);
    cells[8][0] = piece(PieceType::ChessRook, 1);
    cells[8][4] = piece(PieceType::ChessKing, 1);
    cells[0][4] = piece(PieceType::ChessKing, 2);
    cells[1][3] = piece(PieceType::ChessPawn, 2);
    cells[1][4] = piece(PieceType::ChessPawn, 2);
    cells[1][5] = piece(PieceType::ChessPawn, 2);
    board(cells, 1)
}

fn hanging_queen() -> Board {
    let mut cells = empty(9);
    cells[4][4] = piece(PieceType::ChessQueen, 2);
    cells[4][0] = piece(PieceType::ChessRook, 1);
    cells[8][2] = piece(PieceType::ChessKing, 1);
    cells[0][6] = piece(PieceType::ChessKing, 2);
    cells[2][7] = piece(PieceType::ChessPawn, 2);
    cells[3][8] = piece(PieceType::ChessPawn, 1);
    board(cells, 2)
}

fn skirmish() -> Board {
    let mut cells = empty(9);
    cells[8][4] = piece(PieceType::ChessKing, 1);
    cells[6][4] = piece(PieceType::ChessPawn, 1);
    cells[5][2] = piece(PieceType::ChessKnight, 1);
    cells[7][7] = piece(PieceType::Gold, 1);
    cells[0][4] = piece(PieceType::King, 2);
    cells[3][3] = piece(PieceType::Pawn, 2);
    cells[2][6] = piece(PieceType::Silver, 2);
    cells[4][5] = piece(PieceType::Lance, 2);
    board(cells, 1)
}

/// The quiescence value, computed without any window.
fn plain_quiescence(b: &Board, player: u8, qdepth: u8, cfg: &AIConfig) -> i32 {
    let e = evaluate(b, cfg);
    let stand_pat = if player == b.current_player { e } else { -e };
    if qdepth >= cfg.qsearch_depth {
        return stand_pat;
    }
    let mut best = stand_pat;
    for m in generate_moves(b) {
        if b.get(m.to).is_none() {
            continue;
        }
        let mut next = b.clone();
        let mut made = m;
        next.make_move(&mut made).unwrap();
        let v = -plain_quiescence(&next, 3 - player, qdepth + 1, cfg);
        if v > best {
            best = v;
        }
    }
    best
}

/// The negamax value, computed without window, table or ordering.
fn plain_negamax(b: &Board, depth: u8, player: u8, ply: i32, cfg: &AIConfig) -> i32 {
    if depth == 0 {
        return plain_quiescence(b, player, 0, cfg);
    }
    let moves = generate_moves(b);
    if moves.is_empty() {
        return -MATE_SCORE + ply;
    }
    let mut best = i32::MIN;
    for m in moves {
        let mut next = b.clone();
        let mut made = m;
        next.make_move(&mut made).unwrap();
        let v = -plain_negamax(&next, depth - 1, 3 - player, ply + 1, cfg);
        if v > best {
            best = v;
        }
    }
    best
}

#[test]
fn no_legal_moves_is_an_error() {
    let mut cells = empty(9);
    cells[0][4] = piece(PieceType::King, 2);
    let b = board(cells, 1);
    assert_eq!(find_best_move(&b, 1, &AIConfig::from_level(1)), Err(EngineError::NoLegalMoves));
    assert_eq!(find_best_move(&b, 1, &AIConfig::from_level(4)), Err(EngineError::NoLegalMoves));
}

#[test]
fn back_rank_mate_in_one() {
    let b = back_rank();
    for cfg in [config(2, 2), config(3, 2), AIConfig::from_level(1), AIConfig::from_level(3)] {
        let m = find_best_move(&b, 1, &cfg).unwrap();
        assert_eq!(m.from, at(8, 0));
        assert_eq!(m.to, at(0, 0));
        assert_eq!(m.to.row, 0);
        let mut after = b.clone();
        let mut made = m;
        after.make_move(&mut made).unwrap();
        assert!(is_in_check(&after, 2));
        assert!(generate_moves(&after).is_empty());
    }
    let mut state = SearchState::new(&config(2, 2));
    let (score, best) = search_root(&b, 1, 2, &config(2, 2), &mut state);
    assert!(score >= MATE_SCORE - 100);
    assert_eq!(score, MATE_SCORE - 1);
    assert_eq!(best.unwrap().to, at(0, 0));
}

#[test]
fn hanging_queen_capture() {
    let b = hanging_queen();
    let m = find_best_move(&b, 2, &config(2, 2)).unwrap();
    assert_eq!(m.from, at(4, 4));
    assert_eq!(m.piece_type, PieceType::ChessQueen);
    // The queen is safe afterwards.
    let mut after = b.clone();
    let mut made = m;
    after.make_move(&mut made).unwrap();
    let queen_is_taken =
        generate_moves(&after).iter().any(|reply| reply.to == m.to);
    assert!(!queen_is_taken);
}

#[test]
fn the_returned_move_is_legal_at_every_level() {
    let b = skirmish();
    let legal = generate_moves(&b);
    for level in 1..=4u8 {
        let m = find_best_move(&b, 1, &AIConfig::from_level(level)).unwrap();
        assert!(legal.contains(&m));
    }
}

#[test]
fn zero_depth_returns_the_first_legal_move() {
    let b = skirmish();
    let m = find_best_move(&b, 1, &config(0, 2)).unwrap();
    assert_eq!(m, generate_moves(&b)[0]);
}

#[test]
fn search_is_repeatable() {
    let b = skirmish();
    for level in [1u8, 3] {
        let cfg = AIConfig::from_level(level);
        assert_eq!(find_best_move(&b, 1, &cfg), find_best_move(&b, 1, &cfg));
    }
}

#[test]
fn quiescence_is_the_plain_value_kept_in_the_window() {
    let cfg = config(2, 3);
    for (b, player) in [(skirmish(), 1u8), (hanging_queen(), 2), (back_rank(), 1)] {
        let exact = plain_quiescence(&b, player, 0, &cfg);
        let mut state = SearchState::new(&cfg);
        assert_eq!(quiescence(&b, -INFINITY, INFINITY, player, 0, &cfg, &mut state), exact);
        assert_eq!(quiescence(&b, exact - 50, exact + 50, player, 0, &cfg, &mut state), exact);
        assert_eq!(quiescence(&b, exact + 10, exact + 50, player, 0, &cfg, &mut state), exact + 10);
        assert_eq!(quiescence(&b, exact - 50, exact - 10, player, 0, &cfg, &mut state), exact - 10);
        // At the depth limit the value is the static score.
        let e = evaluate(&b, &cfg);
        assert_eq!(quiescence(&b, -INFINITY, INFINITY, player, 3, &cfg, &mut state), e);
    }
}

#[test]
fn quiescence_follows_captures() {
    // The rook takes the undefended queen: the quiet score counts it as won.
    let mut cells = empty(9);
    cells[4][0] = piece(PieceType::ChessRook, 1);
    cells[4][4] = piece(PieceType::ChessQueen, 2);
    let b = board(cells, 1);
    let cfg = config(1, 2);
    let mut state = SearchState::new(&cfg);
    assert_eq!(evaluate(&b, &cfg), 500 - 950);
    assert_eq!(quiescence(&b, -INFINITY, INFINITY, 1, 0, &cfg, &mut state), 500 + 475);
}

#[test]
fn alpha_beta_equals_plain_negamax() {
    for (b, player) in [(skirmish(), 1u8), (hanging_queen(), 2), (back_rank(), 1)] {
        for depth in 0..=2u8 {
            for killers in [false, true] {
                let mut cfg = config(depth, 2);
                cfg.use_killers = killers;
                let expected = plain_negamax(&b, depth, player, 0, &cfg);
                let mut state = SearchState::new(&cfg);
                let got = alpha_beta(&b, depth, -INFINITY, INFINITY, player, 0, &cfg, &mut state);
                assert_eq!(got, expected);
            }
        }
    }
}

#[test]
fn a_narrow_window_gives_a_bound_on_the_right_side() {
    let b = skirmish();
    let cfg = config(2, 2);
    let exact = plain_negamax(&b, 2, 1, 0, &cfg);
    let mut state = SearchState::new(&cfg);
    let low = alpha_beta(&b, 2, exact + 10, exact + 20, 1, 0, &cfg, &mut state);
    assert!(low <= exact + 10);
    assert!(exact <= low);
    let high = alpha_beta(&b, 2, exact - 20, exact - 10, 1, 0, &cfg, &mut state);
    assert!(high >= exact - 10);
    assert!(exact >= high);
    let inside = alpha_beta(&b, 2, exact - 1, exact + 1, 1, 0, &cfg, &mut state);
    assert_eq!(inside, exact);
}

#[test]
fn the_side_without_moves_is_mated_by_ply() {
    let mut cells = empty(9);
    cells[0][4] = piece(PieceType::King, 2);
    let b = board(cells, 1);
    let cfg = config(3, 2);
    let mut state = SearchState::new(&cfg);
    assert_eq!(alpha_beta(&b, 2, -INFINITY, INFINITY, 1, 0, &cfg, &mut state), -MATE_SCORE);
    assert_eq!(alpha_beta(&b, 2, -INFINITY, INFINITY, 1, 5, &cfg, &mut state), -MATE_SCORE + 5);
    assert_eq!(search_root(&b, 1, 2, &cfg, &mut state), (-MATE_SCORE, None));
}

#[test]
fn root_search_equals_plain_negamax() {
    for (b, player) in [(skirmish(), 1u8), (hanging_queen(), 2)] {
        for depth in 1..=2u8 {
            let cfg = config(depth, 2);
            let mut state = SearchState::new(&cfg);
            let (score, best) = search_root(&b, player, depth, &cfg, &mut state);
            assert_eq!(score, plain_negamax(&b, depth, player, 0, &cfg));
            let m = best.unwrap();
            let mut next = b.clone();
            let mut made = m;
            next.make_move(&mut made).unwrap();
            assert_eq!(-plain_negamax(&next, depth - 1, 3 - player, 1, &cfg), score);
        }
    }
}

#[test]
fn iterative_deepening_monotonicity() {
    let b = back_rank();
    let cfg = config(4, 2);
    let mut shared = SearchState::new(&cfg);
    let mut scores: Vec<i32> = Vec::new();
    for depth in 1..=4u8 {
        let (score, best) = search_root(&b, 1, depth, &cfg, &mut shared);
        let mut fresh = SearchState::new(&cfg);
        let (alone, alone_best) = search_root(&b, 1, depth, &cfg, &mut fresh);
        assert_eq!(score, alone);
        assert_eq!(best, alone_best);
        scores.push(score);
    }
    // The mate is seen from depth 2 on, and the score keeps its sign.
    assert!(scores[0] > 0);
    for depth in 2..=4usize {
        assert_eq!(scores[depth - 1], MATE_SCORE - 1);
    }
}

#[test]
fn the_table_does_not_change_the_choice_in_a_forced_position() {
    let b = back_rank();
    let with_table = find_best_move(&b, 1, &AIConfig::from_level(4)).unwrap();
    let without = find_best_move(&b, 1, &AIConfig::from_level(2)).unwrap();
    assert_eq!(with_table.to, at(0, 0));
    assert_eq!(without.to, at(0, 0));
}

#[test]
fn victim_values() {
    let expected = [
        (PieceType::King, 20000),
        (PieceType::ChessKing, 20000),
        (PieceType::ChessQueen, 950),
        (PieceType::Rook, 500),
        (PieceType::ChessRook, 500),
        (PieceType::Bishop, 330),
        (PieceType::ChessBishop, 330),
        (PieceType::Gold, 600),
        (PieceType::Silver, 500),
        (PieceType::Knight, 320),
        (PieceType::ChessKnight, 320),
        (PieceType::Lance, 300),
        (PieceType::Pawn, 100),
        (PieceType::ChessPawn, 100),
    ];
    for (kind, v) in expected {
        assert_eq!(piece_value(&kind), v);
    }
}

#[test]
fn ordering_puts_table_move_then_captures_by_victim_first() {
    let mut cells = empty(9);
    cells[4][4] = piece(PieceType::ChessQueen, 1);
    cells[4][7] = piece(PieceType::Pawn, 2);
    cells[1][4] = piece(PieceType::Gold, 2);
    cells[7][7] = piece(PieceType::Rook, 2);
    let b = board(cells, 1);
    let cfg = config(2, 2);
    let state = SearchState::new(&cfg);
    let generated = generate_moves(&b);

    let mut moves = generated.clone();
    order_moves(&b, &mut moves, None, 0, &cfg, &state);
    assert_eq!(moves.len(), generated.len());
    assert_eq!(moves[0].to, at(1, 4));
    assert_eq!(moves[1].to, at(7, 7));
    assert_eq!(moves[2].to, at(4, 7));
    // The quiet moves keep the order in which they were generated.
    let quiet: Vec<Move> =
        generated.iter().filter(|m| b.get(m.to).is_none()).cloned().collect();
    assert_eq!(&moves[3..], &quiet[..]);

    // The table's move comes first of all, even if it is quiet.
    let table_move = quiet[5];
    let mut moves = generated.clone();
    order_moves(&b, &mut moves, Some(&table_move), 0, &cfg, &state);
    assert_eq!(moves[0], table_move);
    assert_eq!(moves[1].to, at(1, 4));
    assert_eq!(moves[2].to, at(7, 7));
    assert_eq!(moves[3].to, at(4, 7));
}

#[test]
fn ordering_prefers_promotions_among_quiet_moves() {
    let mut cells = empty(9);
    cells[8][0] = piece(PieceType::Gold, 1);
    cells[4][4] = piece(PieceType::Silver, 1);
    let b = board(cells, 1);
    let cfg = config(2, 2);
    let state = SearchState::new(&cfg);
    let mut moves = generate_moves(&b);
    let n = moves.len();
    assert!(n >= 6);
    moves[n - 1].promotion = true;
    moves[2].promotion = true;
    let given = moves.clone();
    order_moves(&b, &mut moves, None, 0, &cfg, &state);
    let promotions_first: Vec<Move> = given
        .iter()
        .filter(|m| m.promotion)
        .chain(given.iter().filter(|m| !m.promotion))
        .cloned()
        .collect();
    assert_eq!(moves, promotions_first);
    assert_eq!(moves[0], given[2]);
    assert_eq!(moves[1], given[n - 1]);
}

#[test]
fn killer_moves_are_kept_and_ordered_before_other_quiet_moves() {
    let mut cfg = config(3, 2);
    cfg.use_killers = true;
    let mut state = SearchState::new(&cfg);
    for ply in 0..70 {
        assert_eq!(state.killers(ply), (None, None));
    }
    let _ = search_root(&skirmish(), 1, 3, &cfg, &mut state);
    // The root keeps no killer moves; some ply below it does.
    assert_eq!(state.killers(0), (None, None));
    let ply = (1..64).find(|p| state.killers(*p).0.is_some()).unwrap();
    let (first, second) = state.killers(ply);
    let first = first.unwrap();
    // On an empty board no move captures, so only the killers stand out.
    let b = board(empty(9), 1);
    let quiet = |row: usize| Move {
        from: at(row, 8),
        to: at(row, 7),
        piece_type: PieceType::Gold,
        promoted: false,
        promotion: false,
        captured: None,
        is_castling: false,
        old_castling_rights: None,
    };
    let mut promotion = quiet(2);
    promotion.promotion = true;
    let mut moves = vec![quiet(0), promotion, quiet(1), first];
    if let Some(k) = second {
        assert!(!k.same(&first));
        moves.push(k);
    }
    order_moves(&b, &mut moves, None, ply, &cfg, &state);
    assert_eq!(moves[0], first);
    let mut next = 1;
    if let Some(k) = second {
        assert_eq!(moves[1], k);
        next = 2;
    }
    assert_eq!(&moves[next..], &[promotion, quiet(0), quiet(1)]);
    // With killer moves switched off they count for nothing.
    cfg.use_killers = false;
    let mut moves = vec![quiet(0), first];
    order_moves(&b, &mut moves, None, ply, &cfg, &state);
    assert_eq!(moves, vec![quiet(0), first]);
}

#[test]
fn without_killer_moves_none_are_kept() {
    let cfg = config(3, 2);
    let mut state = SearchState::new(&cfg);
    let _ = search_root(&skirmish(), 1, 3, &cfg, &mut state);
    for ply in 0..64 {
        assert_eq!(state.killers(ply), (None, None));
    }
}

#[test]
fn move_output_keeps_what_is_reported() {
    let m = Move {
        from: at(6, 4),
        to: at(5, 4),
        piece_type: PieceType::ChessPawn,
        promoted: false,
        promotion: true,
        captured: Some(PieceType::Gold),
        is_castling: false,
        old_castling_rights: None,
    };
    let out = MoveOutput::from_move(&m);
    assert_eq!(out.from, at(6, 4));
    assert_eq!(out.to, at(5, 4));
    assert_eq!(out.piece_type, PieceType::ChessPawn);
    assert!(!out.promoted);
    assert!(out.promotion);
}

#[test]
fn same_candidate_ignores_capture_and_saved_rights() {
    let a = Move {
        from: at(6, 4),
        to: at(5, 4),
        piece_type: PieceType::ChessPawn,
        promoted: false,
        promotion: false,
        captured: None,
        is_castling: false,
        old_castling_rights: None,
    };
    let mut b = a;
    b.captured = Some(PieceType::Pawn);
    b.old_castling_rights = Some(Default::default());
    assert!(a.same(&b));
    let mut c = a;
    c.to = at(4, 4);
    assert!(!a.same(&c));
    let mut d = a;
    d.promotion = true;
    assert!(!a.same(&d));
}
