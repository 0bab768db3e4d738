use chess_core::chess::{PieceColor, PieceType, State};
use chess_core::fen::{emit_fen, state_from_fen};
use chess_core::legality::{get_valid_moves_for, in_check_state};
use chess_core::moves::make_move_on;
use chess_core::score::evaluate;

fn load(fen: &str) -> State {
    let mut s = State::new();
    state_from_fen(fen, &mut s).expect("valid FEN");
    s
}

#[test]
fn starting_position_knight_moves() {
    let s = load("rnbqkbnr/pppppppp/8/8/8/8/PPPPPPPP/RNBQKBNR w KQkq - 0 1");
    // White knight on b1 (index 57) may go to a3 (40) and c3 (42).
    let moves = get_valid_moves_for(57, &s);
    assert_eq!(moves, vec![40, 42]);
    assert!(!in_check_state(&s));
    assert_eq!(evaluate(s.board, s.turn), 0);
}

#[test]
fn starting_position_wrong_color_square_is_empty() {
    let s = load("rnbqkbnr/pppppppp/8/8/8/8/PPPPPPPP/RNBQKBNR w KQkq - 0 1");
    // Black knight on b8 (index 1): not the side to move.
    assert_eq!(get_valid_moves_for(1, &s), Vec::<usize>::new());
    // Empty square.
    assert_eq!(get_valid_moves_for(30, &s), Vec::<usize>::new());
    // Off the board.
    assert_eq!(get_valid_moves_for(64, &s), Vec::<usize>::new());
}

#[test]
fn castling_available_and_executed() {
    let mut s = load("r3k2r/8/8/8/8/8/8/R3K2R w KQkq - 0 1");
    let moves = get_valid_moves_for(60, &s);
    assert!(moves.contains(&62));
    assert!(moves.contains(&58));
    make_move_on(60, 62, &mut s);
    // The rook moved from h1 (63) to f1 (61); White rights are gone.
    assert_eq!(
        s.board[61],
        Some(chess_core::chess::Piece { color: PieceColor::White, tp: PieceType::Rook })
    );
    assert_eq!(s.board[63], None);
    assert_eq!(s.castling, 12);
    assert!(s.turn == PieceColor::Black);
    assert_eq!(emit_fen(&s), b"r3k2r/8/8/8/8/8/8/R4RK1 b kq - 0 1".to_vec());
}

#[test]
fn en_passant_capture() {
    let mut s = load("rnbqkbnr/ppp1pppp/8/3pP3/8/8/PPPP1PPP/RNBQKBNR w KQkq d6 0 3");
    assert_eq!(s.en_passant, (2, 3));
    // White pawn on e5 (28) may capture en passant on d6 (19).
    let moves = get_valid_moves_for(28, &s);
    assert!(moves.contains(&19));
    make_move_on(28, 19, &mut s);
    assert_eq!(s.board[27], None); // captured Black pawn left d5
    assert_eq!(s.board[28], None); // e5 now empty
    assert_eq!(
        s.board[19],
        Some(chess_core::chess::Piece { color: PieceColor::White, tp: PieceType::Pawn })
    );
}

#[test]
fn promotion_to_knight() {
    let mut s = load("8/P7/8/8/8/8/8/k6K w - - 0 1");
    s.set_promotion(PieceType::Knight);
    make_move_on(8, 0, &mut s);
    assert_eq!(
        s.board[0],
        Some(chess_core::chess::Piece { color: PieceColor::White, tp: PieceType::Knight })
    );
    for i in 0..64 {
        if let Some(p) = s.board[i] {
            assert!(p.tp != PieceType::Pawn);
        }
    }
}

#[test]
fn promotion_default_is_queen() {
    let mut s = load("8/P7/8/8/8/8/8/k6K w - - 0 1");
    make_move_on(8, 0, &mut s);
    assert_eq!(
        s.board[0],
        Some(chess_core::chess::Piece { color: PieceColor::White, tp: PieceType::Queen })
    );
}

#[test]
fn set_promotion_ignores_pawn_and_king() {
    let mut s = State::new();
    s.set_promotion(PieceType::Rook);
    assert!(s.promotion == PieceType::Rook);
    s.set_promotion(PieceType::King);
    assert!(s.promotion == PieceType::Rook);
    s.set_promotion(PieceType::Pawn);
    assert!(s.promotion == PieceType::Rook);
}

#[test]
fn invalid_requests_are_silent_noops() {
    let mut s = load("rnbqkbnr/pppppppp/8/8/8/8/PPPPPPPP/RNBQKBNR w KQkq - 0 1");
    let before = emit_fen(&s);
    make_move_on(12, 12, &mut s); // from == to
    make_move_on(30, 40, &mut s); // empty source
    make_move_on(1, 18, &mut s); // opposing piece
    make_move_on(64, 0, &mut s); // off the board
    make_move_on(0, 64, &mut s); // off the board
    assert_eq!(emit_fen(&s), before);
}

#[test]
fn legal_moves_exclude_self_check() {
    // The White rook on e2 is pinned by the Black rook on e8.
    let s = load("4r2k/8/8/8/8/8/4R3/4K3 w - - 0 1");
    let moves = get_valid_moves_for(52, &s);
    // It may move along the e-file but never leave it.
    for &to in moves.iter() {
        assert_eq!(to % 8, 4);
    }
    assert!(moves.contains(&44));
    assert!(moves.contains(&12)); // capturing the pinning rook is fine
}

#[test]
fn all_moves_from_starting_position() {
    let s = load("rnbqkbnr/pppppppp/8/8/8/8/PPPPPPPP/RNBQKBNR w KQkq - 0 1");
    // Sixteen pawn moves and four knight moves, none of them illegal.
    let raw = chess_core::legality::get_all_valid_moves_raw(&s);
    let legal = chess_core::legality::get_all_valid_moves(&s);
    assert_eq!(raw.len(), 20);
    assert_eq!(raw, legal);
}

#[test]
fn evaluator_symmetry_on_concrete_positions() {
    let fens = [
        "rnbqkbnr/pppppppp/8/8/8/8/PPPPPPPP/RNBQKBNR w KQkq - 0 1",
        "r3k2r/8/8/8/8/8/8/R3K2R w KQkq - 0 1",
        "8/P7/8/8/8/8/8/k6K w - - 0 1",
    ];
    for fen in fens.iter() {
        let s = load(fen);
        assert_eq!(
            evaluate(s.board, PieceColor::White),
            -evaluate(s.board, PieceColor::Black)
        );
    }
}

#[test]
fn evaluator_exact_values() {
    let s = load("8/8/8/8/8/8/8/K7 w - - 0 1");
    // King value 1000000 plus the a1 entry (20) of the king table.
    assert_eq!(evaluate(s.board, PieceColor::White), 1000020);
    let t = load("k7/8/8/8/8/8/8/8 b - - 0 1");
    // Black king on a8 mirrors to a1: -(1000000 + 20), negated for Black.
    assert_eq!(evaluate(t.board, PieceColor::Black), 1000020);
}
