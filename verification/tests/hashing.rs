use chess_core::chess::{recompute_hash, Piece, PieceColor, PieceType, State};
use chess_core::fen::state_from_fen;
use chess_core::legality::get_all_valid_moves;
use chess_core::moves::make_move_on;

fn load(fen: &str) -> State {
    let mut s = State::new();
    state_from_fen(fen, &mut s).expect("valid FEN");
    s
}

#[test]
fn hash_matches_rescan_after_each_mutator() {
    let mut s = State::new();
    assert_eq!(s.zob_hash, recompute_hash(&s));
    s.set_piece(12, Piece { color: PieceColor::White, tp: PieceType::Rook });
    assert_eq!(s.zob_hash, recompute_hash(&s));
    s.set_piece(20, Piece { color: PieceColor::Black, tp: PieceType::Queen });
    assert_eq!(s.zob_hash, recompute_hash(&s));
    s.switch_turn();
    assert_eq!(s.zob_hash, recompute_hash(&s));
    s.set_castle(5);
    assert_eq!(s.zob_hash, recompute_hash(&s));
    s.set_en_passant(2, 3);
    assert_eq!(s.zob_hash, recompute_hash(&s));
    s.set_en_passant(8, 8);
    assert_eq!(s.zob_hash, recompute_hash(&s));
    s.remove_piece(12);
    assert_eq!(s.zob_hash, recompute_hash(&s));
    s.remove_piece(12); // removing an empty square is a no-op
    assert_eq!(s.zob_hash, recompute_hash(&s));
}

#[test]
fn hash_matches_rescan_after_parse() {
    let s = load("rnbqkbnr/ppp1pppp/8/3pP3/8/8/PPPP1PPP/RNBQKBNR w KQkq d6 0 3");
    assert_eq!(s.zob_hash, recompute_hash(&s));
}

#[test]
fn hash_matches_rescan_after_every_legal_move() {
    // Covers captures, castling, en passant and promotion side effects.
    let fens = [
        "rnbqkbnr/pppppppp/8/8/8/8/PPPPPPPP/RNBQKBNR w KQkq - 0 1",
        "r3k2r/8/8/8/8/8/8/R3K2R w KQkq - 0 1",
        "rnbqkbnr/ppp1pppp/8/3pP3/8/8/PPPP1PPP/RNBQKBNR w KQkq d6 0 3",
        "8/P7/8/8/8/8/8/k6K w - - 0 1",
        "r1bqkbnr/pppp1ppp/2n5/4p3/4P3/5N2/PPPP1PPP/RNBQKB1R w KQkq - 2 3",
    ];
    for fen in fens.iter() {
        let s = load(fen);
        for &(from, to) in get_all_valid_moves(&s).iter() {
            let mut t = s.clone();
            make_move_on(from, to, &mut t);
            assert_eq!(t.zob_hash, recompute_hash(&t), "{} after {}->{}", fen, from, to);
        }
    }
}

#[test]
fn hash_distinguishes_positions() {
    let a = load("rnbqkbnr/pppppppp/8/8/8/8/PPPPPPPP/RNBQKBNR w KQkq - 0 1");
    let b = load("rnbqkbnr/pppppppp/8/8/8/8/PPPPPPPP/RNBQKBNR b KQkq - 0 1");
    let c = load("rnbqkbnr/pppppppp/8/8/8/8/PPPPPPPP/RNBQKBNR w Qkq - 0 1");
    assert_ne!(a.zob_hash, b.zob_hash);
    assert_ne!(a.zob_hash, c.zob_hash);
    assert_ne!(b.zob_hash, c.zob_hash);
}
