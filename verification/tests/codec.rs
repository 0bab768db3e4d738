use chess_core::chess::State;
use chess_core::fen::{emit_fen, state_from_fen};

fn load_ok(fen: &str) -> State {
    let mut s = State::new();
    state_from_fen(fen, &mut s).expect("valid FEN");
    s
}

#[test]
fn fen_round_trip_italian_opening() {
    let fen = "r1bqkbnr/pppp1ppp/2n5/4p3/4P3/5N2/PPPP1PPP/RNBQKB1R w KQkq - 2 3";
    let s = load_ok(fen);
    assert_eq!(emit_fen(&s), fen.as_bytes().to_vec());
}

#[test]
fn fen_round_trip_more_positions() {
    let fens = [
        "rnbqkbnr/pppppppp/8/8/8/8/PPPPPPPP/RNBQKBNR w KQkq - 0 1",
        "r3k2r/8/8/8/8/8/8/R3K2R w KQkq - 0 1",
        "rnbqkbnr/ppp1pppp/8/3pP3/8/8/PPPP1PPP/RNBQKBNR w KQkq d6 0 3",
        "8/P7/8/8/8/8/8/k6K w - - 0 1",
        "k7/8/1K6/2Q5/8/8/8/8 b - - 0 1",
        "8/8/8/8/8/8/8/8 w - - 100 4294967295",
        "4k3/8/8/8/8/8/8/4K2R w K - 7 42",
    ];
    for fen in fens.iter() {
        let s = load_ok(fen);
        assert_eq!(emit_fen(&s), fen.as_bytes().to_vec(), "round trip of {}", fen);
    }
}

#[test]
fn fen_noncanonical_castling_order_is_reordered() {
    // "qkQK" parses to the same mask as "KQkq" and emits canonically.
    let s = load_ok("r3k2r/8/8/8/8/8/8/R3K2R w qkQK - 0 1");
    assert_eq!(emit_fen(&s), b"r3k2r/8/8/8/8/8/8/R3K2R w KQkq - 0 1".to_vec());
}

#[test]
fn fen_rejects_malformed_records() {
    let bad = [
        "",
        "   ",
        "rnbqkbnr/pppppppp/8/8/8/8/PPPPPPPP/RNBQKBNR w KQkq - 0", // five fields
        "rnbqkbnr/pppppppp/8/8/8/8/PPPPPPPP/RNBQKBNR w KQkq - 0 1 extra", // seven fields
        "rnbqkbnr/pppppppp/8/8/8/8/PPPPPPPP/RNBQKBNX w KQkq - 0 1", // bad piece letter
        "rnbqkbnr/ppppppp/8/8/8/8/PPPPPPPP/RNBQKBNR w KQkq - 0 1", // rank with 7 files
        "rnbqkbnr/pppppppp/8/8/8/8/PPPPPPPP/RNBQKBNR/8 w KQkq - 0 1", // nine ranks
        "rnbqkbnr/pppppppp/8/8/8/8/PPPPPPPP/RNBQKBNR x KQkq - 0 1", // bad side letter
        "rnbqkbnr/pppppppp/8/8/8/8/PPPPPPPP/RNBQKBNR w KQxq - 0 1", // bad castling letter
        "rnbqkbnr/pppppppp/8/8/8/8/PPPPPPPP/RNBQKBNR w - d9 0 1", // bad en-passant rank
        "rnbqkbnr/pppppppp/8/8/8/8/PPPPPPPP/RNBQKBNR w - d0 0 1", // bad en-passant rank
        "rnbqkbnr/pppppppp/8/8/8/8/PPPPPPPP/RNBQKBNR w - z3 0 1", // file beyond h
        "rnbqkbnr/pppppppp/8/8/8/8/PPPPPPPP/RNBQKBNR w - D6 0 1", // uppercase file
        "rnbqkbnr/pppppppp/8/8/8/8/PPPPPPPP/RNBQKBNR w KQkq - x 1", // non-numeric clock
        "rnbqkbnr/pppppppp/8/8/8/8/PPPPPPPP/RNBQKBNR w KQkq - 0 x", // non-numeric clock
        "rnbqkbnr/pppppppp/8/8/8/8/PPPPPPPP/RNBQKBNR w KQkq - 101 1", // clock over 100
        "rnbqkbnr/pppppppp/8/8/8/8/PPPPPPPP/RNBQKBNR w KQkq - 0 4294967296", // clock overflow
        "9/8/8/8/8/8/8/8 w - - 0 1", // digit past the rank
    ];
    for fen in bad.iter() {
        let mut s = State::new();
        let before = emit_fen(&s);
        assert!(state_from_fen(fen, &mut s).is_err(), "accepted {:?}", fen);
        assert_eq!(emit_fen(&s), before, "state changed by {:?}", fen);
    }
}

#[test]
fn fen_parse_tolerates_extra_whitespace() {
    let mut s = State::new();
    assert!(
        state_from_fen("  rnbqkbnr/pppppppp/8/8/8/8/PPPPPPPP/RNBQKBNR \t w  KQkq -  0   1 ", &mut s)
            .is_ok()
    );
    assert_eq!(
        emit_fen(&s),
        b"rnbqkbnr/pppppppp/8/8/8/8/PPPPPPPP/RNBQKBNR w KQkq - 0 1".to_vec()
    );
}

#[test]
fn fen_failure_keeps_previous_position() {
    let mut s = load_ok("r3k2r/8/8/8/8/8/8/R3K2R w KQkq - 0 1");
    let before = emit_fen(&s);
    assert!(state_from_fen("garbage", &mut s).is_err());
    assert_eq!(emit_fen(&s), before);
}

#[test]
fn fen_parse_keeps_promotion_preference() {
    let mut s = State::new();
    s.set_promotion(chess_core::chess::PieceType::Bishop);
    state_from_fen("8/P7/8/8/8/8/8/k6K w - - 0 1", &mut s).expect("valid FEN");
    assert!(s.promotion == chess_core::chess::PieceType::Bishop);
}
