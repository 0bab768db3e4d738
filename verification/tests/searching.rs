use chess_core::chess::State;
use chess_core::fen::state_from_fen;
use chess_core::legality::{get_all_valid_moves, in_check_state};
use chess_core::score::evaluate;
use chess_core::search::{alpha_beta, find_move, nega_max};

fn load(fen: &str) -> State {
    let mut s = State::new();
    state_from_fen(fen, &mut s).expect("valid FEN");
    s
}

#[test]
fn search_depth_zero_is_static_eval() {
    let fens = [
        "rnbqkbnr/pppppppp/8/8/8/8/PPPPPPPP/RNBQKBNR w KQkq - 0 1",
        "r1bqkbnr/pppp1ppp/2n5/4p3/4P3/5N2/PPPP1PPP/RNBQKB1R w KQkq - 2 3",
        "k7/8/1K6/2Q5/8/8/8/8 b - - 0 1",
    ];
    for fen in fens.iter() {
        let s = load(fen);
        let (mv, score) = find_move(&s, 0);
        assert_eq!(mv, (64, 64));
        assert_eq!(score, evaluate(s.board, s.turn));
        assert_eq!(nega_max(&s, 0), evaluate(s.board, s.turn));
        assert_eq!(alpha_beta(&s, i32::MIN + 1, i32::MAX, 0), evaluate(s.board, s.turn));
    }
}

#[test]
fn checkmate_detected_at_root() {
    // Black to move, mated in the corner: no legal move and in check.
    let s = load("k7/1Q6/1K6/8/8/8/8/8 b - - 0 1");
    assert!(in_check_state(&s));
    assert!(get_all_valid_moves(&s).is_empty());
    let (mv, score) = find_move(&s, 1);
    assert_eq!(mv, (64, 64));
    assert_eq!(score, i32::MIN + 2);
}

#[test]
fn stalemate_scores_zero() {
    // Black to move, not in check, no legal move.
    let s = load("k7/2Q5/1K6/8/8/8/8/8 b - - 0 1");
    assert!(!in_check_state(&s));
    assert!(get_all_valid_moves(&s).is_empty());
    let (mv, score) = find_move(&s, 1);
    assert_eq!(mv, (64, 64));
    assert_eq!(score, 0);
}

#[test]
fn search_returns_a_legal_move() {
    let s = load("6k1/5ppp/8/8/8/8/5PPP/R5K1 b - - 0 1");
    let legal = get_all_valid_moves(&s);
    assert!(!legal.is_empty());
    let (mv, score) = find_move(&s, 2);
    assert!(legal.contains(&mv), "{:?} not in {:?}", mv, legal);
    assert!(score > i32::MIN);
}

#[test]
fn pruned_search_agrees_with_plain_negamax() {
    let fens = [
        "r1bqkbnr/pppp1ppp/2n5/4p3/4P3/5N2/PPPP1PPP/RNBQKB1R w KQkq - 2 3",
        "r3k2r/8/8/8/8/8/8/R3K2R w KQkq - 0 1",
        "8/P7/8/8/8/8/8/k6K w - - 0 1",
    ];
    for fen in fens.iter() {
        let s = load(fen);
        let plain = nega_max(&s, 2);
        assert_eq!(find_move(&s, 2).1, plain, "on {}", fen);
        assert_eq!(alpha_beta(&s, i32::MIN + 1, i32::MAX, 2), plain, "on {}", fen);
    }
}

#[test]
fn search_takes_the_hanging_queen() {
    // White rook on a1 can capture the undefended queen on a8.
    let s = load("q3k3/8/8/8/8/8/8/R3K3 w - - 0 1");
    let (mv, _score) = find_move(&s, 2);
    assert_eq!(mv, (56, 0));
}
