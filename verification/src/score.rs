//! Static evaluation: material plus a piece-square bonus for every occupied
//! square, side-to-move relative. Black uses the vertical mirror of each
//! White table.

use vstd::prelude::*;

use crate::chess::{Piece, PieceColor, PieceType};

verus! {

pub const WHITE_PAWN_BONUS: [i32; 64] = [
     0,  0,  0,  0,  0,  0,  0,  0,
    90, 90, 90, 90, 90, 90, 90, 90,
    30, 30, 40, 60, 60, 40, 30, 30,
    10, 10, 20, 40, 40, 20, 10, 10,
     5,  5, 10, 20, 20, 10,  5,  5,
     0,  0,  0,-10,-10,  0,  0,  0,
     5, -5,-10,  0,  0,-10, -5,  5,
     0,  0,  0,  0,  0,  0,  0,  0,
];

pub const WHITE_KNIGHT_BONUS: [i32; 64] = [
    -50,-40,-30,-30,-30,-30,-40,-50,
    -40,-20,  0,  5,  5,  0,-20,-40,
    -30,  5, 10, 15, 15, 10,  5,-30,
    -30,  5, 15, 20, 20, 15,  5,-30,
    -30,  5, 15, 20, 20, 15,  5,-30,
    -30,  5, 10, 15, 15, 10,  5,-30,
    -40,-20,  0,  0,  0,  0,-20,-40,
    -50,-40,-30,-30,-30,-30,-40,-50,
];

pub const WHITE_BISHOP_BONUS: [i32; 64] = [
    -20,-10,-10,-10,-10,-10,-10,-20,
    -10,  5,  0,  0,  0,  0,  5,-10,
    -10, 10, 10, 10, 10, 10, 10,-10,
    -10,  0, 10, 15, 15, 10,  0,-10,
    -10,  5, 10, 15, 15, 10,  5,-10,
    -10,  0, 10, 10, 10, 10,  0,-10,
    -10, 10,  5,  0,  0,  5, 10,-10,
    -20,-10,-10,-10,-10,-10,-10,-20,
];

pub const WHITE_ROOK_BONUS: [i32; 64] = [
     0,  0,  0,  5,  5,  0,  0,  0,
     5, 10, 10, 10, 10, 10, 10,  5,
    -5,  0,  0,  0,  0,  0,  0, -5,
    -5,  0,  0,  0,  0,  0,  0, -5,
    -5,  0,  0,  0,  0,  0,  0, -5,
    -5,  0,  0,  5,  5,  0,  0, -5,
     5, 20, 20, 25, 25, 20, 20,  5,
     0,  0,  5, 10, 10,  5,  0,  0,
];

pub const WHITE_QUEEN_BONUS: [i32; 64] = [
    -20,-10,-10, -5, -5,-10,-10,-20,
    -10,  0,  0,  0,  0,  5,  0,-10,
    -10,  0,  5,  5,  5,  5,  5,-10,
    -5,   0,  5,  5,  5,  5,  0, -5,
     0,   0,  5,  5,  5,  5,  0, -5,
    -10,  5,  5,  5,  5,  5,  0,-10,
    -10,  0,  5,  0,  0,  0,  0,-10,
    -20,-10,-10, -5, -5,-10,-10,-20,
];

pub const WHITE_KING_BONUS: [i32; 64] = [
    -30,-40,-40,-50,-50,-40,-40,-30,
    -30,-40,-40,-50,-50,-40,-40,-30,
    -30,-40,-40,-50,-50,-40,-40,-30,
    -30,-40,-40,-50,-50,-40,-40,-30,
    -20,-30,-30,-40,-40,-30,-30,-20,
    -10,-20,-20,-20,-20,-20,-20,-10,
     20, 20,  0,  0,  0,  0, 20, 20,
     20, 30, 10,  0,  0, 10, 30, 20,
];

pub const PAWN_VALUE: i32 = 100;

pub const KNIGHT_VALUE: i32 = 300;

pub const BISHOP_VALUE: i32 = 300;

pub const ROOK_VALUE: i32 = 500;

pub const QUEEN_VALUE: i32 = 900;

pub const KING_VALUE: i32 = 1000000;

/// The square seen from the other side: same file, vertically mirrored rank.
pub open spec fn mirror_sq(i: int) -> int {
    (7 - i / 8) * 8 + i % 8
}

/// Material value of a piece kind.
pub open spec fn kind_value(t: PieceType) -> int {
    match t {
        PieceType::Pawn => PAWN_VALUE as int,
        PieceType::Knight => KNIGHT_VALUE as int,
        PieceType::Bishop => BISHOP_VALUE as int,
        PieceType::Rook => ROOK_VALUE as int,
        PieceType::Queen => QUEEN_VALUE as int,
        PieceType::King => KING_VALUE as int,
    }
}

/// Positional bonus of a White piece of kind `t` on square `i`.
pub open spec fn white_bonus(t: PieceType, i: int) -> int {
    match t {
        PieceType::Pawn => WHITE_PAWN_BONUS[i] as int,
        PieceType::Knight => WHITE_KNIGHT_BONUS[i] as int,
        PieceType::Bishop => WHITE_BISHOP_BONUS[i] as int,
        PieceType::Rook => WHITE_ROOK_BONUS[i] as int,
        PieceType::Queen => WHITE_QUEEN_BONUS[i] as int,
        PieceType::King => WHITE_KING_BONUS[i] as int,
    }
}

/// Signed contribution of the piece on square `i`: positive for White,
/// negative for Black, each with its own (mirrored) table.
pub open spec fn piece_signed(p: Piece, i: int) -> int {
    if p.color == PieceColor::White {
        kind_value(p.tp) + white_bonus(p.tp, i)
    } else {
        -(kind_value(p.tp) + white_bonus(p.tp, mirror_sq(i)))
    }
}

/// White-minus-Black total over the first `n` squares.
pub open spec fn board_material(b: Seq<Option<Piece>>, n: int) -> int
    decreases n,
{
    if n <= 0 {
        0
    } else {
        board_material(b, n - 1) + (match b[n - 1] {
            Some(p) => piece_signed(p, n - 1),
            None => 0,
        })
    }
}

/// Side-to-move-relative static score of a board.
pub open spec fn spec_eval(b: Seq<Option<Piece>>, turn: PieceColor) -> int {
    if turn == PieceColor::White {
        board_material(b, 64)
    } else {
        -board_material(b, 64)
    }
}

/// Positional bonus of a White piece of kind `t` on square `i`.
fn white_bonus_at(t: PieceType, i: usize) -> (r: i32)
    requires
        i < 64,
    ensures
        r as int == white_bonus(t, i as int),
        -50 <= r <= 90,
{
    match t {
        PieceType::Pawn => WHITE_PAWN_BONUS[i],
        PieceType::Knight => WHITE_KNIGHT_BONUS[i],
        PieceType::Bishop => WHITE_BISHOP_BONUS[i],
        PieceType::Rook => WHITE_ROOK_BONUS[i],
        PieceType::Queen => WHITE_QUEEN_BONUS[i],
        PieceType::King => WHITE_KING_BONUS[i],
    }
}

/// Material value of a piece kind.
fn kind_value_of(t: PieceType) -> (r: i32)
    ensures
        r as int == kind_value(t),
        100 <= r <= 1000000,
{
    match t {
        PieceType::Pawn => PAWN_VALUE,
        PieceType::Knight => KNIGHT_VALUE,
        PieceType::Bishop => BISHOP_VALUE,
        PieceType::Rook => ROOK_VALUE,
        PieceType::Queen => QUEEN_VALUE,
        PieceType::King => KING_VALUE,
    }
}

/// Static evaluation of a board: material plus piece-square bonus summed
/// over every occupied square, returned from the perspective of `turn`.
pub fn evaluate(board: [Option<Piece>; 64], turn: PieceColor) -> (r: i32)
    ensures
        r as int == spec_eval(board@, turn),
        -64006400 <= r <= 64006400,
{
    let mut eval: i32 = 0;
    let mut i: usize = 0;
    while i < 64
        invariant
            i <= 64,
            eval as int == board_material(board@, i as int),
            -1000100 * (i as int) <= eval as int <= 1000100 * (i as int),
        decreases 64 - i,
    {
        if let Some(piece) = board[i] {
            let v = kind_value_of(piece.tp);
            let b = if piece.color == PieceColor::White {
                white_bonus_at(piece.tp, i)
            } else {
                let m = (7 - i / 8) * 8 + i % 8;
                white_bonus_at(piece.tp, m)
            };
            if piece.color == PieceColor::White {
                eval = eval + v + b;
            } else {
                eval = eval - (v + b);
            }
        }
        i = i + 1;
    }
    if turn == PieceColor::White {
        eval
    } else {
        -eval
    }
}

/// A single piece contributes at most a king's value plus the largest
/// table bonus.
proof fn lemma_piece_signed_bounds(p: Piece, i: int)
    requires
        0 <= i < 64,
    ensures
        -1000100 <= piece_signed(p, i) <= 1000100,
{
    let j = if p.color == PieceColor::White {
        i
    } else {
        mirror_sq(i)
    };
    assert(0 <= j < 64);
    assert(-50 <= white_bonus(p.tp, j) <= 90);
}

/// The running material total is bounded square by square.
proof fn lemma_material_bounds(b: Seq<Option<Piece>>, n: int)
    requires
        0 <= n <= 64,
    ensures
        -1000100 * n <= board_material(b, n) <= 1000100 * n,
    decreases n,
{
    if n > 0 {
        lemma_material_bounds(b, n - 1);
        match b[n - 1] {
            Some(p) => {
                lemma_piece_signed_bounds(p, n - 1);
            },
            None => {},
        }
    }
}

/// The static evaluation of any board lies within the material budget of a
/// full board.
pub proof fn lemma_eval_bounds(b: Seq<Option<Piece>>, turn: PieceColor)
    ensures
        -64006400 <= spec_eval(b, turn) <= 64006400,
{
    lemma_material_bounds(b, 64);
}

/// Evaluator symmetry: the same board scored for White is the exact
/// negation of the board scored for Black, the Black piece-square tables
/// being the vertical mirrors of the White ones by construction.
pub proof fn lemma_eval_symmetry(b: Seq<Option<Piece>>)
    ensures
        spec_eval(b, PieceColor::White) == -spec_eval(b, PieceColor::Black),
{
}

} // verus!
