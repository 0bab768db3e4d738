//! Move application: en-passant capture, promotion, castling execution,
//! castling-rights bookkeeping, and the turn flip, all through the
//! hash-preserving mutators of `State`.

use vstd::prelude::*;

use crate::chess::{wf, Piece, PieceColor, PieceType, State};

verus! {

pub open spec fn opposite(c: PieceColor) -> PieceColor {
    if c == PieceColor::White {
        PieceColor::Black
    } else {
        PieceColor::White
    }
}

/// The piece standing on square `i` (meaningful only when the square is
/// occupied).
pub open spec fn piece_at(b: Seq<Option<Piece>>, i: int) -> Piece {
    match b[i] {
        Some(p) => p,
        None => Piece { color: PieceColor::White, tp: PieceType::Pawn },
    }
}

/// Board index the en-passant field points at (72, off the board, under the
/// sentinel (8, 8)).
pub open spec fn ep_square(ep: (usize, usize)) -> int {
    ep.0 * 8 + ep.1
}

/// A move request is acted on only when both squares are on the board, they
/// differ, and the source square holds a piece of the side to move.
pub open spec fn move_ok(s: State, from: int, to: int) -> bool {
    &&& 0 <= from < 64
    &&& 0 <= to < 64
    &&& from != to
    &&& match s.board@[from] {
        Some(p) => p.color == s.turn,
        None => false,
    }
}

/// Board after the en-passant side effect: a pawn arriving on the
/// en-passant target square removes the opposing pawn one rank behind it.
pub open spec fn spec_after_ep_capture(
    b: Seq<Option<Piece>>,
    ep: (usize, usize),
    p: Piece,
    to: int,
) -> Seq<Option<Piece>> {
    if p.tp == PieceType::Pawn && ep_square(ep) == to {
        if p.color == PieceColor::White {
            if to + 8 < 64 {
                b.update(to + 8, None)
            } else {
                b
            }
        } else {
            if to >= 8 {
                b.update(to - 8, None)
            } else {
                b
            }
        }
    } else {
        b
    }
}

/// En-passant target after the move: set behind a pawn that advanced two
/// ranks, cleared otherwise.
pub open spec fn spec_new_ep(p: Piece, from: int, to: int) -> (usize, usize) {
    if p.tp == PieceType::Pawn && (to - from == 16 || from - to == 16) {
        if p.color == PieceColor::White {
            if from / 8 >= 1 {
                ((from / 8 - 1) as usize, (from % 8) as usize)
            } else {
                (8usize, 8usize)
            }
        } else {
            if from / 8 <= 6 {
                ((from / 8 + 1) as usize, (from % 8) as usize)
            } else {
                (8usize, 8usize)
            }
        }
    } else {
        (8usize, 8usize)
    }
}

/// The piece that lands on the destination: the mover, or the configured
/// promotion kind for a pawn reaching the last rank.
pub open spec fn spec_moved_piece(p: Piece, promotion: PieceType, to: int) -> Piece {
    if p.tp == PieceType::Pawn && ((p.color == PieceColor::White && to < 8) || (p.color
        == PieceColor::Black && to >= 56)) {
        Piece { color: p.color, tp: promotion }
    } else {
        p
    }
}

/// Board after the rook leg of a castling move, when the mover is a king
/// stepping two files from its home square and the matching right is held.
pub open spec fn spec_after_castle_rook(
    b: Seq<Option<Piece>>,
    castling: u32,
    p: Piece,
    from: int,
    to: int,
) -> Seq<Option<Piece>> {
    let wr = Piece { color: PieceColor::White, tp: PieceType::Rook };
    let br = Piece { color: PieceColor::Black, tp: PieceType::Rook };
    if p.tp == PieceType::King {
        if from == 60 && to == 62 && castling & 1 == 1 {
            b.update(61, Some(wr)).update(63, None)
        } else if from == 60 && to == 58 && castling & 2 == 2 {
            b.update(59, Some(wr)).update(56, None)
        } else if from == 4 && to == 6 && castling & 4 == 4 {
            b.update(5, Some(br)).update(7, None)
        } else if from == 4 && to == 2 && castling & 8 == 8 {
            b.update(3, Some(br)).update(0, None)
        } else {
            b
        }
    } else {
        b
    }
}

/// Castling rights after the move: a king move clears both rights of its
/// color, a rook leaving a home corner clears that corner's right, and any
/// arrival on a home corner clears the right of the rook that stood there.
pub open spec fn spec_rights_after_move(castling: u32, p: Piece, from: int, to: int) -> u32 {
    let c1 = if p.tp == PieceType::King {
        if p.color == PieceColor::White {
            castling & !3u32
        } else {
            castling & !12u32
        }
    } else if p.tp == PieceType::Rook {
        if from == 63 {
            castling & !1u32
        } else if from == 56 {
            castling & !2u32
        } else if from == 7 {
            castling & !4u32
        } else if from == 0 {
            castling & !8u32
        } else {
            castling
        }
    } else {
        castling
    };
    if to == 63 {
        c1 & !1u32
    } else if to == 56 {
        c1 & !2u32
    } else if to == 7 {
        c1 & !4u32
    } else if to == 0 {
        c1 & !8u32
    } else {
        c1
    }
}

/// The complete board after the move: side effects first, then the mover
/// leaves its source square and lands (possibly promoted) on the target.
pub open spec fn spec_apply_board(s: State, from: int, to: int) -> Seq<Option<Piece>> {
    let p = piece_at(s.board@, from);
    spec_after_castle_rook(
        spec_after_ep_capture(s.board@, s.en_passant, p, to),
        s.castling,
        p,
        from,
        to,
    ).update(from, None).update(to, Some(spec_moved_piece(p, s.promotion, to)))
}

proof fn lemma_mask_keeps_bound(c: u32, m: u32)
    requires
        c < 16,
    ensures
        (c & m) < 16,
{
    assert(c < 16 ==> (c & m) < 16) by (bit_vector);
}

fn do_ep_capture(state: &mut State, to: usize, p: Piece)
    requires
        wf(*old(state)),
        to < 64,
    ensures
        wf(*final(state)),
        final(state).board@ == spec_after_ep_capture(
            old(state).board@,
            old(state).en_passant,
            p,
            to as int,
        ),
        final(state).turn == old(state).turn,
        final(state).castling == old(state).castling,
        final(state).en_passant == old(state).en_passant,
        final(state).halfmove_clock == old(state).halfmove_clock,
        final(state).fullmove_number == old(state).fullmove_number,
        final(state).promotion == old(state).promotion,
{
    if p.tp == PieceType::Pawn && state.en_passant.0 * 8 + state.en_passant.1 == to {
        if p.color == PieceColor::White {
            if to + 8 < 64 {
                state.remove_piece(to + 8);
            }
        } else {
            if to >= 8 {
                state.remove_piece(to - 8);
            }
        }
    }
}

fn do_new_ep(state: &mut State, from: usize, to: usize, p: Piece)
    requires
        wf(*old(state)),
        from < 64,
    ensures
        wf(*final(state)),
        final(state).en_passant == spec_new_ep(p, from as int, to as int),
        final(state).board@ == old(state).board@,
        final(state).turn == old(state).turn,
        final(state).castling == old(state).castling,
        final(state).halfmove_clock == old(state).halfmove_clock,
        final(state).fullmove_number == old(state).fullmove_number,
        final(state).promotion == old(state).promotion,
{
    state.set_en_passant(8, 8);
    if p.tp == PieceType::Pawn && ((to > from && to - from == 16) || (from > to && from - to
        == 16)) {
        if p.color == PieceColor::White {
            if from / 8 >= 1 {
                state.set_en_passant(from / 8 - 1, from % 8);
            }
        } else {
            if from / 8 <= 6 {
                state.set_en_passant(from / 8 + 1, from % 8);
            }
        }
    }
}

fn do_castle_rook(state: &mut State, from: usize, to: usize, p: Piece)
    requires
        wf(*old(state)),
    ensures
        wf(*final(state)),
        final(state).board@ == spec_after_castle_rook(
            old(state).board@,
            old(state).castling,
            p,
            from as int,
            to as int,
        ),
        final(state).turn == old(state).turn,
        final(state).castling == old(state).castling,
        final(state).en_passant == old(state).en_passant,
        final(state).halfmove_clock == old(state).halfmove_clock,
        final(state).fullmove_number == old(state).fullmove_number,
        final(state).promotion == old(state).promotion,
{
    if p.tp == PieceType::King {
        if from == 60 && to == 62 {
            if state.castling & 1 == 1 {
                state.remove_piece(61);
                state.set_piece(61, Piece { color: PieceColor::White, tp: PieceType::Rook });
                state.remove_piece(63);
            }
        } else if from == 60 && to == 58 {
            if state.castling & 2 == 2 {
                state.remove_piece(59);
                state.set_piece(59, Piece { color: PieceColor::White, tp: PieceType::Rook });
                state.remove_piece(56);
            }
        } else if from == 4 && to == 6 {
            if state.castling & 4 == 4 {
                state.remove_piece(5);
                state.set_piece(5, Piece { color: PieceColor::Black, tp: PieceType::Rook });
                state.remove_piece(7);
            }
        } else if from == 4 && to == 2 {
            if state.castling & 8 == 8 {
                state.remove_piece(3);
                state.set_piece(3, Piece { color: PieceColor::Black, tp: PieceType::Rook });
                state.remove_piece(0);
            }
        }
    }
    assert(final(state).board@ =~= spec_after_castle_rook(
        old(state).board@,
        old(state).castling,
        p,
        from as int,
        to as int,
    ));
}

fn do_rights_update(state: &mut State, from: usize, to: usize, p: Piece)
    requires
        wf(*old(state)),
    ensures
        wf(*final(state)),
        final(state).castling == spec_rights_after_move(
            old(state).castling,
            p,
            from as int,
            to as int,
        ),
        final(state).board@ == old(state).board@,
        final(state).turn == old(state).turn,
        final(state).en_passant == old(state).en_passant,
        final(state).halfmove_clock == old(state).halfmove_clock,
        final(state).fullmove_number == old(state).fullmove_number,
        final(state).promotion == old(state).promotion,
{
    proof {
        lemma_mask_keeps_bound(state.castling, !3u32);
        lemma_mask_keeps_bound(state.castling, !12u32);
        lemma_mask_keeps_bound(state.castling, !1u32);
        lemma_mask_keeps_bound(state.castling, !2u32);
        lemma_mask_keeps_bound(state.castling, !4u32);
        lemma_mask_keeps_bound(state.castling, !8u32);
    }
    if p.tp == PieceType::King {
        if p.color == PieceColor::White {
            let cs = state.castling & !3u32;
            state.set_castle(cs);
        } else {
            let cs = state.castling & !12u32;
            state.set_castle(cs);
        }
    } else if p.tp == PieceType::Rook {
        if from == 63 {
            let cs = state.castling & !1u32;
            state.set_castle(cs);
        } else if from == 56 {
            let cs = state.castling & !2u32;
            state.set_castle(cs);
        } else if from == 7 {
            let cs = state.castling & !4u32;
            state.set_castle(cs);
        } else if from == 0 {
            let cs = state.castling & !8u32;
            state.set_castle(cs);
        }
    }
    proof {
        lemma_mask_keeps_bound(state.castling, !1u32);
        lemma_mask_keeps_bound(state.castling, !2u32);
        lemma_mask_keeps_bound(state.castling, !4u32);
        lemma_mask_keeps_bound(state.castling, !8u32);
    }
    if to == 63 {
        let cs = state.castling & !1u32;
        state.set_castle(cs);
    } else if to == 56 {
        let cs = state.castling & !2u32;
        state.set_castle(cs);
    } else if to == 7 {
        let cs = state.castling & !4u32;
        state.set_castle(cs);
    } else if to == 0 {
        let cs = state.castling & !8u32;
        state.set_castle(cs);
    }
}

/// Apply the move `from -> to` for the side to move. Invalid requests
/// (off-board squares, equal squares, an empty or opposing source square)
/// leave the position untouched. The clocks are not updated here.
pub fn make_move_on(from: usize, to: usize, state: &mut State)
    requires
        wf(*old(state)),
    ensures
        wf(*final(state)),
        final(state).halfmove_clock == old(state).halfmove_clock,
        final(state).fullmove_number == old(state).fullmove_number,
        final(state).promotion == old(state).promotion,
        move_ok(*old(state), from as int, to as int) ==> {
            &&& final(state).board@ == spec_apply_board(*old(state), from as int, to as int)
            &&& final(state).castling == spec_rights_after_move(
                old(state).castling,
                piece_at(old(state).board@, from as int),
                from as int,
                to as int,
            )
            &&& final(state).en_passant == spec_new_ep(
                piece_at(old(state).board@, from as int),
                from as int,
                to as int,
            )
            &&& final(state).turn == opposite(old(state).turn)
        },
        !move_ok(*old(state), from as int, to as int) ==> *final(state) == *old(state),
{
    if from >= 64 || to >= 64 || from == to {
        return ;
    }
    let piece0 = match state.board[from] {
        Some(p) => p,
        None => {
            return ;
        },
    };
    if piece0.color != state.turn {
        return ;
    }

    do_ep_capture(state, to, piece0);
    do_new_ep(state, from, to, piece0);

    // Promotion: a pawn reaching the last rank changes kind.
    let piece = if piece0.tp == PieceType::Pawn && ((piece0.color == PieceColor::White && to < 8)
        || (piece0.color == PieceColor::Black && to >= 56)) {
        Piece { color: piece0.color, tp: state.promotion }
    } else {
        piece0
    };
    assert(piece == spec_moved_piece(piece0, old(state).promotion, to as int));

    do_castle_rook(state, from, to, piece0);
    do_rights_update(state, from, to, piece0);

    // Lift the mover, clear the target, land (capturing if occupied).
    state.remove_piece(from);
    state.remove_piece(to);
    state.set_piece(to, piece);
    assert(state.board@ =~= spec_apply_board(*old(state), from as int, to as int));

    state.switch_turn();
}

} // verus!
