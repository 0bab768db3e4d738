//! The legality filter: a pseudo-legal move is legal exactly when, after it
//! is applied, the mover's king is not attacked by any opposing pseudo-legal
//! move.

use vstd::prelude::*;

use crate::chess::{wf, Piece, PieceColor, PieceType, State};
use crate::movegen::{get_valid_moves_for_raw, lemma_raw_elems, spec_raw_moves};
use crate::moves::{make_move_on, move_ok, opposite, piece_at, spec_apply_board, spec_new_ep,
    spec_rights_after_move};

verus! {

/// Square `i` holds a piece of the side opposing `turn`.
pub open spec fn enemy_at(b: Seq<Option<Piece>>, i: int, turn: PieceColor) -> bool {
    match b[i] {
        Some(p) => p.color != turn,
        None => false,
    }
}

/// Square `t` is on the board and holds the king of `turn`.
pub open spec fn king_of_at(b: Seq<Option<Piece>>, t: int, turn: PieceColor) -> bool {
    0 <= t < 64 && match b[t] {
        Some(p) => p.tp == PieceType::King && p.color == turn,
        None => false,
    }
}

/// The piece on square `i` has a pseudo-legal move onto the king of `turn`.
pub open spec fn threatens_king(
    b: Seq<Option<Piece>>,
    castling: u32,
    ep: (usize, usize),
    i: int,
    turn: PieceColor,
) -> bool {
    let rm = spec_raw_moves(b, castling, ep, i);
    exists|j: int| 0 <= j < rm.len() && king_of_at(b, rm[j] as int, turn)
}

/// The king of `turn` is attacked by some opposing piece.
pub open spec fn spec_in_check(
    b: Seq<Option<Piece>>,
    castling: u32,
    ep: (usize, usize),
    turn: PieceColor,
) -> bool {
    exists|i: int|
        0 <= i < 64 && enemy_at(b, i, turn) && threatens_king(b, castling, ep, i, turn)
}

/// True iff the side to move stands in check.
pub fn in_check_state(state: &State) -> (r: bool)
    requires
        wf(*state),
    ensures
        r == spec_in_check(state.board@, state.castling, state.en_passant, state.turn),
{
    let mut i: usize = 0;
    while i < 64
        invariant
            wf(*state),
            i <= 64,
            forall|ii: int|
                0 <= ii < i ==> !(enemy_at(state.board@, ii, state.turn) && threatens_king(
                    state.board@,
                    state.castling,
                    state.en_passant,
                    ii,
                    state.turn,
                )),
        decreases 64 - i,
    {
        let enemy = match state.board[i] {
            Some(piece) => piece.color != state.turn,
            None => false,
        };
        if enemy {
            let rm = get_valid_moves_for_raw(i, state);
            let mut j: usize = 0;
            while j < rm.len()
                invariant
                    wf(*state),
                    i < 64,
                    j <= rm@.len(),
                    enemy_at(state.board@, i as int, state.turn),
                    rm@ == spec_raw_moves(state.board@, state.castling, state.en_passant, i as int),
                    forall|jj: int|
                        0 <= jj < j ==> !king_of_at(state.board@, rm@[jj] as int, state.turn),
                decreases rm@.len() - j,
            {
                let to = rm[j];
                if to < 64 {
                    if let Some(t) = state.board[to] {
                        if t.tp == PieceType::King && t.color == state.turn {
                            proof {
                                assert(king_of_at(state.board@, rm@[j as int] as int, state.turn));
                                assert(threatens_king(
                                    state.board@,
                                    state.castling,
                                    state.en_passant,
                                    i as int,
                                    state.turn,
                                ));
                                assert(enemy_at(state.board@, i as int, state.turn));
                                assert(spec_in_check(
                                    state.board@,
                                    state.castling,
                                    state.en_passant,
                                    state.turn,
                                ));
                            }
                            return true;
                        }
                    }
                }
                j = j + 1;
            }
        }
        i = i + 1;
    }
    false
}

/// Outcome of probing one pseudo-legal move: the move is kept when the
/// probe position (the move applied, then the turn handed back to the
/// mover) leaves the mover's king unattacked.
pub open spec fn keep_move(s: State, from: int, to: int) -> bool {
    if move_ok(s, from, to) {
        !spec_in_check(
            spec_apply_board(s, from, to),
            spec_rights_after_move(s.castling, piece_at(s.board@, from), from, to),
            spec_new_ep(piece_at(s.board@, from), from, to),
            s.turn,
        )
    } else {
        !spec_in_check(s.board@, s.castling, s.en_passant, opposite(s.turn))
    }
}

/// The pseudo-legal targets of `raw` that survive the king-safety probe,
/// in order.
pub open spec fn filter_legal(s: State, from: int, raw: Seq<usize>) -> Seq<usize>
    decreases raw.len(),
{
    if raw.len() == 0 {
        Seq::empty()
    } else {
        filter_legal(s, from, raw.drop_last()) + (if keep_move(s, from, raw.last() as int) {
            seq![raw.last()]
        } else {
            Seq::empty()
        })
    }
}

/// Square `from` holds a piece of the side to move.
pub open spec fn own_piece_at(s: State, from: int) -> bool {
    match s.board@[from] {
        Some(p) => p.color == s.turn,
        None => false,
    }
}

/// The legal targets from `from`: empty when the square is off the board,
/// empty, or holds an opposing piece; otherwise the pseudo-legal targets
/// that pass the king-safety probe.
pub open spec fn spec_legal_moves(s: State, from: int) -> Seq<usize> {
    if 0 <= from < 64 && own_piece_at(s, from) {
        filter_legal(s, from, spec_raw_moves(s.board@, s.castling, s.en_passant, from))
    } else {
        Seq::empty()
    }
}

/// Enumerate the legal targets of the piece of the side to move on `from`.
pub fn get_valid_moves_for(from: usize, state: &State) -> (r: Vec<usize>)
    requires
        wf(*state),
    ensures
        r@ == spec_legal_moves(*state, from as int),
{
    let mut v: Vec<usize> = Vec::new();
    if from >= 64 {
        return v;
    }
    let own = match state.board[from] {
        Some(p) => p.color == state.turn,
        None => false,
    };
    if !own {
        return v;
    }
    let raw = get_valid_moves_for_raw(from, state);
    let mut j: usize = 0;
    while j < raw.len()
        invariant
            wf(*state),
            j <= raw@.len(),
            0 <= from < 64,
            own_piece_at(*state, from as int),
            raw@ == spec_raw_moves(state.board@, state.castling, state.en_passant, from as int),
            v@ == filter_legal(*state, from as int, raw@.subrange(0, j as int)),
        decreases raw@.len() - j,
    {
        let to = raw[j];
        let mut temp: State = *state;
        make_move_on(from, to, &mut temp);
        temp.switch_turn();
        let chk = in_check_state(&temp);
        proof {
            assert(chk == !keep_move(*state, from as int, to as int));
            let sub1 = raw@.subrange(0, j + 1);
            assert(sub1.drop_last() =~= raw@.subrange(0, j as int));
            assert(sub1.last() == raw@[j as int]);
        }
        if !chk {
            v.push(to);
        }
        proof {
            assert(v@ =~= filter_legal(*state, from as int, raw@.subrange(0, j + 1)));
        }
        j = j + 1;
    }
    proof {
        assert(raw@.subrange(0, raw@.len() as int) =~= raw@);
    }
    v
}

/// The targets of `ts` paired with their shared source square.
pub open spec fn pair_up(i: usize, ts: Seq<usize>) -> Seq<(usize, usize)> {
    ts.map_values(|t: usize| (i, t))
}

/// Pseudo-legal moves of the side to move from all squares below `n`, in
/// scan order.
pub open spec fn spec_all_raw(s: State, n: int) -> Seq<(usize, usize)>
    decreases n,
{
    if n <= 0 {
        Seq::empty()
    } else {
        spec_all_raw(s, n - 1) + (if !enemy_at(s.board@, n - 1, s.turn) {
            pair_up(
                (n - 1) as usize,
                spec_raw_moves(s.board@, s.castling, s.en_passant, n - 1),
            )
        } else {
            Seq::empty()
        })
    }
}

/// Legal moves of the side to move from all squares below `n`, in scan
/// order.
pub open spec fn spec_all_legal(s: State, n: int) -> Seq<(usize, usize)>
    decreases n,
{
    if n <= 0 {
        Seq::empty()
    } else {
        spec_all_legal(s, n - 1) + pair_up((n - 1) as usize, spec_legal_moves(s, n - 1))
    }
}

/// Enumerate every pseudo-legal move of the side to move, in scan order.
pub fn get_all_valid_moves_raw(state: &State) -> (r: Vec<(usize, usize)>)
    requires
        wf(*state),
    ensures
        r@ == spec_all_raw(*state, 64),
{
    let mut res: Vec<(usize, usize)> = Vec::new();
    let mut i: usize = 0;
    while i < 64
        invariant
            wf(*state),
            i <= 64,
            res@ == spec_all_raw(*state, i as int),
        decreases 64 - i,
    {
        let ghost pre = res@;
        let enemy = match state.board[i] {
            Some(p) => p.color != state.turn,
            None => false,
        };
        if !enemy {
            let ts = get_valid_moves_for_raw(i, state);
            let mut j: usize = 0;
            while j < ts.len()
                invariant
                    i < 64,
                    j <= ts@.len(),
                    res@ == pre + pair_up(i, ts@.subrange(0, j as int)),
                decreases ts@.len() - j,
            {
                let t = ts[j];
                res.push((i, t));
                proof {
                    assert(res@ =~= pre + pair_up(i, ts@.subrange(0, j + 1)));
                }
                j = j + 1;
            }
            proof {
                assert(ts@.subrange(0, ts@.len() as int) =~= ts@);
            }
        } else {
            proof {
                assert(res@ =~= pre + Seq::<(usize, usize)>::empty());
            }
        }
        i = i + 1;
    }
    res
}

/// Enumerate every legal move of the side to move, in scan order.
pub fn get_all_valid_moves(state: &State) -> (r: Vec<(usize, usize)>)
    requires
        wf(*state),
    ensures
        r@ == spec_all_legal(*state, 64),
{
    let mut res: Vec<(usize, usize)> = Vec::new();
    let mut i: usize = 0;
    while i < 64
        invariant
            wf(*state),
            i <= 64,
            res@ == spec_all_legal(*state, i as int),
        decreases 64 - i,
    {
        let ghost pre = res@;
        let ts = get_valid_moves_for(i, state);
        let mut j: usize = 0;
        while j < ts.len()
            invariant
                i < 64,
                j <= ts@.len(),
                ts@ == spec_legal_moves(*state, i as int),
                res@ == pre + pair_up(i, ts@.subrange(0, j as int)),
            decreases ts@.len() - j,
        {
            let t = ts[j];
            res.push((i, t));
            proof {
                assert(res@ =~= pre + pair_up(i, ts@.subrange(0, j + 1)));
            }
            j = j + 1;
        }
        proof {
            assert(ts@.subrange(0, ts@.len() as int) =~= ts@);
        }
        i = i + 1;
    }
    res
}

/// Every move the filter keeps comes from the pseudo-legal list and passed
/// the king-safety probe.
proof fn lemma_filter_legal_elem(s: State, from: int, raw: Seq<usize>, j: int)
    requires
        0 <= j < filter_legal(s, from, raw).len(),
    ensures
        exists|k: int|
            0 <= k < raw.len() && raw[k] == filter_legal(s, from, raw)[j] && keep_move(
                s,
                from,
                #[trigger] raw[k] as int,
            ),
    decreases raw.len(),
{
    let fl = filter_legal(s, from, raw);
    if raw.len() > 0 {
        let prev = filter_legal(s, from, raw.drop_last());
        if j < prev.len() {
            lemma_filter_legal_elem(s, from, raw.drop_last(), j);
            let k = choose|k: int|
                0 <= k < raw.drop_last().len() && raw.drop_last()[k] == prev[j] && keep_move(
                    s,
                    from,
                    #[trigger] raw.drop_last()[k] as int,
                );
            assert(raw[k] == raw.drop_last()[k]);
            assert(fl[j] == prev[j]);
        } else {
            assert(keep_move(s, from, raw.last() as int));
            assert(fl[j] == raw.last());
            assert(raw[raw.len() - 1] == raw.last());
        }
    }
}

/// Legality is king-safety: every target the legality filter returns is a
/// genuine move of the side to move (on-board, distinct squares, own
/// piece), and after applying it the mover's king is not attacked by any
/// opposing pseudo-legal move.
pub proof fn lemma_legality_is_king_safety(s: State, from: int, j: int)
    requires
        wf(s),
        0 <= j < spec_legal_moves(s, from).len(),
    ensures
        ({
            let to = spec_legal_moves(s, from)[j] as int;
            &&& move_ok(s, from, to)
            &&& !spec_in_check(
                spec_apply_board(s, from, to),
                spec_rights_after_move(s.castling, piece_at(s.board@, from), from, to),
                spec_new_ep(piece_at(s.board@, from), from, to),
                s.turn,
            )
        }),
{
    let to = spec_legal_moves(s, from)[j] as int;
    assert(0 <= from < 64 && own_piece_at(s, from));
    let raw = spec_raw_moves(s.board@, s.castling, s.en_passant, from);
    lemma_filter_legal_elem(s, from, raw, j);
    lemma_raw_elems(s.board@, s.castling, s.en_passant, from);
    let k = choose|k: int|
        0 <= k < raw.len() && raw[k] == spec_legal_moves(s, from)[j] && keep_move(
            s,
            from,
            #[trigger] raw[k] as int,
        );
    assert(0 <= (raw[k] as int) < 64 && raw[k] as int != from);
    assert(move_ok(s, from, to));
    assert(keep_move(s, from, to));
}

/// Every entry of the all-moves list pairs a source square below `n` with
/// one of that square's legal targets.
pub proof fn lemma_all_legal_member(s: State, n: int, j: int)
    requires
        0 <= n <= 64,
        0 <= j < spec_all_legal(s, n).len(),
    ensures
        ({
            let m = spec_all_legal(s, n)[j];
            &&& (m.0 as int) < n
            &&& exists|jj: int|
                0 <= jj < spec_legal_moves(s, m.0 as int).len() && spec_legal_moves(
                    s,
                    m.0 as int,
                )[jj] == m.1
        }),
    decreases n,
{
    if n > 0 {
        let prev = spec_all_legal(s, n - 1);
        let tail = pair_up((n - 1) as usize, spec_legal_moves(s, n - 1));
        if j < prev.len() {
            lemma_all_legal_member(s, n - 1, j);
            assert(spec_all_legal(s, n)[j] == prev[j]);
        } else {
            let jj = j - prev.len();
            assert(spec_all_legal(s, n)[j] == tail[jj]);
            assert(tail[jj] == (((n - 1) as usize), spec_legal_moves(s, n - 1)[jj]));
            let m = spec_all_legal(s, n)[j];
            assert(m.0 as int == n - 1);
            assert(0 <= jj < spec_legal_moves(s, m.0 as int).len() && spec_legal_moves(
                s,
                m.0 as int,
            )[jj] == m.1);
        }
    }
}

} // verus!
