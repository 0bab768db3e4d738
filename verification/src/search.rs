//! Depth-limited negamax search with alpha-beta pruning, all scores from
//! the side to move's perspective.

use vstd::prelude::*;

use crate::chess::{state_hash, wf, State};
use crate::legality::{get_all_valid_moves, in_check_state, lemma_all_legal_member,
    lemma_legality_is_king_safety, spec_all_legal, spec_in_check, spec_legal_moves};
use crate::moves::{make_move_on, move_ok, opposite, piece_at, spec_apply_board, spec_new_ep,
    spec_rights_after_move};
use crate::score::{evaluate, lemma_eval_bounds, spec_eval};

verus! {

/// `c` is the position reached from `s` by the move `from -> to`: the
/// applied board, rights, en-passant target and flipped turn, with a
/// consistent hash and the clocks and preference carried over.
pub open spec fn is_child(s: State, from: int, to: int, c: State) -> bool {
    &&& c.board@ == spec_apply_board(s, from, to)
    &&& c.turn == opposite(s.turn)
    &&& c.castling == spec_rights_after_move(s.castling, piece_at(s.board@, from), from, to)
    &&& c.en_passant == spec_new_ep(piece_at(s.board@, from), from, to)
    &&& c.halfmove_clock == s.halfmove_clock
    &&& c.fullmove_number == s.fullmove_number
    &&& c.promotion == s.promotion
    &&& c.zob_hash == state_hash(c)
}

/// The position reached from `s` by the move `from -> to`.
pub open spec fn child_of(s: State, from: int, to: int) -> State {
    choose|c: State| is_child(s, from, to, c)
}

/// Two positions satisfying `is_child` for the same move agree on every
/// field, so `child_of` names the position `make_move_on` produces.
pub proof fn lemma_child_eq(s: State, from: int, to: int, t: State)
    requires
        is_child(s, from, to, t),
    ensures
        child_of(s, from, to) == t,
{
    let c = child_of(s, from, to);
    assert(is_child(s, from, to, c));
    assert forall|i: int| 0 <= i < 64 implies c.board[i] == t.board[i] by {
        assert(c.board[i] == c.board@[i] && t.board[i] == t.board@[i]);
    }
    assert(c.board =~= t.board);
    assert(state_hash(c) == state_hash(t));
}

/// The negamax value of a position: the static evaluation at depth 0, else
/// the best negated child value over the legal moves, with `i32::MIN + 1`
/// as the floor when no legal move exists.
pub open spec fn spec_negamax(s: State, depth: nat) -> int
    decreases depth, spec_all_legal(s, 64).len() + 1,
{
    if depth == 0 {
        spec_eval(s.board@, s.turn)
    } else {
        negamax_best(s, spec_all_legal(s, 64), spec_all_legal(s, 64).len() as int, depth)
    }
}

/// Best negated child value over the first `k` moves of `mv`, floored at
/// `i32::MIN + 1`.
pub open spec fn negamax_best(s: State, mv: Seq<(usize, usize)>, k: int, depth: nat) -> int
    decreases depth, k,
{
    if k <= 0 || depth == 0 {
        (i32::MIN + 1) as int
    } else {
        let m = mv[k - 1];
        let v = -spec_negamax(child_of(s, m.0 as int, m.1 as int), (depth - 1) as nat);
        let rest = negamax_best(s, mv, k - 1, depth);
        if v > rest {
            v
        } else {
            rest
        }
    }
}

/// The negamax value always lies strictly inside the i32 range.
pub proof fn lemma_negamax_bounds(s: State, depth: nat)
    ensures
        i32::MIN + 1 <= spec_negamax(s, depth) <= i32::MAX,
    decreases depth, spec_all_legal(s, 64).len() + 1,
{
    if depth == 0 {
        lemma_eval_bounds(s.board@, s.turn);
    } else {
        lemma_best_bounds(s, spec_all_legal(s, 64), spec_all_legal(s, 64).len() as int, depth);
    }
}

proof fn lemma_best_bounds(s: State, mv: Seq<(usize, usize)>, k: int, depth: nat)
    requires
        depth > 0,
    ensures
        i32::MIN + 1 <= negamax_best(s, mv, k, depth) <= i32::MAX,
    decreases depth, k,
{
    if k > 0 {
        let m = mv[k - 1];
        lemma_negamax_bounds(child_of(s, m.0 as int, m.1 as int), (depth - 1) as nat);
        lemma_best_bounds(s, mv, k - 1, depth);
    }
}

/// Every move listed by `spec_all_legal(s, n)` starts on a square below `n`.
proof fn lemma_all_legal_sources(s: State, n: int)
    requires
        0 <= n,
    ensures
        forall|j: int|
            0 <= j < spec_all_legal(s, n).len() ==> (#[trigger] spec_all_legal(s, n)[j]).0 < n,
    decreases n,
{
    if n > 0 {
        lemma_all_legal_sources(s, n - 1);
        let prev = spec_all_legal(s, n - 1);
        let tail = spec_legal_moves(s, n - 1).map_values(|t: usize| (((n - 1) as usize), t));
        assert forall|j: int|
            0 <= j < spec_all_legal(s, n).len() implies (#[trigger] spec_all_legal(s, n)[j]).0
            < n by {
            if j < prev.len() {
                assert(spec_all_legal(s, n)[j] == prev[j]);
            } else {
                assert(spec_all_legal(s, n)[j] == tail[j - prev.len()]);
            }
        }
    }
}

/// The best over the first `k` children is at least each child's value.
proof fn lemma_best_ge(s: State, mv: Seq<(usize, usize)>, k: int, depth: nat, j: int)
    requires
        depth > 0,
        0 <= j < k,
    ensures
        negamax_best(s, mv, k, depth) >= -spec_negamax(
            child_of(s, mv[j].0 as int, mv[j].1 as int),
            (depth - 1) as nat,
        ),
    decreases k,
{
    if j < k - 1 {
        lemma_best_ge(s, mv, k - 1, depth, j);
    }
}

/// Fail-soft alpha-beta negamax. At depth 0 the result is exactly the
/// static evaluation. Inside a proper window the result is exactly the
/// negamax value; a result at or below alpha is an upper bound on the
/// value, one at or above beta a lower bound. Every result is above
/// `i32::MIN`, so negation is safe.
pub fn alpha_beta(state: &State, alpha: i32, beta: i32, depth: usize) -> (r: i32)
    requires
        wf(*state),
        alpha > i32::MIN,
        beta > i32::MIN,
    ensures
        r > i32::MIN,
        depth == 0 ==> r as int == spec_negamax(*state, depth as nat),
        alpha < beta ==> {
            let v = spec_negamax(*state, depth as nat);
            &&& (alpha < r < beta ==> r as int == v)
            &&& (r <= alpha ==> v <= r as int)
            &&& (r >= beta ==> r as int <= v)
        },
    decreases depth,
{
    if depth == 0 {
        return evaluate(state.board, state.turn);
    }
    let moves = get_all_valid_moves(state);
    let mut max: i32 = i32::MIN + 1;
    let mut a = alpha;
    let mut idx: usize = 0;
    while idx < moves.len()
        invariant
            wf(*state),
            depth >= 1,
            idx <= moves@.len(),
            moves@ == spec_all_legal(*state, 64),
            max > i32::MIN,
            a > i32::MIN,
            beta > i32::MIN,
            alpha > i32::MIN,
            alpha < beta ==> {
                let tb = negamax_best(*state, moves@, idx as int, depth as nat);
                &&& a < beta
                &&& a as int == (if max > alpha {
                    max as int
                } else {
                    alpha as int
                })
                &&& tb <= max as int
                &&& max as int <= (if alpha as int > tb {
                    alpha as int
                } else {
                    tb
                })
            },
        decreases moves@.len() - idx,
    {
        let (from, to) = moves[idx];
        proof {
            lemma_all_legal_member(*state, 64, idx as int);
            let m = moves@[idx as int];
            let jj = choose|jj: int|
                0 <= jj < spec_legal_moves(*state, m.0 as int).len() && spec_legal_moves(
                    *state,
                    m.0 as int,
                )[jj] == m.1;
            lemma_legality_is_king_safety(*state, m.0 as int, jj);
            assert(move_ok(*state, from as int, to as int));
        }
        let mut temp: State = *state;
        make_move_on(from, to, &mut temp);
        proof {
            assert(is_child(*state, from as int, to as int, temp));
            lemma_child_eq(*state, from as int, to as int, temp);
        }
        let res = alpha_beta(&temp, -beta, -a, depth - 1);
        let eval = -res;
        proof {
            let m = moves@[idx as int];
            let vc = spec_negamax(temp, (depth - 1) as nat);
            lemma_negamax_bounds(temp, (depth - 1) as nat);
            assert(negamax_best(*state, moves@, idx + 1, depth as nat) == {
                let v = -spec_negamax(child_of(*state, m.0 as int, m.1 as int), (depth - 1) as nat);
                let rest = negamax_best(*state, moves@, idx as int, depth as nat);
                if v > rest {
                    v
                } else {
                    rest
                }
            });
            if alpha < beta && eval >= beta {
                // Cutoff: the whole position is worth at least this child.
                assert(vc <= res as int);
                assert(spec_negamax(*state, depth as nat) == negamax_best(
                    *state,
                    moves@,
                    moves@.len() as int,
                    depth as nat,
                ));
                lemma_best_ge(*state, moves@, moves@.len() as int, depth as nat, idx as int);
            }
        }
        if eval > a {
            a = eval;
        }
        if eval > max {
            max = eval;
        }
        if eval >= beta {
            return eval;
        }
        idx = idx + 1;
    }
    max
}

/// Plain negamax without pruning: computes exactly the negamax value of
/// the position at the given depth.
pub fn nega_max(state: &State, depth: usize) -> (r: i32)
    requires
        wf(*state),
    ensures
        r > i32::MIN,
        r as int == spec_negamax(*state, depth as nat),
    decreases depth,
{
    if depth == 0 {
        return evaluate(state.board, state.turn);
    }
    let moves = get_all_valid_moves(state);
    let mut max: i32 = i32::MIN + 1;
    let mut idx: usize = 0;
    while idx < moves.len()
        invariant
            wf(*state),
            depth >= 1,
            idx <= moves@.len(),
            moves@ == spec_all_legal(*state, 64),
            max > i32::MIN,
            max as int == negamax_best(*state, moves@, idx as int, depth as nat),
        decreases moves@.len() - idx,
    {
        let (from, to) = moves[idx];
        proof {
            lemma_all_legal_member(*state, 64, idx as int);
            let m = moves@[idx as int];
            let jj = choose|jj: int|
                0 <= jj < spec_legal_moves(*state, m.0 as int).len() && spec_legal_moves(
                    *state,
                    m.0 as int,
                )[jj] == m.1;
            lemma_legality_is_king_safety(*state, m.0 as int, jj);
            assert(move_ok(*state, from as int, to as int));
        }
        let mut temp: State = *state;
        make_move_on(from, to, &mut temp);
        proof {
            assert(is_child(*state, from as int, to as int, temp));
            lemma_child_eq(*state, from as int, to as int, temp);
        }
        let eval = -nega_max(&temp, depth - 1);
        proof {
            let m = moves@[idx as int];
            assert(negamax_best(*state, moves@, idx + 1, depth as nat) == {
                let v = -spec_negamax(child_of(*state, m.0 as int, m.1 as int), (depth - 1) as nat);
                let rest = negamax_best(*state, moves@, idx as int, depth as nat);
                if v > rest {
                    v
                } else {
                    rest
                }
            });
        }
        if eval > max {
            max = eval;
        }
        idx = idx + 1;
    }
    max
}

/// Search driver. At depth 0 it returns the sentinel move (64, 64) and the
/// static evaluation. Otherwise it examines every legal move with
/// alpha-beta pruning, and its score is exactly the negamax value of the
/// position; with no legal move it keeps the sentinel and scores the
/// position as mated (`i32::MIN + 2`, biased so that later mates compare
/// better) when in check, as stalemate (0) when not. A returned
/// non-sentinel move is one of the legal moves, and the sentinel comes
/// back only when no examined move beat the floor.
pub fn find_move(state: &State, depth: usize) -> (r: ((usize, usize), i32))
    requires
        wf(*state),
    ensures
        r.1 > i32::MIN,
        depth == 0 ==> r.0 == (64usize, 64usize) && r.1 as int == spec_eval(
            state.board@,
            state.turn,
        ),
        depth > 0 && spec_all_legal(*state, 64).len() == 0 ==> {
            &&& r.0 == (64usize, 64usize)
            &&& spec_in_check(state.board@, state.castling, state.en_passant, state.turn)
                ==> r.1 == i32::MIN + 2
            &&& !spec_in_check(state.board@, state.castling, state.en_passant, state.turn)
                ==> r.1 == 0
        },
        depth > 0 && spec_all_legal(*state, 64).len() > 0 ==> {
            &&& r.1 as int == spec_negamax(*state, depth as nat)
            &&& r.0 == (64usize, 64usize) ==> r.1 == i32::MIN + 1
            &&& r.0 != (64usize, 64usize) ==> exists|k: int|
                0 <= k < spec_all_legal(*state, 64).len() && spec_all_legal(*state, 64)[k] == r.0
        },
{
    if depth == 0 {
        return ((64, 64), evaluate(state.board, state.turn));
    }
    let moves = get_all_valid_moves(state);
    let mut best: (usize, usize) = (64, 64);
    let mut max: i32 = i32::MIN + 1;
    let mut move_possible = false;
    let mut idx: usize = 0;
    proof {
        lemma_all_legal_sources(*state, 64);
    }
    while idx < moves.len()
        invariant
            wf(*state),
            depth >= 1,
            idx <= moves@.len(),
            moves@ == spec_all_legal(*state, 64),
            forall|j: int| 0 <= j < moves@.len() ==> (#[trigger] moves@[j]).0 < 64,
            max > i32::MIN,
            max as int == negamax_best(*state, moves@, idx as int, depth as nat),
            !move_possible ==> max == i32::MIN + 1 && best == (64usize, 64usize) && idx == 0,
            move_possible ==> moves@.len() > 0,
            best == (64usize, 64usize) ==> max == i32::MIN + 1,
            best != (64usize, 64usize) ==> exists|k: int|
                0 <= k < moves@.len() && moves@[k] == best,
        decreases moves@.len() - idx,
    {
        let (from, to) = moves[idx];
        move_possible = true;
        proof {
            lemma_all_legal_member(*state, 64, idx as int);
            let m = moves@[idx as int];
            let jj = choose|jj: int|
                0 <= jj < spec_legal_moves(*state, m.0 as int).len() && spec_legal_moves(
                    *state,
                    m.0 as int,
                )[jj] == m.1;
            lemma_legality_is_king_safety(*state, m.0 as int, jj);
            assert(move_ok(*state, from as int, to as int));
        }
        let mut temp: State = *state;
        make_move_on(from, to, &mut temp);
        proof {
            assert(is_child(*state, from as int, to as int, temp));
            lemma_child_eq(*state, from as int, to as int, temp);
        }
        let res = alpha_beta(&temp, i32::MIN + 1, -max, depth - 1);
        let eval = -res;
        proof {
            let m = moves@[idx as int];
            let vc = spec_negamax(temp, (depth - 1) as nat);
            lemma_negamax_bounds(temp, (depth - 1) as nat);
            assert(negamax_best(*state, moves@, idx + 1, depth as nat) == {
                let v = -spec_negamax(child_of(*state, m.0 as int, m.1 as int), (depth - 1) as nat);
                let rest = negamax_best(*state, moves@, idx as int, depth as nat);
                if v > rest {
                    v
                } else {
                    rest
                }
            });
            if max < i32::MAX {
                if res <= i32::MIN + 1 {
                    assert(vc <= res as int);
                    assert(vc == i32::MIN + 1);
                    assert(eval as int == -vc);
                } else if res < -max {
                    assert(eval as int == -vc);
                } else {
                    assert(vc >= res as int);
                    assert(-vc <= eval as int && eval <= max);
                }
            } else {
                assert(-vc <= max as int);
            }
        }
        if eval > max {
            max = eval;
            best = (from, to);
            proof {
                assert(moves@[idx as int] == best);
            }
        }
        idx = idx + 1;
    }
    if !move_possible {
        if in_check_state(state) {
            max = max + 1;
        } else {
            max = 0;
        }
    }
    (best, max)
}

} // verus!
