//! Position representation and its hash-preserving mutators.
//!
//! A `State` carries the full position: board, side to move, castling
//! rights, en-passant target, clocks, promotion preference, and a Zobrist
//! hash. The hash is maintained incrementally: every change to a hashed
//! field goes through one of the mutators below, and well-formedness
//! (`wf`) states that the stored hash always equals a full rescan.

use vstd::prelude::*;

use crate::zobrist::{castling_key, castling_key_of, ep_file_key, ep_file_key_of, piece_key,
    piece_key_at, turn_key, turn_key_of};

verus! {

#[derive(Clone, Copy, PartialEq, Eq, Structural, Debug)]
pub enum PieceType {
    Pawn,
    Knight,
    Bishop,
    Rook,
    Queen,
    King,
}

#[derive(Clone, Copy, PartialEq, Eq, Structural, Debug)]
pub enum PieceColor {
    White,
    Black,
}

#[derive(Clone, Copy, PartialEq, Eq, Structural, Debug)]
pub struct Piece {
    pub color: PieceColor,
    pub tp: PieceType,
}

/// A complete position. Square indices run 0..64 with `index = rank*8 + file`,
/// rank 0 being Black's back rank and rank 7 White's back rank.
#[derive(Clone, Copy)]
pub struct State {
    pub board: [Option<Piece>; 64],
    pub turn: PieceColor,
    /// Bitmask: bit 0 White kingside, bit 1 White queenside,
    /// bit 2 Black kingside, bit 3 Black queenside.
    pub castling: u32,
    /// (rank, file) of the en-passant target square, or the sentinel (8, 8).
    pub en_passant: (usize, usize),
    pub halfmove_clock: u32,
    pub fullmove_number: u32,
    /// Piece kind a pawn is promoted to on reaching the last rank.
    pub promotion: PieceType,
    pub zob_hash: u64,
}

/// Numeric identity of a piece kind, 0..6.
pub open spec fn kind_id(t: PieceType) -> int {
    match t {
        PieceType::Pawn => 0,
        PieceType::Knight => 1,
        PieceType::Bishop => 2,
        PieceType::Rook => 3,
        PieceType::Queen => 4,
        PieceType::King => 5,
    }
}

/// Packed piece identity, 0..12: Black kinds first, then White kinds.
pub open spec fn piece_id(p: Piece) -> int {
    if p.color == PieceColor::Black {
        kind_id(p.tp)
    } else {
        6 + kind_id(p.tp)
    }
}

/// Hash contribution of one square: the piece key if occupied, else zero.
pub open spec fn square_key(sq: int, c: Option<Piece>) -> u64 {
    match c {
        Some(p) => piece_key(sq, piece_id(p)),
        None => 0,
    }
}

/// XOR of the piece keys of the first `n` squares.
pub open spec fn board_hash(b: Seq<Option<Piece>>, n: int) -> u64
    decreases n,
{
    if n <= 0 {
        0
    } else {
        board_hash(b, n - 1) ^ square_key(n - 1, b[n - 1])
    }
}

/// Hash contribution of the en-passant target: the file key when a target
/// is set, zero under the sentinel.
pub open spec fn ep_hash(ep: (usize, usize)) -> u64 {
    if ep.1 != 8 {
        ep_file_key(ep.1 as int)
    } else {
        0
    }
}

/// Hash contribution of the side to move.
pub open spec fn turn_hash(c: PieceColor) -> u64 {
    if c == PieceColor::Black {
        turn_key()
    } else {
        0
    }
}

/// The Zobrist signature a full rescan of the position yields.
pub open spec fn state_hash(s: State) -> u64 {
    ((board_hash(s.board@, 64) ^ castling_key(s.castling as int)) ^ ep_hash(s.en_passant))
        ^ turn_hash(s.turn)
}

/// The en-passant field is either the sentinel (8, 8) or a real square.
pub open spec fn ep_wf(ep: (usize, usize)) -> bool {
    (ep.0 == 8 && ep.1 == 8) || (ep.0 < 8 && ep.1 < 8)
}

/// Well-formedness: the castling mask has only its four defined bits, the
/// en-passant field is a square or the sentinel, and the stored hash equals
/// the full rescan.
pub open spec fn wf(s: State) -> bool {
    &&& s.castling < 16
    &&& ep_wf(s.en_passant)
    &&& s.zob_hash == state_hash(s)
}

proof fn lemma_xor_zero(x: u64)
    ensures
        x ^ 0 == x,
{
    assert(x ^ 0 == x) by (bit_vector);
}

/// Updating square `i` changes the XOR of the first `n` piece keys by the
/// old and new contribution of that square, and only then if `i < n`.
proof fn lemma_board_hash_update(b: Seq<Option<Piece>>, i: int, v: Option<Piece>, n: int)
    requires
        b.len() == 64,
        0 <= i < 64,
        0 <= n <= 64,
    ensures
        i < n ==> board_hash(b.update(i, v), n) == (board_hash(b, n) ^ square_key(i, b[i]))
            ^ square_key(i, v),
        i >= n ==> board_hash(b.update(i, v), n) == board_hash(b, n),
    decreases n,
{
    if n > 0 {
        lemma_board_hash_update(b, i, v, n - 1);
        let u = b.update(i, v);
        if i == n - 1 {
            let x = board_hash(b, n - 1);
            let a = square_key(i, b[i]);
            let w = square_key(i, v);
            assert(board_hash(u, n) == x ^ w);
            assert(x ^ w == ((x ^ a) ^ a) ^ w) by (bit_vector);
        } else if i < n - 1 {
            let x = board_hash(b, n - 1);
            let a = square_key(i, b[i]);
            let w = square_key(i, v);
            let k = square_key(n - 1, b[n - 1]);
            assert(u[n - 1] == b[n - 1]);
            assert(board_hash(u, n) == ((x ^ a) ^ w) ^ k);
            assert(((x ^ a) ^ w) ^ k == (((x ^ k) ^ a)) ^ w) by (bit_vector);
        }
    }
}

/// A board whose first `n` squares are empty contributes nothing to the hash.
proof fn lemma_board_hash_empty(b: Seq<Option<Piece>>, n: int)
    requires
        0 <= n <= b.len(),
        forall|i: int| 0 <= i < n ==> b[i] is None,
    ensures
        board_hash(b, n) == 0,
    decreases n,
{
    if n > 0 {
        lemma_board_hash_empty(b, n - 1);
        lemma_xor_zero(0);
    }
}

pub fn piece_id_of(piece: Piece) -> (r: usize)
    ensures
        r == piece_id(piece),
        r < 12,
{
    let base: usize = if piece.color == PieceColor::Black {
        0
    } else {
        6
    };
    let k: usize = match piece.tp {
        PieceType::Pawn => 0,
        PieceType::Knight => 1,
        PieceType::Bishop => 2,
        PieceType::Rook => 3,
        PieceType::Queen => 4,
        PieceType::King => 5,
    };
    base + k
}

impl State {
    /// The empty position: no pieces, White to move, no rights, no
    /// en-passant target, clocks at zero and one, Queen promotion.
    pub fn new() -> (r: State)
        ensures
            wf(r),
            r.board@ == Seq::new(64, |i: int| None::<Piece>),
            r.turn == PieceColor::White,
            r.castling == 0u32,
            r.en_passant == (8usize, 8usize),
            r.halfmove_clock == 0u32,
            r.fullmove_number == 1u32,
            r.promotion == PieceType::Queen,
    {
        let h = castling_key_of(0);
        let r = State {
            board: [None; 64],
            turn: PieceColor::White,
            castling: 0,
            en_passant: (8, 8),
            halfmove_clock: 0,
            fullmove_number: 1,
            promotion: PieceType::Queen,
            zob_hash: h,
        };
        proof {
            assert(r.board@ =~= Seq::new(64, |i: int| None::<Piece>));
            lemma_board_hash_empty(r.board@, 64);
            let c = castling_key(0);
            assert(((0u64 ^ c) ^ 0) ^ 0 == c) by (bit_vector);
        }
        r
    }

    /// Place `piece` on the (empty) square `ind`, folding its key into the hash.
    pub fn set_piece(&mut self, ind: usize, piece: Piece)
        requires
            wf(*old(self)),
            ind < 64,
            old(self).board[ind as int] is None,
        ensures
            wf(*final(self)),
            final(self).board@ == old(self).board@.update(ind as int, Some(piece)),
            final(self).turn == old(self).turn,
            final(self).castling == old(self).castling,
            final(self).en_passant == old(self).en_passant,
            final(self).halfmove_clock == old(self).halfmove_clock,
            final(self).fullmove_number == old(self).fullmove_number,
            final(self).promotion == old(self).promotion,
    {
        let id = piece_id_of(piece);
        let k = piece_key_at(ind, id);
        self.zob_hash = self.zob_hash ^ k;
        self.board[ind] = Some(piece);
        proof {
            lemma_board_hash_update(old(self).board@, ind as int, Some(piece), 64);
            let x = board_hash(old(self).board@, 64);
            let c = castling_key(self.castling as int);
            let e = ep_hash(self.en_passant);
            let t = turn_hash(self.turn);
            let kk = k;
            assert(board_hash(self.board@, 64) == (x ^ 0) ^ kk);
            assert((((((x ^ 0) ^ kk) ^ c) ^ e) ^ t) == ((((x ^ c) ^ e) ^ t) ^ kk))
                by (bit_vector);
        }
    }

    /// Clear square `ind`, folding the key of any piece there out of the hash.
    pub fn remove_piece(&mut self, ind: usize)
        requires
            wf(*old(self)),
            ind < 64,
        ensures
            wf(*final(self)),
            final(self).board@ == old(self).board@.update(ind as int, None),
            final(self).turn == old(self).turn,
            final(self).castling == old(self).castling,
            final(self).en_passant == old(self).en_passant,
            final(self).halfmove_clock == old(self).halfmove_clock,
            final(self).fullmove_number == old(self).fullmove_number,
            final(self).promotion == old(self).promotion,
    {
        if let Some(piece) = self.board[ind] {
            let id = piece_id_of(piece);
            let k = piece_key_at(ind, id);
            self.zob_hash = self.zob_hash ^ k;
            self.board[ind] = None;
            proof {
                lemma_board_hash_update(old(self).board@, ind as int, None, 64);
                let x = board_hash(old(self).board@, 64);
                let c = castling_key(self.castling as int);
                let e = ep_hash(self.en_passant);
                let t = turn_hash(self.turn);
                let kk = k;
                assert(board_hash(self.board@, 64) == (x ^ kk) ^ 0);
                assert((((((x ^ kk) ^ 0) ^ c) ^ e) ^ t) == ((((x ^ c) ^ e) ^ t) ^ kk))
                    by (bit_vector);
            }
        } else {
            proof {
                assert(self.board@ =~= old(self).board@.update(ind as int, None));
            }
        }
    }

    /// Flip the side to move, toggling the turn key in the hash.
    pub fn switch_turn(&mut self)
        requires
            wf(*old(self)),
        ensures
            wf(*final(self)),
            final(self).turn == (if old(self).turn == PieceColor::White {
                PieceColor::Black
            } else {
                PieceColor::White
            }),
            final(self).board@ == old(self).board@,
            final(self).castling == old(self).castling,
            final(self).en_passant == old(self).en_passant,
            final(self).halfmove_clock == old(self).halfmove_clock,
            final(self).fullmove_number == old(self).fullmove_number,
            final(self).promotion == old(self).promotion,
    {
        if self.turn == PieceColor::White {
            self.turn = PieceColor::Black;
        } else {
            self.turn = PieceColor::White;
        }
        let k = turn_key_of();
        self.zob_hash = self.zob_hash ^ k;
        proof {
            let x = (board_hash(self.board@, 64) ^ castling_key(self.castling as int))
                ^ ep_hash(self.en_passant);
            let t = turn_key();
            assert((x ^ 0) ^ t == x ^ t) by (bit_vector);
            assert((x ^ t) ^ t == x ^ 0) by (bit_vector);
        }
    }

    /// Replace the castling mask, swapping the old mask's key for the new one.
    pub fn set_castle(&mut self, cs: u32)
        requires
            wf(*old(self)),
            cs < 16,
        ensures
            wf(*final(self)),
            final(self).castling == cs,
            final(self).board@ == old(self).board@,
            final(self).turn == old(self).turn,
            final(self).en_passant == old(self).en_passant,
            final(self).halfmove_clock == old(self).halfmove_clock,
            final(self).fullmove_number == old(self).fullmove_number,
            final(self).promotion == old(self).promotion,
    {
        if cs == self.castling {
            return ;
        }
        let k_old = castling_key_of(self.castling);
        let k_new = castling_key_of(cs);
        self.zob_hash = self.zob_hash ^ k_old ^ k_new;
        self.castling = cs;
        proof {
            let x = board_hash(self.board@, 64);
            let c1 = castling_key(old(self).castling as int);
            let c2 = castling_key(cs as int);
            let e = ep_hash(self.en_passant);
            let t = turn_hash(self.turn);
            assert(((((((x ^ c1) ^ e) ^ t) ^ c1) ^ c2)) == (((x ^ c2) ^ e) ^ t))
                by (bit_vector);
        }
    }

    /// Replace the en-passant target, swapping file keys as needed. The
    /// sentinel (8, 8) means "no target" and contributes no key.
    pub fn set_en_passant(&mut self, rank: usize, file: usize)
        requires
            wf(*old(self)),
            (rank == 8 && file == 8) || (rank < 8 && file < 8),
        ensures
            wf(*final(self)),
            final(self).en_passant == (rank, file),
            final(self).board@ == old(self).board@,
            final(self).turn == old(self).turn,
            final(self).castling == old(self).castling,
            final(self).halfmove_clock == old(self).halfmove_clock,
            final(self).fullmove_number == old(self).fullmove_number,
            final(self).promotion == old(self).promotion,
    {
        if rank == self.en_passant.0 && file == self.en_passant.1 {
            return ;
        }
        if self.en_passant.1 != 8 {
            let k_old = ep_file_key_of(self.en_passant.1);
            self.zob_hash = self.zob_hash ^ k_old;
        }
        self.en_passant = (rank, file);
        if file != 8 {
            let k_new = ep_file_key_of(file);
            self.zob_hash = self.zob_hash ^ k_new;
        }
        proof {
            let x = board_hash(self.board@, 64) ^ castling_key(self.castling as int);
            let e1 = ep_hash(old(self).en_passant);
            let e2 = ep_hash(self.en_passant);
            let t = turn_hash(self.turn);
            if old(self).en_passant.1 != 8 && file != 8 {
                assert(((((x ^ e1) ^ t) ^ e1) ^ e2) == ((x ^ e2) ^ t)) by (bit_vector);
            } else if old(self).en_passant.1 != 8 {
                assert((((x ^ e1) ^ t) ^ e1) == ((x ^ 0) ^ t)) by (bit_vector);
            } else {
                assert((((x ^ 0) ^ t) ^ e2) == ((x ^ e2) ^ t)) by (bit_vector);
            }
        }
    }
}

impl State {
    /// Set the piece kind pawns promote to; only Queen, Rook, Bishop and
    /// Knight are accepted, anything else is ignored.
    pub fn set_promotion(&mut self, tp: PieceType)
        requires
            wf(*old(self)),
        ensures
            wf(*final(self)),
            (tp == PieceType::Queen || tp == PieceType::Rook || tp == PieceType::Bishop || tp
                == PieceType::Knight) ==> final(self).promotion == tp,
            !(tp == PieceType::Queen || tp == PieceType::Rook || tp == PieceType::Bishop || tp
                == PieceType::Knight) ==> final(self).promotion == old(self).promotion,
            final(self).board@ == old(self).board@,
            final(self).turn == old(self).turn,
            final(self).castling == old(self).castling,
            final(self).en_passant == old(self).en_passant,
            final(self).halfmove_clock == old(self).halfmove_clock,
            final(self).fullmove_number == old(self).fullmove_number,
            final(self).zob_hash == old(self).zob_hash,
    {
        match tp {
            PieceType::Queen | PieceType::Rook | PieceType::Bishop | PieceType::Knight => {
                self.promotion = tp;
            },
            _ => {},
        }
    }
}

/// Hash consistency: in a well-formed position the stored Zobrist hash is
/// exactly what a full rescan of board, castling mask, en-passant target
/// and side to move computes.
pub proof fn lemma_hash_is_rescan(s: State)
    requires
        wf(s),
    ensures
        s.zob_hash == state_hash(s),
{
}

/// Recompute the Zobrist signature of a position from scratch, for
/// differential checking against the incrementally maintained hash.
pub fn recompute_hash(state: &State) -> (r: u64)
    requires
        state.castling < 16,
        ep_wf(state.en_passant),
    ensures
        r == state_hash(*state),
{
    let mut h: u64 = 0;
    let mut i: usize = 0;
    while i < 64
        invariant
            i <= 64,
            h == board_hash(state.board@, i as int),
        decreases 64 - i,
    {
        if let Some(piece) = state.board[i] {
            let id = piece_id_of(piece);
            let k = piece_key_at(i, id);
            h = h ^ k;
        } else {
            proof {
                lemma_xor_zero(h);
            }
            assert(h ^ 0 == board_hash(state.board@, i + 1));
        }
        i = i + 1;
    }
    let mut r: u64 = h ^ castling_key_of(state.castling);
    if state.en_passant.1 != 8 {
        r = r ^ ep_file_key_of(state.en_passant.1);
    }
    if state.turn == PieceColor::Black {
        r = r ^ turn_key_of();
    }
    proof {
        let x = board_hash(state.board@, 64) ^ castling_key(state.castling as int);
        let e = ep_hash(state.en_passant);
        let t = turn_hash(state.turn);
        assert((x ^ 0) ^ 0 == x) by (bit_vector);
        assert((x ^ e) ^ 0 == x ^ e) by (bit_vector);
        assert((x ^ 0) ^ t == x ^ t) by (bit_vector);
    }
    r
}

} // verus!
