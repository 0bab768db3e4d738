//! FEN codec: parsing a Forsyth-Edwards record into a `State` and emitting
//! the canonical record of a `State`.
//!
//! Parsing works on the raw bytes of the input. A record has exactly six
//! whitespace-separated fields: board, side to move, castling rights,
//! en-passant square, halfmove clock, fullmove number. On any malformed
//! field the target position is left untouched.

use vstd::prelude::*;
use vstd::string::StringSliceAdditionalSpecFns;

use crate::chess::{ep_wf, wf, Piece, PieceColor, PieceType, State};

verus! {

/// ASCII whitespace, the field separator.
pub open spec fn is_ws(b: u8) -> bool {
    b == 32 || b == 9 || b == 10 || b == 11 || b == 12 || b == 13
}

/// First index at or after `i` holding a non-whitespace byte (or the end).
pub open spec fn skip_ws(s: Seq<u8>, i: int) -> int
    decreases s.len() - i,
{
    if i >= s.len() {
        i
    } else if is_ws(s[i]) {
        skip_ws(s, i + 1)
    } else {
        i
    }
}

/// First index at or after `i` holding whitespace (or the end).
pub open spec fn scan_tok(s: Seq<u8>, i: int) -> int
    decreases s.len() - i,
{
    if i >= s.len() {
        i
    } else if is_ws(s[i]) {
        i
    } else {
        scan_tok(s, i + 1)
    }
}

/// The piece a FEN letter denotes.
pub open spec fn piece_of_char(ch: u8) -> Option<Piece> {
    if ch == 112 {
        Some(Piece { color: PieceColor::Black, tp: PieceType::Pawn })
    } else if ch == 80 {
        Some(Piece { color: PieceColor::White, tp: PieceType::Pawn })
    } else if ch == 110 {
        Some(Piece { color: PieceColor::Black, tp: PieceType::Knight })
    } else if ch == 78 {
        Some(Piece { color: PieceColor::White, tp: PieceType::Knight })
    } else if ch == 98 {
        Some(Piece { color: PieceColor::Black, tp: PieceType::Bishop })
    } else if ch == 66 {
        Some(Piece { color: PieceColor::White, tp: PieceType::Bishop })
    } else if ch == 114 {
        Some(Piece { color: PieceColor::Black, tp: PieceType::Rook })
    } else if ch == 82 {
        Some(Piece { color: PieceColor::White, tp: PieceType::Rook })
    } else if ch == 113 {
        Some(Piece { color: PieceColor::Black, tp: PieceType::Queen })
    } else if ch == 81 {
        Some(Piece { color: PieceColor::White, tp: PieceType::Queen })
    } else if ch == 107 {
        Some(Piece { color: PieceColor::Black, tp: PieceType::King })
    } else if ch == 75 {
        Some(Piece { color: PieceColor::White, tp: PieceType::King })
    } else {
        None
    }
}

/// One step per byte of the board field: `rank` and `file` track the square
/// being filled (rank 0 is the first group, Black's back rank), `b` the
/// board built so far. A rank must fill exactly eight files.
pub open spec fn parse_board_rec(
    t: Seq<u8>,
    i: int,
    rank: int,
    file: int,
    b: Seq<Option<Piece>>,
) -> Option<Seq<Option<Piece>>>
    decreases t.len() - i,
{
    if i >= t.len() {
        if rank == 7 && file == 8 {
            Some(b)
        } else {
            None
        }
    } else {
        let ch = t[i];
        if ch == 47 {
            if file == 8 && rank < 7 {
                parse_board_rec(t, i + 1, rank + 1, 0, b)
            } else {
                None
            }
        } else if 49 <= ch <= 57 {
            if file + (ch - 48) <= 8 {
                parse_board_rec(t, i + 1, rank, file + (ch - 48), b)
            } else {
                None
            }
        } else {
            match piece_of_char(ch) {
                Some(p) => if 0 <= file < 8 && 0 <= rank < 8 {
                    parse_board_rec(t, i + 1, rank, file + 1, b.update(rank * 8 + file, Some(p)))
                } else {
                    None
                },
                None => None,
            }
        }
    }
}

/// The board a FEN board field denotes, starting from an empty board.
pub open spec fn spec_parse_board(t: Seq<u8>) -> Option<Seq<Option<Piece>>> {
    parse_board_rec(t, 0, 0, 0, Seq::new(64, |i: int| None::<Piece>))
}

/// The side to move a FEN field denotes: exactly "w" or "b".
pub open spec fn spec_parse_turn(t: Seq<u8>) -> Option<PieceColor> {
    if t == seq![119u8] {
        Some(PieceColor::White)
    } else if t == seq![98u8] {
        Some(PieceColor::Black)
    } else {
        None
    }
}

/// Fold the castling letters into the rights mask.
pub open spec fn castle_rec(t: Seq<u8>, i: int, acc: u32) -> Option<u32>
    decreases t.len() - i,
{
    if i >= t.len() {
        Some(acc)
    } else if t[i] == 75 {
        castle_rec(t, i + 1, acc | 1)
    } else if t[i] == 81 {
        castle_rec(t, i + 1, acc | 2)
    } else if t[i] == 107 {
        castle_rec(t, i + 1, acc | 4)
    } else if t[i] == 113 {
        castle_rec(t, i + 1, acc | 8)
    } else {
        None
    }
}

/// The castling mask a FEN field denotes: "-" or letters from "KQkq" in any
/// order.
pub open spec fn spec_parse_castling(t: Seq<u8>) -> Option<u32> {
    if t == seq![45u8] {
        Some(0)
    } else {
        castle_rec(t, 0, 0)
    }
}

/// The en-passant target a FEN field denotes: "-" for the sentinel (8, 8),
/// else a lowercase file letter and a rank digit 1..=8, converted to the
/// internal (rank, file) convention.
pub open spec fn spec_parse_ep(t: Seq<u8>) -> Option<(usize, usize)> {
    if t == seq![45u8] {
        Some((8usize, 8usize))
    } else if t.len() == 2 && 97 <= t[0] <= 122 && t[0] - 97 <= 7 && 49 <= t[1] <= 56 {
        Some(((8 - (t[1] - 48)) as usize, (t[0] - 97) as usize))
    } else {
        None
    }
}

/// Fold decimal digits into a number, failing on a non-digit or on a value
/// beyond `u32::MAX`.
pub open spec fn u32_rec(t: Seq<u8>, i: int, acc: u32) -> Option<u32>
    decreases t.len() - i,
{
    if i >= t.len() {
        Some(acc)
    } else if 48 <= t[i] <= 57 {
        if acc * 10 + (t[i] - 48) > u32::MAX {
            None
        } else {
            u32_rec(t, i + 1, (acc * 10 + (t[i] - 48)) as u32)
        }
    } else {
        None
    }
}

/// The clock value a FEN field denotes: one or more decimal digits.
pub open spec fn spec_parse_u32(t: Seq<u8>) -> Option<u32> {
    if t.len() == 0 {
        None
    } else {
        u32_rec(t, 0, 0)
    }
}

/// The position a whole FEN record denotes, or None if it is malformed:
/// wrong field count, bad board, bad side letter, bad castling letter,
/// malformed en-passant square, non-numeric clock, or a halfmove clock
/// above 100.
pub open spec fn spec_parse_fen(s: Seq<u8>) -> Option<
    (Seq<Option<Piece>>, PieceColor, u32, (usize, usize), u32, u32),
> {
    let i1 = skip_ws(s, 0);
    let j1 = scan_tok(s, i1);
    let i2 = skip_ws(s, j1);
    let j2 = scan_tok(s, i2);
    let i3 = skip_ws(s, j2);
    let j3 = scan_tok(s, i3);
    let i4 = skip_ws(s, j3);
    let j4 = scan_tok(s, i4);
    let i5 = skip_ws(s, j4);
    let j5 = scan_tok(s, i5);
    let i6 = skip_ws(s, j5);
    let j6 = scan_tok(s, i6);
    if !(i1 < s.len() && i2 < s.len() && i3 < s.len() && i4 < s.len() && i5 < s.len() && i6
        < s.len() && skip_ws(s, j6) >= s.len()) {
        None
    } else {
        let b = spec_parse_board(s.subrange(i1, j1));
        let tu = spec_parse_turn(s.subrange(i2, j2));
        let ca = spec_parse_castling(s.subrange(i3, j3));
        let ep = spec_parse_ep(s.subrange(i4, j4));
        let hm = spec_parse_u32(s.subrange(i5, j5));
        let fm = spec_parse_u32(s.subrange(i6, j6));
        if b is Some && tu is Some && ca is Some && ep is Some && hm is Some && fm is Some
            && hm->0 <= 100 {
            Some((b->0, tu->0, ca->0, ep->0, hm->0, fm->0))
        } else {
            None
        }
    }
}

fn is_ws_at(bytes: &[u8], i: usize) -> (r: bool)
    requires
        i < bytes@.len(),
    ensures
        r == is_ws(bytes@[i as int]),
{
    let b = bytes[i];
    b == 32 || b == 9 || b == 10 || b == 11 || b == 12 || b == 13
}

/// Bounds of the next token: first non-whitespace index from `start`, and
/// the first whitespace-or-end index after it.
fn tok(bytes: &[u8], start: usize) -> (r: (usize, usize))
    requires
        start <= bytes@.len(),
    ensures
        r.0 == skip_ws(bytes@, start as int),
        r.1 == scan_tok(bytes@, r.0 as int),
        start <= r.0 <= r.1 <= bytes@.len(),
{
    let n = bytes.len();
    let mut i = start;
    while i < n && is_ws_at(bytes, i)
        invariant
            start <= i <= n,
            n == bytes@.len(),
            skip_ws(bytes@, start as int) == skip_ws(bytes@, i as int),
        decreases n - i,
    {
        i = i + 1;
    }
    let mut j = i;
    while j < n && !is_ws_at(bytes, j)
        invariant
            i <= j <= n,
            n == bytes@.len(),
            scan_tok(bytes@, i as int) == scan_tok(bytes@, j as int),
        decreases n - j,
    {
        j = j + 1;
    }
    (i, j)
}

/// Copy `bytes[lo..hi]` out as an owned token.
fn copy_range(bytes: &[u8], lo: usize, hi: usize) -> (r: Vec<u8>)
    requires
        lo <= hi <= bytes@.len(),
    ensures
        r@ == bytes@.subrange(lo as int, hi as int),
{
    let mut v: Vec<u8> = Vec::new();
    let mut k = lo;
    while k < hi
        invariant
            lo <= k <= hi <= bytes@.len(),
            v@ == bytes@.subrange(lo as int, k as int),
        decreases hi - k,
    {
        v.push(bytes[k]);
        proof {
            assert(v@ =~= bytes@.subrange(lo as int, k + 1));
        }
        k = k + 1;
    }
    v
}

fn piece_of_char_exec(ch: u8) -> (r: Option<Piece>)
    ensures
        r == piece_of_char(ch),
{
    match ch {
        112 => Some(Piece { color: PieceColor::Black, tp: PieceType::Pawn }),
        80 => Some(Piece { color: PieceColor::White, tp: PieceType::Pawn }),
        110 => Some(Piece { color: PieceColor::Black, tp: PieceType::Knight }),
        78 => Some(Piece { color: PieceColor::White, tp: PieceType::Knight }),
        98 => Some(Piece { color: PieceColor::Black, tp: PieceType::Bishop }),
        66 => Some(Piece { color: PieceColor::White, tp: PieceType::Bishop }),
        114 => Some(Piece { color: PieceColor::Black, tp: PieceType::Rook }),
        82 => Some(Piece { color: PieceColor::White, tp: PieceType::Rook }),
        113 => Some(Piece { color: PieceColor::Black, tp: PieceType::Queen }),
        81 => Some(Piece { color: PieceColor::White, tp: PieceType::Queen }),
        107 => Some(Piece { color: PieceColor::Black, tp: PieceType::King }),
        75 => Some(Piece { color: PieceColor::White, tp: PieceType::King }),
        _ => None,
    }
}

/// Fill the (empty) board of `tmp` from the FEN board field.
fn parse_board_into(t: &Vec<u8>, tmp: &mut State) -> (r: Result<(), ()>)
    requires
        wf(*old(tmp)),
        forall|k: int| 0 <= k < 64 ==> old(tmp).board@[k] is None,
    ensures
        wf(*final(tmp)),
        final(tmp).turn == old(tmp).turn,
        final(tmp).castling == old(tmp).castling,
        final(tmp).en_passant == old(tmp).en_passant,
        final(tmp).halfmove_clock == old(tmp).halfmove_clock,
        final(tmp).fullmove_number == old(tmp).fullmove_number,
        final(tmp).promotion == old(tmp).promotion,
        r is Ok <==> parse_board_rec(t@, 0, 0, 0, old(tmp).board@) is Some,
        r is Ok ==> Some(final(tmp).board@) == parse_board_rec(t@, 0, 0, 0, old(tmp).board@),
{
    let n = t.len();
    let mut i: usize = 0;
    let mut rank: usize = 0;
    let mut file: usize = 0;
    while i < n
        invariant
            wf(*tmp),
            tmp.turn == old(tmp).turn,
            tmp.castling == old(tmp).castling,
            tmp.en_passant == old(tmp).en_passant,
            tmp.halfmove_clock == old(tmp).halfmove_clock,
            tmp.fullmove_number == old(tmp).fullmove_number,
            tmp.promotion == old(tmp).promotion,
            i <= n,
            n == t@.len(),
            rank <= 7,
            file <= 8,
            forall|k: int| rank * 8 + file <= k < 64 ==> tmp.board@[k] is None,
            parse_board_rec(t@, i as int, rank as int, file as int, tmp.board@)
                == parse_board_rec(t@, 0, 0, 0, old(tmp).board@),
        decreases n - i,
    {
        let ch = t[i];
        if ch == 47 {
            if file == 8 && rank < 7 {
                rank = rank + 1;
                file = 0;
            } else {
                return Err(());
            }
        } else if 49 <= ch && ch <= 57 {
            let d = (ch - 48) as usize;
            if file + d <= 8 {
                file = file + d;
            } else {
                return Err(());
            }
        } else {
            match piece_of_char_exec(ch) {
                Some(p) => {
                    if file < 8 && rank < 8 {
                        tmp.set_piece(rank * 8 + file, p);
                        file = file + 1;
                    } else {
                        return Err(());
                    }
                },
                None => {
                    return Err(());
                },
            }
        }
        i = i + 1;
    }
    if rank == 7 && file == 8 {
        Ok(())
    } else {
        Err(())
    }
}

fn parse_turn_tok(t: &Vec<u8>) -> (r: Option<PieceColor>)
    ensures
        r == spec_parse_turn(t@),
{
    if t.len() == 1 {
        let c = t[0];
        proof {
            if c == 119 {
                assert(t@ =~= seq![119u8]);
            }
            if c == 98 {
                assert(t@ =~= seq![98u8]);
            }
            if c != 119 && c != 98 {
                assert(t@ != seq![119u8] && t@ != seq![98u8]) by {
                    assert(t@[0] == c);
                    assert(seq![119u8][0] == 119u8);
                    assert(seq![98u8][0] == 98u8);
                }
            }
        }
        if c == 119 {
            Some(PieceColor::White)
        } else if c == 98 {
            Some(PieceColor::Black)
        } else {
            None
        }
    } else {
        proof {
            assert(t@.len() != 1);
            assert(seq![119u8].len() == 1 && seq![98u8].len() == 1);
        }
        None
    }
}

fn parse_castling_tok(t: &Vec<u8>) -> (r: Option<u32>)
    ensures
        r == spec_parse_castling(t@),
        r is Some ==> r->0 < 16,
{
    let dash = t.len() == 1 && t[0] == 45;
    proof {
        if dash {
            assert(t@ =~= seq![45u8]);
        } else {
            if t@.len() == 1 {
                assert(t@[0] != 45);
                assert(seq![45u8][0] == 45u8);
            }
            assert(t@ != seq![45u8]);
        }
    }
    if dash {
        return Some(0);
    }
    let n = t.len();
    let mut acc: u32 = 0;
    let mut i: usize = 0;
    while i < n
        invariant
            i <= n,
            n == t@.len(),
            acc < 16,
            t@ != seq![45u8],
            castle_rec(t@, 0, 0) == castle_rec(t@, i as int, acc),
        decreases n - i,
    {
        let c = t[i];
        proof {
            let a = acc;
            assert((a | 1) < 16 && (a | 2) < 16 && (a | 4) < 16 && (a | 8) < 16) by (bit_vector)
                requires
                    a < 16,
            ;
        }
        if c == 75 {
            acc = acc | 1;
        } else if c == 81 {
            acc = acc | 2;
        } else if c == 107 {
            acc = acc | 4;
        } else if c == 113 {
            acc = acc | 8;
        } else {
            return None;
        }
        i = i + 1;
    }
    Some(acc)
}

fn parse_ep_tok(t: &Vec<u8>) -> (r: Option<(usize, usize)>)
    ensures
        r == spec_parse_ep(t@),
        r is Some ==> ep_wf(r->0),
{
    let dash = t.len() == 1 && t[0] == 45;
    proof {
        if dash {
            assert(t@ =~= seq![45u8]);
        } else {
            if t@.len() == 1 {
                assert(t@[0] != 45);
                assert(seq![45u8][0] == 45u8);
            }
            assert(t@ != seq![45u8]);
        }
    }
    if dash {
        return Some((8, 8));
    }
    if t.len() == 2 {
        let f = t[0];
        let d = t[1];
        if 97 <= f && f <= 122 && f - 97 <= 7 && 49 <= d && d <= 56 {
            return Some(((8 - (d - 48)) as usize, (f - 97) as usize));
        }
    }
    None
}

fn parse_u32_tok(t: &Vec<u8>) -> (r: Option<u32>)
    ensures
        r == spec_parse_u32(t@),
{
    let n = t.len();
    if n == 0 {
        return None;
    }
    let mut acc: u32 = 0;
    let mut i: usize = 0;
    while i < n
        invariant
            i <= n,
            n == t@.len(),
            n > 0,
            u32_rec(t@, 0, 0) == u32_rec(t@, i as int, acc),
        decreases n - i,
    {
        let c = t[i];
        if 48 <= c && c <= 57 {
            let d = (c - 48) as u32;
            if acc > 429496729 || (acc == 429496729 && d > 5) {
                return None;
            }
            acc = acc * 10 + d;
        } else {
            return None;
        }
        i = i + 1;
    }
    Some(acc)
}

/// Parse a FEN record into `state`. On success every field of the position
/// is replaced (the promotion preference is kept); on failure the position
/// is left exactly as it was.
pub fn state_from_fen(fen: &str, state: &mut State) -> (r: Result<(), ()>)
    requires
        wf(*old(state)),
    ensures
        wf(*final(state)),
        r is Ok <==> spec_parse_fen(fen.spec_bytes()) is Some,
        r is Ok ==> {
            let f = spec_parse_fen(fen.spec_bytes())->0;
            &&& final(state).board@ == f.0
            &&& final(state).turn == f.1
            &&& final(state).castling == f.2
            &&& final(state).en_passant == f.3
            &&& final(state).halfmove_clock == f.4
            &&& final(state).fullmove_number == f.5
            &&& final(state).promotion == old(state).promotion
        },
        r is Err ==> *final(state) == *old(state),
{
    let bytes: &[u8] = fen.as_bytes();
    let n = bytes.len();
    let (i1, j1) = tok(bytes, 0);
    let (i2, j2) = tok(bytes, j1);
    let (i3, j3) = tok(bytes, j2);
    let (i4, j4) = tok(bytes, j3);
    let (i5, j5) = tok(bytes, j4);
    let (i6, j6) = tok(bytes, j5);
    let (i7, _j7) = tok(bytes, j6);
    if !(i1 < n && i2 < n && i3 < n && i4 < n && i5 < n && i6 < n && i7 >= n) {
        return Err(());
    }
    let t1 = copy_range(bytes, i1, j1);
    let t2 = copy_range(bytes, i2, j2);
    let t3 = copy_range(bytes, i3, j3);
    let t4 = copy_range(bytes, i4, j4);
    let t5 = copy_range(bytes, i5, j5);
    let t6 = copy_range(bytes, i6, j6);

    let mut tmp = State::new();
    tmp.promotion = state.promotion;

    if parse_board_into(&t1, &mut tmp).is_err() {
        return Err(());
    }
    match parse_turn_tok(&t2) {
        Some(c) => {
            if c == PieceColor::Black {
                tmp.switch_turn();
            }
        },
        None => {
            return Err(());
        },
    }
    match parse_castling_tok(&t3) {
        Some(cs) => {
            tmp.set_castle(cs);
        },
        None => {
            return Err(());
        },
    }
    match parse_ep_tok(&t4) {
        Some(ep) => {
            tmp.set_en_passant(ep.0, ep.1);
        },
        None => {
            return Err(());
        },
    }
    let hm = match parse_u32_tok(&t5) {
        Some(v) => v,
        None => {
            return Err(());
        },
    };
    let fm = match parse_u32_tok(&t6) {
        Some(v) => v,
        None => {
            return Err(());
        },
    };
    if hm > 100 {
        return Err(());
    }
    tmp.halfmove_clock = hm;
    tmp.fullmove_number = fm;
    *state = tmp;
    Ok(())
}

/// The FEN letter for a piece.
pub open spec fn char_of_piece(p: Piece) -> u8 {
    match p.tp {
        PieceType::Pawn => if p.color == PieceColor::White {
            80
        } else {
            112
        },
        PieceType::Knight => if p.color == PieceColor::White {
            78
        } else {
            110
        },
        PieceType::Bishop => if p.color == PieceColor::White {
            66
        } else {
            98
        },
        PieceType::Rook => if p.color == PieceColor::White {
            82
        } else {
            114
        },
        PieceType::Queen => if p.color == PieceColor::White {
            81
        } else {
            113
        },
        PieceType::King => if p.color == PieceColor::White {
            75
        } else {
            107
        },
    }
}

/// Decimal digits of a non-negative number, most significant first.
pub open spec fn dec(n: int) -> Seq<u8>
    decreases n,
{
    if n <= 9 {
        seq![(48 + (if n >= 0 {
            n
        } else {
            0
        })) as u8]
    } else {
        dec(n / 10) + seq![(48 + n % 10) as u8]
    }
}

/// One rank of the board field, from `file` on, with `run` empty squares
/// pending compression.
pub open spec fn emit_rank_rec(b: Seq<Option<Piece>>, rank: int, file: int, run: int) -> Seq<u8>
    decreases 8 - file,
{
    if file >= 8 {
        if run > 0 {
            seq![(48 + run) as u8]
        } else {
            Seq::empty()
        }
    } else {
        match b[rank * 8 + file] {
            None => emit_rank_rec(b, rank, file + 1, run + 1),
            Some(p) => (if run > 0 {
                seq![(48 + run) as u8]
            } else {
                Seq::empty()
            }) + seq![char_of_piece(p)] + emit_rank_rec(b, rank, file + 1, 0),
        }
    }
}

/// The board field from `rank` down, ranks separated by '/'.
pub open spec fn emit_board_rec(b: Seq<Option<Piece>>, rank: int) -> Seq<u8>
    decreases 8 - rank,
{
    if rank >= 8 {
        Seq::empty()
    } else {
        emit_rank_rec(b, rank, 0, 0) + (if rank < 7 {
            seq![47u8]
        } else {
            Seq::empty()
        }) + emit_board_rec(b, rank + 1)
    }
}

/// The castling field: the held rights in canonical K, Q, k, q order, or
/// '-' when none is held.
pub open spec fn emit_castling(c: u32) -> Seq<u8> {
    let s = (if c & 1 == 1 {
        seq![75u8]
    } else {
        Seq::empty()
    }) + (if c & 2 == 2 {
        seq![81u8]
    } else {
        Seq::empty()
    }) + (if c & 4 == 4 {
        seq![107u8]
    } else {
        Seq::empty()
    }) + (if c & 8 == 8 {
        seq![113u8]
    } else {
        Seq::empty()
    });
    if s.len() == 0 {
        seq![45u8]
    } else {
        s
    }
}

/// The en-passant field: '-' under the sentinel, else file letter and rank
/// digit in algebraic notation.
pub open spec fn emit_ep(ep: (usize, usize)) -> Seq<u8> {
    if ep.0 == 8 && ep.1 == 8 {
        seq![45u8]
    } else {
        seq![(97 + ep.1) as u8, (48 + (8 - ep.0)) as u8]
    }
}

/// The canonical FEN record of a position.
pub open spec fn spec_fen(s: State) -> Seq<u8> {
    emit_board_rec(s.board@, 0) + seq![32u8] + (if s.turn == PieceColor::White {
        seq![119u8]
    } else {
        seq![98u8]
    }) + seq![32u8] + emit_castling(s.castling) + seq![32u8] + emit_ep(s.en_passant) + seq![32u8]
        + dec(s.halfmove_clock as int) + seq![32u8] + dec(s.fullmove_number as int)
}

fn char_of_piece_exec(p: Piece) -> (r: u8)
    ensures
        r == char_of_piece(p),
{
    match p.tp {
        PieceType::Pawn => if p.color == PieceColor::White {
            80
        } else {
            112
        },
        PieceType::Knight => if p.color == PieceColor::White {
            78
        } else {
            110
        },
        PieceType::Bishop => if p.color == PieceColor::White {
            66
        } else {
            98
        },
        PieceType::Rook => if p.color == PieceColor::White {
            82
        } else {
            114
        },
        PieceType::Queen => if p.color == PieceColor::White {
            81
        } else {
            113
        },
        PieceType::King => if p.color == PieceColor::White {
            75
        } else {
            107
        },
    }
}

/// Append the decimal digits of `n`.
fn push_dec(v: &mut Vec<u8>, n: u32)
    ensures
        final(v)@ == old(v)@ + dec(n as int),
    decreases n,
{
    if n <= 9 {
        v.push(48 + (n as u8));
    } else {
        push_dec(v, n / 10);
        v.push(48 + ((n % 10) as u8));
        proof {
            assert(v@ =~= old(v)@ + dec(n as int));
        }
    }
}

/// Append one rank of the board field, empty runs compressed.
fn emit_rank(v: &mut Vec<u8>, state: &State, rank: usize)
    requires
        rank < 8,
    ensures
        final(v)@ == old(v)@ + emit_rank_rec(state.board@, rank as int, 0, 0),
{
    let ghost bs = state.board@;
    let ghost pre = v@;
    let mut file: usize = 0;
    let mut run: usize = 0;
    while file < 8
        invariant
            rank < 8,
            file <= 8,
            run <= file,
            bs == state.board@,
            v@ + emit_rank_rec(bs, rank as int, file as int, run as int) == pre + emit_rank_rec(
                bs,
                rank as int,
                0,
                0,
            ),
        decreases 8 - file,
    {
        let ghost vpre = v@;
        match state.board[rank * 8 + file] {
            None => {
                proof {
                    assert(emit_rank_rec(bs, rank as int, file as int, run as int)
                        == emit_rank_rec(bs, rank as int, file + 1, run + 1));
                }
                run = run + 1;
            },
            Some(p) => {
                if run > 0 {
                    v.push(48 + (run as u8));
                }
                v.push(char_of_piece_exec(p));
                proof {
                    assert(emit_rank_rec(bs, rank as int, file as int, run as int) == (if run > 0 {
                        seq![(48 + run) as u8]
                    } else {
                        Seq::<u8>::empty()
                    }) + seq![char_of_piece(p)] + emit_rank_rec(bs, rank as int, file + 1, 0));
                    assert(v@ =~= vpre + (if run > 0 {
                        seq![(48 + run) as u8]
                    } else {
                        Seq::<u8>::empty()
                    }) + seq![char_of_piece(p)]);
                    assert(v@ + emit_rank_rec(bs, rank as int, file + 1, 0) =~= pre
                        + emit_rank_rec(bs, rank as int, 0, 0));
                }
                run = 0;
            },
        }
        file = file + 1;
    }
    if run > 0 {
        v.push(48 + (run as u8));
    }
    proof {
        assert(emit_rank_rec(bs, rank as int, 8, run as int) == (if run > 0 {
            seq![(48 + run) as u8]
        } else {
            Seq::<u8>::empty()
        }));
        assert(v@ =~= pre + emit_rank_rec(bs, rank as int, 0, 0));
    }
}

/// Append the whole board field, ranks separated by '/'.
fn emit_board(v: &mut Vec<u8>, state: &State)
    ensures
        final(v)@ == old(v)@ + emit_board_rec(state.board@, 0),
{
    let ghost bs = state.board@;
    let ghost pre = v@;
    let mut rank: usize = 0;
    while rank < 8
        invariant
            rank <= 8,
            bs == state.board@,
            v@ + emit_board_rec(bs, rank as int) == pre + emit_board_rec(bs, 0),
        decreases 8 - rank,
    {
        let ghost vpre = v@;
        emit_rank(v, state, rank);
        if rank < 7 {
            v.push(47);
        }
        proof {
            assert(emit_board_rec(bs, rank as int) == emit_rank_rec(bs, rank as int, 0, 0) + (
            if rank < 7 {
                seq![47u8]
            } else {
                Seq::<u8>::empty()
            }) + emit_board_rec(bs, rank + 1));
            assert(v@ + emit_board_rec(bs, rank + 1) =~= pre + emit_board_rec(bs, 0));
        }
        rank = rank + 1;
    }
    proof {
        assert(emit_board_rec(bs, 8) == Seq::<u8>::empty());
        assert(v@ =~= pre + emit_board_rec(bs, 0));
    }
}

/// Append the castling field.
fn emit_castle_field(v: &mut Vec<u8>, c: u32)
    ensures
        final(v)@ == old(v)@ + emit_castling(c),
{
    let mut any = false;
    if c & 1 == 1 {
        v.push(75);
        any = true;
    }
    if c & 2 == 2 {
        v.push(81);
        any = true;
    }
    if c & 4 == 4 {
        v.push(107);
        any = true;
    }
    if c & 8 == 8 {
        v.push(113);
        any = true;
    }
    if !any {
        v.push(45);
    }
    proof {
        assert(v@ =~= old(v)@ + emit_castling(c));
    }
}

/// Append the en-passant field.
fn emit_ep_field(v: &mut Vec<u8>, ep: (usize, usize))
    requires
        ep_wf(ep),
    ensures
        final(v)@ == old(v)@ + emit_ep(ep),
{
    if ep.0 == 8 && ep.1 == 8 {
        v.push(45);
    } else {
        v.push(97 + (ep.1 as u8));
        v.push(48 + ((8 - ep.0) as u8));
    }
    proof {
        assert(v@ =~= old(v)@ + emit_ep(ep));
    }
}

/// Emit the canonical FEN record of a position: ranks from Black's back
/// rank down with empty runs compressed, then side to move, castling
/// rights in K-Q-k-q order, en-passant square, and the two clocks.
#[verifier::rlimit(100)]
pub fn emit_fen(state: &State) -> (r: Vec<u8>)
    requires
        wf(*state),
    ensures
        r@ == spec_fen(*state),
{
    let ghost g1 = emit_board_rec(state.board@, 0);
    let ghost g2 = g1 + seq![32u8];
    let ghost g3 = g2 + (if state.turn == PieceColor::White {
        seq![119u8]
    } else {
        seq![98u8]
    });
    let ghost g4 = g3 + seq![32u8];
    let ghost g5 = g4 + emit_castling(state.castling);
    let ghost g6 = g5 + seq![32u8];
    let ghost g7 = g6 + emit_ep(state.en_passant);
    let ghost g8 = g7 + seq![32u8];
    let ghost g9 = g8 + dec(state.halfmove_clock as int);
    let ghost g10 = g9 + seq![32u8];
    let ghost g11 = g10 + dec(state.fullmove_number as int);

    let mut v: Vec<u8> = Vec::new();
    emit_board(&mut v, state);
    proof {
        assert(v@ =~= g1);
    }
    v.push(32);
    if state.turn == PieceColor::White {
        v.push(119);
    } else {
        v.push(98);
    }
    proof {
        assert(v@ =~= g3);
    }
    v.push(32);
    emit_castle_field(&mut v, state.castling);
    proof {
        assert(v@ =~= g5);
    }
    v.push(32);
    emit_ep_field(&mut v, state.en_passant);
    proof {
        assert(v@ =~= g7);
    }
    v.push(32);
    push_dec(&mut v, state.halfmove_clock);
    proof {
        assert(v@ =~= g9);
    }
    v.push(32);
    push_dec(&mut v, state.fullmove_number);
    proof {
        assert(v@ =~= g11);
        assert(g11 =~= spec_fen(*state));
    }
    v
}

} // verus!
