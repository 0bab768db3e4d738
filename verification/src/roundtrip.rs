//! The FEN round trip: parsing the canonical record emitted for a
//! well-formed position recovers exactly that position's fields.

use vstd::prelude::*;

use crate::chess::{ep_wf, wf, Piece, PieceColor, State};
use crate::fen::{castle_rec, dec, emit_board_rec, emit_castling, emit_ep, emit_rank_rec, is_ws,
    parse_board_rec, piece_of_char, char_of_piece, scan_tok, skip_ws, spec_fen, spec_parse_board,
    spec_parse_castling, spec_parse_ep, spec_parse_fen, spec_parse_turn, spec_parse_u32, u32_rec};

verus! {

/// Appending one more digit to a number's token multiplies and adds.
proof fn lemma_u32_rec_snoc(t: Seq<u8>, d: u8, i: int, acc: u32)
    requires
        0 <= i <= t.len(),
    ensures
        u32_rec(t.push(d), i, acc) == (match u32_rec(t, i, acc) {
            Some(v) => if 48 <= d <= 57 && v * 10 + (d - 48) <= u32::MAX {
                Some((v * 10 + (d - 48)) as u32)
            } else {
                None
            },
            None => None,
        }),
    decreases t.len() - i,
{
    if i == t.len() {
        assert(t.push(d)[i] == d);
        assert(u32_rec(t, i, acc) == Some(acc));
        if 48 <= d <= 57 && acc * 10 + (d - 48) <= u32::MAX {
            assert(u32_rec(t.push(d), i + 1, (acc * 10 + (d - 48)) as u32) == Some(
                (acc * 10 + (d - 48)) as u32,
            ));
        }
    } else {
        assert(t.push(d)[i] == t[i]);
        if 48 <= t[i] <= 57 && acc * 10 + (t[i] - 48) <= u32::MAX {
            lemma_u32_rec_snoc(t, d, i + 1, (acc * 10 + (t[i] - 48)) as u32);
        }
    }
}

/// Every digit of a number's decimal form is an ASCII digit.
proof fn lemma_dec_digits(n: int)
    requires
        n >= 0,
    ensures
        dec(n).len() >= 1,
        forall|k: int| 0 <= k < dec(n).len() ==> 48 <= #[trigger] dec(n)[k] <= 57,
    decreases n,
{
    if n > 9 {
        lemma_dec_digits(n / 10);
        assert forall|k: int| 0 <= k < dec(n).len() implies 48 <= #[trigger] dec(n)[k] <= 57 by {
            if k < dec(n / 10).len() {
                assert(dec(n)[k] == dec(n / 10)[k]);
            } else {
                assert(dec(n)[k] == (48 + n % 10) as u8);
            }
        }
    }
}

/// Parsing the decimal form of a number yields the number back.
proof fn lemma_parse_dec(n: u32)
    ensures
        spec_parse_u32(dec(n as int)) == Some(n),
    decreases n,
{
    lemma_dec_digits(n as int);
    if n <= 9 {
        assert(dec(n as int) == seq![(48 + n) as u8]);
        let t = seq![(48 + n) as u8];
        assert(t.len() == 1 && t[0] == (48 + n) as u8);
        assert(u32_rec(t, 1, n) == Some(n));
        assert(u32_rec(t, 0, 0) == Some(n));
    } else {
        lemma_parse_dec(n / 10);
        let hd = dec((n / 10) as int);
        let d = (48 + n % 10) as u8;
        assert(dec(n as int) =~= hd.push(d));
        lemma_u32_rec_snoc(hd, d, 0, 0);
        assert((n / 10) * 10 + (d - 48) == n);
        assert(dec(n as int).len() > 1);
    }
}

/// Parsing the emitted castling field yields the mask back.
proof fn lemma_parse_castling_emit(c: u32)
    requires
        c < 16,
    ensures
        spec_parse_castling(emit_castling(c)) == Some(c),
{
    let sk = if c & 1 == 1 {
        seq![75u8]
    } else {
        Seq::<u8>::empty()
    };
    let sq = if c & 2 == 2 {
        seq![81u8]
    } else {
        Seq::<u8>::empty()
    };
    let sbk = if c & 4 == 4 {
        seq![107u8]
    } else {
        Seq::<u8>::empty()
    };
    let sbq = if c & 8 == 8 {
        seq![113u8]
    } else {
        Seq::<u8>::empty()
    };
    let s = sk + sq + sbk + sbq;
    if s.len() == 0 {
        assert(c & 1 != 1 && c & 2 != 2 && c & 4 != 4 && c & 8 != 8);
        assert(c < 16 && c & 1 != 1 && c & 2 != 2 && c & 4 != 4 && c & 8 != 8 ==> c == 0)
            by (bit_vector);
        assert(emit_castling(c) == seq![45u8]);
    } else {
        // Step through the at most four letters, accumulating the bits.
        let a0: u32 = 0;
        let a1: u32 = if c & 1 == 1 {
            a0 | 1
        } else {
            a0
        };
        let a2: u32 = if c & 2 == 2 {
            a1 | 2
        } else {
            a1
        };
        let a3: u32 = if c & 4 == 4 {
            a2 | 4
        } else {
            a2
        };
        let a4: u32 = if c & 8 == 8 {
            a3 | 8
        } else {
            a3
        };
        assert(castle_rec(s, s.len() as int, a4) == Some(a4));
        let m1: u32 = if c & 1 == 1 {
            1
        } else {
            0
        };
        let m2: u32 = if c & 2 == 2 {
            2
        } else {
            0
        };
        let m4: u32 = if c & 4 == 4 {
            4
        } else {
            0
        };
        let m8: u32 = if c & 8 == 8 {
            8
        } else {
            0
        };
        assert(0u32 | 1 == 1) by (bit_vector);
        assert(a1 == m1);
        assert(m1 | 0 == m1) by (bit_vector);
        assert(a2 == m1 | m2);
        let m12 = m1 | m2;
        assert(m12 | 0 == m12) by (bit_vector);
        assert(a3 == m12 | m4);
        let m124 = m12 | m4;
        assert(m124 | 0 == m124) by (bit_vector);
        assert(a4 == m124 | m8);
        assert(c < 16 ==> ((((if c & 1 == 1 {
            1u32
        } else {
            0u32
        }) | (if c & 2 == 2 {
            2u32
        } else {
            0u32
        })) | (if c & 4 == 4 {
            4u32
        } else {
            0u32
        })) | (if c & 8 == 8 {
            8u32
        } else {
            0u32
        })) == c) by (bit_vector);
        assert(a4 == c);
        // Each prefix step of castle_rec consumes the matching letter.
        let l1 = sk.len() as int;
        let l2 = l1 + sq.len() as int;
        let l3 = l2 + sbk.len() as int;
        let l4 = l3 + sbq.len() as int;
        assert(castle_rec(s, l3, a3) == Some(a4)) by {
            if c & 8 == 8 {
                assert(s[l3] == 113);
            }
        }
        assert(castle_rec(s, l2, a2) == Some(a4)) by {
            if c & 4 == 4 {
                assert(s[l2] == 107);
            }
        }
        assert(castle_rec(s, l1, a1) == Some(a4)) by {
            if c & 2 == 2 {
                assert(s[l1] == 81);
            }
        }
        assert(castle_rec(s, 0, a0) == Some(a4)) by {
            if c & 1 == 1 {
                assert(s[0] == 75);
            }
        }
        assert(s != seq![45u8]) by {
            if s.len() == 1 {
                assert(s[0] == 75 || s[0] == 81 || s[0] == 107 || s[0] == 113);
            }
        }
        assert(emit_castling(c) == s);
    }
}

/// Parsing the emitted en-passant field yields the target back.
proof fn lemma_parse_ep_emit(ep: (usize, usize))
    requires
        ep_wf(ep),
    ensures
        spec_parse_ep(emit_ep(ep)) == Some(ep),
{
    if ep.0 == 8 && ep.1 == 8 {
        assert(emit_ep(ep) == seq![45u8]);
    } else {
        let t = emit_ep(ep);
        assert(t.len() == 2);
        assert(t[0] == (97 + ep.1) as u8 && t[1] == (48 + (8 - ep.0)) as u8);
        assert(t != seq![45u8]);
        assert(spec_parse_ep(t) == Some(ep));
    }
}

/// Parsing the emitted side-to-move field yields the side back.
proof fn lemma_parse_turn_emit(c: PieceColor)
    ensures
        spec_parse_turn(
            if c == PieceColor::White {
                seq![119u8]
            } else {
                seq![98u8]
            },
        ) == Some(c),
{
    assert(seq![119u8] != seq![98u8]) by {
        assert(seq![119u8][0] == 119u8 && seq![98u8][0] == 98u8);
    }
}


/// The first `n` squares of `b`, the rest still empty: the parser's board
/// after it has worked through squares 0..n.
pub open spec fn proto(b: Seq<Option<Piece>>, n: int) -> Seq<Option<Piece>> {
    Seq::new(64, |k: int| if k < n { b[k] } else { None::<Piece> })
}

/// A piece's FEN letter maps back to the piece, and is neither a digit nor
/// a rank separator.
proof fn lemma_piece_char_inverse(p: Piece)
    ensures
        piece_of_char(char_of_piece(p)) == Some(p),
        !(49 <= char_of_piece(p) <= 57),
        char_of_piece(p) != 47,
{
}

/// Parsing what `emit_rank_rec` produced advances the parser from
/// (rank, file - run) to (rank, 8), filling exactly the emitted squares.
proof fn lemma_parse_rank(b: Seq<Option<Piece>>, rank: int, file: int, run: int, t: Seq<u8>, i: int)
    requires
        b.len() == 64,
        0 <= rank < 8,
        0 <= file <= 8,
        0 <= run <= file,
        forall|k: int| file - run <= k < file ==> (#[trigger] b[rank * 8 + k]) is None,
        0 <= i,
        i + emit_rank_rec(b, rank, file, run).len() <= t.len(),
        t.subrange(i, i + emit_rank_rec(b, rank, file, run).len()) == emit_rank_rec(
            b,
            rank,
            file,
            run,
        ),
    ensures
        parse_board_rec(t, i, rank, file - run, proto(b, rank * 8 + file - run))
            == parse_board_rec(
            t,
            i + emit_rank_rec(b, rank, file, run).len(),
            rank,
            8,
            proto(b, rank * 8 + 8),
        ),
    decreases 8 - file,
{
    let er = emit_rank_rec(b, rank, file, run);
    if file >= 8 {
        if run > 0 {
            assert(er == seq![(48 + run) as u8]);
            assert(t[i] == er[0]) by {
                assert(t.subrange(i, i + er.len() as int)[0] == t[i]);
            }
            assert forall|j: int| 0 <= j < 64 implies #[trigger] proto(b, rank * 8 + file - run)[j]
                == proto(b, rank * 8 + 8)[j] by {
                if rank * 8 + file - run <= j < rank * 8 + 8 {
                    assert(b[rank * 8 + (j - rank * 8)] is None);
                }
            }
            assert(proto(b, rank * 8 + file - run) =~= proto(b, rank * 8 + 8));
        } else {
            assert(er.len() == 0);
        }
    } else {
        match b[rank * 8 + file] {
            None => {
                assert(er == emit_rank_rec(b, rank, file + 1, run + 1));
                lemma_parse_rank(b, rank, file + 1, run + 1, t, i);
            },
            Some(p) => {
                lemma_piece_char_inverse(p);
                let pre = if run > 0 {
                    seq![(48 + run) as u8]
                } else {
                    Seq::<u8>::empty()
                };
                let ch = char_of_piece(p);
                let tail = emit_rank_rec(b, rank, file + 1, 0);
                assert(er == pre + seq![ch] + tail);
                let i2 = i + pre.len() + 1;
                assert forall|k: int| 0 <= k < er.len() implies t[i + k] == er[k] by {
                    assert(t.subrange(i, i + er.len() as int)[k] == t[i + k]);
                }
                let cut = rank * 8 + file - run;
                let b0 = proto(b, cut);
                if run > 0 {
                    assert(t.subrange(i, i + er.len() as int)[0] == t[i]);
                    assert(er[0] == (48 + run) as u8);
                    assert(t[i] == (48 + run) as u8);
                    assert(parse_board_rec(t, i, rank, file - run, b0) == parse_board_rec(
                        t,
                        i + 1,
                        rank,
                        file,
                        b0,
                    ));
                }
                assert(t.subrange(i, i + er.len() as int)[pre.len() as int] == t[i + pre.len()]);
                assert(er[pre.len() as int] == ch);
                assert(t[i + pre.len()] == ch);
                assert(parse_board_rec(t, i + pre.len(), rank, file, b0) == parse_board_rec(
                    t,
                    i2,
                    rank,
                    file + 1,
                    b0.update(rank * 8 + file, Some(p)),
                ));
                assert forall|j: int|
                    0 <= j < 64 implies #[trigger] b0.update(rank * 8 + file, Some(p))[j]
                    == proto(b, rank * 8 + file + 1)[j] by {
                    if j != rank * 8 + file && cut <= j < rank * 8 + file {
                        assert(b[rank * 8 + (j - rank * 8)] is None);
                    }
                }
                assert(b0.update(rank * 8 + file, Some(p)) =~= proto(b, rank * 8 + file + 1));
                assert(t.subrange(i2, i2 + tail.len() as int) =~= tail) by {
                    assert forall|k: int|
                        0 <= k < tail.len() implies t.subrange(i2, i2 + tail.len() as int)[k]
                        == tail[k] by {
                        assert(t.subrange(i2, i2 + tail.len() as int)[k] == t[i2 + k]);
                        assert(er[pre.len() + 1 + k] == tail[k]);
                    }
                }
                lemma_parse_rank(b, rank, file + 1, 0, t, i2);
            },
        }
    }
}

/// Parsing the emitted ranks from `rank` down advances the parser to the
/// accepting state (7, 8) with the whole board filled.
proof fn lemma_parse_ranks(b: Seq<Option<Piece>>, rank: int, t: Seq<u8>, i: int)
    requires
        b.len() == 64,
        0 <= rank < 8,
        0 <= i,
        i + emit_board_rec(b, rank).len() <= t.len(),
        t.subrange(i, i + emit_board_rec(b, rank).len()) == emit_board_rec(b, rank),
    ensures
        parse_board_rec(t, i, rank, 0, proto(b, rank * 8)) == parse_board_rec(
            t,
            i + emit_board_rec(b, rank).len(),
            7,
            8,
            proto(b, 64),
        ),
    decreases 8 - rank,
{
    let eb = emit_board_rec(b, rank);
    let rs = emit_rank_rec(b, rank, 0, 0);
    let sep = if rank < 7 {
        seq![47u8]
    } else {
        Seq::<u8>::empty()
    };
    let rest = emit_board_rec(b, rank + 1);
    assert(eb == rs + sep + rest);
    assert forall|k: int| 0 <= k < eb.len() implies t[i + k] == eb[k] by {
        assert(t.subrange(i, i + eb.len() as int)[k] == t[i + k]);
    }
    assert(t.subrange(i, i + rs.len() as int) =~= rs) by {
        assert forall|k: int|
            0 <= k < rs.len() implies t.subrange(i, i + rs.len() as int)[k] == rs[k] by {
            assert(t.subrange(i, i + rs.len() as int)[k] == t[i + k]);
            assert(eb[k] == rs[k]);
        }
    }
    lemma_parse_rank(b, rank, 0, 0, t, i);
    if rank < 7 {
        assert(t.subrange(i, i + eb.len() as int)[rs.len() as int] == t[i + rs.len()]);
        assert(eb[rs.len() as int] == 47);
        assert(t[i + rs.len()] == 47);
        assert(parse_board_rec(t, i + rs.len(), rank, 8, proto(b, rank * 8 + 8))
            == parse_board_rec(t, i + rs.len() + 1, rank + 1, 0, proto(b, (rank + 1) * 8)));
        let i2 = i + rs.len() + 1;
        assert(t.subrange(i2, i2 + rest.len() as int) =~= rest) by {
            assert forall|k: int|
                0 <= k < rest.len() implies t.subrange(i2, i2 + rest.len() as int)[k]
                == rest[k] by {
                assert(t.subrange(i2, i2 + rest.len() as int)[k] == t[i2 + k]);
                assert(eb[rs.len() + 1 + k] == rest[k]);
            }
        }
        lemma_parse_ranks(b, rank + 1, t, i2);
    } else {
        assert(rank * 8 + 8 == 64);
    }
}

/// Parsing the emitted board field yields the board back.
proof fn lemma_parse_board_emit(b: Seq<Option<Piece>>)
    requires
        b.len() == 64,
    ensures
        spec_parse_board(emit_board_rec(b, 0)) == Some(b),
{
    let t = emit_board_rec(b, 0);
    assert(t.subrange(0, t.len() as int) =~= t);
    lemma_parse_ranks(b, 0, t, 0);
    assert(proto(b, 64) =~= b);
    assert(proto(b, 0) =~= Seq::new(64, |k: int| None::<Piece>));
    assert(parse_board_rec(t, t.len() as int, 7, 8, proto(b, 64)) == Some(proto(b, 64)));
}


/// `scan_tok` runs exactly to the first whitespace (or the end).
proof fn lemma_scan_through(s: Seq<u8>, i: int, j: int)
    requires
        0 <= i <= j <= s.len(),
        forall|k: int| i <= k < j ==> !is_ws(#[trigger] s[k]),
        j == s.len() || is_ws(s[j]),
    ensures
        scan_tok(s, i) == j,
    decreases j - i,
{
    if i < j {
        lemma_scan_through(s, i + 1, j);
    }
}

/// `skip_ws` stays put on a non-whitespace byte.
proof fn lemma_skip_here(s: Seq<u8>, i: int)
    requires
        0 <= i < s.len(),
        !is_ws(s[i]),
    ensures
        skip_ws(s, i) == i,
{
}

/// `skip_ws` crosses a single separator byte.
proof fn lemma_skip_one(s: Seq<u8>, i: int)
    requires
        0 <= i < s.len(),
        is_ws(s[i]),
        i + 1 == s.len() || !is_ws(s[i + 1]),
    ensures
        skip_ws(s, i) == i + 1,
{
    assert(skip_ws(s, i + 1) == i + 1);
}

/// No byte of an emitted rank is whitespace.
proof fn lemma_rank_bytes(b: Seq<Option<Piece>>, rank: int, file: int, run: int)
    requires
        0 <= run <= file <= 8,
    ensures
        forall|k: int|
            0 <= k < emit_rank_rec(b, rank, file, run).len() ==> !is_ws(
                #[trigger] emit_rank_rec(b, rank, file, run)[k],
            ),
        run + (8 - file) >= 1 ==> emit_rank_rec(b, rank, file, run).len() >= 1,
    decreases 8 - file,
{
    if file < 8 {
        match b[rank * 8 + file] {
            None => {
                lemma_rank_bytes(b, rank, file + 1, run + 1);
            },
            Some(p) => {
                lemma_rank_bytes(b, rank, file + 1, 0);
                let pre = if run > 0 {
                    seq![(48 + run) as u8]
                } else {
                    Seq::<u8>::empty()
                };
                let ch = char_of_piece(p);
                let tail = emit_rank_rec(b, rank, file + 1, 0);
                assert(!is_ws(ch)) by {
                    lemma_piece_char_inverse(p);
                    assert(piece_of_char(ch) is Some);
                    if is_ws(ch) {
                        assert(piece_of_char(ch) is None);
                    }
                }
                assert forall|k: int|
                    0 <= k < emit_rank_rec(b, rank, file, run).len() implies !is_ws(
                    #[trigger] emit_rank_rec(b, rank, file, run)[k],
                ) by {
                    if k < pre.len() {
                        assert(emit_rank_rec(b, rank, file, run)[k] == pre[0]);
                    } else if k == pre.len() {
                        assert(emit_rank_rec(b, rank, file, run)[k] == ch);
                    } else {
                        assert(emit_rank_rec(b, rank, file, run)[k] == tail[k - pre.len() - 1]);
                    }
                }
            },
        }
    }
}

/// No byte of an emitted board field is whitespace, and it is nonempty.
proof fn lemma_board_bytes(b: Seq<Option<Piece>>, rank: int)
    requires
        0 <= rank < 8,
    ensures
        forall|k: int|
            0 <= k < emit_board_rec(b, rank).len() ==> !is_ws(#[trigger] emit_board_rec(b, rank)[k]),
        emit_board_rec(b, rank).len() >= 1,
    decreases 8 - rank,
{
    lemma_rank_bytes(b, rank, 0, 0);
    let rs = emit_rank_rec(b, rank, 0, 0);
    let sep = if rank < 7 {
        seq![47u8]
    } else {
        Seq::<u8>::empty()
    };
    if rank < 7 {
        lemma_board_bytes(b, rank + 1);
    }
    let rest = emit_board_rec(b, rank + 1);
    assert forall|k: int|
        0 <= k < emit_board_rec(b, rank).len() implies !is_ws(
        #[trigger] emit_board_rec(b, rank)[k],
    ) by {
        if k < rs.len() {
            assert(emit_board_rec(b, rank)[k] == rs[k]);
        } else if k < rs.len() + sep.len() {
            assert(emit_board_rec(b, rank)[k] == 47);
        } else {
            assert(emit_board_rec(b, rank)[k] == rest[k - rs.len() - sep.len()]);
        }
    }
}

/// No byte of an emitted castling field is whitespace, and it is nonempty.
proof fn lemma_castling_bytes(c: u32)
    ensures
        forall|k: int|
            0 <= k < emit_castling(c).len() ==> !is_ws(#[trigger] emit_castling(c)[k]),
        emit_castling(c).len() >= 1,
{
    let sk = if c & 1 == 1 {
        seq![75u8]
    } else {
        Seq::<u8>::empty()
    };
    let sq = if c & 2 == 2 {
        seq![81u8]
    } else {
        Seq::<u8>::empty()
    };
    let sbk = if c & 4 == 4 {
        seq![107u8]
    } else {
        Seq::<u8>::empty()
    };
    let sbq = if c & 8 == 8 {
        seq![113u8]
    } else {
        Seq::<u8>::empty()
    };
    let s = sk + sq + sbk + sbq;
    assert forall|k: int| 0 <= k < emit_castling(c).len() implies !is_ws(
        #[trigger] emit_castling(c)[k],
    ) by {
        if s.len() != 0 {
            if k < sk.len() {
                assert(emit_castling(c)[k] == 75);
            } else if k < sk.len() + sq.len() {
                assert(emit_castling(c)[k] == 81);
            } else if k < sk.len() + sq.len() + sbk.len() {
                assert(emit_castling(c)[k] == 107);
            } else {
                assert(emit_castling(c)[k] == 113);
            }
        }
    }
}

/// No byte of an emitted en-passant field is whitespace; it is nonempty.
proof fn lemma_ep_bytes(ep: (usize, usize))
    requires
        ep_wf(ep),
    ensures
        forall|k: int| 0 <= k < emit_ep(ep).len() ==> !is_ws(#[trigger] emit_ep(ep)[k]),
        emit_ep(ep).len() >= 1,
{
}

/// No digit of a decimal form is whitespace.
proof fn lemma_dec_bytes(n: int)
    requires
        n >= 0,
    ensures
        forall|k: int| 0 <= k < dec(n).len() ==> !is_ws(#[trigger] dec(n)[k]),
        dec(n).len() >= 1,
{
    lemma_dec_digits(n);
}

/// Parsing the canonical record emitted for a well-formed position with a
/// halfmove clock within range yields back exactly the position's board,
/// side to move, castling rights, en-passant target and clocks.
#[verifier::rlimit(100)]
pub proof fn lemma_fen_round_trip(s: State)
    requires
        wf(s),
        s.halfmove_clock <= 100,
    ensures
        spec_parse_fen(spec_fen(s)) == Some(
            (
                s.board@,
                s.turn,
                s.castling,
                s.en_passant,
                s.halfmove_clock,
                s.fullmove_number,
            ),
        ),
{
    let fen = spec_fen(s);
    let tb = emit_board_rec(s.board@, 0);
    let tt = if s.turn == PieceColor::White {
        seq![119u8]
    } else {
        seq![98u8]
    };
    let tc = emit_castling(s.castling);
    let te = emit_ep(s.en_passant);
    let th = dec(s.halfmove_clock as int);
    let tf = dec(s.fullmove_number as int);
    let sp = seq![32u8];

    lemma_board_bytes(s.board@, 0);
    lemma_castling_bytes(s.castling);
    lemma_ep_bytes(s.en_passant);
    lemma_dec_bytes(s.halfmove_clock as int);
    lemma_dec_bytes(s.fullmove_number as int);
    assert(!is_ws(119u8) && !is_ws(98u8));

    let q1 = tb + sp;
    let q2 = q1 + tt;
    let q3 = q2 + sp;
    let q4 = q3 + tc;
    let q5 = q4 + sp;
    let q6 = q5 + te;
    let q7 = q6 + sp;
    let q8 = q7 + th;
    let q9 = q8 + sp;
    assert(fen == q9 + tf);

    let ob = 0int;
    let ot: int = tb.len() as int + 1;
    let oc: int = ot + tt.len() as int + 1;
    let oe: int = oc + tc.len() as int + 1;
    let oh: int = oe + te.len() as int + 1;
    let of_: int = oh + th.len() as int + 1;

    // Element-level layout of the whole record.
    assert forall|k: int| 0 <= k < fen.len() implies fen[k] == (if k < tb.len() {
        tb[k]
    } else if k == tb.len() {
        32u8
    } else if k < ot + tt.len() {
        tt[k - ot]
    } else if k == ot + tt.len() {
        32u8
    } else if k < oc + tc.len() {
        tc[k - oc]
    } else if k == oc + tc.len() {
        32u8
    } else if k < oe + te.len() {
        te[k - oe]
    } else if k == oe + te.len() {
        32u8
    } else if k < oh + th.len() {
        th[k - oh]
    } else if k == oh + th.len() {
        32u8
    } else {
        tf[k - of_]
    }) by {
        assert(fen[k] == if k < q9.len() {
            q9[k]
        } else {
            tf[k - q9.len()]
        });
        if k < q9.len() {
            assert(q9[k] == if k < q8.len() {
                q8[k]
            } else {
                32u8
            });
        }
        if k < q8.len() {
            assert(q8[k] == if k < q7.len() {
                q7[k]
            } else {
                th[k - q7.len()]
            });
        }
        if k < q7.len() {
            assert(q7[k] == if k < q6.len() {
                q6[k]
            } else {
                32u8
            });
        }
        if k < q6.len() {
            assert(q6[k] == if k < q5.len() {
                q5[k]
            } else {
                te[k - q5.len()]
            });
        }
        if k < q5.len() {
            assert(q5[k] == if k < q4.len() {
                q4[k]
            } else {
                32u8
            });
        }
        if k < q4.len() {
            assert(q4[k] == if k < q3.len() {
                q3[k]
            } else {
                tc[k - q3.len()]
            });
        }
        if k < q3.len() {
            assert(q3[k] == if k < q2.len() {
                q2[k]
            } else {
                32u8
            });
        }
        if k < q2.len() {
            assert(q2[k] == if k < q1.len() {
                q1[k]
            } else {
                tt[k - q1.len()]
            });
        }
        if k < q1.len() {
            assert(q1[k] == if k < tb.len() {
                tb[k]
            } else {
                32u8
            });
        }
    }

    // Tokenization: six fields at the expected offsets.
    lemma_skip_here(fen, 0);
    lemma_scan_through(fen, 0, tb.len() as int);
    lemma_skip_one(fen, tb.len() as int);
    lemma_scan_through(fen, ot, ot + tt.len());
    lemma_skip_one(fen, ot + tt.len());
    lemma_scan_through(fen, oc, oc + tc.len());
    lemma_skip_one(fen, oc + tc.len());
    lemma_scan_through(fen, oe, oe + te.len());
    lemma_skip_one(fen, oe + te.len());
    lemma_scan_through(fen, oh, oh + th.len());
    lemma_skip_one(fen, oh + th.len());
    lemma_scan_through(fen, of_, of_ + tf.len());
    assert(skip_ws(fen, of_ + tf.len()) == fen.len());

    assert(fen.subrange(ob, tb.len() as int) =~= tb);
    assert(fen.subrange(ot, ot + tt.len()) =~= tt);
    assert(fen.subrange(oc, oc + tc.len()) =~= tc);
    assert(fen.subrange(oe, oe + te.len()) =~= te);
    assert(fen.subrange(oh, oh + th.len()) =~= th);
    assert(fen.subrange(of_, of_ + tf.len()) =~= tf);

    // Field inverses.
    lemma_parse_board_emit(s.board@);
    lemma_parse_turn_emit(s.turn);
    lemma_parse_castling_emit(s.castling);
    lemma_parse_ep_emit(s.en_passant);
    lemma_parse_dec(s.halfmove_clock);
    lemma_parse_dec(s.fullmove_number);
}

/// The emitted record depends only on the board, side to move, castling
/// rights, en-passant target and the clocks; hence a position rebuilt from
/// a parsed record emits the identical record, whatever its promotion
/// preference and (consistent) hash are.
pub proof fn lemma_fen_of_same_fields(s1: State, s2: State)
    requires
        s1.board@ == s2.board@,
        s1.turn == s2.turn,
        s1.castling == s2.castling,
        s1.en_passant == s2.en_passant,
        s1.halfmove_clock == s2.halfmove_clock,
        s1.fullmove_number == s2.fullmove_number,
    ensures
        spec_fen(s1) == spec_fen(s2),
{
}

} // verus!
