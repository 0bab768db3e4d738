//! Pseudo-legal move generation: ray casting for sliders, fixed jumps for
//! knights and kings, pawn pushes and captures (including en passant), and
//! castling targets.

use vstd::prelude::*;

use crate::chess::{wf, Piece, PieceColor, PieceType, State};
use crate::moves::ep_square;

verus! {

/// A piece of color `c` may land on a square that is empty or holds an
/// opposing piece.
pub open spec fn can_land(cell: Option<Piece>, c: PieceColor) -> bool {
    match cell {
        Some(q) => q.color != c,
        None => true,
    }
}

/// Steps remaining before a walk from (x, y) in direction (dx, dy) must
/// leave the board; drives termination of `ray`.
pub open spec fn ray_measure(x: int, y: int, dx: int, dy: int) -> int {
    (if dx > 0 {
        8 - x
    } else if dx < 0 {
        x + 8
    } else {
        0
    }) + (if dy > 0 {
        8 - y
    } else if dy < 0 {
        y + 8
    } else {
        0
    })
}

/// Squares a slider of color `c` standing at (x, y) reaches along direction
/// (dx, dy): empty squares up to and including the first opposing piece,
/// stopping short of a piece of its own color.
pub open spec fn ray(b: Seq<Option<Piece>>, c: PieceColor, x: int, y: int, dx: int, dy: int)
    -> Seq<usize>
    decreases ray_measure(x, y, dx, dy),
{
    if dx == 0 && dy == 0 {
        Seq::empty()
    } else {
        let nx = x + dx;
        let ny = y + dy;
        if nx < 0 || nx >= 8 || ny < 0 || ny >= 8 {
            Seq::empty()
        } else {
            match b[ny * 8 + nx] {
                Some(q) => if q.color != c {
                    seq![(ny * 8 + nx) as usize]
                } else {
                    Seq::empty()
                },
                None => seq![(ny * 8 + nx) as usize] + ray(b, c, nx, ny, dx, dy),
            }
        }
    }
}

/// The single-square jump target (x+dx, y+dy), when it is on the board and
/// landable for color `c`.
pub open spec fn jump(b: Seq<Option<Piece>>, c: PieceColor, x: int, y: int, dx: int, dy: int)
    -> Seq<usize> {
    let nx = x + dx;
    let ny = y + dy;
    if 0 <= nx < 8 && 0 <= ny < 8 && can_land(b[ny * 8 + nx], c) {
        seq![(ny * 8 + nx) as usize]
    } else {
        Seq::empty()
    }
}

/// Append the squares of one slider ray to `acc`.
fn walk_ray(acc: &mut Vec<usize>, state: &State, c: PieceColor, x0: i32, y0: i32, dx: i32, dy: i32)
    requires
        0 <= x0 < 8,
        0 <= y0 < 8,
        -1 <= dx <= 1,
        -1 <= dy <= 1,
        !(dx == 0 && dy == 0),
    ensures
        final(acc)@ == old(acc)@ + ray(state.board@, c, x0 as int, y0 as int, dx as int, dy as int),
{
    let mut x = x0;
    let mut y = y0;
    loop
        invariant_except_break
            0 <= x < 8,
            0 <= y < 8,
            -1 <= dx <= 1,
            -1 <= dy <= 1,
            !(dx == 0 && dy == 0),
            old(acc)@ + ray(state.board@, c, x0 as int, y0 as int, dx as int, dy as int) == acc@
                + ray(state.board@, c, x as int, y as int, dx as int, dy as int),
        ensures
            acc@ == old(acc)@ + ray(state.board@, c, x0 as int, y0 as int, dx as int, dy as int),
        decreases ray_measure(x as int, y as int, dx as int, dy as int),
    {
        let ghost pre = acc@;
        let ghost rxy = ray(state.board@, c, x as int, y as int, dx as int, dy as int);
        let nx = x + dx;
        let ny = y + dy;
        if nx < 0 || nx >= 8 || ny < 0 || ny >= 8 {
            proof {
                assert(rxy =~= Seq::<usize>::empty());
                assert(pre + rxy =~= pre);
            }
            break ;
        }
        let pos: usize = (ny * 8 + nx) as usize;
        match state.board[pos] {
            Some(q) => {
                if q.color != c {
                    acc.push(pos);
                    proof {
                        assert(rxy =~= seq![pos]);
                        assert(pre + rxy =~= acc@);
                    }
                } else {
                    proof {
                        assert(rxy =~= Seq::<usize>::empty());
                        assert(pre + rxy =~= acc@);
                    }
                }
                break ;
            },
            None => {
                acc.push(pos);
                proof {
                    assert(rxy == seq![pos] + ray(
                        state.board@,
                        c,
                        nx as int,
                        ny as int,
                        dx as int,
                        dy as int,
                    ));
                    assert(pre + rxy =~= acc@ + ray(
                        state.board@,
                        c,
                        nx as int,
                        ny as int,
                        dx as int,
                        dy as int,
                    ));
                }
                x = nx;
                y = ny;
            },
        }
    }
}

/// Append the target of one knight or king step to `acc`.
fn try_jump(acc: &mut Vec<usize>, state: &State, c: PieceColor, x0: i32, y0: i32, dx: i32, dy: i32)
    requires
        0 <= x0 < 8,
        0 <= y0 < 8,
        -2 <= dx <= 2,
        -2 <= dy <= 2,
    ensures
        final(acc)@ == old(acc)@ + jump(
            state.board@,
            c,
            x0 as int,
            y0 as int,
            dx as int,
            dy as int,
        ),
{
    let nx = x0 + dx;
    let ny = y0 + dy;
    if 0 <= nx && nx < 8 && 0 <= ny && ny < 8 {
        let pos: usize = (ny * 8 + nx) as usize;
        let land = match state.board[pos] {
            Some(q) => q.color != c,
            None => true,
        };
        if land {
            acc.push(pos);
            return ;
        }
    }
    proof {
        assert(acc@ =~= old(acc)@ + jump(
            state.board@,
            c,
            x0 as int,
            y0 as int,
            dx as int,
            dy as int,
        ));
    }
}

/// Slider targets in the fixed direction order: orthogonals first (rook and
/// queen), then diagonals (bishop and queen).
pub open spec fn slider_moves(b: Seq<Option<Piece>>, c: PieceColor, x: int, y: int, tp: PieceType)
    -> Seq<usize> {
    let orth = ray(b, c, x, y, -1, 0) + ray(b, c, x, y, 1, 0) + ray(b, c, x, y, 0, -1) + ray(
        b,
        c,
        x,
        y,
        0,
        1,
    );
    let diag = ray(b, c, x, y, -1, -1) + ray(b, c, x, y, -1, 1) + ray(b, c, x, y, 1, -1) + ray(
        b,
        c,
        x,
        y,
        1,
        1,
    );
    if tp == PieceType::Rook {
        orth
    } else if tp == PieceType::Bishop {
        diag
    } else {
        orth + diag
    }
}

/// Knight targets in the fixed L-shape order.
pub open spec fn knight_moves(b: Seq<Option<Piece>>, c: PieceColor, x: int, y: int) -> Seq<usize> {
    jump(b, c, x, y, -2, -1) + jump(b, c, x, y, -1, -2) + jump(b, c, x, y, 1, -2) + jump(
        b,
        c,
        x,
        y,
        2,
        -1,
    ) + jump(b, c, x, y, 2, 1) + jump(b, c, x, y, 1, 2) + jump(b, c, x, y, -1, 2) + jump(
        b,
        c,
        x,
        y,
        -2,
        1,
    )
}

/// The eight king steps in the fixed order.
pub open spec fn king_steps(b: Seq<Option<Piece>>, c: PieceColor, x: int, y: int) -> Seq<usize> {
    jump(b, c, x, y, -1, -1) + jump(b, c, x, y, -1, 0) + jump(b, c, x, y, -1, 1) + jump(
        b,
        c,
        x,
        y,
        0,
        -1,
    ) + jump(b, c, x, y, 0, 1) + jump(b, c, x, y, 1, -1) + jump(b, c, x, y, 1, 0) + jump(
        b,
        c,
        x,
        y,
        1,
        1,
    )
}

/// Castling targets for a king on its home square: the right must be held
/// and the squares between king and rook empty.
pub open spec fn castle_moves(b: Seq<Option<Piece>>, castling: u32, c: PieceColor, from: int)
    -> Seq<usize> {
    if c == PieceColor::White && from == 60 {
        (if castling & 1 == 1 && b[61] is None && b[62] is None {
            seq![62usize]
        } else {
            Seq::empty()
        }) + (if castling & 2 == 2 && b[59] is None && b[58] is None && b[57] is None {
            seq![58usize]
        } else {
            Seq::empty()
        })
    } else if c == PieceColor::Black && from == 4 {
        (if castling & 4 == 4 && b[5] is None && b[6] is None {
            seq![6usize]
        } else {
            Seq::empty()
        }) + (if castling & 8 == 8 && b[3] is None && b[2] is None && b[1] is None {
            seq![2usize]
        } else {
            Seq::empty()
        })
    } else {
        Seq::empty()
    }
}

/// Pawn targets: single push, double push from the starting rank, and the
/// two diagonal captures, which also trigger on the en-passant square.
pub open spec fn pawn_moves(
    b: Seq<Option<Piece>>,
    ep: (usize, usize),
    c: PieceColor,
    from: int,
) -> Seq<usize> {
    let en_p = ep_square(ep);
    if c == PieceColor::White {
        (if from >= 8 && b[from - 8] is None {
            seq![(from - 8) as usize] + (if from / 8 == 6 && b[from - 16] is None {
                seq![(from - 16) as usize]
            } else {
                Seq::empty()
            })
        } else {
            Seq::empty()
        }) + (if from % 8 > 0 && from >= 8 && (match b[from - 9] {
            Some(q) => q.color == PieceColor::Black,
            None => from - 9 == en_p,
        }) {
            seq![(from - 9) as usize]
        } else {
            Seq::empty()
        }) + (if from % 8 < 7 && from >= 8 && (match b[from - 7] {
            Some(q) => q.color == PieceColor::Black,
            None => from - 7 == en_p,
        }) {
            seq![(from - 7) as usize]
        } else {
            Seq::empty()
        })
    } else {
        (if from < 56 && b[from + 8] is None {
            seq![(from + 8) as usize] + (if from / 8 == 1 && b[from + 16] is None {
                seq![(from + 16) as usize]
            } else {
                Seq::empty()
            })
        } else {
            Seq::empty()
        }) + (if from % 8 > 0 && from < 56 && (match b[from + 7] {
            Some(q) => q.color == PieceColor::White,
            None => from + 7 == en_p,
        }) {
            seq![(from + 7) as usize]
        } else {
            Seq::empty()
        }) + (if from % 8 < 7 && from < 56 && (match b[from + 9] {
            Some(q) => q.color == PieceColor::White,
            None => from + 9 == en_p,
        }) {
            seq![(from + 9) as usize]
        } else {
            Seq::empty()
        })
    }
}

/// All pseudo-legal targets of the piece on `from`, in the fixed generation
/// order; empty when the square is off the board or unoccupied. King safety
/// is not considered here.
#[verifier::opaque]
pub open spec fn spec_raw_moves(
    b: Seq<Option<Piece>>,
    castling: u32,
    ep: (usize, usize),
    from: int,
) -> Seq<usize> {
    if !(0 <= from < 64) {
        Seq::empty()
    } else {
        match b[from] {
            None => Seq::empty(),
            Some(p) => {
                let x = from % 8;
                let y = from / 8;
                match p.tp {
                    PieceType::Rook => slider_moves(b, p.color, x, y, PieceType::Rook),
                    PieceType::Bishop => slider_moves(b, p.color, x, y, PieceType::Bishop),
                    PieceType::Queen => slider_moves(b, p.color, x, y, PieceType::Queen),
                    PieceType::Knight => knight_moves(b, p.color, x, y),
                    PieceType::King => king_steps(b, p.color, x, y) + castle_moves(
                        b,
                        castling,
                        p.color,
                        from,
                    ),
                    PieceType::Pawn => pawn_moves(b, ep, p.color, from),
                }
            },
        }
    }
}

/// Slider targets of a rook, bishop or queen of color `c` on (x0, y0).
#[verifier::rlimit(100)]
fn gen_slider(state: &State, c: PieceColor, x0: i32, y0: i32, tp: PieceType) -> (r: Vec<usize>)
    requires
        0 <= x0 < 8,
        0 <= y0 < 8,
        tp == PieceType::Rook || tp == PieceType::Bishop || tp == PieceType::Queen,
    ensures
        r@ == slider_moves(state.board@, c, x0 as int, y0 as int, tp),
{
    let mut v: Vec<usize> = Vec::new();
    let orth = match tp {
        PieceType::Rook | PieceType::Queen => true,
        _ => false,
    };
    let diag = match tp {
        PieceType::Bishop | PieceType::Queen => true,
        _ => false,
    };
    if orth {
        walk_ray(&mut v, state, c, x0, y0, -1, 0);
        walk_ray(&mut v, state, c, x0, y0, 1, 0);
        walk_ray(&mut v, state, c, x0, y0, 0, -1);
        walk_ray(&mut v, state, c, x0, y0, 0, 1);
    }
    if diag {
        walk_ray(&mut v, state, c, x0, y0, -1, -1);
        walk_ray(&mut v, state, c, x0, y0, -1, 1);
        walk_ray(&mut v, state, c, x0, y0, 1, -1);
        walk_ray(&mut v, state, c, x0, y0, 1, 1);
    }
    proof {
        assert(v@ =~= slider_moves(state.board@, c, x0 as int, y0 as int, tp));
    }
    v
}

/// Knight targets of color `c` on (x0, y0).
fn gen_knight(state: &State, c: PieceColor, x0: i32, y0: i32) -> (r: Vec<usize>)
    requires
        0 <= x0 < 8,
        0 <= y0 < 8,
    ensures
        r@ == knight_moves(state.board@, c, x0 as int, y0 as int),
{
    let mut v: Vec<usize> = Vec::new();
    try_jump(&mut v, state, c, x0, y0, -2, -1);
    try_jump(&mut v, state, c, x0, y0, -1, -2);
    try_jump(&mut v, state, c, x0, y0, 1, -2);
    try_jump(&mut v, state, c, x0, y0, 2, -1);
    try_jump(&mut v, state, c, x0, y0, 2, 1);
    try_jump(&mut v, state, c, x0, y0, 1, 2);
    try_jump(&mut v, state, c, x0, y0, -1, 2);
    try_jump(&mut v, state, c, x0, y0, -2, 1);
    proof {
        assert(v@ =~= knight_moves(state.board@, c, x0 as int, y0 as int));
    }
    v
}

/// King targets of color `c` on `from`: the eight steps, then castling.
fn gen_king(state: &State, c: PieceColor, from: usize) -> (r: Vec<usize>)
    requires
        from < 64,
    ensures
        r@ == king_steps(state.board@, c, (from as int) % 8, (from as int) / 8) + castle_moves(
            state.board@,
            state.castling,
            c,
            from as int,
        ),
{
    let x0: i32 = (from % 8) as i32;
    let y0: i32 = (from / 8) as i32;
    let mut v: Vec<usize> = Vec::new();
    try_jump(&mut v, state, c, x0, y0, -1, -1);
    try_jump(&mut v, state, c, x0, y0, -1, 0);
    try_jump(&mut v, state, c, x0, y0, -1, 1);
    try_jump(&mut v, state, c, x0, y0, 0, -1);
    try_jump(&mut v, state, c, x0, y0, 0, 1);
    try_jump(&mut v, state, c, x0, y0, 1, -1);
    try_jump(&mut v, state, c, x0, y0, 1, 0);
    try_jump(&mut v, state, c, x0, y0, 1, 1);
    proof {
        assert(v@ =~= king_steps(state.board@, c, (from as int) % 8, (from as int) / 8));
    }
    if c == PieceColor::White {
        if from == 60 {
            if state.castling & 1 == 1 && state.board[61].is_none() && state.board[62].is_none() {
                v.push(62);
            }
            if state.castling & 2 == 2 && state.board[59].is_none() && state.board[58].is_none()
                && state.board[57].is_none() {
                v.push(58);
            }
        }
    } else {
        if from == 4 {
            if state.castling & 4 == 4 && state.board[5].is_none() && state.board[6].is_none() {
                v.push(6);
            }
            if state.castling & 8 == 8 && state.board[3].is_none() && state.board[2].is_none()
                && state.board[1].is_none() {
                v.push(2);
            }
        }
    }
    proof {
        assert(v@ =~= king_steps(state.board@, c, (from as int) % 8, (from as int) / 8)
            + castle_moves(state.board@, state.castling, c, from as int));
    }
    v
}

/// Pawn targets of color `c` on `from`.
fn gen_pawn(state: &State, c: PieceColor, from: usize) -> (r: Vec<usize>)
    requires
        from < 64,
        state.en_passant.0 <= 8,
        state.en_passant.1 <= 8,
    ensures
        r@ == pawn_moves(state.board@, state.en_passant, c, from as int),
{
    let mut v: Vec<usize> = Vec::new();
    let en_p: usize = state.en_passant.0 * 8 + state.en_passant.1;
    if c == PieceColor::White {
        if from >= 8 && state.board[from - 8].is_none() {
            v.push(from - 8);
            if from / 8 == 6 && state.board[from - 16].is_none() {
                v.push(from - 16);
            }
        }
        if from % 8 > 0 && from >= 8 {
            let hit = match state.board[from - 9] {
                Some(q) => q.color == PieceColor::Black,
                None => from - 9 == en_p,
            };
            if hit {
                v.push(from - 9);
            }
        }
        if from % 8 < 7 && from >= 8 {
            let hit = match state.board[from - 7] {
                Some(q) => q.color == PieceColor::Black,
                None => from - 7 == en_p,
            };
            if hit {
                v.push(from - 7);
            }
        }
    } else {
        if from < 56 && state.board[from + 8].is_none() {
            v.push(from + 8);
            if from / 8 == 1 && state.board[from + 16].is_none() {
                v.push(from + 16);
            }
        }
        if from % 8 > 0 && from < 56 {
            let hit = match state.board[from + 7] {
                Some(q) => q.color == PieceColor::White,
                None => from + 7 == en_p,
            };
            if hit {
                v.push(from + 7);
            }
        }
        if from % 8 < 7 && from < 56 {
            let hit = match state.board[from + 9] {
                Some(q) => q.color == PieceColor::White,
                None => from + 9 == en_p,
            };
            if hit {
                v.push(from + 9);
            }
        }
    }
    proof {
        assert(v@ =~= pawn_moves(state.board@, state.en_passant, c, from as int));
    }
    v
}

/// Square `e` lies strictly beyond (x, y) in direction (dx, dy): the file
/// and rank moved the way the direction says.
pub open spec fn ahead_of(e: int, x: int, y: int, dx: int, dy: int) -> bool {
    &&& 0 <= e < 64
    &&& (dx > 0 ==> e % 8 > x)
    &&& (dx < 0 ==> e % 8 < x)
    &&& (dx == 0 ==> e % 8 == x)
    &&& (dy > 0 ==> e / 8 > y)
    &&& (dy < 0 ==> e / 8 < y)
    &&& (dy == 0 ==> e / 8 == y)
}

/// Every square of a ray lies strictly beyond its origin in the ray's
/// direction.
proof fn lemma_ray_elems(b: Seq<Option<Piece>>, c: PieceColor, x: int, y: int, dx: int, dy: int)
    requires
        0 <= x < 8,
        0 <= y < 8,
    ensures
        forall|j: int|
            0 <= j < ray(b, c, x, y, dx, dy).len() ==> ahead_of(
                #[trigger] ray(b, c, x, y, dx, dy)[j] as int,
                x,
                y,
                dx,
                dy,
            ),
    decreases ray_measure(x, y, dx, dy),
{
    if !(dx == 0 && dy == 0) {
        let nx = x + dx;
        let ny = y + dy;
        if 0 <= nx < 8 && 0 <= ny < 8 {
            assert((ny * 8 + nx) % 8 == nx && (ny * 8 + nx) / 8 == ny) by (nonlinear_arith)
                requires
                    0 <= nx < 8,
                    0 <= ny < 8,
            ;
            if b[ny * 8 + nx] is None {
                lemma_ray_elems(b, c, nx, ny, dx, dy);
                let tail = ray(b, c, nx, ny, dx, dy);
                assert forall|j: int| 0 <= j < ray(b, c, x, y, dx, dy).len() implies ahead_of(
                    ray(b, c, x, y, dx, dy)[j] as int,
                    x,
                    y,
                    dx,
                    dy,
                ) by {
                    if j > 0 {
                        assert(ray(b, c, x, y, dx, dy)[j] == tail[j - 1]);
                        assert(ahead_of(tail[j - 1] as int, nx, ny, dx, dy));
                    }
                }
            }
        }
    }
}

/// A jump target is on the board and distinct from its origin.
proof fn lemma_jump_elems(b: Seq<Option<Piece>>, c: PieceColor, x: int, y: int, dx: int, dy: int)
    requires
        0 <= x < 8,
        0 <= y < 8,
        -2 <= dx <= 2,
        -2 <= dy <= 2,
        !(dx == 0 && dy == 0),
    ensures
        forall|j: int|
            0 <= j < jump(b, c, x, y, dx, dy).len() ==> 0 <= (#[trigger] jump(b, c, x, y, dx, dy)[j]
                as int) < 64 && jump(b, c, x, y, dx, dy)[j] as int != y * 8 + x,
{
}

/// Every square of a ray is on the board and differs from the origin.
proof fn lemma_ray_good(
    b: Seq<Option<Piece>>,
    c: PieceColor,
    x: int,
    y: int,
    dx: int,
    dy: int,
    from: int,
)
    requires
        0 <= x < 8,
        0 <= y < 8,
        !(dx == 0 && dy == 0),
        from == y * 8 + x,
    ensures
        forall|j: int|
            0 <= j < ray(b, c, x, y, dx, dy).len() ==> 0 <= (#[trigger] ray(b, c, x, y, dx, dy)[j]
                as int) < 64 && ray(b, c, x, y, dx, dy)[j] as int != from,
{
    lemma_ray_elems(b, c, x, y, dx, dy);
    assert(from % 8 == x && from / 8 == y) by (nonlinear_arith)
        requires
            0 <= x < 8,
            0 <= y < 8,
            from == y * 8 + x,
    ;
    assert forall|j: int| 0 <= j < ray(b, c, x, y, dx, dy).len() implies 0 <= (#[trigger] ray(
        b,
        c,
        x,
        y,
        dx,
        dy,
    )[j] as int) < 64 && ray(b, c, x, y, dx, dy)[j] as int != from by {
        let e = ray(b, c, x, y, dx, dy)[j] as int;
        assert(ahead_of(e, x, y, dx, dy));
        if e == from {
            assert(e % 8 == x && e / 8 == y);
        }
    }
}

/// Every slider target is on the board and differs from the source square.
proof fn lemma_slider_good(
    b: Seq<Option<Piece>>,
    c: PieceColor,
    x: int,
    y: int,
    tp: PieceType,
    from: int,
)
    requires
        0 <= x < 8,
        0 <= y < 8,
        from == y * 8 + x,
    ensures
        forall|j: int|
            0 <= j < slider_moves(b, c, x, y, tp).len() ==> 0 <= (#[trigger] slider_moves(
                b,
                c,
                x,
                y,
                tp,
            )[j] as int) < 64 && slider_moves(b, c, x, y, tp)[j] as int != from,
{
    lemma_ray_good(b, c, x, y, -1, 0, from);
    lemma_ray_good(b, c, x, y, 1, 0, from);
    lemma_ray_good(b, c, x, y, 0, -1, from);
    lemma_ray_good(b, c, x, y, 0, 1, from);
    lemma_ray_good(b, c, x, y, -1, -1, from);
    lemma_ray_good(b, c, x, y, -1, 1, from);
    lemma_ray_good(b, c, x, y, 1, -1, from);
    lemma_ray_good(b, c, x, y, 1, 1, from);
    let a1 = ray(b, c, x, y, -1, 0);
    let a2 = ray(b, c, x, y, 1, 0);
    let a3 = ray(b, c, x, y, 0, -1);
    let a4 = ray(b, c, x, y, 0, 1);
    let d1 = ray(b, c, x, y, -1, -1);
    let d2 = ray(b, c, x, y, -1, 1);
    let d3 = ray(b, c, x, y, 1, -1);
    let d4 = ray(b, c, x, y, 1, 1);
    let orth = a1 + a2 + a3 + a4;
    let diag = d1 + d2 + d3 + d4;
    assert forall|j: int| 0 <= j < orth.len() implies 0 <= (#[trigger] orth[j] as int) < 64
        && orth[j] as int != from by {
        if j < a1.len() {
            assert(orth[j] == a1[j]);
        } else if j < a1.len() + a2.len() {
            assert(orth[j] == a2[j - a1.len()]);
        } else if j < a1.len() + a2.len() + a3.len() {
            assert(orth[j] == a3[j - a1.len() - a2.len()]);
        } else {
            assert(orth[j] == a4[j - a1.len() - a2.len() - a3.len()]);
        }
    }
    assert forall|j: int| 0 <= j < diag.len() implies 0 <= (#[trigger] diag[j] as int) < 64
        && diag[j] as int != from by {
        if j < d1.len() {
            assert(diag[j] == d1[j]);
        } else if j < d1.len() + d2.len() {
            assert(diag[j] == d2[j - d1.len()]);
        } else if j < d1.len() + d2.len() + d3.len() {
            assert(diag[j] == d3[j - d1.len() - d2.len()]);
        } else {
            assert(diag[j] == d4[j - d1.len() - d2.len() - d3.len()]);
        }
    }
    if tp == PieceType::Queen {
        assert forall|j: int| 0 <= j < (orth + diag).len() implies 0 <= (#[trigger] (orth + diag)[j]
            as int) < 64 && (orth + diag)[j] as int != from by {
            if j < orth.len() {
                assert((orth + diag)[j] == orth[j]);
            } else {
                assert((orth + diag)[j] == diag[j - orth.len()]);
            }
        }
    }
}

/// Every knight or king-step target is on the board and differs from the
/// source square.
proof fn lemma_jumps_good(
    b: Seq<Option<Piece>>,
    c: PieceColor,
    x: int,
    y: int,
    king: bool,
    from: int,
)
    requires
        0 <= x < 8,
        0 <= y < 8,
        from == y * 8 + x,
    ensures
        king ==> forall|j: int|
            0 <= j < king_steps(b, c, x, y).len() ==> 0 <= (#[trigger] king_steps(b, c, x, y)[j]
                as int) < 64 && king_steps(b, c, x, y)[j] as int != from,
        !king ==> forall|j: int|
            0 <= j < knight_moves(b, c, x, y).len() ==> 0 <= (#[trigger] knight_moves(b, c, x, y)[j]
                as int) < 64 && knight_moves(b, c, x, y)[j] as int != from,
{
    if king {
        lemma_jump_elems(b, c, x, y, -1, -1);
        lemma_jump_elems(b, c, x, y, -1, 0);
        lemma_jump_elems(b, c, x, y, -1, 1);
        lemma_jump_elems(b, c, x, y, 0, -1);
        lemma_jump_elems(b, c, x, y, 0, 1);
        lemma_jump_elems(b, c, x, y, 1, -1);
        lemma_jump_elems(b, c, x, y, 1, 0);
        lemma_jump_elems(b, c, x, y, 1, 1);
        let s1 = jump(b, c, x, y, -1, -1);
        let s2 = jump(b, c, x, y, -1, 0);
        let s3 = jump(b, c, x, y, -1, 1);
        let s4 = jump(b, c, x, y, 0, -1);
        let s5 = jump(b, c, x, y, 0, 1);
        let s6 = jump(b, c, x, y, 1, -1);
        let s7 = jump(b, c, x, y, 1, 0);
        let s8 = jump(b, c, x, y, 1, 1);
        assert forall|j: int| 0 <= j < king_steps(b, c, x, y).len() implies 0 <= (
        #[trigger] king_steps(b, c, x, y)[j] as int) < 64 && king_steps(b, c, x, y)[j] as int
            != from by {
            let l1 = s1.len();
            let l2 = l1 + s2.len();
            let l3 = l2 + s3.len();
            let l4 = l3 + s4.len();
            let l5 = l4 + s5.len();
            let l6 = l5 + s6.len();
            let l7 = l6 + s7.len();
            if j < l1 {
                assert(king_steps(b, c, x, y)[j] == s1[j]);
            } else if j < l2 {
                assert(king_steps(b, c, x, y)[j] == s2[j - l1]);
            } else if j < l3 {
                assert(king_steps(b, c, x, y)[j] == s3[j - l2]);
            } else if j < l4 {
                assert(king_steps(b, c, x, y)[j] == s4[j - l3]);
            } else if j < l5 {
                assert(king_steps(b, c, x, y)[j] == s5[j - l4]);
            } else if j < l6 {
                assert(king_steps(b, c, x, y)[j] == s6[j - l5]);
            } else if j < l7 {
                assert(king_steps(b, c, x, y)[j] == s7[j - l6]);
            } else {
                assert(king_steps(b, c, x, y)[j] == s8[j - l7]);
            }
        }
    } else {
        lemma_jump_elems(b, c, x, y, -2, -1);
        lemma_jump_elems(b, c, x, y, -1, -2);
        lemma_jump_elems(b, c, x, y, 1, -2);
        lemma_jump_elems(b, c, x, y, 2, -1);
        lemma_jump_elems(b, c, x, y, 2, 1);
        lemma_jump_elems(b, c, x, y, 1, 2);
        lemma_jump_elems(b, c, x, y, -1, 2);
        lemma_jump_elems(b, c, x, y, -2, 1);
        let s1 = jump(b, c, x, y, -2, -1);
        let s2 = jump(b, c, x, y, -1, -2);
        let s3 = jump(b, c, x, y, 1, -2);
        let s4 = jump(b, c, x, y, 2, -1);
        let s5 = jump(b, c, x, y, 2, 1);
        let s6 = jump(b, c, x, y, 1, 2);
        let s7 = jump(b, c, x, y, -1, 2);
        let s8 = jump(b, c, x, y, -2, 1);
        assert forall|j: int| 0 <= j < knight_moves(b, c, x, y).len() implies 0 <= (
        #[trigger] knight_moves(b, c, x, y)[j] as int) < 64 && knight_moves(b, c, x, y)[j] as int
            != from by {
            let l1 = s1.len();
            let l2 = l1 + s2.len();
            let l3 = l2 + s3.len();
            let l4 = l3 + s4.len();
            let l5 = l4 + s5.len();
            let l6 = l5 + s6.len();
            let l7 = l6 + s7.len();
            if j < l1 {
                assert(knight_moves(b, c, x, y)[j] == s1[j]);
            } else if j < l2 {
                assert(knight_moves(b, c, x, y)[j] == s2[j - l1]);
            } else if j < l3 {
                assert(knight_moves(b, c, x, y)[j] == s3[j - l2]);
            } else if j < l4 {
                assert(knight_moves(b, c, x, y)[j] == s4[j - l3]);
            } else if j < l5 {
                assert(knight_moves(b, c, x, y)[j] == s5[j - l4]);
            } else if j < l6 {
                assert(knight_moves(b, c, x, y)[j] == s6[j - l5]);
            } else if j < l7 {
                assert(knight_moves(b, c, x, y)[j] == s7[j - l6]);
            } else {
                assert(knight_moves(b, c, x, y)[j] == s8[j - l7]);
            }
        }
    }
}

/// Every pawn target is on the board and differs from the source square.
proof fn lemma_pawn_good(b: Seq<Option<Piece>>, ep: (usize, usize), c: PieceColor, from: int)
    requires
        0 <= from < 64,
    ensures
        forall|j: int|
            0 <= j < pawn_moves(b, ep, c, from).len() ==> 0 <= (#[trigger] pawn_moves(
                b,
                ep,
                c,
                from,
            )[j] as int) < 64 && pawn_moves(b, ep, c, from)[j] as int != from,
{
    let pm = pawn_moves(b, ep, c, from);
    assert forall|j: int| 0 <= j < pm.len() implies 0 <= (pm[j] as int) < 64 && pm[j] as int
        != from by {
        if c == PieceColor::White {
            let f = if from >= 8 && b[from - 8] is None {
                seq![(from - 8) as usize] + (if from / 8 == 6 && b[from - 16] is None {
                    seq![(from - 16) as usize]
                } else {
                    Seq::<usize>::empty()
                })
            } else {
                Seq::<usize>::empty()
            };
            let l = if from % 8 > 0 && from >= 8 && (match b[from - 9] {
                Some(q) => q.color == PieceColor::Black,
                None => from - 9 == crate::moves::ep_square(ep),
            }) {
                seq![(from - 9) as usize]
            } else {
                Seq::<usize>::empty()
            };
            let r = if from % 8 < 7 && from >= 8 && (match b[from - 7] {
                Some(q) => q.color == PieceColor::Black,
                None => from - 7 == crate::moves::ep_square(ep),
            }) {
                seq![(from - 7) as usize]
            } else {
                Seq::<usize>::empty()
            };
            assert(pm == f + l + r);
            if j < f.len() {
                assert(pm[j] == f[j]);
            } else if j < f.len() + l.len() {
                assert(pm[j] == l[j - f.len()]);
            } else {
                assert(pm[j] == r[j - f.len() - l.len()]);
            }
        } else {
            let f = if from < 56 && b[from + 8] is None {
                seq![(from + 8) as usize] + (if from / 8 == 1 && b[from + 16] is None {
                    seq![(from + 16) as usize]
                } else {
                    Seq::<usize>::empty()
                })
            } else {
                Seq::<usize>::empty()
            };
            let l = if from % 8 > 0 && from < 56 && (match b[from + 7] {
                Some(q) => q.color == PieceColor::White,
                None => from + 7 == crate::moves::ep_square(ep),
            }) {
                seq![(from + 7) as usize]
            } else {
                Seq::<usize>::empty()
            };
            let r = if from % 8 < 7 && from < 56 && (match b[from + 9] {
                Some(q) => q.color == PieceColor::White,
                None => from + 9 == crate::moves::ep_square(ep),
            }) {
                seq![(from + 9) as usize]
            } else {
                Seq::<usize>::empty()
            };
            assert(pm == f + l + r);
            if j < f.len() {
                assert(pm[j] == f[j]);
            } else if j < f.len() + l.len() {
                assert(pm[j] == l[j - f.len()]);
            } else {
                assert(pm[j] == r[j - f.len() - l.len()]);
            }
        }
    }
}

/// Every pseudo-legal target is an on-board square other than the source.
pub proof fn lemma_raw_elems(b: Seq<Option<Piece>>, castling: u32, ep: (usize, usize), from: int)
    requires
        0 <= from < 64,
    ensures
        forall|j: int|
            0 <= j < spec_raw_moves(b, castling, ep, from).len() ==> 0 <= (
            #[trigger] spec_raw_moves(b, castling, ep, from)[j] as int) < 64 && spec_raw_moves(
                b,
                castling,
                ep,
                from,
            )[j] as int != from,
{
    reveal(spec_raw_moves);
    let rm = spec_raw_moves(b, castling, ep, from);
    if b[from] is Some {
        let p = b[from]->0;
        let c = p.color;
        let x = from % 8;
        let y = from / 8;
        assert(from == y * 8 + x);
        match p.tp {
            PieceType::Rook | PieceType::Bishop | PieceType::Queen => {
                lemma_slider_good(b, c, x, y, p.tp, from);
                assert(rm == slider_moves(b, c, x, y, p.tp));
            },
            PieceType::Knight => {
                lemma_jumps_good(b, c, x, y, false, from);
                assert(rm == knight_moves(b, c, x, y));
            },
            PieceType::King => {
                lemma_jumps_good(b, c, x, y, true, from);
                let ks = king_steps(b, c, x, y);
                let cm = castle_moves(b, castling, c, from);
                assert(rm == ks + cm);
                assert forall|j: int| 0 <= j < rm.len() implies 0 <= (rm[j] as int) < 64 && rm[j]
                    as int != from by {
                    if j < ks.len() {
                        assert(rm[j] == ks[j]);
                    } else {
                        assert(rm[j] == cm[j - ks.len()]);
                        if c == PieceColor::White {
                            assert(from == 60);
                        } else {
                            assert(from == 4);
                        }
                    }
                }
            },
            PieceType::Pawn => {
                lemma_pawn_good(b, ep, c, from);
                assert(rm == pawn_moves(b, ep, c, from));
            },
        }
    }
}

/// Enumerate the pseudo-legal targets of the piece on `from`, ignoring king
/// safety.
pub fn get_valid_moves_for_raw(from: usize, state: &State) -> (r: Vec<usize>)
    requires
        wf(*state),
    ensures
        r@ == spec_raw_moves(state.board@, state.castling, state.en_passant, from as int),
{
    proof {
        reveal(spec_raw_moves);
    }
    if from >= 64 {
        let v: Vec<usize> = Vec::new();
        return v;
    }
    let piece = match state.board[from] {
        Some(p) => p,
        None => {
            let v: Vec<usize> = Vec::new();
            return v;
        },
    };
    let c = piece.color;
    let x0: i32 = (from % 8) as i32;
    let y0: i32 = (from / 8) as i32;
    match piece.tp {
        PieceType::Rook => gen_slider(state, c, x0, y0, PieceType::Rook),
        PieceType::Bishop => gen_slider(state, c, x0, y0, PieceType::Bishop),
        PieceType::Queen => gen_slider(state, c, x0, y0, PieceType::Queen),
        PieceType::Knight => gen_knight(state, c, x0, y0),
        PieceType::King => gen_king(state, c, from),
        PieceType::Pawn => gen_pawn(state, c, from),
    }
}

} // verus!
