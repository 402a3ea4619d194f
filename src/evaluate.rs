use vstd::prelude::*;
use crate::board::{Board, BoardView};
use crate::square::{Piece, PieceColor, PieceKind, Side};

verus! {

pub const PAWN_VALUE: i32 = 100;
pub const KNIGHT_VALUE: i32 = 300;
pub const BISHOP_VALUE: i32 = 300;
pub const ROOK_VALUE: i32 = 500;
pub const QUEEN_VALUE: i32 = 900;
pub const KING_VALUE: i32 = 0;

pub const KNIGHT_PHASE: i64 = 1;
pub const BISHOP_PHASE: i64 = 1;
pub const ROOK_PHASE: i64 = 2;
pub const QUEEN_PHASE: i64 = 4;
pub const TOTAL_PHASE: i64 = 24;

pub const BISHOP_PAIR_MIDDLE_GAME_BONUS: i64 = 25;
pub const BISHOP_PAIR_END_GAME_BONUS: i64 = 50;

pub open spec fn spec_material(kind: PieceKind) -> i32 {
    match kind {
        PieceKind::Pawn => PAWN_VALUE,
        PieceKind::Knight => KNIGHT_VALUE,
        PieceKind::Bishop => BISHOP_VALUE,
        PieceKind::Rook => ROOK_VALUE,
        PieceKind::Queen => QUEEN_VALUE,
        PieceKind::King => KING_VALUE,
        PieceKind::NoPiece => 0,
    }
}

impl Piece {
    pub fn material_value(&self) -> (r: i32)
        ensures
            r == spec_material(self.kind),
            0 <= r <= 900,
    {
        match self.kind {
            PieceKind::Pawn => PAWN_VALUE,
            PieceKind::Knight => KNIGHT_VALUE,
            PieceKind::Bishop => BISHOP_VALUE,
            PieceKind::Rook => ROOK_VALUE,
            PieceKind::Queen => QUEEN_VALUE,
            PieceKind::King => KING_VALUE,
            PieceKind::NoPiece => 0,
        }
    }
}

pub open spec fn mg_pawn_table() -> Seq<i32> {
    seq![
        0i32, 0i32, 0i32, 0i32, 0i32, 0i32, 0i32, 0i32,
        50i32, 50i32, 50i32, 50i32, 50i32, 50i32, 50i32, 50i32,
        10i32, 10i32, 20i32, 30i32, 30i32, 20i32, 10i32, 10i32,
        5i32, 5i32, 10i32, 25i32, 25i32, 10i32, 5i32, 5i32,
        0i32, 0i32, 0i32, 20i32, 20i32, 0i32, 0i32, 0i32,
        5i32, -5i32, -10i32, 0i32, 0i32, -10i32, -5i32, 5i32,
        5i32, 10i32, 10i32, -20i32, -20i32, 10i32, 10i32, 5i32,
        0i32, 0i32, 0i32, 0i32, 0i32, 0i32, 0i32, 0i32,
    ]
}

pub open spec fn mg_knight_table() -> Seq<i32> {
    seq![
        -50i32, -40i32, -30i32, -30i32, -30i32, -30i32, -40i32, -50i32,
        -40i32, -20i32, 0i32, 0i32, 0i32, 0i32, -20i32, -40i32,
        -30i32, 0i32, 10i32, 15i32, 15i32, 10i32, 0i32, -30i32,
        -30i32, 5i32, 15i32, 20i32, 20i32, 15i32, 5i32, -30i32,
        -30i32, 0i32, 15i32, 20i32, 20i32, 15i32, 0i32, -30i32,
        -30i32, 5i32, 10i32, 15i32, 15i32, 10i32, 5i32, -30i32,
        -40i32, -20i32, 0i32, 5i32, 5i32, 0i32, -20i32, -40i32,
        -50i32, -40i32, -30i32, -30i32, -30i32, -30i32, -40i32, -50i32,
    ]
}

pub open spec fn mg_bishop_table() -> Seq<i32> {
    seq![
        -20i32, -10i32, -10i32, -10i32, -10i32, -10i32, -10i32, -20i32,
        -10i32, 0i32, 0i32, 0i32, 0i32, 0i32, 0i32, -10i32,
        -10i32, 0i32, 5i32, 10i32, 10i32, 5i32, 0i32, -10i32,
        -10i32, 5i32, 5i32, 25i32, 25i32, 5i32, 5i32, -10i32,
        -10i32, 0i32, 10i32, 18i32, 18i32, 10i32, 0i32, -10i32,
        -10i32, 10i32, 10i32, 10i32, 10i32, 10i32, 10i32, -10i32,
        -10i32, 5i32, 0i32, 0i32, 0i32, 0i32, 5i32, -10i32,
        -20i32, -10i32, -10i32, -10i32, -10i32, -10i32, -10i32, -20i32,
    ]
}

pub open spec fn mg_rook_table() -> Seq<i32> {
    seq![
        0i32, 0i32, 0i32, 0i32, 0i32, 0i32, 0i32, 0i32,
        5i32, 10i32, 10i32, 10i32, 10i32, 10i32, 10i32, 5i32,
        -5i32, 0i32, 0i32, 0i32, 0i32, 0i32, 0i32, -5i32,
        -5i32, 0i32, 0i32, 0i32, 0i32, 0i32, 0i32, -5i32,
        -5i32, 0i32, 0i32, 0i32, 0i32, 0i32, 0i32, -5i32,
        -5i32, 0i32, 0i32, 0i32, 0i32, 0i32, 0i32, -5i32,
        -5i32, 0i32, 0i32, 0i32, 0i32, 0i32, 0i32, -5i32,
        0i32, 0i32, 0i32, 5i32, 5i32, 0i32, 0i32, 0i32,
    ]
}

pub open spec fn mg_king_table() -> Seq<i32> {
    seq![
        -30i32, -40i32, -40i32, -50i32, -50i32, -40i32, -40i32, -30i32,
        -30i32, -40i32, -40i32, -50i32, -50i32, -40i32, -40i32, -30i32,
        -30i32, -40i32, -40i32, -50i32, -50i32, -40i32, -40i32, -30i32,
        -30i32, -40i32, -40i32, -50i32, -50i32, -40i32, -40i32, -30i32,
        -20i32, -30i32, -30i32, -40i32, -40i32, -30i32, -30i32, -20i32,
        -10i32, -20i32, -20i32, -20i32, -20i32, -20i32, -20i32, -10i32,
        20i32, 20i32, 0i32, 0i32, 0i32, 0i32, 20i32, 20i32,
        20i32, 30i32, 10i32, 0i32, 0i32, 10i32, 30i32, 20i32,
    ]
}

/// The middlegame piece-square value of `kind` at table index `square` (queens and
/// empty squares score 0).
pub open spec fn spec_mg_pst(kind: PieceKind, square: int) -> i32 {
    match kind {
        PieceKind::Pawn => mg_pawn_table()[square],
        PieceKind::Knight => mg_knight_table()[square],
        PieceKind::Bishop => mg_bishop_table()[square],
        PieceKind::Rook => mg_rook_table()[square],
        PieceKind::King => mg_king_table()[square],
        _ => 0,
    }
}

pub open spec fn eg_pawn_table() -> Seq<i32> {
    seq![
        0i32, 0i32, 0i32, 0i32, 0i32, 0i32, 0i32, 0i32,
        75i32, 72i32, 65i32, 65i32, 65i32, 65i32, 72i32, 75i32,
        20i32, 10i32, 10i32, 10i32, 10i32, 10i32, 10i32, 20i32,
        -5i32, -5i32, -5i32, -5i32, -5i32, -5i32, -5i32, -5i32,
        -10i32, -10i32, -10i32, -10i32, -10i32, -10i32, -10i32, -10i32,
        -10i32, -10i32, -10i32, -10i32, -10i32, -10i32, -10i32, -10i32,
        -10i32, -10i32, -10i32, -10i32, -10i32, -10i32, -10i32, -10i32,
        0i32, 0i32, 0i32, 0i32, 0i32, 0i32, 0i32, 0i32,
    ]
}

pub open spec fn eg_knight_table() -> Seq<i32> {
    seq![
        -50i32, -40i32, -30i32, -30i32, -30i32, -30i32, -40i32, -50i32,
        -40i32, -20i32, 0i32, 0i32, 0i32, 0i32, -20i32, -40i32,
        -30i32, 0i32, 10i32, 20i32, 20i32, 10i32, 0i32, -30i32,
        -30i32, 5i32, 15i32, 25i32, 25i32, 15i32, 5i32, -30i32,
        -30i32, 0i32, 15i32, 25i32, 25i32, 15i32, 0i32, -30i32,
        -30i32, 5i32, 10i32, 20i32, 20i32, 10i32, 5i32, -30i32,
        -40i32, -20i32, 0i32, 5i32, 5i32, 0i32, -20i32, -40i32,
        -50i32, -40i32, -30i32, -30i32, -30i32, -30i32, -40i32, -50i32,
    ]
}

pub open spec fn eg_bishop_table() -> Seq<i32> {
    seq![
        -20i32, -10i32, -10i32, -10i32, -10i32, -10i32, -10i32, -20i32,
        -10i32, 0i32, 0i32, 0i32, 0i32, 0i32, 0i32, -10i32,
        -10i32, 0i32, 5i32, 10i32, 10i32, 5i32, 0i32, -10i32,
        -10i32, 5i32, 5i32, 10i32, 10i32, 5i32, 5i32, -10i32,
        -10i32, 0i32, 10i32, 10i32, 10i32, 10i32, 0i32, -10i32,
        -10i32, 10i32, 10i32, 10i32, 10i32, 10i32, 10i32, -10i32,
        -10i32, 7i32, 0i32, 0i32, 0i32, 0i32, 7i32, -10i32,
        -20i32, -10i32, -10i32, -10i32, -10i32, -10i32, -10i32, -20i32,
    ]
}

pub open spec fn eg_rook_table() -> Seq<i32> {
    seq![
        20i32, 20i32, 20i32, 20i32, 20i32, 20i32, 20i32, 20i32,
        8i32, 8i32, 8i32, 8i32, 8i32, 8i32, 8i32, 8i32,
        -5i32, 0i32, 0i32, 0i32, 0i32, 0i32, 0i32, -5i32,
        -5i32, 0i32, 0i32, 0i32, 0i32, 0i32, 0i32, -5i32,
        -5i32, 0i32, 0i32, 0i32, 0i32, 0i32, 0i32, -5i32,
        -5i32, 0i32, 0i32, 0i32, 0i32, 0i32, 0i32, -5i32,
        -5i32, 0i32, 0i32, 0i32, 0i32, 0i32, 0i32, -5i32,
        0i32, 0i32, 0i32, 5i32, 5i32, 0i32, 0i32, 0i32,
    ]
}

pub open spec fn eg_king_table() -> Seq<i32> {
    seq![
        -50i32, -40i32, -30i32, -20i32, -20i32, -30i32, -40i32, -50i32,
        -30i32, -20i32, -10i32, 0i32, 0i32, -10i32, -20i32, -30i32,
        -30i32, -10i32, 20i32, 30i32, 30i32, 20i32, -10i32, -30i32,
        -30i32, -10i32, 30i32, 40i32, 40i32, 30i32, -10i32, -30i32,
        -30i32, -10i32, 30i32, 40i32, 40i32, 30i32, -10i32, -30i32,
        -30i32, -10i32, 20i32, 30i32, 30i32, 20i32, -10i32, -30i32,
        -30i32, -30i32, 0i32, 0i32, 0i32, 0i32, -30i32, -30i32,
        -50i32, -30i32, -30i32, -30i32, -30i32, -30i32, -30i32, -50i32,
    ]
}

/// The endgame piece-square value of `kind` at table index `square` (queens and
/// empty squares score 0).
pub open spec fn spec_eg_pst(kind: PieceKind, square: int) -> i32 {
    match kind {
        PieceKind::Pawn => eg_pawn_table()[square],
        PieceKind::Knight => eg_knight_table()[square],
        PieceKind::Bishop => eg_bishop_table()[square],
        PieceKind::Rook => eg_rook_table()[square],
        PieceKind::King => eg_king_table()[square],
        _ => 0,
    }
}

fn mg_pst(kind: PieceKind, square: usize) -> (r: i32)
    requires
        square < 64,
    ensures
        r == spec_mg_pst(kind, square as int),
        -50 <= r <= 75,
{
    match kind {
        PieceKind::Pawn => {
            let t: [i32; 64] = [
            0, 0, 0, 0, 0, 0, 0, 0,
            50, 50, 50, 50, 50, 50, 50, 50,
            10, 10, 20, 30, 30, 20, 10, 10,
            5, 5, 10, 25, 25, 10, 5, 5,
            0, 0, 0, 20, 20, 0, 0, 0,
            5, -5, -10, 0, 0, -10, -5, 5,
            5, 10, 10, -20, -20, 10, 10, 5,
            0, 0, 0, 0, 0, 0, 0, 0,
        ];
            proof {
                assert(t@ =~= mg_pawn_table());
            }
            t[square]
        },
        PieceKind::Knight => {
            let t: [i32; 64] = [
            -50, -40, -30, -30, -30, -30, -40, -50,
            -40, -20, 0, 0, 0, 0, -20, -40,
            -30, 0, 10, 15, 15, 10, 0, -30,
            -30, 5, 15, 20, 20, 15, 5, -30,
            -30, 0, 15, 20, 20, 15, 0, -30,
            -30, 5, 10, 15, 15, 10, 5, -30,
            -40, -20, 0, 5, 5, 0, -20, -40,
            -50, -40, -30, -30, -30, -30, -40, -50,
        ];
            proof {
                assert(t@ =~= mg_knight_table());
            }
            t[square]
        },
        PieceKind::Bishop => {
            let t: [i32; 64] = [
            -20, -10, -10, -10, -10, -10, -10, -20,
            -10, 0, 0, 0, 0, 0, 0, -10,
            -10, 0, 5, 10, 10, 5, 0, -10,
            -10, 5, 5, 25, 25, 5, 5, -10,
            -10, 0, 10, 18, 18, 10, 0, -10,
            -10, 10, 10, 10, 10, 10, 10, -10,
            -10, 5, 0, 0, 0, 0, 5, -10,
            -20, -10, -10, -10, -10, -10, -10, -20,
        ];
            proof {
                assert(t@ =~= mg_bishop_table());
            }
            t[square]
        },
        PieceKind::Rook => {
            let t: [i32; 64] = [
            0, 0, 0, 0, 0, 0, 0, 0,
            5, 10, 10, 10, 10, 10, 10, 5,
            -5, 0, 0, 0, 0, 0, 0, -5,
            -5, 0, 0, 0, 0, 0, 0, -5,
            -5, 0, 0, 0, 0, 0, 0, -5,
            -5, 0, 0, 0, 0, 0, 0, -5,
            -5, 0, 0, 0, 0, 0, 0, -5,
            0, 0, 0, 5, 5, 0, 0, 0,
        ];
            proof {
                assert(t@ =~= mg_rook_table());
            }
            t[square]
        },
        PieceKind::King => {
            let t: [i32; 64] = [
            -30, -40, -40, -50, -50, -40, -40, -30,
            -30, -40, -40, -50, -50, -40, -40, -30,
            -30, -40, -40, -50, -50, -40, -40, -30,
            -30, -40, -40, -50, -50, -40, -40, -30,
            -20, -30, -30, -40, -40, -30, -30, -20,
            -10, -20, -20, -20, -20, -20, -20, -10,
            20, 20, 0, 0, 0, 0, 20, 20,
            20, 30, 10, 0, 0, 10, 30, 20,
        ];
            proof {
                assert(t@ =~= mg_king_table());
            }
            t[square]
        },
        _ => 0,
    }
}

fn eg_pst(kind: PieceKind, square: usize) -> (r: i32)
    requires
        square < 64,
    ensures
        r == spec_eg_pst(kind, square as int),
        -50 <= r <= 75,
{
    match kind {
        PieceKind::Pawn => {
            let t: [i32; 64] = [
            0, 0, 0, 0, 0, 0, 0, 0,
            75, 72, 65, 65, 65, 65, 72, 75,
            20, 10, 10, 10, 10, 10, 10, 20,
            -5, -5, -5, -5, -5, -5, -5, -5,
            -10, -10, -10, -10, -10, -10, -10, -10,
            -10, -10, -10, -10, -10, -10, -10, -10,
            -10, -10, -10, -10, -10, -10, -10, -10,
            0, 0, 0, 0, 0, 0, 0, 0,
        ];
            proof {
                assert(t@ =~= eg_pawn_table());
            }
            t[square]
        },
        PieceKind::Knight => {
            let t: [i32; 64] = [
            -50, -40, -30, -30, -30, -30, -40, -50,
            -40, -20, 0, 0, 0, 0, -20, -40,
            -30, 0, 10, 20, 20, 10, 0, -30,
            -30, 5, 15, 25, 25, 15, 5, -30,
            -30, 0, 15, 25, 25, 15, 0, -30,
            -30, 5, 10, 20, 20, 10, 5, -30,
            -40, -20, 0, 5, 5, 0, -20, -40,
            -50, -40, -30, -30, -30, -30, -40, -50,
        ];
            proof {
                assert(t@ =~= eg_knight_table());
            }
            t[square]
        },
        PieceKind::Bishop => {
            let t: [i32; 64] = [
            -20, -10, -10, -10, -10, -10, -10, -20,
            -10, 0, 0, 0, 0, 0, 0, -10,
            -10, 0, 5, 10, 10, 5, 0, -10,
            -10, 5, 5, 10, 10, 5, 5, -10,
            -10, 0, 10, 10, 10, 10, 0, -10,
            -10, 10, 10, 10, 10, 10, 10, -10,
            -10, 7, 0, 0, 0, 0, 7, -10,
            -20, -10, -10, -10, -10, -10, -10, -20,
        ];
            proof {
                assert(t@ =~= eg_bishop_table());
            }
            t[square]
        },
        PieceKind::Rook => {
            let t: [i32; 64] = [
            20, 20, 20, 20, 20, 20, 20, 20,
            8, 8, 8, 8, 8, 8, 8, 8,
            -5, 0, 0, 0, 0, 0, 0, -5,
            -5, 0, 0, 0, 0, 0, 0, -5,
            -5, 0, 0, 0, 0, 0, 0, -5,
            -5, 0, 0, 0, 0, 0, 0, -5,
            -5, 0, 0, 0, 0, 0, 0, -5,
            0, 0, 0, 5, 5, 0, 0, 0,
        ];
            proof {
                assert(t@ =~= eg_rook_table());
            }
            t[square]
        },
        PieceKind::King => {
            let t: [i32; 64] = [
            -50, -40, -30, -20, -20, -30, -40, -50,
            -30, -20, -10, 0, 0, -10, -20, -30,
            -30, -10, 20, 30, 30, 20, -10, -30,
            -30, -10, 30, 40, 40, 30, -10, -30,
            -30, -10, 30, 40, 40, 30, -10, -30,
            -30, -10, 20, 30, 30, 20, -10, -30,
            -30, -30, 0, 0, 0, 0, -30, -30,
            -50, -30, -30, -30, -30, -30, -30, -50,
        ];
            proof {
                assert(t@ =~= eg_king_table());
            }
            t[square]
        },
        _ => 0,
    }
}

/// The square whose table entry a White piece on `s` reads: tables are written from
/// Black's side, so White mirrors the rank.
pub open spec fn flip_square(s: int) -> int {
    (7 - s / 8) * 8 + s % 8
}

pub open spec fn pst_square(c: PieceColor, s: int) -> int {
    if c == PieceColor::White {
        flip_square(s)
    } else {
        s
    }
}

/// Material, middlegame and endgame piece-square totals of color `c` over the first `n` squares.
pub open spec fn side_sums(pieces: Seq<Piece>, c: PieceColor, n: nat) -> (int, int, int)
    decreases n,
{
    if n == 0 {
        (0, 0, 0)
    } else {
        let (m, g, e) = side_sums(pieces, c, (n - 1) as nat);
        let p = pieces[n - 1];
        if p.kind != PieceKind::NoPiece && p.color == c {
            (
                m + spec_material(p.kind),
                g + spec_mg_pst(p.kind, pst_square(c, n - 1)),
                e + spec_eg_pst(p.kind, pst_square(c, n - 1)),
            )
        } else {
            (m, g, e)
        }
    }
}

/// Number of squares among the first `n` holding `p`.
pub open spec fn count(pieces: Seq<Piece>, p: Piece, n: nat) -> int
    decreases n,
{
    if n == 0 {
        0
    } else {
        count(pieces, p, (n - 1) as nat) + if pieces[n - 1] == p { 1int } else { 0int }
    }
}

/// Whether square `s` is a light square.
pub open spec fn is_light(s: int) -> bool {
    (s / 8 + s % 8) % 2 == 1
}

/// Number of bishops of color `c` on light squares among the first `n` squares.
pub open spec fn light_bishops(pieces: Seq<Piece>, c: PieceColor, n: nat) -> int
    decreases n,
{
    if n == 0 {
        0
    } else {
        light_bishops(pieces, c, (n - 1) as nat) + if pieces[n - 1] == (Piece { color: c, kind: PieceKind::Bishop })
            && is_light(n - 1) {
            1int
        } else {
            0int
        }
    }
}

/// Division rounding toward zero, as machine integers divide.
pub open spec fn tdiv(a: int, b: int) -> int {
    if a >= 0 {
        a / b
    } else {
        -((-a) / b)
    }
}

pub open spec fn count_of(pieces: Seq<Piece>, c: PieceColor, k: PieceKind) -> int {
    count(pieces, Piece { color: c, kind: k }, 64)
}

/// The game phase: 0 with all minor and major pieces on the board, 256 with none left.
pub open spec fn spec_phase(pieces: Seq<Piece>) -> int {
    let w = PieceColor::White;
    let b = PieceColor::Black;
    let weight = (count_of(pieces, w, PieceKind::Knight) + count_of(pieces, b, PieceKind::Knight)) * KNIGHT_PHASE + (
    count_of(pieces, w, PieceKind::Bishop) + count_of(pieces, b, PieceKind::Bishop)) * BISHOP_PHASE + (
    count_of(pieces, w, PieceKind::Rook) + count_of(pieces, b, PieceKind::Rook)) * ROOK_PHASE + (count_of(
        pieces,
        w,
        PieceKind::Queen,
    ) + count_of(pieces, b, PieceKind::Queen)) * QUEEN_PHASE;
    tdiv((TOTAL_PHASE - weight) * 256 + TOTAL_PHASE / 2, TOTAL_PHASE as int)
}

/// The tapered score of one color: material plus the blend of its middlegame and endgame
/// piece-square totals (with the bishop-pair bonus).
pub open spec fn side_score(pieces: Seq<Piece>, c: PieceColor, phase: int) -> int {
    let (m, g, e) = side_sums(pieces, c, 64);
    let pair = count_of(pieces, c, PieceKind::Bishop) >= 2;
    let g2 = g + if pair { BISHOP_PAIR_MIDDLE_GAME_BONUS as int } else { 0 };
    let e2 = e + if pair { BISHOP_PAIR_END_GAME_BONUS as int } else { 0 };
    m + tdiv(g2 * (256 - phase) + e2 * phase, 256)
}

/// Neither side can mate: bare kings, a single minor piece, or one bishop each on squares
/// of the same color.
pub open spec fn insufficient_material(pieces: Seq<Piece>) -> bool {
    let w = PieceColor::White;
    let b = PieceColor::Black;
    let heavy = count_of(pieces, w, PieceKind::Pawn) + count_of(pieces, b, PieceKind::Pawn) + count_of(pieces, w, PieceKind::Rook)
        + count_of(pieces, b, PieceKind::Rook) + count_of(pieces, w, PieceKind::Queen) + count_of(pieces, b, PieceKind::Queen);
    let knights = count_of(pieces, w, PieceKind::Knight) + count_of(pieces, b, PieceKind::Knight);
    let bishops = count_of(pieces, w, PieceKind::Bishop) + count_of(pieces, b, PieceKind::Bishop);
    heavy == 0 && (knights + bishops <= 1 || (knights == 0 && count_of(pieces, w, PieceKind::Bishop) == 1 && count_of(
        pieces,
        b,
        PieceKind::Bishop,
    ) == 1 && light_bishops(pieces, w, 64) == light_bishops(pieces, b, 64)))
}

/// The evaluation from the side to move's point of view.
pub open spec fn spec_evaluate(v: BoardView) -> int {
    if insufficient_material(v.pieces) {
        0
    } else {
        let phase = spec_phase(v.pieces);
        let diff = side_score(v.pieces, PieceColor::White, phase) - side_score(v.pieces, PieceColor::Black, phase);
        if v.side == Side::White {
            diff
        } else {
            -diff
        }
    }
}

proof fn lemma_piece_index(p: Piece)
    requires
        p.is_real(),
    ensures
        Piece::spec_from_index(p.spec_index()) == p,
        p.spec_index() < 12,
{
}

fn tdiv_exec(a: i64, b: i64) -> (r: i64)
    requires
        b > 0,
        a > i64::MIN,
    ensures
        r == tdiv(a as int, b as int),
{
    if a >= 0 {
        a / b
    } else {
        -((-a) / b)
    }
}

/// Per-square totals gathered in one pass over the board.
pub struct Totals {
    pub counts: Vec<i64>,
    pub white_light: i64,
    pub black_light: i64,
    pub white: (i64, i64, i64),
    pub black: (i64, i64, i64),
}

impl Totals {
    pub open spec fn matches(&self, ps: Seq<Piece>) -> bool {
        &&& self.counts@.len() == 12
        &&& forall|k: int| 0 <= k < 12 ==> (#[trigger] self.counts@[k]) == count(ps, Piece::spec_from_index(k as nat), 64)
        &&& forall|k: int| 0 <= k < 12 ==> 0 <= #[trigger] self.counts@[k] <= 64
        &&& self.white_light == light_bishops(ps, PieceColor::White, 64)
        &&& self.black_light == light_bishops(ps, PieceColor::Black, 64)
        &&& (self.white.0 as int, self.white.1 as int, self.white.2 as int) == side_sums(ps, PieceColor::White, 64)
        &&& (self.black.0 as int, self.black.1 as int, self.black.2 as int) == side_sums(ps, PieceColor::Black, 64)
        &&& 0 <= self.white.0 <= 57600
        &&& 0 <= self.black.0 <= 57600
        &&& -3200 <= self.white.1 <= 4800
        &&& -3200 <= self.white.2 <= 4800
        &&& -3200 <= self.black.1 <= 4800
        &&& -3200 <= self.black.2 <= 4800
    }
}

/// Counts every piece, the bishops on light squares, and each color's material and
/// piece-square totals.
fn gather_totals(pieces: &Vec<Piece>) -> (r: Totals)
    requires
        pieces@.len() == 64,
        forall|q: int| 0 <= q < 64 ==> (#[trigger] pieces@[q]).is_real() || pieces@[q] == Piece::spec_empty(),
    ensures
        r.matches(pieces@),
{
    let mut counts: Vec<i64> = Vec::new();
    let mut i: usize = 0;
    while i < 12
        invariant
            i <= 12,
            counts@.len() == i,
            forall|k: int| 0 <= k < i ==> (#[trigger] counts@[k]) == 0,
        decreases 12 - i,
    {
        counts.push(0);
        i += 1;
    }
    let mut white_light: i64 = 0;
    let mut black_light: i64 = 0;
    let mut wm: i64 = 0;
    let mut wg: i64 = 0;
    let mut we: i64 = 0;
    let mut bm: i64 = 0;
    let mut bg: i64 = 0;
    let mut be: i64 = 0;
    let ghost ps = pieces@;
    let mut s: usize = 0;
    while s < 64
        invariant
            s <= 64,
            pieces@ == ps,
            ps.len() == 64,
            forall|q: int| 0 <= q < 64 ==> (#[trigger] ps[q]).is_real() || ps[q] == Piece::spec_empty(),
            counts@.len() == 12,
            forall|k: int| 0 <= k < 12 ==> (#[trigger] counts@[k]) == count(ps, Piece::spec_from_index(k as nat), s as nat),
            forall|k: int| 0 <= k < 12 ==> 0 <= #[trigger] counts@[k] <= s,
            white_light == light_bishops(ps, PieceColor::White, s as nat),
            black_light == light_bishops(ps, PieceColor::Black, s as nat),
            0 <= white_light <= s,
            0 <= black_light <= s,
            (wm as int, wg as int, we as int) == side_sums(ps, PieceColor::White, s as nat),
            (bm as int, bg as int, be as int) == side_sums(ps, PieceColor::Black, s as nat),
            0 <= wm <= 900 * s,
            0 <= bm <= 900 * s,
            -50 * s <= wg <= 75 * s,
            -50 * s <= we <= 75 * s,
            -50 * s <= bg <= 75 * s,
            -50 * s <= be <= 75 * s,
        decreases 64 - s,
    {
        let p = pieces[s];
        if p.kind != PieceKind::NoPiece {
            proof {
                lemma_piece_index(p);
            }
            let idx = p.index();
            let c = counts[idx];
            counts.set(idx, c + 1);
            let m = p.material_value() as i64;
            let light = (s / 8 + s % 8) % 2 == 1;
            match p.color {
                PieceColor::White => {
                    let f = (7 - s / 8) * 8 + s % 8;
                    wm = wm + m;
                    wg = wg + mg_pst(p.kind, f) as i64;
                    we = we + eg_pst(p.kind, f) as i64;
                    if p.kind == PieceKind::Bishop && light {
                        white_light = white_light + 1;
                    }
                },
                _ => {
                    bm = bm + m;
                    bg = bg + mg_pst(p.kind, s) as i64;
                    be = be + eg_pst(p.kind, s) as i64;
                    if p.kind == PieceKind::Bishop && light {
                        black_light = black_light + 1;
                    }
                },
            }
            proof {
                assert forall|k: int| 0 <= k < 12 implies (#[trigger] counts@[k]) == count(ps, Piece::spec_from_index(k as nat), (s + 1) as nat) by {
                    if k != idx {
                        assert(Piece::spec_from_index(k as nat) != p);
                    }
                }
            }
        } else {
            proof {
                assert forall|k: int| 0 <= k < 12 implies (#[trigger] counts@[k]) == count(ps, Piece::spec_from_index(k as nat), (s + 1) as nat) by {
                    assert(Piece::spec_from_index(k as nat) != p);
                }
            }
        }
        s += 1;
    }
    Totals { counts, white_light, black_light, white: (wm, wg, we), black: (bm, bg, be) }
}

/// The blend `(g * (256 - phase) + e * phase) / 256`, rounded toward zero.
fn blend(g: i64, e: i64, phase: i64) -> (r: i64)
    requires
        -3200 <= g <= 4900,
        -3200 <= e <= 4900,
        -12000 <= phase <= 7000,
    ensures
        r == tdiv(g * (256 - phase) + e * phase, 256),
{
    proof {
        assert(-100000000 <= g * (256 - phase) <= 100000000) by (nonlinear_arith)
            requires
                -3200 <= g <= 4900,
                -12000 <= phase <= 7000,
        ;
        assert(-100000000 <= e * phase <= 100000000) by (nonlinear_arith)
            requires
                -3200 <= e <= 4900,
                -12000 <= phase <= 7000,
        ;
    }
    tdiv_exec(g * (256 - phase) + e * phase, 256)
}

/// The tapered score of one color from its totals (see `side_score`).
fn side_score_exec(totals: (i64, i64, i64), bishops: i64, phase: i64) -> (r: i64)
    requires
        0 <= totals.0 <= 57600,
        -3200 <= totals.1 <= 4800,
        -3200 <= totals.2 <= 4800,
        -12000 <= phase <= 7000,
    ensures
        r == totals.0 + tdiv(
            (totals.1 + if bishops >= 2 { BISHOP_PAIR_MIDDLE_GAME_BONUS as int } else { 0 }) * (256 - phase) + (totals.2
                + if bishops >= 2 { BISHOP_PAIR_END_GAME_BONUS as int } else { 0 }) * phase,
            256,
        ),
        -10000000 <= r <= 10000000,
{
    let g = totals.1 + if bishops >= 2 { BISHOP_PAIR_MIDDLE_GAME_BONUS } else { 0 };
    let e = totals.2 + if bishops >= 2 { BISHOP_PAIR_END_GAME_BONUS } else { 0 };
    let b = blend(g, e, phase);
    proof {
        let n = g * (256 - phase) + e * phase;
        assert(-200000000 <= n <= 200000000) by (nonlinear_arith)
            requires
                -3200 <= g <= 4900,
                -3200 <= e <= 4900,
                -12000 <= phase <= 7000,
                n == g * (256 - phase) + e * phase,
        ;
        if n >= 0 {
            assert(n / 256 <= 1000000) by (nonlinear_arith)
                requires
                    0 <= n <= 200000000,
            ;
        } else {
            assert((-n) / 256 <= 1000000) by (nonlinear_arith)
                requires
                    0 < -n <= 200000000,
            ;
        }
    }
    totals.0 + b
}

impl Board {
    /// Whether neither side has enough material to mate (see `insufficient_material`).
    pub fn has_insufficient_material(&self) -> (r: bool)
        requires
            self.inv(),
        ensures
            r == insufficient_material(self@.pieces),
    {
        proof {
            self.lemma_inv();
        }
        let t = gather_totals(self.pieces());
        proof {
            assert(Piece::spec_from_index(0) == Piece { color: PieceColor::White, kind: PieceKind::Pawn });
            assert(Piece::spec_from_index(1) == Piece { color: PieceColor::White, kind: PieceKind::Knight });
            assert(Piece::spec_from_index(2) == Piece { color: PieceColor::White, kind: PieceKind::Bishop });
            assert(Piece::spec_from_index(3) == Piece { color: PieceColor::White, kind: PieceKind::Rook });
            assert(Piece::spec_from_index(4) == Piece { color: PieceColor::White, kind: PieceKind::Queen });
            assert(Piece::spec_from_index(6) == Piece { color: PieceColor::Black, kind: PieceKind::Pawn });
            assert(Piece::spec_from_index(7) == Piece { color: PieceColor::Black, kind: PieceKind::Knight });
            assert(Piece::spec_from_index(8) == Piece { color: PieceColor::Black, kind: PieceKind::Bishop });
            assert(Piece::spec_from_index(9) == Piece { color: PieceColor::Black, kind: PieceKind::Rook });
            assert(Piece::spec_from_index(10) == Piece { color: PieceColor::Black, kind: PieceKind::Queen });
        }
        let heavy = t.counts[0] + t.counts[6] + t.counts[3] + t.counts[9] + t.counts[4] + t.counts[10];
        let knights = t.counts[1] + t.counts[7];
        let bishops = t.counts[2] + t.counts[8];
        heavy == 0 && (knights + bishops <= 1 || (knights == 0 && t.counts[2] == 1 && t.counts[8] == 1
            && t.white_light == t.black_light))
    }

    /// A centipawn score from the side to move's point of view (see `spec_evaluate`).
    pub fn evaluate(&self) -> (r: i32)
        requires
            self.inv(),
        ensures
            r as int == spec_evaluate(self@),
    {
        proof {
            self.lemma_inv();
        }
        let t = gather_totals(self.pieces());
        let wn = t.counts[1];
        let wb = t.counts[2];
        let wr = t.counts[3];
        let wq = t.counts[4];
        let bn = t.counts[7];
        let bb = t.counts[8];
        let br = t.counts[9];
        let bq = t.counts[10];
        let heavy = t.counts[0] + t.counts[6] + wr + br + wq + bq;
        let knights = wn + bn;
        let bishops = wb + bb;
        proof {
            assert(Piece::spec_from_index(0) == Piece { color: PieceColor::White, kind: PieceKind::Pawn });
            assert(Piece::spec_from_index(1) == Piece { color: PieceColor::White, kind: PieceKind::Knight });
            assert(Piece::spec_from_index(2) == Piece { color: PieceColor::White, kind: PieceKind::Bishop });
            assert(Piece::spec_from_index(3) == Piece { color: PieceColor::White, kind: PieceKind::Rook });
            assert(Piece::spec_from_index(4) == Piece { color: PieceColor::White, kind: PieceKind::Queen });
            assert(Piece::spec_from_index(6) == Piece { color: PieceColor::Black, kind: PieceKind::Pawn });
            assert(Piece::spec_from_index(7) == Piece { color: PieceColor::Black, kind: PieceKind::Knight });
            assert(Piece::spec_from_index(8) == Piece { color: PieceColor::Black, kind: PieceKind::Bishop });
            assert(Piece::spec_from_index(9) == Piece { color: PieceColor::Black, kind: PieceKind::Rook });
            assert(Piece::spec_from_index(10) == Piece { color: PieceColor::Black, kind: PieceKind::Queen });
        }
        if heavy == 0 && (knights + bishops <= 1 || (knights == 0 && wb == 1 && bb == 1 && t.white_light == t.black_light)) {
            return 0;
        }
        let weight = knights * KNIGHT_PHASE + bishops * BISHOP_PHASE + (wr + br) * ROOK_PHASE + (wq + bq) * QUEEN_PHASE;
        let phase = tdiv_exec((TOTAL_PHASE - weight) * 256 + TOTAL_PHASE / 2, TOTAL_PHASE);
        proof {
            let num = (TOTAL_PHASE - weight) * 256 + TOTAL_PHASE / 2;
            assert(-270000 <= num <= 7000);
            if num >= 0 {
                assert(num / 24 <= 7000) by (nonlinear_arith)
                    requires
                        0 <= num <= 7000,
                ;
            } else {
                assert((-num) / 24 <= 270000) by (nonlinear_arith)
                    requires
                        0 < -num <= 270000,
                ;
            }
            assert(-12000 <= phase <= 7000);
        }
        let white_score = side_score_exec(t.white, wb, phase);
        let black_score = side_score_exec(t.black, bb, phase);
        let diff = white_score - black_score;
        match self.side_to_move() {
            Side::White => diff as i32,
            Side::Black => (-diff) as i32,
        }
    }
}

} // verus!
