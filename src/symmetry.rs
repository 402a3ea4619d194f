use vstd::prelude::*;
use crate::board::BoardView;
use crate::evaluate::{
    count, count_of, flip_square, insufficient_material, is_light, light_bishops, pst_square, side_score,
    side_sums, spec_eg_pst, spec_evaluate, spec_material, spec_mg_pst, spec_phase,
};
use crate::square::{Piece, PieceColor, PieceKind, Side};

verus! {

/// The same piece with the other color.
pub open spec fn swap_color(p: Piece) -> Piece {
    match p.color {
        PieceColor::White => Piece { color: PieceColor::Black, kind: p.kind },
        PieceColor::Black => Piece { color: PieceColor::White, kind: p.kind },
        PieceColor::NoColor => p,
    }
}

/// The squares with colors swapped and ranks mirrored.
pub open spec fn mirror_pieces(ps: Seq<Piece>) -> Seq<Piece> {
    Seq::new(64, |s: int| swap_color(ps[flip_square(s)]))
}

/// The position with colors swapped and ranks mirrored; `flip_side` also hands the move
/// to the other side.
pub open spec fn mirror_view(v: BoardView, flip_side: bool) -> BoardView {
    BoardView {
        pieces: mirror_pieces(v.pieces),
        side: if flip_side { v.side.spec_opposite() } else { v.side },
        ..v
    }
}

pub open spec fn sum(f: spec_fn(int) -> int, n: nat) -> int
    decreases n,
{
    if n == 0 {
        0
    } else {
        sum(f, (n - 1) as nat) + f(n - 1)
    }
}

proof fn lemma_sum_ext(f: spec_fn(int) -> int, g: spec_fn(int) -> int, n: nat)
    requires
        forall|s: int| 0 <= s < n ==> #[trigger] f(s) == g(s),
    ensures
        sum(f, n) == sum(g, n),
    decreases n,
{
    if n > 0 {
        lemma_sum_ext(f, g, (n - 1) as nat);
    }
}

proof fn lemma_sum_add(f: spec_fn(int) -> int, g: spec_fn(int) -> int, n: nat)
    ensures
        sum(|s: int| f(s) + g(s), n) == sum(f, n) + sum(g, n),
    decreases n,
{
    if n > 0 {
        lemma_sum_add(f, g, (n - 1) as nat);
    }
}

pub open spec fn row(f: spec_fn(int) -> int, r: int) -> int {
    f(8 * r) + f(8 * r + 1) + f(8 * r + 2) + f(8 * r + 3) + f(8 * r + 4) + f(8 * r + 5) + f(8 * r + 6) + f(8 * r + 7)
}

pub open spec fn rows(f: spec_fn(int) -> int, k: nat) -> int
    decreases k,
{
    if k == 0 {
        0
    } else {
        rows(f, (k - 1) as nat) + row(f, k - 1)
    }
}

proof fn lemma_sum_rows(f: spec_fn(int) -> int, k: nat)
    ensures
        sum(f, 8 * k) == rows(f, k),
    decreases k,
{
    if k > 0 {
        lemma_sum_rows(f, (k - 1) as nat);
        let n = 8 * k;
        assert(sum(f, (n - 7) as nat) == sum(f, (n - 8) as nat) + f(n - 8));
        assert(sum(f, (n - 6) as nat) == sum(f, (n - 7) as nat) + f(n - 7));
        assert(sum(f, (n - 5) as nat) == sum(f, (n - 6) as nat) + f(n - 6));
        assert(sum(f, (n - 4) as nat) == sum(f, (n - 5) as nat) + f(n - 5));
        assert(sum(f, (n - 3) as nat) == sum(f, (n - 4) as nat) + f(n - 4));
        assert(sum(f, (n - 2) as nat) == sum(f, (n - 3) as nat) + f(n - 3));
        assert(sum(f, (n - 1) as nat) == sum(f, (n - 2) as nat) + f(n - 2));
        assert(sum(f, n as nat) == sum(f, (n - 1) as nat) + f(n - 1));
        assert(8 * (k - 1) == n - 8);
    }
}

proof fn lemma_flip_row(r: int, i: int)
    requires
        0 <= r < 8,
        0 <= i < 8,
    ensures
        flip_square(8 * r + i) == 8 * (7 - r) + i,
        flip_square(8 * (7 - r) + i) == 8 * r + i,
{
    assert((8 * r + i) / 8 == r);
    assert((8 * r + i) % 8 == i);
    assert((8 * (7 - r) + i) / 8 == 7 - r);
    assert((8 * (7 - r) + i) % 8 == i);
}

proof fn lemma_flip_involution(s: int)
    requires
        0 <= s < 64,
    ensures
        0 <= flip_square(s) < 64,
        flip_square(flip_square(s)) == s,
        is_light(flip_square(s)) == !is_light(s),
{
    let r = s / 8;
    let i = s % 8;
    assert(s == 8 * r + i);
    lemma_flip_row(r, i);
}

/// Summing over the mirrored squares gives the same total.
proof fn lemma_sum_flip(f: spec_fn(int) -> int)
    ensures
        sum(|s: int| f(flip_square(s)), 64) == sum(f, 64),
{
    let g = |s: int| f(flip_square(s));
    lemma_sum_rows(f, 8);
    lemma_sum_rows(g, 8);
    assert forall|r: int| 0 <= r < 8 implies row(g, r) == row(f, 7 - r) by {
        lemma_flip_row(r, 0);
        lemma_flip_row(r, 1);
        lemma_flip_row(r, 2);
        lemma_flip_row(r, 3);
        lemma_flip_row(r, 4);
        lemma_flip_row(r, 5);
        lemma_flip_row(r, 6);
        lemma_flip_row(r, 7);
    }
    assert(rows(g, 8) == rows(f, 8)) by {
        reveal_with_fuel(rows, 9);
    }
}

pub open spec fn material_at(ps: Seq<Piece>, c: PieceColor, s: int) -> int {
    if ps[s].kind != PieceKind::NoPiece && ps[s].color == c { spec_material(ps[s].kind) as int } else { 0 }
}

pub open spec fn mg_at(ps: Seq<Piece>, c: PieceColor, s: int) -> int {
    if ps[s].kind != PieceKind::NoPiece && ps[s].color == c { spec_mg_pst(ps[s].kind, pst_square(c, s)) as int } else { 0 }
}

pub open spec fn eg_at(ps: Seq<Piece>, c: PieceColor, s: int) -> int {
    if ps[s].kind != PieceKind::NoPiece && ps[s].color == c { spec_eg_pst(ps[s].kind, pst_square(c, s)) as int } else { 0 }
}

pub open spec fn count_at(ps: Seq<Piece>, p: Piece, s: int) -> int {
    if ps[s] == p { 1 } else { 0 }
}

pub open spec fn light_at(ps: Seq<Piece>, c: PieceColor, s: int) -> int {
    if ps[s] == (Piece { color: c, kind: PieceKind::Bishop }) && is_light(s) { 1 } else { 0 }
}

pub open spec fn dark_at(ps: Seq<Piece>, c: PieceColor, s: int) -> int {
    if ps[s] == (Piece { color: c, kind: PieceKind::Bishop }) && !is_light(s) { 1 } else { 0 }
}

proof fn lemma_sums_as_sum(ps: Seq<Piece>, c: PieceColor, p: Piece, n: nat)
    ensures
        side_sums(ps, c, n).0 == sum(|s: int| material_at(ps, c, s), n),
        side_sums(ps, c, n).1 == sum(|s: int| mg_at(ps, c, s), n),
        side_sums(ps, c, n).2 == sum(|s: int| eg_at(ps, c, s), n),
        count(ps, p, n) == sum(|s: int| count_at(ps, p, s), n),
        light_bishops(ps, c, n) == sum(|s: int| light_at(ps, c, s), n),
    decreases n,
{
    if n > 0 {
        lemma_sums_as_sum(ps, c, p, (n - 1) as nat);
    }
}

/// Mirroring swaps the two colors' totals, piece counts and bishop square colors.
proof fn lemma_mirror_totals(ps: Seq<Piece>, c: PieceColor, k: PieceKind)
    requires
        ps.len() == 64,
        c != PieceColor::NoColor,
    ensures
        ({
            let m = mirror_pieces(ps);
            let o = if c == PieceColor::White { PieceColor::Black } else { PieceColor::White };
            &&& side_sums(m, c, 64) == side_sums(ps, o, 64)
            &&& count(m, Piece { color: c, kind: k }, 64) == count(ps, Piece { color: o, kind: k }, 64)
            &&& light_bishops(m, c, 64) + light_bishops(ps, o, 64) == count(ps, Piece { color: o, kind: PieceKind::Bishop }, 64)
        }),
{
    let m = mirror_pieces(ps);
    let o = if c == PieceColor::White { PieceColor::Black } else { PieceColor::White };
    let p = Piece { color: c, kind: k };
    let q = Piece { color: o, kind: k };
    let bq = Piece { color: o, kind: PieceKind::Bishop };
    lemma_sums_as_sum(m, c, p, 64);
    lemma_sums_as_sum(ps, o, q, 64);
    lemma_sums_as_sum(ps, o, bq, 64);
    assert forall|s: int| 0 <= s < 64 implies material_at(m, c, s) == material_at(ps, o, flip_square(s)) && mg_at(m, c, s)
        == mg_at(ps, o, flip_square(s)) && eg_at(m, c, s) == eg_at(ps, o, flip_square(s)) && count_at(m, p, s)
        == count_at(ps, q, flip_square(s)) && light_at(m, c, s) == dark_at(ps, o, flip_square(s)) by {
        lemma_flip_involution(s);
        let t = flip_square(s);
        assert(m[s] == swap_color(ps[t]));
        assert(pst_square(c, s) == pst_square(o, t));
    }
    let fm = |s: int| material_at(ps, o, s);
    let fg = |s: int| mg_at(ps, o, s);
    let fe = |s: int| eg_at(ps, o, s);
    let fc = |s: int| count_at(ps, q, s);
    let fd = |s: int| dark_at(ps, o, s);
    let fl = |s: int| light_at(ps, o, s);
    lemma_sum_flip(fm);
    lemma_sum_flip(fg);
    lemma_sum_flip(fe);
    lemma_sum_flip(fc);
    lemma_sum_flip(fd);
    lemma_sum_ext(|s: int| material_at(m, c, s), |s: int| fm(flip_square(s)), 64);
    lemma_sum_ext(|s: int| mg_at(m, c, s), |s: int| fg(flip_square(s)), 64);
    lemma_sum_ext(|s: int| eg_at(m, c, s), |s: int| fe(flip_square(s)), 64);
    lemma_sum_ext(|s: int| count_at(m, p, s), |s: int| fc(flip_square(s)), 64);
    lemma_sum_ext(|s: int| light_at(m, c, s), |s: int| fd(flip_square(s)), 64);
    lemma_sum_add(fd, fl, 64);
    lemma_sum_ext(|s: int| fd(s) + fl(s), |s: int| count_at(ps, bq, s), 64);
}

/// Swapping the colors and mirroring the ranks, with the same side to move, negates the
/// evaluation; handing the move to the other side as well leaves it unchanged.
pub proof fn lemma_evaluate_mirror(v: BoardView)
    requires
        v.pieces.len() == 64,
    ensures
        spec_evaluate(mirror_view(v, false)) == -spec_evaluate(v),
        spec_evaluate(mirror_view(v, true)) == spec_evaluate(v),
{
    let ps = v.pieces;
    let m = mirror_pieces(ps);
    lemma_mirror_totals(ps, PieceColor::White, PieceKind::Pawn);
    lemma_mirror_totals(ps, PieceColor::White, PieceKind::Knight);
    lemma_mirror_totals(ps, PieceColor::White, PieceKind::Bishop);
    lemma_mirror_totals(ps, PieceColor::White, PieceKind::Rook);
    lemma_mirror_totals(ps, PieceColor::White, PieceKind::Queen);
    lemma_mirror_totals(ps, PieceColor::White, PieceKind::King);
    lemma_mirror_totals(ps, PieceColor::Black, PieceKind::Pawn);
    lemma_mirror_totals(ps, PieceColor::Black, PieceKind::Knight);
    lemma_mirror_totals(ps, PieceColor::Black, PieceKind::Bishop);
    lemma_mirror_totals(ps, PieceColor::Black, PieceKind::Rook);
    lemma_mirror_totals(ps, PieceColor::Black, PieceKind::Queen);
    lemma_mirror_totals(ps, PieceColor::Black, PieceKind::King);
    let w = PieceColor::White;
    let b = PieceColor::Black;
    assert(spec_phase(m) == spec_phase(ps));
    let ph = spec_phase(ps);
    assert(side_score(m, w, ph) == side_score(ps, b, ph));
    assert(side_score(m, b, ph) == side_score(ps, w, ph));
    assert(insufficient_material(m) == insufficient_material(ps));
    assert(mirror_view(v, false).pieces == m);
    assert(mirror_view(v, true).pieces == m);
    match v.side {
        Side::White => {},
        Side::Black => {},
    }
}

} // verus!
