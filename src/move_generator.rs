use vstd::prelude::*;
use crate::attacks::{
    MoveGenerator, king_attacks, knight_attacks, pawn_attacks, pawn_pushes, spec_king_attacks,
    spec_knight_attacks, spec_pawn_attacks, RANK_4_MASK, RANK_5_MASK,
};
use crate::bitboard::{Bitboard, bit, lemma_bit_clear_decreases, lemma_bit_ops, lemma_lowest_bit};
use crate::board::{Board, BoardView, CastlingKind, view_ok};
use crate::moves::{Move, MoveFlag, MoveKind, MoveList};
use crate::square::{Piece, PieceColor, PieceKind, Side, Square};

verus! {

/// Two sets meet exactly when some square lies in both.
pub proof fn lemma_and_nonzero(a: u64, b: u64)
    ensures
        (a & b != 0) <==> exists|s: int| 0 <= s < 64 && #[trigger] bit(a, s as u64) && bit(b, s as u64),
{
    if a & b != 0 {
        lemma_lowest_bit(a & b);
        let t = (a & b).trailing_zeros() as u64;
        lemma_bit_ops(a, b, t);
        assert(bit(a, (t as int) as u64));
    }
    if exists|s: int| 0 <= s < 64 && #[trigger] bit(a, s as u64) && bit(b, s as u64) {
        let s = choose|s: int| 0 <= s < 64 && #[trigger] bit(a, s as u64) && bit(b, s as u64);
        lemma_bit_ops(a, b, s as u64);
        lemma_bit_clear_decreases(a & b, s as u64);
    }
}

/// Square `s` holds `p` in the view.
pub open spec fn holds(v: BoardView, s: int, p: Piece) -> bool {
    v.pieces[s] == p
}

/// Whether `attacker` attacks square `sq`, given the occupancy of the whole board: some
/// attacker piece stands on a square from which the attack pattern of its kind reaches `sq`.
pub open spec fn spec_square_attacked(gen: MoveGenerator, v: BoardView, occupancy: u64, sq: nat, attacker: Side) -> bool {
    let c = attacker.spec_color();
    exists|s: int|
        0 <= s < 64 && {
            ||| (bit(spec_pawn_attacks(attacker.spec_opposite(), sq), s as u64) && #[trigger] v.pieces[s] == Piece { color: c, kind: PieceKind::Pawn })
            ||| (bit(spec_king_attacks(sq), s as u64) && v.pieces[s] == Piece { color: c, kind: PieceKind::King })
            ||| (bit(spec_knight_attacks(sq), s as u64) && v.pieces[s] == Piece { color: c, kind: PieceKind::Knight })
            ||| (gen.spec_bishop_attacked(sq, occupancy, s) && (v.pieces[s] == Piece { color: c, kind: PieceKind::Bishop } || v.pieces[s] == Piece { color: c, kind: PieceKind::Queen }))
            ||| (gen.spec_rook_attacked(sq, occupancy, s) && (v.pieces[s] == Piece { color: c, kind: PieceKind::Rook } || v.pieces[s] == Piece { color: c, kind: PieceKind::Queen }))
        }
}

/// The occupancy of the whole board.
pub open spec fn spec_all_occupancy(b: &Board) -> u64 {
    b.spec_occupancy(0) | b.spec_occupancy(1)
}

pub open spec fn spec_board_attacked(b: &Board, sq: nat, attacker: Side) -> bool {
    spec_square_attacked(b.generator(), b@, spec_all_occupancy(b), sq, attacker)
}

/// A move as the generator emits it: it starts on a piece of the side to move, does not
/// land on one, and its kind and flag match what stands on its squares.
pub open spec fn generated_move(v: BoardView, m: Move) -> bool {
    let from = m.spec_from() as int;
    let to = m.spec_to() as int;
    let own = v.side.spec_color();
    &&& m.wf()
    &&& v.pieces[from].is_real()
    &&& v.pieces[from].color == own
    &&& v.pieces[to].color != own
    &&& from != to
    &&& (m.spec_kind() == MoveKind::Quiet ==> v.pieces[to] == Piece::spec_empty() && m.spec_flag() == MoveFlag::NoFlag)
    &&& (m.spec_kind() == MoveKind::Capture && m.spec_flag() != MoveFlag::EnPassant ==> v.pieces[to].is_real() && m.spec_flag() == MoveFlag::NoFlag)
    &&& (m.spec_kind() == MoveKind::Capture && m.spec_flag() == MoveFlag::EnPassant ==> {
        let cs = crate::make_move::spec_capture_square(v.side, to as nat);
        &&& to == v.ep@
        &&& v.pieces[from].kind == PieceKind::Pawn
        &&& v.pieces[to] == Piece::spec_empty()
        &&& 0 <= cs < 64
        &&& cs != from
        &&& v.pieces[cs] == (Piece { color: v.side.spec_opposite().spec_color(), kind: PieceKind::Pawn })
    })
    &&& (m.spec_kind() == MoveKind::Castle ==> {
        let rs = crate::make_move::spec_rook_squares(to as nat);
        &&& v.pieces[from].kind == PieceKind::King
        &&& v.pieces[to] == Piece::spec_empty()
        &&& m.spec_flag() == MoveFlag::NoFlag
        &&& ((from == 4 && (to == 6 || to == 2)) || (from == 60 && (to == 62 || to == 58)))
        &&& v.pieces[rs->Some_0.0 as int] == (Piece { color: own, kind: PieceKind::Rook })
        &&& v.pieces[rs->Some_0.1 as int] == Piece::spec_empty()
    })
    &&& (v.pieces[from].kind == PieceKind::Pawn && ((own == PieceColor::White && to / 8 == 7) || (own == PieceColor::Black
        && to / 8 == 0)) ==> m.spec_kind() == MoveKind::Promotion)
    &&& (m.spec_kind() == MoveKind::Promotion ==> v.pieces[from].kind == PieceKind::Pawn && m.spec_flag().spec_promotion_kind() != PieceKind::NoPiece)
}

/// The list grew by moves that are all `generated_move`s, keeping what it held.
pub open spec fn extends_with_generated(v: BoardView, old_list: Seq<Move>, new_list: Seq<Move>) -> bool {
    &&& new_list.len() >= old_list.len()
    &&& new_list.subrange(0, old_list.len() as int) == old_list
    &&& forall|k: int| old_list.len() <= k < new_list.len() ==> generated_move(v, #[trigger] new_list[k])
}

/// The list grew by captures (and promotions) only.
pub open spec fn extends_with_captures(old_list: Seq<Move>, new_list: Seq<Move>) -> bool {
    forall|k: int| old_list.len() <= k < new_list.len() ==> (#[trigger] new_list[k]).spec_kind() == MoveKind::Capture
        || new_list[k].spec_kind() == MoveKind::Promotion
}

proof fn lemma_extends_trans(v: BoardView, a: Seq<Move>, b: Seq<Move>, c: Seq<Move>)
    requires
        extends_with_generated(v, a, b),
        extends_with_generated(v, b, c),
    ensures
        extends_with_generated(v, a, c),
{
    assert(c.subrange(0, a.len() as int) =~= a) by {
        assert forall|k: int| 0 <= k < a.len() implies c.subrange(0, a.len() as int)[k] == a[k] by {
            assert(c[k] == c.subrange(0, b.len() as int)[k]);
            assert(b[k] == b.subrange(0, a.len() as int)[k]);
        }
    }
    assert forall|k: int| a.len() <= k < c.len() implies generated_move(v, #[trigger] c[k]) by {
        if k < b.len() {
            assert(c[k] == c.subrange(0, b.len() as int)[k]);
        }
    }
}

proof fn lemma_captures_trans(a: Seq<Move>, b: Seq<Move>, c: Seq<Move>)
    requires
        extends_with_captures(a, b),
        extends_with_captures(b, c),
        b.len() >= a.len(),
        c.len() >= b.len(),
        c.subrange(0, b.len() as int) == b,
    ensures
        extends_with_captures(a, c),
{
    assert forall|k: int| a.len() <= k < c.len() implies (#[trigger] c[k]).spec_kind() == MoveKind::Capture
        || c[k].spec_kind() == MoveKind::Promotion by {
        if k < b.len() {
            assert(c[k] == c.subrange(0, b.len() as int)[k]);
        }
    }
}

/// The square `steps` pushes ahead of `from` for a pawn of `side`.
pub open spec fn push_target(side: Side, from: int, steps: int) -> int {
    if side == Side::White {
        from + 8 * steps
    } else {
        from - 8 * steps
    }
}

/// The castling right a king landing on `to` uses.
pub open spec fn castle_bit(to: nat) -> u8 {
    if to == 6 {
        1
    } else if to == 2 {
        2
    } else if to == 62 {
        4
    } else {
        8
    }
}

/// A castle from `from` to `to` is allowed: the right is held, the king's square and the
/// square it passes are not attacked, and on the queen side the knight's square is empty.
pub open spec fn castle_rule(b: &Board, from: nat, to: nat) -> bool {
    let enemy = b@.side.spec_opposite();
    let passed: nat = if to > from { (from + 1) as nat } else { (from - 1) as nat };
    &&& b@.castling & castle_bit(to) != 0
    &&& !spec_board_attacked(b, from, enemy)
    &&& !spec_board_attacked(b, passed, enemy)
    &&& (to < from ==> b@.pieces[from - 3] == Piece::spec_empty())
}

/// The home square of the king of `side`.
pub open spec fn king_home(side: Side) -> nat {
    if side == Side::White {
        4
    } else {
        60
    }
}

/// The castle of the side to move on the king side (`kingside`) or the queen side.
pub open spec fn castle_move(side: Side, kingside: bool) -> Move {
    let e = king_home(side);
    Move::new_spec(
        Square { index: e as u8 },
        Square { index: (if kingside { (e + 2) as int } else { e - 2 }) as u8 },
        MoveKind::Castle,
        MoveFlag::NoFlag,
    )
}

/// Everything a castle needs holds: the right, king and rook at home, the squares between
/// them empty, and neither the king's square nor the one it passes attacked.
pub open spec fn castle_allowed(b: &Board, kingside: bool) -> bool {
    let v = b@;
    let side = v.side;
    let e = king_home(side) as int;
    let enemy = side.spec_opposite();
    let king = Piece { color: side.spec_color(), kind: PieceKind::King };
    let rook = Piece { color: side.spec_color(), kind: PieceKind::Rook };
    if kingside {
        &&& v.castling & (if side == Side::White { 1u8 } else { 4u8 }) != 0
        &&& v.pieces[e + 1] == Piece::spec_empty()
        &&& v.pieces[e + 2] == Piece::spec_empty()
        &&& v.pieces[e] == king
        &&& v.pieces[e + 3] == rook
        &&& !spec_board_attacked(b, e as nat, enemy)
        &&& !spec_board_attacked(b, (e + 1) as nat, enemy)
    } else {
        &&& v.castling & (if side == Side::White { 2u8 } else { 8u8 }) != 0
        &&& v.pieces[e - 1] == Piece::spec_empty()
        &&& v.pieces[e - 2] == Piece::spec_empty()
        &&& v.pieces[e - 3] == Piece::spec_empty()
        &&& v.pieces[e] == king
        &&& v.pieces[e - 4] == rook
        &&& !spec_board_attacked(b, e as nat, enemy)
        &&& !spec_board_attacked(b, (e - 1) as nat, enemy)
    }
}

proof fn lemma_exists_kept(start: int, b: Seq<Move>, c: Seq<Move>, m: Move)
    requires
        0 <= start,
        exists|k: int| start <= k < b.len() && b[k] == m,
        c.len() >= b.len(),
        c.subrange(0, b.len() as int) == b,
    ensures
        exists|k: int| start <= k < c.len() && c[k] == m,
{
    let k = choose|k: int| start <= k < b.len() && b[k] == m;
    assert(c[k] == c.subrange(0, b.len() as int)[k]);
}

/// A pawn of the side to move stands on `s` and can push onto the empty last-rank square
/// ahead of it.
pub open spec fn promo_push_ready(b: &Board, s: int) -> bool {
    let v = b@;
    let t = push_target(v.side, s, 1);
    &&& 0 <= s < 64
    &&& 0 <= t < 64
    &&& v.pieces[s] == (Piece { color: v.side.spec_color(), kind: PieceKind::Pawn })
    &&& v.pieces[t] == Piece::spec_empty()
    &&& (if v.side == Side::White { t / 8 == 7 } else { t / 8 == 0 })
}

pub open spec fn promotion_move(s: int, t: int, flag: MoveFlag) -> Move {
    Move::new_spec(Square { index: s as u8 }, Square { index: t as u8 }, MoveKind::Promotion, flag)
}

/// `m` is among `list[start..]`.
pub open spec fn listed_from(list: Seq<Move>, start: int, m: Move) -> bool {
    exists|k: int| start <= k < list.len() && list[k] == m
}

/// All four promotions by a push from `s` are among `list[start..]`.
pub open spec fn promotions_listed(b: &Board, list: Seq<Move>, start: int, s: int) -> bool {
    forall|flag: MoveFlag| #![trigger flag.spec_promotion_kind()]
        flag.spec_promotion_kind() != PieceKind::NoPiece ==> listed_from(list, start, promotion_move(s, push_target(b@.side, s, 1), flag))
}

proof fn lemma_listed_kept(b: &Board, start: int, l1: Seq<Move>, l2: Seq<Move>)
    requires
        0 <= start,
        l2.len() >= l1.len(),
        l2.subrange(0, l1.len() as int) == l1,
    ensures
        forall|s: int| #[trigger] promotions_listed(b, l1, start, s) ==> promotions_listed(b, l2, start, s),
{
    assert forall|s: int| #[trigger] promotions_listed(b, l1, start, s) implies promotions_listed(b, l2, start, s) by {
        assert forall|flag: MoveFlag| #![trigger flag.spec_promotion_kind()] flag.spec_promotion_kind() != PieceKind::NoPiece implies listed_from(
            l2,
            start,
            promotion_move(s, push_target(b@.side, s, 1), flag),
        ) by {
            lemma_exists_kept(start, l1, l2, promotion_move(s, push_target(b@.side, s, 1), flag));
        }
    }
}

/// A move follows the movement rule of the piece it moves: knights and kings by their
/// patterns (or a castle), sliders along rays up to the first occupied square, pawns one
/// or two squares ahead when not capturing and diagonally forward when capturing.
pub open spec fn by_rule(b: &Board, m: Move) -> bool {
    let v = b@;
    let from = m.spec_from();
    let to = m.spec_to() as int;
    let occ = spec_all_occupancy(b);
    let gen = b.generator();
    match v.pieces[from as int].kind {
        PieceKind::Knight => bit(spec_knight_attacks(from), to as u64),
        PieceKind::King => if m.spec_kind() == MoveKind::Castle {
            castle_rule(b, from, to as nat)
        } else {
            bit(spec_king_attacks(from), to as u64)
        },
        PieceKind::Bishop => gen.spec_bishop_attacked(from, occ, to),
        PieceKind::Rook => gen.spec_rook_attacked(from, occ, to),
        PieceKind::Queen => gen.spec_bishop_attacked(from, occ, to) || gen.spec_rook_attacked(from, occ, to),
        PieceKind::Pawn => {
            &&& (m.spec_kind() == MoveKind::Capture ==> bit(spec_pawn_attacks(v.side, from), to as u64))
            &&& (m.spec_kind() == MoveKind::Quiet ==> to == push_target(v.side, from as int, 1) || (to == push_target(
                v.side,
                from as int,
                2,
            ) && (from as int) / 8 == (if v.side == Side::White { 1int } else { 6int }) && v.pieces[push_target(v.side, from as int, 1)]
                == Piece::spec_empty()))
            &&& (m.spec_kind() == MoveKind::Promotion ==> (to == push_target(v.side, from as int, 1) && v.pieces[to] == Piece::spec_empty())
                || (bit(spec_pawn_attacks(v.side, from), to as u64) && v.pieces[to].is_real()))
        },
        PieceKind::NoPiece => false,
    }
}

/// An enemy piece stands on `t`.
pub open spec fn enemy_on(v: BoardView, t: int) -> bool {
    v.pieces[t].is_real() && v.pieces[t].color == v.side.spec_opposite().spec_color()
}

/// The capture from `s` to `t` as the generator builds it.
pub open spec fn capture_move(s: int, t: int) -> Move {
    Move::new_spec(Square { index: s as u8 }, Square { index: t as u8 }, MoveKind::Capture, MoveFlag::NoFlag)
}

/// Every capture by the piece on `s` (a knight, bishop, rook, queen or king) of an enemy
/// piece it reaches is among `list[start..]`.
pub open spec fn captures_listed(b: &Board, list: Seq<Move>, start: int, s: int) -> bool {
    forall|t: int| 0 <= t < 64 && #[trigger] piece_reaches(b, s as nat, t) && enemy_on(b@, t) ==> listed_from(list, start, capture_move(s, t))
}

pub open spec fn last_rank(side: Side, t: int) -> bool {
    if side == Side::White {
        t / 8 == 7
    } else {
        t / 8 == 0
    }
}

/// The pawn capture from `s` onto `t` is among `list[start..]`: all four promotions when `t`
/// is on the last rank, the plain capture otherwise.
pub open spec fn pawn_capture_listed(b: &Board, list: Seq<Move>, start: int, s: int, t: int) -> bool {
    if last_rank(b@.side, t) {
        forall|flag: MoveFlag| #![trigger flag.spec_promotion_kind()]
            flag.spec_promotion_kind() != PieceKind::NoPiece ==> listed_from(list, start, promotion_move(s, t, flag))
    } else {
        listed_from(list, start, capture_move(s, t))
    }
}

/// Every capture of an enemy piece by the pawn on `s` is among `list[start..]`.
pub open spec fn pawn_captures_listed(b: &Board, list: Seq<Move>, start: int, s: int) -> bool {
    forall|t: int| 0 <= t < 64 && #[trigger] bit(spec_pawn_attacks(b@.side, s as nat), t as u64) && enemy_on(b@, t)
        ==> pawn_capture_listed(b, list, start, s, t)
}

proof fn lemma_pawn_capture_kept(b: &Board, start: int, l1: Seq<Move>, l2: Seq<Move>)
    requires
        0 <= start,
        l2.len() >= l1.len(),
        l2.subrange(0, l1.len() as int) == l1,
    ensures
        forall|s: int, t: int| #[trigger] pawn_capture_listed(b, l1, start, s, t) ==> pawn_capture_listed(b, l2, start, s, t),
        forall|s: int| #[trigger] pawn_captures_listed(b, l1, start, s) ==> pawn_captures_listed(b, l2, start, s),
{
    assert forall|s: int, t: int| #[trigger] pawn_capture_listed(b, l1, start, s, t) implies pawn_capture_listed(b, l2, start, s, t) by {
        if last_rank(b@.side, t) {
            assert forall|flag: MoveFlag| #![trigger flag.spec_promotion_kind()] flag.spec_promotion_kind() != PieceKind::NoPiece implies listed_from(
                l2,
                start,
                promotion_move(s, t, flag),
            ) by {
                lemma_exists_kept(start, l1, l2, promotion_move(s, t, flag));
            }
        } else {
            lemma_exists_kept(start, l1, l2, capture_move(s, t));
        }
    }
    assert forall|s: int| #[trigger] pawn_captures_listed(b, l1, start, s) implies pawn_captures_listed(b, l2, start, s) by {
        assert forall|t: int| 0 <= t < 64 && #[trigger] bit(spec_pawn_attacks(b@.side, s as nat), t as u64) && enemy_on(b@, t)
            implies pawn_capture_listed(b, l2, start, s, t) by {
            assert(pawn_capture_listed(b, l1, start, s, t));
        }
    }
}

proof fn lemma_captures_widen(b: &Board, l: Seq<Move>, s0: int, s1: int)
    requires
        0 <= s0 <= s1,
    ensures
        forall|s: int| #[trigger] captures_listed(b, l, s1, s) ==> captures_listed(b, l, s0, s),
{
    assert forall|s: int| #[trigger] captures_listed(b, l, s1, s) implies captures_listed(b, l, s0, s) by {
        assert forall|t: int| 0 <= t < 64 && #[trigger] piece_reaches(b, s as nat, t) && enemy_on(b@, t) implies listed_from(
            l,
            s0,
            capture_move(s, t),
        ) by {
            let k = choose|k: int| s1 <= k < l.len() && l[k] == capture_move(s, t);
        }
    }
}

/// The piece on `s` is a knight, bishop, rook, queen or king of the side to move.
pub open spec fn own_piece_not_pawn(v: BoardView, s: int) -> bool {
    &&& 0 <= s < 64
    &&& v.pieces[s].is_real()
    &&& v.pieces[s].color == v.side.spec_color()
    &&& v.pieces[s].kind != PieceKind::Pawn
}

proof fn lemma_captures_kept(b: &Board, start: int, l1: Seq<Move>, l2: Seq<Move>)
    requires
        0 <= start,
        l2.len() >= l1.len(),
        l2.subrange(0, l1.len() as int) == l1,
    ensures
        forall|s: int| #[trigger] captures_listed(b, l1, start, s) ==> captures_listed(b, l2, start, s),
{
    assert forall|s: int| #[trigger] captures_listed(b, l1, start, s) implies captures_listed(b, l2, start, s) by {
        assert forall|t: int| 0 <= t < 64 && #[trigger] piece_reaches(b, s as nat, t) && enemy_on(b@, t) implies listed_from(
            l2,
            start,
            capture_move(s, t),
        ) by {
            lemma_exists_kept(start, l1, l2, capture_move(s, t));
        }
    }
}

/// A knight, king, bishop, rook or queen on `from` reaches `to` by its movement rule.
pub open spec fn piece_reaches(b: &Board, from: nat, to: int) -> bool {
    let occ = spec_all_occupancy(b);
    let gen = b.generator();
    match b@.pieces[from as int].kind {
        PieceKind::Knight => bit(spec_knight_attacks(from), to as u64),
        PieceKind::King => bit(spec_king_attacks(from), to as u64),
        PieceKind::Bishop => gen.spec_bishop_attacked(from, occ, to),
        PieceKind::Rook => gen.spec_rook_attacked(from, occ, to),
        PieceKind::Queen => gen.spec_bishop_attacked(from, occ, to) || gen.spec_rook_attacked(from, occ, to),
        _ => false,
    }
}

/// Every move of `list` from `start` on follows the movement rules.
pub open spec fn all_by_rule(b: &Board, list: Seq<Move>, start: int) -> bool {
    forall|k: int| start <= k < list.len() ==> by_rule(b, #[trigger] list[k])
}

proof fn lemma_rule_push(b: &Board, list: Seq<Move>, start: int, m: Move)
    requires
        0 <= start,
        all_by_rule(b, list, start),
        by_rule(b, m),
    ensures
        all_by_rule(b, list.push(m), start),
{
    assert forall|k: int| start <= k < list.push(m).len() implies by_rule(b, #[trigger] list.push(m)[k]) by {
        if k < list.len() {
            assert(list.push(m)[k] == list[k]);
        }
    }
}

proof fn lemma_rule_trans(b: &Board, a: Seq<Move>, m: Seq<Move>, c: Seq<Move>)
    requires
        all_by_rule(b, m, a.len() as int),
        all_by_rule(b, c, m.len() as int),
        m.len() <= c.len(),
        c.subrange(0, m.len() as int) == m,
    ensures
        all_by_rule(b, c, a.len() as int),
{
    assert forall|k: int| a.len() <= k < c.len() implies by_rule(b, #[trigger] c[k]) by {
        if k < m.len() {
            assert(c[k] == c.subrange(0, m.len() as int)[k]);
        }
    }
}

proof fn lemma_rule_refl(b: &Board, list: Seq<Move>)
    ensures
        all_by_rule(b, list, list.len() as int),
{
}

/// Pushing a single bit one rank forward or back moves it by eight squares.
pub proof fn lemma_pawn_push_bits(f: u64, t: u64)
    requires
        f < 64,
        t < 64,
    ensures
        bit((1u64 << f) << 8u64, t) <==> t == f + 8,
        bit((1u64 << f) >> 8u64, t) <==> t + 8 == f,
{
    assert((bit((1u64 << f) << 8u64, t) <==> t == f + 8) && (bit((1u64 << f) >> 8u64, t) <==> t + 8 == f)) by (bit_vector)
        requires
            f < 64,
            t < 64,
    ;
}

pub proof fn lemma_shift_rank_bits(y: u64, t: u64)
    requires
        t < 64,
    ensures
        bit(y << 8u64, t) ==> t >= 8 && bit(y, (t - 8) as u64),
        bit(y >> 8u64, t) ==> t < 56 && bit(y, (t + 8) as u64),
{
    assert((bit(y << 8u64, t) ==> t >= 8 && bit(y, (t - 8) as u64)) && (bit(y >> 8u64, t) ==> t < 56 && bit(y, (t + 8) as u64)))
        by (bit_vector)
        requires
            t < 64,
    ;
}

pub const A1: usize = 0;
pub const B1: usize = 1;
pub const C1: usize = 2;
pub const D1: usize = 3;
pub const E1: usize = 4;
pub const F1: usize = 5;
pub const G1: usize = 6;
pub const H1: usize = 7;
pub const A8: usize = 56;
pub const B8: usize = 57;
pub const C8: usize = 58;
pub const D8: usize = 59;
pub const E8: usize = 60;
pub const F8: usize = 61;
pub const G8: usize = 62;
pub const H8: usize = 63;

impl MoveGenerator {
    /// Whether any piece of `attacker` attacks `square`.
    pub fn is_square_attacked(&self, board: &Board, square: Square, attacker: Side) -> (r: bool)
        requires
            board.inv(),
            *self == board.generator(),
            square.is_valid(),
        ensures
            r == spec_board_attacked(board, square@, attacker),
    {
        proof {
            board.lemma_inv();
        }
        let c = attacker.color();
        let sq = square.index();
        let pawns = board.get_piece_bb(Piece::new(c, PieceKind::Pawn));
        let king = board.get_piece_bb(Piece::new(c, PieceKind::King));
        let knights = board.get_piece_bb(Piece::new(c, PieceKind::Knight));
        let bishops = board.get_piece_bb(Piece::new(c, PieceKind::Bishop));
        let rooks = board.get_piece_bb(Piece::new(c, PieceKind::Rook));
        let queens = board.get_piece_bb(Piece::new(c, PieceKind::Queen));
        match (pawns, king, knights, bishops, rooks, queens) {
            (Ok(pawns), Ok(king), Ok(knights), Ok(bishops), Ok(rooks), Ok(queens)) => {
                let occ = board.occupancy(Side::White).0 | board.occupancy(Side::Black).0;
                let pa = pawn_attacks(attacker.opposite(), sq).0;
                let ka = king_attacks(sq).0;
                let na = knight_attacks(sq).0;
                let ba = self.bishop_attacks_from(sq, occ).0;
                let ra = self.rook_attacks_from(sq, occ).0;
                proof {
                    assert forall|s: int| 0 <= s < 64 implies (bit(ba, s as u64) <==> self.spec_bishop_attacked(sq as nat, occ, s)) by {
                        assert(Bitboard(ba).has(s) == bit(ba, s as u64));
                    }
                    assert forall|s: int| 0 <= s < 64 implies (bit(ra, s as u64) <==> self.spec_rook_attacked(sq as nat, occ, s)) by {
                        assert(Bitboard(ra).has(s) == bit(ra, s as u64));
                    }
                    lemma_and_nonzero(pa, pawns.0);
                    lemma_and_nonzero(ka, king.0);
                    lemma_and_nonzero(na, knights.0);
                    lemma_and_nonzero(ba, bishops.0);
                    lemma_and_nonzero(ra, rooks.0);
                    lemma_and_nonzero(ba, queens.0);
                    lemma_and_nonzero(ra, queens.0);
                    let v = board@;
                    let pawn = Piece { color: c, kind: PieceKind::Pawn };
                    assert forall|s: int| 0 <= s < 64 implies (bit(pawns.0, s as u64) <==> v.pieces[s] == pawn) by {
                        assert(pawns.has(s) == bit(pawns.0, s as u64));
                    }
                    assert forall|s: int| 0 <= s < 64 implies (bit(king.0, s as u64) <==> v.pieces[s] == Piece { color: c, kind: PieceKind::King }) by {
                        assert(king.has(s) == bit(king.0, s as u64));
                    }
                    assert forall|s: int| 0 <= s < 64 implies (bit(knights.0, s as u64) <==> v.pieces[s] == Piece { color: c, kind: PieceKind::Knight }) by {
                        assert(knights.has(s) == bit(knights.0, s as u64));
                    }
                    assert forall|s: int| 0 <= s < 64 implies (bit(bishops.0, s as u64) <==> v.pieces[s] == Piece { color: c, kind: PieceKind::Bishop }) by {
                        assert(bishops.has(s) == bit(bishops.0, s as u64));
                    }
                    assert forall|s: int| 0 <= s < 64 implies (bit(rooks.0, s as u64) <==> v.pieces[s] == Piece { color: c, kind: PieceKind::Rook }) by {
                        assert(rooks.has(s) == bit(rooks.0, s as u64));
                    }
                    assert forall|s: int| 0 <= s < 64 implies (bit(queens.0, s as u64) <==> v.pieces[s] == Piece { color: c, kind: PieceKind::Queen }) by {
                        assert(queens.has(s) == bit(queens.0, s as u64));
                    }
                }
                (pa & pawns.0 != 0) || (ka & king.0 != 0) || (na & knights.0 != 0) || (ba & bishops.0
                    != 0) || (ra & rooks.0 != 0) || (ba & queens.0 != 0) || (ra & queens.0 != 0)
            },
            _ => false,
        }
    }
}

proof fn lemma_extends_push(v: BoardView, a: Seq<Move>, b: Seq<Move>, m: Move, captures: bool)
    requires
        extends_with_generated(v, a, b),
        generated_move(v, m),
        captures ==> extends_with_captures(a, b),
        captures ==> (m.spec_kind() == MoveKind::Capture || m.spec_kind() == MoveKind::Promotion),
    ensures
        extends_with_generated(v, a, b.push(m)),
        captures ==> extends_with_captures(a, b.push(m)),
{
    let c = b.push(m);
    assert(c.subrange(0, a.len() as int) =~= a) by {
        assert forall|k: int| 0 <= k < a.len() implies c.subrange(0, a.len() as int)[k] == a[k] by {
            assert(b[k] == b.subrange(0, a.len() as int)[k]);
        }
    }
    assert forall|k: int| a.len() <= k < c.len() implies generated_move(v, #[trigger] c[k]) by {
        if k < b.len() {
            assert(c[k] == b[k]);
        }
    }
    if captures {
        assert forall|k: int| a.len() <= k < c.len() implies (#[trigger] c[k]).spec_kind() == MoveKind::Capture
            || c[k].spec_kind() == MoveKind::Promotion by {
            if k < b.len() {
                assert(c[k] == b[k]);
            }
        }
    }
}

proof fn lemma_extends_refl(v: BoardView, a: Seq<Move>)
    ensures
        extends_with_generated(v, a, a),
        extends_with_captures(a, a),
{
    assert(a.subrange(0, a.len() as int) =~= a);
}

/// Squares outside the mover's own occupancy hold no piece of the mover.
proof fn lemma_not_own(board: &Board, own: Bitboard, t: int)
    requires
        board.inv(),
        0 <= t < 64,
        forall|s: int| 0 <= s < 64 ==> (#[trigger] own.has(s) <==> (board@.pieces[s].is_real()
            && board@.pieces[s].color == board@.side.spec_color())),
        !own.has(t),
    ensures
        board@.pieces[t].color != board@.side.spec_color(),
        !board@.pieces[t].is_real() ==> board@.pieces[t] == Piece::spec_empty(),
{
    board.lemma_inv();
}

/// Pushes a move from `from` to each square of `targets`: a capture where an enemy piece
/// stands, a quiet move elsewhere (unless only captures are asked for).
fn push_targets(board: &Board, list: &mut MoveList, from: Square, targets: Bitboard, captures_only: bool)
    requires
        board.inv(),
        from.is_valid(),
        board@.pieces[from@ as int].is_real(),
        board@.pieces[from@ as int].color == board@.side.spec_color(),
        board@.pieces[from@ as int].kind != PieceKind::Pawn,
        forall|t: int| 0 <= t < 64 && #[trigger] targets.has(t) ==> board@.pieces[t].color != board@.side.spec_color(),
        forall|t: int| 0 <= t < 64 && #[trigger] targets.has(t) ==> piece_reaches(board, from@, t),
    ensures
        extends_with_generated(board@, old(list)@, final(list)@),
        captures_only ==> extends_with_captures(old(list)@, final(list)@),
        all_by_rule(board, final(list)@, old(list)@.len() as int),
        forall|t: int| 0 <= t < 64 && #[trigger] targets.has(t) && enemy_on(board@, t) ==> listed_from(final(list)@, old(list)@.len() as int, capture_move(from@ as int, t)),
{
    proof {
        board.lemma_inv();
        lemma_extends_refl(board@, list@);
    }
    let side = board.side_to_move();
    let enemy = board.occupancy(side.opposite());
    let mut rest = targets;
    proof {
        assert forall|t: int| 0 <= t < 64 && #[trigger] targets.has(t) && !rest.has(t) && enemy_on(board@, t) implies listed_from(
            list@,
            old(list)@.len() as int,
            capture_move(from@ as int, t),
        ) by {}
    }
    while rest.0 != 0
        invariant
            board.inv(),
            view_ok(board@),
            from.is_valid(),
            board@.pieces[from@ as int].is_real(),
            board@.pieces[from@ as int].color == board@.side.spec_color(),
            board@.pieces[from@ as int].kind != PieceKind::Pawn,
            side == board@.side,
            forall|s: int| 0 <= s < 64 ==> (#[trigger] enemy.has(s) <==> (board@.pieces[s].is_real()
                && board@.pieces[s].color == side.spec_opposite().spec_color())),
            forall|t: int| 0 <= t < 64 && #[trigger] rest.has(t) ==> board@.pieces[t].color != board@.side.spec_color(),
            forall|t: int| 0 <= t < 64 && #[trigger] rest.has(t) ==> piece_reaches(board, from@, t),
            extends_with_generated(board@, old(list)@, list@),
            captures_only ==> extends_with_captures(old(list)@, list@),
            all_by_rule(board, list@, old(list)@.len() as int),
            forall|t: int| 0 <= t < 64 && #[trigger] rest.has(t) ==> targets.has(t),
            forall|t: int| 0 <= t < 64 && #[trigger] targets.has(t) && !rest.has(t) && enemy_on(board@, t) ==> listed_from(list@, old(list)@.len() as int, capture_move(from@ as int, t)),
        decreases rest.0,
    {
        let ghost rest0 = rest;
        let ghost l0 = list@;
        let to = rest.pop_bit();
        let is_capture = enemy.is_occupied(to);
        if is_capture {
            let m = Move::new(from, to, MoveKind::Capture, MoveFlag::NoFlag);
            proof {
                lemma_extends_push(board@, old(list)@, list@, m, captures_only);
                lemma_rule_push(board, list@, old(list)@.len() as int, m);
            }
            list.push(m);
            proof {
                assert(from == Square { index: from@ as u8 });
                assert(to == Square { index: to@ as u8 });
                assert(list@[list@.len() - 1] == capture_move(from@ as int, to@ as int));
            }
        } else if !captures_only {
            let m = Move::new(from, to, MoveKind::Quiet, MoveFlag::NoFlag);
            proof {
                assert(board@.pieces[to@ as int] == Piece::spec_empty());
                lemma_extends_push(board@, old(list)@, list@, m, captures_only);
                lemma_rule_push(board, list@, old(list)@.len() as int, m);
            }
            list.push(m);
        }
        proof {
            assert(list@.subrange(0, l0.len() as int) =~= l0);
            assert forall|t: int| 0 <= t < 64 && #[trigger] targets.has(t) && !rest.has(t) && enemy_on(board@, t) implies listed_from(
                list@,
                old(list)@.len() as int,
                capture_move(from@ as int, t),
            ) by {
                if t == to@ as int {
                    assert(enemy.has(t));
                    assert(listed_from(list@, old(list)@.len() as int, capture_move(from@ as int, t)));
                } else {
                    assert(!rest0.has(t));
                    lemma_exists_kept(old(list)@.len() as int, l0, list@, capture_move(from@ as int, t));
                }
            }
        }
    }
    proof {
        assert forall|t: int| 0 <= t < 64 && #[trigger] targets.has(t) && enemy_on(board@, t) implies listed_from(
            list@,
            old(list)@.len() as int,
            capture_move(from@ as int, t),
        ) by {
            lemma_bit_ops(0, 0, t as u64);
            assert(!rest.has(t));
        }
    }
}

impl MoveGenerator {
    /// Appends the moves of every piece of `kind` (knight, bishop, rook, queen or king) of
    /// the side to move: its attack set minus its own pieces.
    fn generate_piece_moves(&self, board: &Board, list: &mut MoveList, kind: PieceKind, captures_only: bool)
        requires
            board.inv(),
            *self == board.generator(),
            kind != PieceKind::Pawn,
            kind != PieceKind::NoPiece,
        ensures
            extends_with_generated(board@, old(list)@, final(list)@),
            captures_only ==> extends_with_captures(old(list)@, final(list)@),
            all_by_rule(board, final(list)@, old(list)@.len() as int),
            forall|s: int| 0 <= s < 64 && board@.pieces[s] == (Piece { color: board@.side.spec_color(), kind }) ==> #[trigger] captures_listed(
                board,
                final(list)@,
                old(list)@.len() as int,
                s,
            ),
    {
        proof {
            board.lemma_inv();
            lemma_extends_refl(board@, list@);
            lemma_rule_refl(board, list@);
        }
        let side = board.side_to_move();
        let own = board.occupancy(side);
        let occ = board.occupancy(Side::White).0 | board.occupancy(Side::Black).0;
        let piece = Piece::new(side.color(), kind);
        let mut pieces = match board.get_piece_bb(piece) {
            Ok(b) => b,
            Err(_) => { return; },
        };
        let ghost pieces0 = pieces;
        while pieces.0 != 0
            invariant
                board.inv(),
                *self == board.generator(),
                self.wf(),
                side == board@.side,
                piece == (Piece { color: side.spec_color(), kind }),
                kind != PieceKind::Pawn,
                piece.is_real(),
                forall|s: int| 0 <= s < 64 ==> (#[trigger] pieces.has(s) ==> board@.pieces[s] == piece),
                forall|s: int| 0 <= s < 64 ==> (#[trigger] own.has(s) <==> (board@.pieces[s].is_real()
                    && board@.pieces[s].color == board@.side.spec_color())),
                extends_with_generated(board@, old(list)@, list@),
                captures_only ==> extends_with_captures(old(list)@, list@),
                all_by_rule(board, list@, old(list)@.len() as int),
                occ == spec_all_occupancy(board),
                forall|s: int| 0 <= s < 64 ==> (#[trigger] pieces0.has(s) <==> board@.pieces[s] == piece),
                forall|s: int| 0 <= s < 64 && #[trigger] pieces.has(s) ==> pieces0.has(s),
                forall|s: int| 0 <= s < 64 && #[trigger] pieces0.has(s) && !pieces.has(s) ==> captures_listed(board, list@, old(list)@.len() as int, s),
            decreases pieces.0,
        {
            let from = pieces.pop_bit();
            let f = from.index();
            let attacks = match kind {
                PieceKind::Knight => knight_attacks(f).0,
                PieceKind::King => king_attacks(f).0,
                PieceKind::Bishop => {
                    let a = self.bishop_attacks_from(f, occ);
                    proof {
                        assert forall|t: int| 0 <= t < 64 implies (bit(a.0, t as u64) <==> piece_reaches(board, f as nat, t)) by {
                            assert(a.has(t) == bit(a.0, t as u64));
                        }
                    }
                    a.0
                },
                PieceKind::Rook => {
                    let a = self.rook_attacks_from(f, occ);
                    proof {
                        assert forall|t: int| 0 <= t < 64 implies (bit(a.0, t as u64) <==> piece_reaches(board, f as nat, t)) by {
                            assert(a.has(t) == bit(a.0, t as u64));
                        }
                    }
                    a.0
                },
                _ => {
                    let a = self.bishop_attacks_from(f, occ);
                    let b = self.rook_attacks_from(f, occ);
                    proof {
                        assert forall|t: int| 0 <= t < 64 implies (bit(a.0 | b.0, t as u64) <==> piece_reaches(board, f as nat, t)) by {
                            lemma_bit_ops(a.0, b.0, t as u64);
                            assert(a.has(t) == bit(a.0, t as u64));
                            assert(b.has(t) == bit(b.0, t as u64));
                        }
                    }
                    a.0 | b.0
                },
            };
            proof {
                assert(board@.pieces[f as int] == piece);
                assert forall|t: int| 0 <= t < 64 implies (bit(attacks, t as u64) <==> piece_reaches(board, f as nat, t)) by {
                }
            }
            let targets = Bitboard(attacks & !own.0);
            proof {
                assert forall|t: int| 0 <= t < 64 && #[trigger] targets.has(t) implies board@.pieces[t].color
                    != board@.side.spec_color() by {
                    lemma_bit_ops(attacks, !own.0, t as u64);
                    lemma_bit_ops(own.0, own.0, t as u64);
                    assert(own.has(t) == bit(own.0, t as u64));
                    lemma_not_own(board, own, t);
                }
                assert forall|t: int| 0 <= t < 64 && #[trigger] targets.has(t) implies piece_reaches(board, from@, t) by {
                    lemma_bit_ops(attacks, !own.0, t as u64);
                }
            }
            let ghost before = list@;
            push_targets(board, list, from, targets, captures_only);
            proof {
                assert(list@.subrange(0, before.len() as int) == before);
                lemma_captures_kept(board, old(list)@.len() as int, before, list@);
                assert forall|t: int| 0 <= t < 64 && #[trigger] piece_reaches(board, f as nat, t) && enemy_on(board@, t) implies listed_from(
                    list@,
                    old(list)@.len() as int,
                    capture_move(f as int, t),
                ) by {
                    lemma_bit_ops(attacks, !own.0, t as u64);
                    lemma_bit_ops(own.0, own.0, t as u64);
                    assert(own.has(t) == bit(own.0, t as u64));
                    assert(targets.has(t));
                }
                assert(captures_listed(board, list@, old(list)@.len() as int, f as int));
                lemma_rule_trans(board, old(list)@, before, list@);
                lemma_extends_trans(board@, old(list)@, before, list@);
                if captures_only {
                    lemma_captures_trans(old(list)@, before, list@);
                }
            }
        }
        proof {
            assert forall|s: int| 0 <= s < 64 && board@.pieces[s] == (Piece { color: board@.side.spec_color(), kind }) implies #[trigger] captures_listed(
                board,
                list@,
                old(list)@.len() as int,
                s,
            ) by {
                lemma_bit_ops(0, 0, s as u64);
                assert(pieces0.has(s));
                assert(!pieces.has(s));
            }
        }
    }
}

/// The double-push target masks hold only the fourth and the fifth rank.
pub proof fn lemma_double_push_ranks(t: u64)
    requires
        t < 64,
    ensures
        bit(RANK_4_MASK, t) ==> t / 8 == 3,
        bit(RANK_5_MASK, t) ==> t / 8 == 4,
{
    assert((bit(RANK_4_MASK, t) ==> t / 8 == 3) && (bit(RANK_5_MASK, t) ==> t / 8 == 4)) by (bit_vector)
        requires
            t < 64,
    ;
}

/// Whether a pawn of `side` reaching `to` promotes (last rank).
pub fn is_promotion(side: Side, to: Square) -> (r: bool)
    requires
        to.is_valid(),
    ensures
        r == (match side {
            Side::White => to@ / 8 == 7,
            Side::Black => to@ / 8 == 0,
        }),
{
    match side {
        Side::White => to.index / 8 == 7,
        Side::Black => to.index / 8 == 0,
    }
}

/// Appends the four promotions (knight, bishop, rook, queen) from `from` to `to`.
fn push_all_promotions(board: &Board, list: &mut MoveList, from: Square, to: Square, captures: bool)
    requires
        from.is_valid(),
        to.is_valid(),
        from@ != to@,
        board@.pieces[from@ as int].is_real(),
        board@.pieces[from@ as int].color == board@.side.spec_color(),
        board@.pieces[from@ as int].kind == PieceKind::Pawn,
        board@.pieces[to@ as int].color != board@.side.spec_color(),
        (to@ == push_target(board@.side, from@ as int, 1) && board@.pieces[to@ as int] == Piece::spec_empty()) || (bit(
            spec_pawn_attacks(board@.side, from@),
            to@ as u64,
        ) && board@.pieces[to@ as int].is_real()),
    ensures
        forall|start: int| 0 <= start <= old(list)@.len() && all_by_rule(board, old(list)@, start) ==> all_by_rule(board, final(list)@, start),
        final(list)@ == old(list)@.push(Move::new_spec(from, to, MoveKind::Promotion, MoveFlag::KnightPromotion))
            .push(Move::new_spec(from, to, MoveKind::Promotion, MoveFlag::BishopPromotion))
            .push(Move::new_spec(from, to, MoveKind::Promotion, MoveFlag::RookPromotion))
            .push(Move::new_spec(from, to, MoveKind::Promotion, MoveFlag::QueenPromotion)),
        forall|a: Seq<Move>| extends_with_generated(board@, a, old(list)@) ==> extends_with_generated(board@, a, final(list)@),
        forall|a: Seq<Move>| extends_with_captures(a, old(list)@) && extends_with_generated(board@, a, old(list)@) ==> extends_with_captures(a, final(list)@),
{
    let ghost l0 = list@;
    let m1 = Move::new(from, to, MoveKind::Promotion, MoveFlag::KnightPromotion);
    proof {
        assert(by_rule(board, m1));
    }
    let m2 = Move::new(from, to, MoveKind::Promotion, MoveFlag::BishopPromotion);
    let m3 = Move::new(from, to, MoveKind::Promotion, MoveFlag::RookPromotion);
    let m4 = Move::new(from, to, MoveKind::Promotion, MoveFlag::QueenPromotion);
    list.push(m1);
    list.push(m2);
    list.push(m3);
    list.push(m4);
    proof {
        assert forall|start: int| 0 <= start <= l0.len() && all_by_rule(board, l0, start) implies all_by_rule(board, list@, start) by {
            assert(by_rule(board, m2) && by_rule(board, m3) && by_rule(board, m4));
            lemma_rule_push(board, l0, start, m1);
            lemma_rule_push(board, l0.push(m1), start, m2);
            lemma_rule_push(board, l0.push(m1).push(m2), start, m3);
            lemma_rule_push(board, l0.push(m1).push(m2).push(m3), start, m4);
        }
        assert forall|a: Seq<Move>| extends_with_generated(board@, a, l0) implies extends_with_generated(board@, a, list@) by {
            lemma_extends_push(board@, a, l0, m1, false);
            lemma_extends_push(board@, a, l0.push(m1), m2, false);
            lemma_extends_push(board@, a, l0.push(m1).push(m2), m3, false);
            lemma_extends_push(board@, a, l0.push(m1).push(m2).push(m3), m4, false);
        }
        assert forall|a: Seq<Move>| extends_with_captures(a, l0) && extends_with_generated(board@, a, l0) implies extends_with_captures(a, list@) by {
            lemma_extends_push(board@, a, l0, m1, true);
            lemma_extends_push(board@, a, l0.push(m1), m2, true);
            lemma_extends_push(board@, a, l0.push(m1).push(m2), m3, true);
            lemma_extends_push(board@, a, l0.push(m1).push(m2).push(m3), m4, true);
        }
    }
}

impl MoveGenerator {
    /// Appends the pawn moves of the side to move: single and double pushes (unless only
    /// captures are asked for), diagonal and en-passant captures, promotions.
    fn generate_pawn_moves(&self, board: &Board, list: &mut MoveList, captures_only: bool)
        requires
            board.inv(),
        ensures
            extends_with_generated(board@, old(list)@, final(list)@),
            captures_only ==> extends_with_captures(old(list)@, final(list)@),
            all_by_rule(board, final(list)@, old(list)@.len() as int),
            !captures_only ==> forall|s: int| #[trigger] promo_push_ready(board, s) ==> promotions_listed(board, final(list)@, old(list)@.len() as int, s),
            forall|s: int| 0 <= s < 64 && board@.pieces[s] == (Piece { color: board@.side.spec_color(), kind: PieceKind::Pawn })
                ==> #[trigger] pawn_captures_listed(board, final(list)@, old(list)@.len() as int, s),
    {
        proof {
            board.lemma_inv();
            lemma_extends_refl(board@, list@);
            lemma_rule_refl(board, list@);
        }
        let side = board.side_to_move();
        let own = board.occupancy(side);
        let enemy = board.occupancy(side.opposite());
        let empty = board.empty_squares();
        let ep = board.en_passant_square();
        let ep_bb: u64 = if ep.is_none() { 0 } else { ep.bitboard().0 };
        let piece = Piece::new(side.color(), PieceKind::Pawn);
        let mut pawns = match board.get_piece_bb(piece) {
            Ok(b) => b,
            Err(_) => { return; },
        };
        let ghost pawns0 = pawns;
        proof {
            assert forall|s: int| #[trigger] promo_push_ready(board, s) implies pawns.has(s) by {}
        }
        while pawns.0 != 0
            invariant
                board.inv(),
                view_ok(board@),
                side == board@.side,
                ep == board@.ep,
                ep.is_valid() ==> ep_bb == 1u64 << (ep.index as u64),
                !ep.is_valid() ==> ep_bb == 0,
                piece == (Piece { color: side.spec_color(), kind: PieceKind::Pawn }),
                forall|s: int| 0 <= s < 64 ==> (#[trigger] pawns.has(s) ==> board@.pieces[s] == piece),
                forall|s: int| 0 <= s < 64 ==> (#[trigger] own.has(s) <==> (board@.pieces[s].is_real()
                    && board@.pieces[s].color == side.spec_color())),
                forall|s: int| 0 <= s < 64 ==> (#[trigger] enemy.has(s) <==> (board@.pieces[s].is_real()
                    && board@.pieces[s].color == side.spec_opposite().spec_color())),
                forall|s: int| 0 <= s < 64 ==> (#[trigger] empty.has(s) <==> board@.pieces[s] == Piece::spec_empty()),
                extends_with_generated(board@, old(list)@, list@),
                captures_only ==> extends_with_captures(old(list)@, list@),
                all_by_rule(board, list@, old(list)@.len() as int),
                !captures_only ==> forall|s: int| #[trigger] promo_push_ready(board, s) && !pawns.has(s) ==> promotions_listed(board, list@, old(list)@.len() as int, s),
                forall|s: int| 0 <= s < 64 ==> (#[trigger] pawns0.has(s) <==> board@.pieces[s] == piece),
                forall|s: int| 0 <= s < 64 && #[trigger] pawns.has(s) ==> pawns0.has(s),
                forall|s: int| 0 <= s < 64 && #[trigger] pawns0.has(s) && !pawns.has(s) ==> pawn_captures_listed(board, list@, old(list)@.len() as int, s),
            decreases pawns.0,
        {
            let ghost head = list@;
            let ghost pawns_before = pawns;
            let from = pawns.pop_bit();
            let f = from.index();
            if !captures_only {
                let single_bits = pawn_pushes(side, f).0 & empty.0;
                let mut single = Bitboard(single_bits);
                let mut double = match side {
                    Side::White => Bitboard((single_bits << 8) & RANK_4_MASK & empty.0),
                    Side::Black => Bitboard((single_bits >> 8) & RANK_5_MASK & empty.0),
                };
                proof {
                    if promo_push_ready(board, from@ as int) {
                        let tt = push_target(side, from@ as int, 1);
                        lemma_pawn_push_bits(f as u64, tt as u64);
                        assert(empty.has(tt) == bit(empty.0, tt as u64));
                        lemma_bit_ops(crate::attacks::spec_pawn_pushes(side, f as nat), empty.0, tt as u64);
                        lemma_bit_clear_decreases(single_bits, tt as u64);
                    }
                }
                if single.0 != 0 {
                    let to = single.pop_bit();
                    proof {
                        lemma_bit_ops(crate::attacks::spec_pawn_pushes(side, f as nat), empty.0, to.index as u64);
                        lemma_pawn_push_bits(f as u64, to.index as u64);
                        assert(to@ == push_target(side, f as int, 1));
                        assert(empty.has(to@ as int) == bit(empty.0, to.index as u64));
                    }
                    if is_promotion(side, to) {
                        let ghost before_promos = list@;
                        push_all_promotions(board, list, from, to, false);
                        proof {
                            let s = from@ as int;
                            let tt = push_target(side, s, 1);
                            assert(to@ == tt);
                            assert forall|flag: MoveFlag| #![trigger flag.spec_promotion_kind()] flag.spec_promotion_kind() != PieceKind::NoPiece implies listed_from(
                                list@,
                                old(list)@.len() as int,
                                promotion_move(s, tt, flag),
                            ) by {
                                let n = before_promos.len() as int;
                                assert(from == Square { index: s as u8 });
                                assert(to == Square { index: tt as u8 });
                                if flag == MoveFlag::KnightPromotion {
                                    assert(list@[n] == promotion_move(s, tt, flag));
                                } else if flag == MoveFlag::BishopPromotion {
                                    assert(list@[n + 1] == promotion_move(s, tt, flag));
                                } else if flag == MoveFlag::RookPromotion {
                                    assert(list@[n + 2] == promotion_move(s, tt, flag));
                                } else {
                                    assert(list@[n + 3] == promotion_move(s, tt, flag));
                                }
                            }
                            assert(promotions_listed(board, list@, old(list)@.len() as int, s));
                        }
                    } else {
                        let m = Move::new(from, to, MoveKind::Quiet, MoveFlag::NoFlag);
                        proof {
                            lemma_extends_push(board@, old(list)@, list@, m, false);
                            lemma_rule_push(board, list@, old(list)@.len() as int, m);
                        }
                        list.push(m);
                    }
                }
                let ghost after_single = list@;
                proof {
                    assert(after_single.subrange(0, head.len() as int) =~= head);
                }
                if double.0 != 0 {
                    let to = double.pop_bit();
                    proof {
                        let x = match side {
                            Side::White => (single_bits << 8u64) & RANK_4_MASK,
                            Side::Black => (single_bits >> 8u64) & RANK_5_MASK,
                        };
                        lemma_bit_ops(x, empty.0, to.index as u64);
                        lemma_bit_ops(single_bits << 8u64, RANK_4_MASK, to.index as u64);
                        lemma_bit_ops(single_bits >> 8u64, RANK_5_MASK, to.index as u64);
                        lemma_double_push_ranks(to.index as u64);
                        let tt = to.index as u64;
                        lemma_shift_rank_bits(single_bits, tt);
                        if side == Side::White {
                            lemma_bit_ops(crate::attacks::spec_pawn_pushes(side, f as nat), empty.0, (tt - 8) as u64);
                            lemma_pawn_push_bits(f as u64, (tt - 8) as u64);
                        } else {
                            lemma_bit_ops(crate::attacks::spec_pawn_pushes(side, f as nat), empty.0, (tt + 8) as u64);
                            lemma_pawn_push_bits(f as u64, (tt + 8) as u64);
                        }
                        assert(to@ == push_target(side, f as int, 2));
                        assert(empty.has(to@ as int) == bit(empty.0, to.index as u64));
                    }
                    let m = Move::new(from, to, MoveKind::Quiet, MoveFlag::NoFlag);
                    proof {
                        lemma_extends_push(board@, old(list)@, list@, m, false);
                        lemma_rule_push(board, list@, old(list)@.len() as int, m);
                    }
                    list.push(m);
                }
                proof {
                    assert(list@.subrange(0, after_single.len() as int) =~= after_single);
                    lemma_listed_kept(board, old(list)@.len() as int, after_single, list@);
                    assert(list@.subrange(0, head.len() as int) =~= head);
                }
            }
            let ghost lp = list@;
            proof {
                assert(lp.subrange(0, head.len() as int) =~= head);
            }
            let targets = pawn_attacks(side, f).0 & (enemy.0 | ep_bb);
            let mut attacks = Bitboard(targets & !own.0);
            let ghost attacks0 = attacks;
            while attacks.0 != 0
                invariant
                    board.inv(),
                    view_ok(board@),
                    side == board@.side,
                    ep == board@.ep,
                    ep.is_valid() ==> ep_bb == 1u64 << (ep.index as u64),
                    !ep.is_valid() ==> ep_bb == 0,
                    from.is_valid(),
                    board@.pieces[from@ as int] == piece,
                    piece == (Piece { color: side.spec_color(), kind: PieceKind::Pawn }),
                    forall|s: int| 0 <= s < 64 ==> (#[trigger] own.has(s) <==> (board@.pieces[s].is_real()
                        && board@.pieces[s].color == side.spec_color())),
                    forall|s: int| 0 <= s < 64 ==> (#[trigger] enemy.has(s) <==> (board@.pieces[s].is_real()
                        && board@.pieces[s].color == side.spec_opposite().spec_color())),
                    forall|s: int| 0 <= s < 64 && #[trigger] attacks.has(s) ==> bit(targets & !own.0, s as u64),
                    targets == spec_pawn_attacks(side, f as nat) & (enemy.0 | ep_bb),
                    f == from@,
                    extends_with_generated(board@, old(list)@, list@),
                    captures_only ==> extends_with_captures(old(list)@, list@),
                    all_by_rule(board, list@, old(list)@.len() as int),
                    list@.len() >= lp.len(),
                    list@.subrange(0, lp.len() as int) == lp,
                    forall|s: int| 0 <= s < 64 && #[trigger] attacks.has(s) ==> attacks0.has(s),
                    attacks0 == Bitboard(targets & !own.0),
                    forall|s: int| 0 <= s < 64 && #[trigger] attacks0.has(s) && !attacks.has(s) && enemy_on(board@, s)
                        ==> pawn_capture_listed(board, list@, old(list)@.len() as int, f as int, s),
                decreases attacks.0,
            {
                let ghost l_it = list@;
                let ghost attacks_it = attacks;
                let to = attacks.pop_bit();
                proof {
                    let t = to.index as u64;
                    lemma_bit_ops(targets, !own.0, t);
                    lemma_bit_ops(own.0, own.0, t);
                    lemma_bit_ops(spec_pawn_attacks(side, f as nat), enemy.0 | ep_bb, t);
                    lemma_bit_ops(enemy.0, ep_bb, t);
                    assert(own.has(to@ as int) == bit(own.0, t));
                    assert(enemy.has(to@ as int) == bit(enemy.0, t));
                    if ep.is_valid() {
                        crate::bitboard::lemma_bit_single(ep.index as u64, t);
                    } else {
                        lemma_bit_ops(0, 0, t);
                    }
                }
                if is_promotion(side, to) {
                    if enemy.is_occupied(to) {
                        let ghost before_promos = list@;
                        push_all_promotions(board, list, from, to, captures_only);
                        proof {
                            let s = from@ as int;
                            let tt = to@ as int;
                            assert forall|flag: MoveFlag| #![trigger flag.spec_promotion_kind()] flag.spec_promotion_kind() != PieceKind::NoPiece implies listed_from(
                                list@,
                                old(list)@.len() as int,
                                promotion_move(s, tt, flag),
                            ) by {
                                let n = before_promos.len() as int;
                                assert(from == Square { index: s as u8 });
                                assert(to == Square { index: tt as u8 });
                                if flag == MoveFlag::KnightPromotion {
                                    assert(list@[n] == promotion_move(s, tt, flag));
                                } else if flag == MoveFlag::BishopPromotion {
                                    assert(list@[n + 1] == promotion_move(s, tt, flag));
                                } else if flag == MoveFlag::RookPromotion {
                                    assert(list@[n + 2] == promotion_move(s, tt, flag));
                                } else {
                                    assert(list@[n + 3] == promotion_move(s, tt, flag));
                                }
                            }
                            assert(pawn_capture_listed(board, list@, old(list)@.len() as int, s, tt));
                        }
                    }
                } else {
                    if to == ep && !enemy.is_occupied(to) {
                        let behind = match side {
                            Side::White => if to.index >= 8 { Some(to.south()) } else { None },
                            Side::Black => if to.index + 8 < 64 { Some(to.north()) } else { None },
                        };
                        if let Some(cs) = behind {
                            if cs != from && board.get_piece(cs) == Piece::new(side.opposite().color(), PieceKind::Pawn)
                                && board.get_piece(to) == Piece::empty() {
                                let m = Move::new(from, to, MoveKind::Capture, MoveFlag::EnPassant);
                                proof {
                                    lemma_extends_push(board@, old(list)@, list@, m, captures_only);
                                    lemma_rule_push(board, list@, old(list)@.len() as int, m);
                                }
                                list.push(m);
                            }
                        }
                    } else {
                        let m = Move::new(from, to, MoveKind::Capture, MoveFlag::NoFlag);
                        proof {
                            assert(enemy.has(to@ as int));
                            lemma_extends_push(board@, old(list)@, list@, m, captures_only);
                            lemma_rule_push(board, list@, old(list)@.len() as int, m);
                        }
                        list.push(m);
                        proof {
                            assert(from == Square { index: from@ as u8 });
                            assert(to == Square { index: to@ as u8 });
                            assert(list@[list@.len() - 1] == capture_move(from@ as int, to@ as int));
                            assert(pawn_capture_listed(board, list@, old(list)@.len() as int, f as int, to@ as int));
                        }
                    }
                }
                proof {
                    assert(list@.subrange(0, lp.len() as int) =~= lp);
                    assert(list@.subrange(0, l_it.len() as int) =~= l_it);
                    lemma_pawn_capture_kept(board, old(list)@.len() as int, l_it, list@);
                    assert forall|s: int| 0 <= s < 64 && #[trigger] attacks0.has(s) && !attacks.has(s) && enemy_on(board@, s)
                        implies pawn_capture_listed(board, list@, old(list)@.len() as int, f as int, s) by {
                        if s != to@ as int {
                            assert(!attacks_it.has(s));
                            assert(pawn_capture_listed(board, l_it, old(list)@.len() as int, f as int, s));
                        } else {
                            assert(enemy.has(s));
                        }
                    }
                }
            }
            proof {
                assert forall|tt: int| 0 <= tt < 64 && #[trigger] bit(spec_pawn_attacks(board@.side, from@), tt as u64) && enemy_on(board@, tt)
                    implies pawn_capture_listed(board, list@, old(list)@.len() as int, from@ as int, tt) by {
                    lemma_bit_ops(0, 0, tt as u64);
                    lemma_bit_ops(targets, !own.0, tt as u64);
                    lemma_bit_ops(own.0, own.0, tt as u64);
                    lemma_bit_ops(spec_pawn_attacks(side, f as nat), enemy.0 | ep_bb, tt as u64);
                    lemma_bit_ops(enemy.0, ep_bb, tt as u64);
                    assert(own.has(tt) == bit(own.0, tt as u64));
                    assert(enemy.has(tt) == bit(enemy.0, tt as u64));
                    assert(attacks0.has(tt));
                    assert(!attacks.has(tt));
                }
                assert(pawn_captures_listed(board, list@, old(list)@.len() as int, from@ as int));
                assert(list@.subrange(0, head.len() as int) =~= head);
                lemma_pawn_capture_kept(board, old(list)@.len() as int, head, list@);
                lemma_listed_kept(board, old(list)@.len() as int, lp, list@);
                assert(list@.subrange(0, head.len() as int) =~= head);
                lemma_listed_kept(board, old(list)@.len() as int, head, list@);
                assert forall|s: int| #[trigger] promo_push_ready(board, s) && !pawns.has(s) && !captures_only implies promotions_listed(
                    board,
                    list@,
                    old(list)@.len() as int,
                    s,
                ) by {
                    if s != from@ as int {
                        assert(!pawns_before.has(s));
                        assert(promotions_listed(board, head, old(list)@.len() as int, s));
                    } else {
                        assert(promotions_listed(board, lp, old(list)@.len() as int, s));
                    }
                }
                assert forall|s: int| 0 <= s < 64 && #[trigger] pawns0.has(s) && !pawns.has(s) implies pawn_captures_listed(
                    board,
                    list@,
                    old(list)@.len() as int,
                    s,
                ) by {
                    if s != from@ as int {
                        assert(!pawns_before.has(s));
                        assert(pawn_captures_listed(board, head, old(list)@.len() as int, s));
                    }
                }
            }
        }
        proof {
            assert forall|s: int| #[trigger] promo_push_ready(board, s) implies !pawns.has(s) by {
                lemma_bit_ops(0, 0, s as u64);
            }
            assert forall|s: int| 0 <= s < 64 && board@.pieces[s] == (Piece { color: board@.side.spec_color(), kind: PieceKind::Pawn })
                implies #[trigger] pawn_captures_listed(board, list@, old(list)@.len() as int, s) by {
                lemma_bit_ops(0, 0, s as u64);
                assert(pawns0.has(s));
                assert(!pawns.has(s));
            }
        }
    }

    /// Appends the castling moves of the side to move whose right is held, whose squares
    /// between king and rook are empty, and whose king square and passed-over square are
    /// not attacked.
    fn generate_castling_moves(&self, board: &Board, list: &mut MoveList)
        requires
            board.inv(),
            *self == board.generator(),
        ensures
            extends_with_generated(board@, old(list)@, final(list)@),
            all_by_rule(board, final(list)@, old(list)@.len() as int),
            castle_allowed(board, true) ==> exists|k: int| old(list)@.len() <= k < final(list)@.len() && final(list)@[k] == castle_move(board@.side, true),
            castle_allowed(board, false) ==> exists|k: int| old(list)@.len() <= k < final(list)@.len() && final(list)@[k] == castle_move(board@.side, false),
    {
        proof {
            board.lemma_inv();
            lemma_extends_refl(board@, list@);
            lemma_rule_refl(board, list@);
        }
        let side = board.side_to_move();
        let enemy = side.opposite();
        let occ = Bitboard(board.occupancy(Side::White).0 | board.occupancy(Side::Black).0);
        let king = Piece::new(side.color(), PieceKind::King);
        let w = board.occupancy(Side::White);
        let b = board.occupancy(Side::Black);
        proof {
            assert forall|s: int| 0 <= s < 64 implies (#[trigger] occ.has(s) <==> board@.pieces[s].is_real()) by {
                lemma_bit_ops(w.0, b.0, s as u64);
                assert(w.has(s) == bit(w.0, s as u64));
                assert(b.has(s) == bit(b.0, s as u64));
            }
        }
        let rook = Piece::new(side.color(), PieceKind::Rook);
        let (e, f, g, d, c, bsq, kk, qq, hr, ar) = match side {
            Side::White => (E1, F1, G1, D1, C1, B1, CastlingKind::WhiteKing, CastlingKind::WhiteQueen, H1, A1),
            Side::Black => (E8, F8, G8, D8, C8, B8, CastlingKind::BlackKing, CastlingKind::BlackQueen, H8, A8),
        };
        let es = Square::from_index(e);
        if board.can_castle(kk) && !occ.is_occupied(Square::from_index(f)) && !occ.is_occupied(Square::from_index(g))
            && board.get_piece(es) == king && board.get_piece(Square::from_index(hr)) == rook
            && !self.is_square_attacked(board, es, enemy) && !self.is_square_attacked(board, Square::from_index(f), enemy) {
            let m = Move::new(es, Square::from_index(g), MoveKind::Castle, MoveFlag::NoFlag);
            proof {
                lemma_extends_push(board@, old(list)@, list@, m, false);
                lemma_rule_push(board, list@, old(list)@.len() as int, m);
            }
            list.push(m);
            proof {
                assert(list@[list@.len() - 1] == castle_move(side, true));
            }
        }
        let ghost mid = list@;
        proof {
            if castle_allowed(board, true) {
                assert(occ.has(f as int) == board@.pieces[f as int].is_real());
                assert(occ.has(g as int) == board@.pieces[g as int].is_real());
                assert(exists|k: int| old(list)@.len() <= k < mid.len() && mid[k] == castle_move(board@.side, true));
            }
        }
        if board.can_castle(qq) && !occ.is_occupied(Square::from_index(d)) && !occ.is_occupied(Square::from_index(c))
            && !occ.is_occupied(Square::from_index(bsq)) && board.get_piece(es) == king
            && board.get_piece(Square::from_index(ar)) == rook && !self.is_square_attacked(board, es, enemy) && !self.is_square_attacked(board, Square::from_index(d), enemy) {
            let m = Move::new(es, Square::from_index(c), MoveKind::Castle, MoveFlag::NoFlag);
            proof {
                lemma_extends_push(board@, old(list)@, list@, m, false);
                lemma_rule_push(board, list@, old(list)@.len() as int, m);
            }
            list.push(m);
            proof {
                assert(list@[list@.len() - 1] == castle_move(side, false));
            }
        }
        proof {
            if castle_allowed(board, true) {
                assert(list@.subrange(0, mid.len() as int) =~= mid);
                lemma_exists_kept(old(list)@.len() as int, mid, list@, castle_move(board@.side, true));
            }
            if castle_allowed(board, false) {
                assert(occ.has(d as int) == board@.pieces[d as int].is_real());
                assert(occ.has(c as int) == board@.pieces[c as int].is_real());
                assert(occ.has(bsq as int) == board@.pieces[bsq as int].is_real());
            }
        }
    }

    /// Appends every pseudo-legal move of the side to move (moves that may leave the own king
    /// in check; `make_move` reports those).
    pub fn generate_all_moves(&self, board: &Board, list: &mut MoveList)
        requires
            board.inv(),
            *self == board.generator(),
        ensures
            extends_with_generated(board@, old(list)@, final(list)@),
            all_by_rule(board, final(list)@, old(list)@.len() as int),
            castle_allowed(board, true) ==> exists|k: int| old(list)@.len() <= k < final(list)@.len() && final(list)@[k] == castle_move(board@.side, true),
            castle_allowed(board, false) ==> exists|k: int| old(list)@.len() <= k < final(list)@.len() && final(list)@[k] == castle_move(board@.side, false),
            forall|s: int| #[trigger] promo_push_ready(board, s) ==> promotions_listed(board, final(list)@, old(list)@.len() as int, s),
            forall|s: int| #[trigger] own_piece_not_pawn(board@, s) ==> captures_listed(board, final(list)@, old(list)@.len() as int, s),
            forall|s: int| 0 <= s < 64 && board@.pieces[s] == (Piece { color: board@.side.spec_color(), kind: PieceKind::Pawn })
                ==> #[trigger] pawn_captures_listed(board, final(list)@, old(list)@.len() as int, s),
    {
        let ghost l0 = list@;
        self.generate_pawn_moves(board, list, false);
        let ghost l1 = list@;
        self.generate_piece_moves(board, list, PieceKind::King, false);
        let ghost l2 = list@;
        self.generate_castling_moves(board, list);
        let ghost l3 = list@;
        self.generate_piece_moves(board, list, PieceKind::Knight, false);
        let ghost l4 = list@;
        self.generate_piece_moves(board, list, PieceKind::Bishop, false);
        let ghost l5 = list@;
        self.generate_piece_moves(board, list, PieceKind::Rook, false);
        let ghost l6 = list@;
        self.generate_piece_moves(board, list, PieceKind::Queen, false);
        proof {
            lemma_rule_trans(board, l0, l1, l2);
            lemma_extends_trans(board@, l0, l1, l2);
            lemma_rule_trans(board, l0, l2, l3);
            lemma_extends_trans(board@, l0, l2, l3);
            lemma_rule_trans(board, l0, l3, l4);
            lemma_extends_trans(board@, l0, l3, l4);
            lemma_rule_trans(board, l0, l4, l5);
            lemma_extends_trans(board@, l0, l4, l5);
            lemma_rule_trans(board, l0, l5, l6);
            lemma_extends_trans(board@, l0, l5, l6);
            lemma_rule_trans(board, l0, l6, list@);
            lemma_extends_trans(board@, l0, l6, list@);
            assert(l2.len() >= l0.len());
            let ks = seq![true, false];
            assert forall|i: int| 0 <= i < 2 && castle_allowed(board, #[trigger] ks[i]) implies exists|k: int|
                l0.len() <= k < list@.len() && list@[k] == castle_move(board@.side, ks[i]) by {
                let m = castle_move(board@.side, ks[i]);
                let k0 = choose|k: int| l2.len() <= k < l3.len() && l3[k] == m;
                assert(l0.len() <= k0 < l3.len() && l3[k0] == m);
                lemma_exists_kept(l0.len() as int, l3, l4, m);
                lemma_exists_kept(l0.len() as int, l4, l5, m);
                lemma_exists_kept(l0.len() as int, l5, l6, m);
                lemma_exists_kept(l0.len() as int, l6, list@, m);
            }
            assert(ks[0] == true && ks[1] == false);
            lemma_listed_kept(board, l0.len() as int, l1, l2);
            lemma_listed_kept(board, l0.len() as int, l2, l3);
            lemma_listed_kept(board, l0.len() as int, l3, l4);
            lemma_listed_kept(board, l0.len() as int, l4, l5);
            lemma_listed_kept(board, l0.len() as int, l5, l6);
            lemma_listed_kept(board, l0.len() as int, l6, list@);
            let st = l0.len() as int;
            lemma_captures_widen(board, l2, st, l1.len() as int);
            lemma_captures_widen(board, l4, st, l3.len() as int);
            lemma_captures_widen(board, l5, st, l4.len() as int);
            lemma_captures_widen(board, l6, st, l5.len() as int);
            lemma_captures_widen(board, list@, st, l6.len() as int);
            lemma_captures_kept(board, st, l2, l3);
            lemma_captures_kept(board, st, l3, l4);
            lemma_captures_kept(board, st, l4, l5);
            lemma_captures_kept(board, st, l5, l6);
            lemma_captures_kept(board, st, l6, list@);
            lemma_pawn_capture_kept(board, st, l1, l2);
            lemma_pawn_capture_kept(board, st, l2, l3);
            lemma_pawn_capture_kept(board, st, l3, l4);
            lemma_pawn_capture_kept(board, st, l4, l5);
            lemma_pawn_capture_kept(board, st, l5, l6);
            lemma_pawn_capture_kept(board, st, l6, list@);
            assert forall|s: int| 0 <= s < 64 && board@.pieces[s] == (Piece { color: board@.side.spec_color(), kind: PieceKind::Pawn })
                implies #[trigger] pawn_captures_listed(board, list@, st, s) by {
                assert(pawn_captures_listed(board, l1, st, s));
                assert(pawn_captures_listed(board, l2, st, s));
                assert(pawn_captures_listed(board, l3, st, s));
                assert(pawn_captures_listed(board, l4, st, s));
                assert(pawn_captures_listed(board, l5, st, s));
                assert(pawn_captures_listed(board, l6, st, s));
            }
            assert forall|s: int| #[trigger] own_piece_not_pawn(board@, s) implies captures_listed(board, list@, st, s) by {
                let k = board@.pieces[s].kind;
                if k == PieceKind::King {
                    assert(board@.pieces[s] == (Piece { color: board@.side.spec_color(), kind: PieceKind::King }));
                    assert(captures_listed(board, l2, l1.len() as int, s));
                    assert(captures_listed(board, l2, st, s));
                    assert(captures_listed(board, l3, st, s));
                } else if k == PieceKind::Knight {
                    assert(board@.pieces[s] == (Piece { color: board@.side.spec_color(), kind: PieceKind::Knight }));
                    assert(captures_listed(board, l4, l3.len() as int, s));
                    assert(captures_listed(board, l4, st, s));
                } else if k == PieceKind::Bishop {
                    assert(board@.pieces[s] == (Piece { color: board@.side.spec_color(), kind: PieceKind::Bishop }));
                    assert(captures_listed(board, l5, l4.len() as int, s));
                    assert(captures_listed(board, l5, st, s));
                } else if k == PieceKind::Rook {
                    assert(board@.pieces[s] == (Piece { color: board@.side.spec_color(), kind: PieceKind::Rook }));
                    assert(captures_listed(board, l6, l5.len() as int, s));
                    assert(captures_listed(board, l6, st, s));
                } else {
                    assert(k == PieceKind::Queen);
                    assert(board@.pieces[s] == (Piece { color: board@.side.spec_color(), kind: PieceKind::Queen }));
                    assert(captures_listed(board, list@, l6.len() as int, s));
                    assert(captures_listed(board, list@, st, s));
                }
            }
        }
    }

    /// Appends every pseudo-legal capture (and capturing promotion) of the side to move.
    pub fn generate_all_captures(&self, board: &Board, list: &mut MoveList)
        requires
            board.inv(),
            *self == board.generator(),
        ensures
            extends_with_generated(board@, old(list)@, final(list)@),
            extends_with_captures(old(list)@, final(list)@),
            all_by_rule(board, final(list)@, old(list)@.len() as int),
            forall|s: int| #[trigger] own_piece_not_pawn(board@, s) ==> captures_listed(board, final(list)@, old(list)@.len() as int, s),
            forall|s: int| 0 <= s < 64 && board@.pieces[s] == (Piece { color: board@.side.spec_color(), kind: PieceKind::Pawn })
                ==> #[trigger] pawn_captures_listed(board, final(list)@, old(list)@.len() as int, s),
    {
        let ghost l0 = list@;
        self.generate_pawn_moves(board, list, true);
        let ghost l1 = list@;
        self.generate_piece_moves(board, list, PieceKind::King, true);
        let ghost l2 = list@;
        self.generate_piece_moves(board, list, PieceKind::Knight, true);
        let ghost l3 = list@;
        self.generate_piece_moves(board, list, PieceKind::Bishop, true);
        let ghost l4 = list@;
        self.generate_piece_moves(board, list, PieceKind::Rook, true);
        let ghost l5 = list@;
        self.generate_piece_moves(board, list, PieceKind::Queen, true);
        proof {
            lemma_rule_trans(board, l0, l1, l2);
            lemma_extends_trans(board@, l0, l1, l2);
            lemma_captures_trans(l0, l1, l2);
            lemma_rule_trans(board, l0, l2, l3);
            lemma_extends_trans(board@, l0, l2, l3);
            lemma_captures_trans(l0, l2, l3);
            lemma_rule_trans(board, l0, l3, l4);
            lemma_extends_trans(board@, l0, l3, l4);
            lemma_captures_trans(l0, l3, l4);
            lemma_rule_trans(board, l0, l4, l5);
            lemma_extends_trans(board@, l0, l4, l5);
            lemma_captures_trans(l0, l4, l5);
            lemma_rule_trans(board, l0, l5, list@);
            lemma_extends_trans(board@, l0, l5, list@);
            lemma_captures_trans(l0, l5, list@);
            let st = l0.len() as int;
            lemma_captures_widen(board, l2, st, l1.len() as int);
            lemma_captures_widen(board, l3, st, l2.len() as int);
            lemma_captures_widen(board, l4, st, l3.len() as int);
            lemma_captures_widen(board, l5, st, l4.len() as int);
            lemma_captures_widen(board, list@, st, l5.len() as int);
            lemma_captures_kept(board, st, l2, l3);
            lemma_captures_kept(board, st, l3, l4);
            lemma_captures_kept(board, st, l4, l5);
            lemma_captures_kept(board, st, l5, list@);
            lemma_pawn_capture_kept(board, st, l1, l2);
            lemma_pawn_capture_kept(board, st, l2, l3);
            lemma_pawn_capture_kept(board, st, l3, l4);
            lemma_pawn_capture_kept(board, st, l4, l5);
            lemma_pawn_capture_kept(board, st, l5, list@);
            assert forall|s: int| 0 <= s < 64 && board@.pieces[s] == (Piece { color: board@.side.spec_color(), kind: PieceKind::Pawn })
                implies #[trigger] pawn_captures_listed(board, list@, st, s) by {
                assert(pawn_captures_listed(board, l1, st, s));
                assert(pawn_captures_listed(board, l2, st, s));
                assert(pawn_captures_listed(board, l3, st, s));
                assert(pawn_captures_listed(board, l4, st, s));
                assert(pawn_captures_listed(board, l5, st, s));
            }
            assert forall|s: int| #[trigger] own_piece_not_pawn(board@, s) implies captures_listed(board, list@, st, s) by {
                let k = board@.pieces[s].kind;
                if k == PieceKind::King {
                    assert(board@.pieces[s] == (Piece { color: board@.side.spec_color(), kind: PieceKind::King }));
                    assert(captures_listed(board, l2, l1.len() as int, s));
                    assert(captures_listed(board, l2, st, s));
                } else if k == PieceKind::Knight {
                    assert(board@.pieces[s] == (Piece { color: board@.side.spec_color(), kind: PieceKind::Knight }));
                    assert(captures_listed(board, l3, l2.len() as int, s));
                    assert(captures_listed(board, l3, st, s));
                } else if k == PieceKind::Bishop {
                    assert(board@.pieces[s] == (Piece { color: board@.side.spec_color(), kind: PieceKind::Bishop }));
                    assert(captures_listed(board, l4, l3.len() as int, s));
                    assert(captures_listed(board, l4, st, s));
                } else if k == PieceKind::Rook {
                    assert(board@.pieces[s] == (Piece { color: board@.side.spec_color(), kind: PieceKind::Rook }));
                    assert(captures_listed(board, l5, l4.len() as int, s));
                    assert(captures_listed(board, l5, st, s));
                } else {
                    assert(k == PieceKind::Queen);
                    assert(board@.pieces[s] == (Piece { color: board@.side.spec_color(), kind: PieceKind::Queen }));
                    assert(captures_listed(board, list@, l5.len() as int, s));
                    assert(captures_listed(board, list@, st, s));
                }
            }
        }
    }
}

impl Board {
    /// Appends every pseudo-legal move of the side to move.
    pub fn generate_all_moves(&self, list: &mut MoveList)
        requires
            self.inv(),
        ensures
            extends_with_generated(self@, old(list)@, final(list)@),
            all_by_rule(self, final(list)@, old(list)@.len() as int),
            castle_allowed(self, true) ==> exists|k: int| old(list)@.len() <= k < final(list)@.len() && final(list)@[k] == castle_move(self@.side, true),
            castle_allowed(self, false) ==> exists|k: int| old(list)@.len() <= k < final(list)@.len() && final(list)@[k] == castle_move(self@.side, false),
            forall|s: int| #[trigger] promo_push_ready(self, s) ==> promotions_listed(self, final(list)@, old(list)@.len() as int, s),
            forall|s: int| #[trigger] own_piece_not_pawn(self@, s) ==> captures_listed(self, final(list)@, old(list)@.len() as int, s),
            forall|s: int| 0 <= s < 64 && self@.pieces[s] == (Piece { color: self@.side.spec_color(), kind: PieceKind::Pawn })
                ==> #[trigger] pawn_captures_listed(self, final(list)@, old(list)@.len() as int, s),
    {
        self.move_generator().generate_all_moves(self, list);
    }

    /// Appends every pseudo-legal capture of the side to move.
    pub fn generate_all_captures(&self, list: &mut MoveList)
        requires
            self.inv(),
        ensures
            extends_with_generated(self@, old(list)@, final(list)@),
            extends_with_captures(old(list)@, final(list)@),
            all_by_rule(self, final(list)@, old(list)@.len() as int),
            forall|s: int| #[trigger] own_piece_not_pawn(self@, s) ==> captures_listed(self, final(list)@, old(list)@.len() as int, s),
            forall|s: int| 0 <= s < 64 && self@.pieces[s] == (Piece { color: self@.side.spec_color(), kind: PieceKind::Pawn })
                ==> #[trigger] pawn_captures_listed(self, final(list)@, old(list)@.len() as int, s),
    {
        self.move_generator().generate_all_captures(self, list);
    }

    /// Whether the king of `side` is attacked (a side without a king is never in check).
    pub fn is_in_check(&self, side: Side) -> (r: bool)
        requires
            self.inv(),
        ensures
            r == (spec_king_square(self@, side) is Some && spec_board_attacked(self, spec_king_square(self@, side)->Some_0, side.spec_opposite())),
    {
        match self.get_king_square(side) {
            Some(k) => {
                proof {
                    lemma_king_square(self@, side, k@);
                }
                self.move_generator().is_square_attacked(self, k, side.opposite())
            },
            None => false,
        }
    }
}

/// The lowest square holding the king of `side`, if any.
pub open spec fn spec_king_square(v: BoardView, side: Side) -> Option<nat> {
    let king = Piece { color: side.spec_color(), kind: PieceKind::King };
    if exists|s: nat| s < 64 && v.pieces[s as int] == king {
        Some(choose|s: nat| s < 64 && v.pieces[s as int] == king && forall|j: nat| j < s ==> v.pieces[j as int] != king)
    } else {
        None
    }
}

proof fn lemma_king_square(v: BoardView, side: Side, k: nat)
    requires
        k < 64,
        v.pieces[k as int] == (Piece { color: side.spec_color(), kind: PieceKind::King }),
        forall|j: int| 0 <= j < k ==> v.pieces[j] != (Piece { color: side.spec_color(), kind: PieceKind::King }),
    ensures
        spec_king_square(v, side) == Some(k),
{
    let king = Piece { color: side.spec_color(), kind: PieceKind::King };
    assert(exists|s: nat| s < 64 && v.pieces[s as int] == king);
    assert(k < 64 && v.pieces[k as int] == king && forall|j: nat| j < k ==> v.pieces[j as int] != king);
    let c = choose|s: nat| s < 64 && v.pieces[s as int] == king && forall|j: nat| j < s ==> v.pieces[j as int] != king;
    if c < k {
        assert(v.pieces[c as int] != king);
    } else if c > k {
        assert(v.pieces[k as int] != king);
    }
}

} // verus!
