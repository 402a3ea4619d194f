use vstd::prelude::*;
use vstd::string::StringSliceAdditionalSpecFns;
use crate::attacks::{pawn_attacks, spec_pawn_attacks};
use crate::bitboard::bit;
use crate::board::{Board, BoardError, BoardView, HistoryItem, view_hash_full, view_ok};
use crate::move_generator::{lemma_and_nonzero, spec_board_attacked, spec_king_square};
use crate::moves::{Move, MoveFlag, MoveKind};
use crate::square::{Piece, PieceKind, Side, Square};

verus! {

/// The rights left after a move touches square `s` (from 15, all rights): moving or
/// capturing on a king or rook home square removes the rights that depend on it.
pub open spec fn spec_castling_permission(s: nat) -> u8 {
    if s == 0 {
        13
    } else if s == 4 {
        12
    } else if s == 7 {
        14
    } else if s == 56 {
        7
    } else if s == 60 {
        3
    } else if s == 63 {
        11
    } else {
        15
    }
}

pub fn castling_permission(square: usize) -> (r: u8)
    ensures
        r == spec_castling_permission(square as nat),
{
    if square == 0 {
        13
    } else if square == 4 {
        12
    } else if square == 7 {
        14
    } else if square == 56 {
        7
    } else if square == 60 {
        3
    } else if square == 63 {
        11
    } else {
        15
    }
}

/// The rook's home and destination squares for a castling move landing on `to`.
pub open spec fn spec_rook_squares(to: nat) -> Option<(nat, nat)> {
    if to == 6 {
        Some((7, 5))
    } else if to == 2 {
        Some((0, 3))
    } else if to == 62 {
        Some((63, 61))
    } else if to == 58 {
        Some((56, 59))
    } else {
        None
    }
}

pub fn rook_squares(to: Square) -> (r: Option<(Square, Square)>)
    requires
        to.is_valid(),
    ensures
        spec_rook_squares(to@) is None <==> r is None,
        r is Some ==> r->Some_0.0@ == spec_rook_squares(to@)->Some_0.0 && r->Some_0.1@ == spec_rook_squares(to@)->Some_0.1,
        r is Some ==> r->Some_0.0.is_valid() && r->Some_0.1.is_valid(),
{
    match to.index {
        6 => Some((Square::from_index(7), Square::from_index(5))),
        2 => Some((Square::from_index(0), Square::from_index(3))),
        62 => Some((Square::from_index(63), Square::from_index(61))),
        58 => Some((Square::from_index(56), Square::from_index(59))),
        _ => None,
    }
}

/// The square of the pawn taken en passant by a pawn of `side` landing on `to`.
pub open spec fn spec_capture_square(side: Side, to: nat) -> int {
    match side {
        Side::White => to - 8,
        Side::Black => (to + 8) as int,
    }
}

/// What a move does to the squares, and the piece it takes (empty if none).
pub open spec fn spec_motion(v: BoardView, m: Move) -> (Seq<Piece>, Piece) {
    let from = m.spec_from() as int;
    let to = m.spec_to() as int;
    let moved = v.pieces[from];
    let p1 = v.pieces.update(from, Piece::spec_empty());
    match m.spec_kind() {
        MoveKind::Quiet => (p1.update(to, moved), p1[to]),
        MoveKind::Capture => if m.spec_flag() == MoveFlag::EnPassant {
            let cs = spec_capture_square(v.side, to as nat);
            (p1.update(cs, Piece::spec_empty()).update(to, moved), p1[cs])
        } else {
            (p1.update(to, moved), p1[to])
        },
        MoveKind::Castle => {
            let q = p1.update(to, moved);
            let rf = spec_rook_squares(to as nat)->Some_0.0 as int;
            let rt = spec_rook_squares(to as nat)->Some_0.1 as int;
            (q.update(rf, Piece::spec_empty()).update(rt, q[rf]), p1[to])
        },
        MoveKind::Promotion => {
            let promo = Piece { color: v.side.spec_color(), kind: m.spec_flag().spec_promotion_kind() };
            (p1.update(to, promo), p1[to])
        },
    }
}

/// Whether `make_move` can carry the move out on this board: every piece it removes is
/// there, every square it fills is empty, castling lands on a castling square and a
/// promotion names its piece.
pub open spec fn make_ok(v: BoardView, m: Move) -> bool {
    let from = m.spec_from() as int;
    let to = m.spec_to() as int;
    let p1 = v.pieces.update(from, Piece::spec_empty());
    &&& v.pieces[from].is_real()
    &&& match m.spec_kind() {
        MoveKind::Quiet => p1[to] == Piece::spec_empty(),
        MoveKind::Capture => if m.spec_flag() == MoveFlag::EnPassant {
            let cs = spec_capture_square(v.side, to as nat);
            &&& 0 <= cs < 64
            &&& p1[cs].is_real()
            &&& p1.update(cs, Piece::spec_empty())[to] == Piece::spec_empty()
        } else {
            p1[to].is_real()
        },
        MoveKind::Castle => {
            let q = p1.update(to, v.pieces[from]);
            &&& p1[to] == Piece::spec_empty()
            &&& spec_rook_squares(to as nat) is Some
            &&& q[spec_rook_squares(to as nat)->Some_0.0 as int].is_real()
            &&& q.update(spec_rook_squares(to as nat)->Some_0.0 as int, Piece::spec_empty())[spec_rook_squares(
                to as nat,
            )->Some_0.1 as int] == Piece::spec_empty()
        },
        MoveKind::Promotion => m.spec_flag().spec_promotion_kind() != PieceKind::NoPiece,
    }
}

/// The en-passant square after a move of `moved` from `from` to `to` by `side`, leaving
/// `pieces`: the square a double pawn push jumped over, when an enemy pawn attacks it;
/// otherwise none (64).
pub open spec fn spec_ep_target(moved: Piece, side: Side, from: nat, to: nat, pieces: Seq<Piece>) -> nat {
    let eps = spec_jumped_square(side, from);
    if moved.kind == PieceKind::Pawn && (from == to + 16 || to == from + 16) && 0 <= eps < 64
        && ep_capturable(side, eps as nat, pieces) {
        eps as nat
    } else {
        64
    }
}

/// The square a double push of a `side` pawn from `from` jumps over.
pub open spec fn spec_jumped_square(side: Side, from: nat) -> int {
    if side == Side::White {
        (from + 8) as int
    } else {
        from - 8
    }
}

/// Some enemy pawn attacks `eps`: a `side` pawn there would attack it.
pub open spec fn ep_capturable(side: Side, eps: nat, pieces: Seq<Piece>) -> bool {
    exists|s: int|
        0 <= s < 64 && #[trigger] bit(spec_pawn_attacks(side, eps), s as u64) && pieces[s] == (Piece {
            color: side.spec_opposite().spec_color(),
            kind: PieceKind::Pawn,
        })
}

pub open spec fn spec_new_ep(v: BoardView, m: Move, pieces: Seq<Piece>) -> nat {
    spec_ep_target(v.pieces[m.spec_from() as int], v.side, m.spec_from(), m.spec_to(), pieces)
}

/// The board after a move `make_ok` accepts.
pub open spec fn make_result(v: BoardView, m: Move) -> BoardView {
    let from = m.spec_from();
    let to = m.spec_to();
    let moved = v.pieces[from as int];
    let (pieces, captured) = spec_motion(v, m);
    let clock1: nat = if v.clock < usize::MAX { v.clock + 1 } else { v.clock };
    let nv = BoardView {
        pieces,
        side: v.side.spec_opposite(),
        castling: v.castling & spec_castling_permission(from) & spec_castling_permission(to),
        ep: Square { index: spec_new_ep(v, m, pieces) as u8 },
        clock: if m.spec_kind() == MoveKind::Capture || moved.kind == PieceKind::Pawn { 0 } else { clock1 },
        history: v.history.push(
            HistoryItem {
                castling_rights: v.castling,
                en_passant_square: v.ep,
                halfmove_clock: v.clock as usize,
                moved_piece: moved,
                captured_piece: captured,
                hash: v.hash,
            },
        ),
        hash: 0,
        keys: v.keys,
    };
    BoardView { hash: view_hash_full(nv), ..nv }
}

/// Whether the king of `side` stands attacked on this board.
pub open spec fn spec_in_check(b: &Board, side: Side) -> bool {
    spec_king_square(b@, side) is Some && spec_board_attacked(b, spec_king_square(b@, side)->Some_0, side.spec_opposite())
}

/// The squares holding a piece among the first `n`, as a bit set.
pub open spec fn occ_bits(ps: Seq<Piece>, n: nat) -> u64
    decreases n,
{
    if n == 0 {
        0
    } else {
        occ_bits(ps, (n - 1) as nat) | (if ps[n - 1].is_real() { 1u64 << ((n - 1) as u64) } else { 0u64 })
    }
}

/// Whether the king of `side` stands attacked in the position `v`, judged with the attack
/// tables of `gen`.
pub open spec fn in_check_view(gen: crate::attacks::MoveGenerator, v: BoardView, side: Side) -> bool {
    spec_king_square(v, side) is Some && crate::move_generator::spec_square_attacked(
        gen,
        v,
        occ_bits(v.pieces, 64),
        spec_king_square(v, side)->Some_0,
        side.spec_opposite(),
    )
}

/// Every generated move leaves the mover's king attacked: the side to move has no legal move.
pub open spec fn no_legal_move(b: &Board) -> bool {
    forall|m: Move| crate::move_generator::generated_move(b@, m) && #[trigger] crate::move_generator::by_rule(b, m)
        ==> in_check_view(b.generator(), make_result(b@, m), b@.side)
}

proof fn lemma_occ_bits(ps: Seq<Piece>, n: nat, i: u64)
    requires
        n <= 64,
        i < 64,
    ensures
        bit(occ_bits(ps, n), i) <==> (i < n && ps[i as int].is_real()),
    decreases n,
{
    if n == 0 {
        crate::bitboard::lemma_bit_ops(0, 0, i);
    } else {
        lemma_occ_bits(ps, (n - 1) as nat, i);
        let x = if ps[n - 1].is_real() { 1u64 << ((n - 1) as u64) } else { 0u64 };
        crate::bitboard::lemma_bit_ops(occ_bits(ps, (n - 1) as nat), x, i);
        crate::bitboard::lemma_bit_single((n - 1) as u64, i);
        crate::bitboard::lemma_bit_ops(0, 0, i);
    }
}

/// Two sets with the same squares are the same number.
pub proof fn lemma_bits_ext(a: u64, b: u64)
    requires
        forall|i: u64| i < 64 ==> #[trigger] bit(a, i) == bit(b, i),
    ensures
        a == b,
{
    if a != b {
        assert(a ^ b != 0) by (bit_vector)
            requires
                a != b,
        ;
        crate::bitboard::lemma_lowest_bit(a ^ b);
        let t = (a ^ b).trailing_zeros() as u64;
        crate::bitboard::lemma_bit_ops(a, b, t);
        assert(bit(a, t) == bit(b, t));
    }
}

/// The check test of a board reads only its position and its attack tables.
pub proof fn lemma_in_check_view(b: &Board, side: Side)
    requires
        b.inv(),
    ensures
        crate::move_generator::spec_all_occupancy(b) == occ_bits(b@.pieces, 64),
        spec_in_check(b, side) == in_check_view(b.generator(), b@, side),
{
    b.lemma_inv();
    let o = crate::move_generator::spec_all_occupancy(b);
    assert forall|i: u64| i < 64 implies #[trigger] bit(o, i) == bit(occ_bits(b@.pieces, 64), i) by {
        lemma_occ_bits(b@.pieces, 64, i);
        crate::bitboard::lemma_bit_ops(b.spec_occupancy(0), b.spec_occupancy(1), i);
        assert(bit(b.spec_occupancy(0), (i as int) as u64) == bit(b.spec_occupancy(0), i));
        assert(bit(b.spec_occupancy(1), (i as int) as u64) == bit(b.spec_occupancy(1), i));
        let p = b@.pieces[i as int];
        if p.is_real() {
            assert(p.color.spec_index() == 0 || p.color.spec_index() == 1);
        }
    }
    lemma_bits_ext(o, occ_bits(b@.pieces, 64));
}

/// Whether `unmake_move` can take the move back: there is a history item, and every piece
/// it puts back has an empty square to go to.
pub open spec fn unmake_ok(v: BoardView, m: Move) -> bool {
    let from = m.spec_from() as int;
    let to = m.spec_to() as int;
    let item = v.history.last();
    let side = v.side.spec_opposite();
    let q1 = v.pieces.update(from, item.moved_piece);
    let q2 = q1.update(to, Piece::spec_empty());
    &&& v.history.len() > 0
    &&& item.moved_piece.is_real()
    &&& v.pieces[from] == Piece::spec_empty()
    &&& q1[to].is_real()
    &&& match m.spec_kind() {
        MoveKind::Quiet => true,
        MoveKind::Capture => if m.spec_flag() == MoveFlag::EnPassant {
            let cs = spec_capture_square(side, to as nat);
            &&& 0 <= cs < 64
            &&& item.captured_piece.is_real()
            &&& q2[cs] == Piece::spec_empty()
        } else {
            item.captured_piece.is_real()
        },
        MoveKind::Castle => {
            let rf = spec_rook_squares(to as nat)->Some_0.0 as int;
            let rt = spec_rook_squares(to as nat)->Some_0.1 as int;
            &&& spec_rook_squares(to as nat) is Some
            &&& q2[rt].is_real()
            &&& q2.update(rt, Piece::spec_empty())[rf] == Piece::spec_empty()
        },
        MoveKind::Promotion => item.captured_piece.kind != PieceKind::NoPiece ==> item.captured_piece.is_real(),
    }
}

/// The squares after a move is taken back.
pub open spec fn spec_unmotion(v: BoardView, m: Move) -> Seq<Piece> {
    let from = m.spec_from() as int;
    let to = m.spec_to() as int;
    let item = v.history.last();
    let side = v.side.spec_opposite();
    let q1 = v.pieces.update(from, item.moved_piece);
    let q2 = q1.update(to, Piece::spec_empty());
    match m.spec_kind() {
        MoveKind::Quiet => q2,
        MoveKind::Capture => if m.spec_flag() == MoveFlag::EnPassant {
            q2.update(spec_capture_square(side, to as nat), item.captured_piece)
        } else {
            q2.update(to, item.captured_piece)
        },
        MoveKind::Castle => {
            let rf = spec_rook_squares(to as nat)->Some_0.0 as int;
            let rt = spec_rook_squares(to as nat)->Some_0.1 as int;
            q2.update(rt, Piece::spec_empty()).update(rf, q2[rt])
        },
        MoveKind::Promotion => if item.captured_piece.kind != PieceKind::NoPiece {
            q2.update(to, item.captured_piece)
        } else {
            q2
        },
    }
}

/// The board after a move `unmake_ok` accepts is taken back.
pub open spec fn unmake_result(v: BoardView, m: Move) -> BoardView {
    let item = v.history.last();
    BoardView {
        pieces: spec_unmotion(v, m),
        side: v.side.spec_opposite(),
        castling: item.castling_rights,
        ep: item.en_passant_square,
        clock: item.halfmove_clock as nat,
        history: v.history.drop_last(),
        hash: item.hash,
        keys: v.keys,
    }
}

/// `m` is what move text with `metadata` names: same squares and, for a promotion, the
/// named piece.
pub open spec fn text_matches(metadata: MoveMetadata, m: Move) -> bool {
    m.spec_from() == metadata.from@ && m.spec_to() == metadata.to@ && (m.spec_kind() == MoveKind::Promotion
        ==> metadata.promotion == Some(m.spec_flag().spec_promotion_kind()))
}

/// No move of the kinds whose generation is proven complete (castles, pawn promotions by
/// push or capture, captures by any piece) matches the text `md` on board `b`.
pub open spec fn no_listed_match(b: &Board, md: MoveMetadata) -> bool {
    &&& !(crate::move_generator::castle_allowed(b, true) && md.from@ == crate::move_generator::king_home(b@.side)
        && md.to@ == crate::move_generator::king_home(b@.side) + 2)
    &&& !(crate::move_generator::castle_allowed(b, false) && md.from@ == crate::move_generator::king_home(b@.side)
        && md.to@ + 2 == crate::move_generator::king_home(b@.side))
    &&& forall|flag: MoveFlag| #![trigger flag.spec_promotion_kind()]
        flag.spec_promotion_kind() != PieceKind::NoPiece && crate::move_generator::promo_push_ready(b, md.from@ as int)
            && md.to@ == crate::move_generator::push_target(b@.side, md.from@ as int, 1)
            && md.promotion == Some(flag.spec_promotion_kind()) ==> false
    &&& !(crate::move_generator::own_piece_not_pawn(b@, md.from@ as int) && md.to@ < 64
        && crate::move_generator::piece_reaches(b, md.from@, md.to@ as int) && crate::move_generator::enemy_on(
        b@,
        md.to@ as int,
    ))
    &&& !(md.from@ < 64 && b@.pieces[md.from@ as int] == (Piece { color: b@.side.spec_color(), kind: PieceKind::Pawn })
        && md.to@ < 64 && bit(spec_pawn_attacks(b@.side, md.from@), md.to@ as u64)
        && crate::move_generator::enemy_on(b@, md.to@ as int) && !crate::move_generator::last_rank(b@.side, md.to@ as int))
    &&& forall|flag: MoveFlag| #![trigger flag.spec_promotion_kind()]
        flag.spec_promotion_kind() != PieceKind::NoPiece && md.from@ < 64 && b@.pieces[md.from@ as int] == (Piece {
            color: b@.side.spec_color(),
            kind: PieceKind::Pawn,
        }) && md.to@ < 64 && bit(spec_pawn_attacks(b@.side, md.from@), md.to@ as u64)
            && crate::move_generator::enemy_on(b@, md.to@ as int) && crate::move_generator::last_rank(b@.side, md.to@ as int)
            && md.promotion == Some(flag.spec_promotion_kind()) ==> false
}

/// Long algebraic move text read into squares and an optional promotion piece.
#[derive(Clone, Copy, Debug, PartialEq, Eq, Structural)]
pub struct MoveMetadata {
    pub from: Square,
    pub to: Square,
    pub promotion: Option<PieceKind>,
}

impl Board {
    /// The en-passant square a move leaves behind on this board (see `spec_ep_target`).
    fn en_passant_target(&self, from: Square, to: Square, moved: Piece, side: Side) -> (r: Square)
        requires
            self.inv(),
            from.is_valid(),
            to.is_valid(),
        ensures
            r@ == spec_ep_target(moved, side, from@, to@, self@.pieces),
    {
        proof {
            self.lemma_inv();
        }
        if moved.kind != PieceKind::Pawn || from.distance_between(to) != 16 {
            return Square::none();
        }
        let eps = match side {
            Side::White => {
                if from.index + 8 >= 64 {
                    return Square::none();
                }
                from.north()
            },
            Side::Black => {
                if from.index < 8 {
                    return Square::none();
                }
                from.south()
            },
        };
        let enemy_pawn = Piece::new(side.opposite().color(), PieceKind::Pawn);
        let enemy_pawns = match self.get_piece_bb(enemy_pawn) {
            Ok(b) => b,
            Err(_) => { return Square::none(); },
        };
        let attacks = pawn_attacks(side, eps.index());
        let ghost e: int = eps@ as int;
        proof {
            assert(e == spec_jumped_square(side, from@));
            lemma_and_nonzero(attacks.0, enemy_pawns.0);
            assert forall|s: int| 0 <= s < 64 implies (bit(enemy_pawns.0, s as u64) <==> self@.pieces[s] == enemy_pawn) by {
                assert(enemy_pawns.has(s) == bit(enemy_pawns.0, s as u64));
            }
        }
        if attacks.0 & enemy_pawns.0 != 0 {
            proof {
                let s = choose|s: int| 0 <= s < 64 && #[trigger] bit(attacks.0, s as u64) && bit(enemy_pawns.0, s as u64);
                assert(bit(spec_pawn_attacks(side, e as nat), s as u64));
                assert(ep_capturable(side, e as nat, self@.pieces));
            }
            eps
        } else {
            proof {
                assert forall|s: int| 0 <= s < 64 implies !(#[trigger] bit(spec_pawn_attacks(side, e as nat), s as u64)
                    && self@.pieces[s] == enemy_pawn) by {
                    if bit(spec_pawn_attacks(side, e as nat), s as u64) && self@.pieces[s] == enemy_pawn {
                        assert(bit(attacks.0, s as u64) && bit(enemy_pawns.0, s as u64));
                    }
                }
                assert(!ep_capturable(side, e as nat, self@.pieces));
            }
            Square::none()
        }
    }

    /// Plays a move: moves the pieces, updates castling rights, the en-passant square, the
    /// clock, the side to move and the hash, and records what is needed to take it back.
    /// Returns whether the mover's king is safe afterwards (if not, the caller must
    /// `unmake_move`).
    pub fn make_move(&mut self, mv: Move) -> (r: Result<bool, BoardError>)
        requires
            old(self).wf(),
            mv.wf(),
        ensures
            final(self).inv(),
            final(self).generator() == old(self).generator(),
            r is Ok <==> make_ok(old(self)@, mv),
            crate::move_generator::generated_move(old(self)@, mv) ==> r is Ok,
            r is Ok ==> final(self).wf() && final(self)@ == make_result(old(self)@, mv),
            r is Ok ==> r->Ok_0 == !spec_in_check(final(self), old(self)@.side),
    {
        let ghost v = self@;
        proof {
            self.lemma_inv();
            if crate::move_generator::generated_move(v, mv) {
                lemma_generated_make_ok(v, mv);
            }
        }
        let old_hash = self.hash();
        let from = mv.from_square();
        let to = mv.to_square();
        let moved = match self.remove_piece_and_hash(from) {
            Ok(p) => p,
            Err(e) => { return Err(e); },
        };
        let ghost p1 = self@.pieces;
        assert(p1 == v.pieces.update(from@ as int, Piece::spec_empty()));
        let mut captured = self.get_piece(to);
        let castling = self.castling_rights();
        let ep = self.en_passant_square();
        let clock = self.halfmove_clock();
        self.increment_clock();
        self.replace_en_passant_square(Square::none());
        let side = self.side_to_move();
        match mv.kind() {
            MoveKind::Quiet => {
                if let Err(e) = self.add_piece_and_hash(moved, to) {
                    return Err(e);
                }
            },
            MoveKind::Capture => {
                self.reset_clock();
                if mv.flag() == MoveFlag::EnPassant {
                    let cs = match side {
                        Side::White => {
                            if to.index < 8 {
                                return Err(BoardError::EmptySquare);
                            }
                            to.south()
                        },
                        Side::Black => {
                            if to.index + 8 >= 64 {
                                return Err(BoardError::EmptySquare);
                            }
                            to.north()
                        },
                    };
                    captured = match self.remove_piece_and_hash(cs) {
                        Ok(p) => p,
                        Err(e) => { return Err(e); },
                    };
                    if let Err(e) = self.add_piece_and_hash(moved, to) {
                        return Err(e);
                    }
                } else {
                    if let Err(e) = self.remove_piece_and_hash(to) {
                        return Err(e);
                    }
                    if let Err(e) = self.add_piece_and_hash(moved, to) {
                        return Err(e);
                    }
                }
            },
            MoveKind::Castle => {
                if let Err(e) = self.add_piece_and_hash(moved, to) {
                    return Err(e);
                }
                let (rook_from, rook_to) = match rook_squares(to) {
                    Some(x) => x,
                    None => { return Err(BoardError::IllegalCastle); },
                };
                let rook = match self.remove_piece_and_hash(rook_from) {
                    Ok(p) => p,
                    Err(e) => { return Err(e); },
                };
                if let Err(e) = self.add_piece_and_hash(rook, rook_to) {
                    return Err(e);
                }
            },
            MoveKind::Promotion => {
                let kind = mv.flag().promotion_kind();
                if kind == PieceKind::NoPiece {
                    return Err(BoardError::MissingPromotion);
                }
                if self.get_piece(to).kind != PieceKind::NoPiece {
                    if let Err(e) = self.remove_piece_and_hash(to) {
                        return Err(e);
                    }
                }
                if let Err(e) = self.add_piece_and_hash(Piece::new(side.color(), kind), to) {
                    return Err(e);
                }
            },
        }
        assert(self@.pieces =~= spec_motion(v, mv).0);
        assert(captured == spec_motion(v, mv).1);
        let ghost p2 = self@.pieces;
        if moved.kind == PieceKind::Pawn {
            self.reset_clock();
        }
        let target = self.en_passant_target(from, to, moved, side);
        if !target.is_none() {
            self.replace_en_passant_square(target);
        }
        assert(self@.ep@ == spec_new_ep(v, mv, p2));
        let pf = castling_permission(from.index());
        let pt = castling_permission(to.index());
        let new_rights = castling & pf & pt;
        proof {
            assert(new_rights < 16) by (bit_vector)
                requires
                    castling < 16,
                    new_rights == castling & pf & pt,
            ;
        }
        self.replace_castling_rights(new_rights);
        self.switch_side_and_hash();
        let item = HistoryItem {
            castling_rights: castling,
            en_passant_square: ep,
            halfmove_clock: clock,
            moved_piece: moved,
            captured_piece: captured,
            hash: old_hash,
        };
        self.push_history(item);
        proof {
            let mr = make_result(v, mv);
            assert(self@.history =~= mr.history);
            assert(self@.pieces =~= mr.pieces);
            assert(self@.ep == mr.ep);
        }
        Ok(!self.is_in_check(side))
    }
}

impl Board {
    /// Takes back the latest move `mv`: restores the recorded state fields and hash, hands
    /// the move back, and puts the pieces back where they stood.
    pub fn unmake_move(&mut self, mv: Move) -> (r: Result<(), BoardError>)
        requires
            old(self).inv(),
            mv.wf(),
        ensures
            final(self).inv(),
            final(self).generator() == old(self).generator(),
            r is Ok <==> unmake_ok(old(self)@, mv),
            r is Ok ==> final(self)@ == unmake_result(old(self)@, mv),
            old(self)@.history.len() == 0 ==> final(self)@ == old(self)@,
    {
        let ghost v = self@;
        proof {
            self.lemma_inv();
        }
        let item = match self.pop_history() {
            Some(item) => item,
            None => { return Err(BoardError::EmptyHistory); },
        };
        proof {
            assert(v.history[v.history.len() - 1] == item);
        }
        self.set_castling_rights(item.castling_rights);
        self.set_en_passant_square(item.en_passant_square);
        self.set_halfmove_clock(item.halfmove_clock);
        self.set_hash(item.hash);
        self.switch_side();
        let side = self.side_to_move();
        let from = mv.from_square();
        let to = mv.to_square();
        if let Err(e) = self.add_piece(item.moved_piece, from) {
            return Err(e);
        }
        if let Err(e) = self.remove_piece(to) {
            return Err(e);
        }
        match mv.kind() {
            MoveKind::Quiet => {},
            MoveKind::Capture => {
                if mv.flag() == MoveFlag::EnPassant {
                    let cs = match side {
                        Side::White => {
                            if to.index < 8 {
                                return Err(BoardError::EmptySquare);
                            }
                            to.south()
                        },
                        Side::Black => {
                            if to.index + 8 >= 64 {
                                return Err(BoardError::EmptySquare);
                            }
                            to.north()
                        },
                    };
                    if let Err(e) = self.add_piece(item.captured_piece, cs) {
                        return Err(e);
                    }
                } else {
                    if let Err(e) = self.add_piece(item.captured_piece, to) {
                        return Err(e);
                    }
                }
            },
            MoveKind::Castle => {
                let (rook_from, rook_to) = match rook_squares(to) {
                    Some(x) => x,
                    None => { return Err(BoardError::IllegalCastle); },
                };
                let rook = match self.remove_piece(rook_to) {
                    Ok(p) => p,
                    Err(e) => { return Err(e); },
                };
                if let Err(e) = self.add_piece(rook, rook_from) {
                    return Err(e);
                }
            },
            MoveKind::Promotion => {
                if item.captured_piece.kind != PieceKind::NoPiece {
                    if let Err(e) = self.add_piece(item.captured_piece, to) {
                        return Err(e);
                    }
                }
            },
        }
        proof {
            let ur = unmake_result(v, mv);
            assert(self@.pieces =~= ur.pieces);
            assert(self@.history =~= ur.history);
        }
        Ok(())
    }

    /// Passes the move without moving a piece: clears the en-passant square, resets the
    /// clock and hands the move to the other side, recording what `unmake_null_move` needs.
    pub fn make_null_move(&mut self)
        requires
            old(self).wf(),
        ensures
            final(self).wf(),
            final(self).generator() == old(self).generator(),
            final(self)@.pieces == old(self)@.pieces,
            final(self)@.side == old(self)@.side.spec_opposite(),
            final(self)@.castling == old(self)@.castling,
            final(self)@.ep@ == 64,
            final(self)@.clock == 0,
            final(self)@.keys == old(self)@.keys,
            final(self)@.history == old(self)@.history.push(
                HistoryItem {
                    castling_rights: old(self)@.castling,
                    en_passant_square: old(self)@.ep,
                    halfmove_clock: old(self)@.clock as usize,
                    moved_piece: Piece::spec_empty(),
                    captured_piece: Piece::spec_empty(),
                    hash: old(self)@.hash,
                },
            ),
    {
        proof {
            self.lemma_inv();
        }
        let item = HistoryItem {
            castling_rights: self.castling_rights(),
            en_passant_square: self.en_passant_square(),
            halfmove_clock: self.halfmove_clock(),
            moved_piece: Piece::empty(),
            captured_piece: Piece::empty(),
            hash: self.hash(),
        };
        self.reset_clock();
        self.replace_en_passant_square(Square::none());
        self.switch_side_and_hash();
        self.push_history(item);
    }

    /// Takes back a null move: restores the recorded state fields and hash, and hands the
    /// move back.
    pub fn unmake_null_move(&mut self) -> (r: Result<(), BoardError>)
        requires
            old(self).inv(),
        ensures
            final(self).inv(),
            final(self).generator() == old(self).generator(),
            r is Ok <==> old(self)@.history.len() > 0,
            r is Err ==> final(self)@ == old(self)@,
            r is Ok ==> final(self)@ == (BoardView {
                side: old(self)@.side.spec_opposite(),
                castling: old(self)@.history.last().castling_rights,
                ep: old(self)@.history.last().en_passant_square,
                clock: old(self)@.history.last().halfmove_clock as nat,
                history: old(self)@.history.drop_last(),
                hash: old(self)@.history.last().hash,
                ..old(self)@
            }),
    {
        proof {
            self.lemma_inv();
        }
        let item = match self.pop_history() {
            Some(item) => item,
            None => { return Err(BoardError::EmptyHistory); },
        };
        proof {
            assert(old(self)@.history[old(self)@.history.len() - 1] == item);
        }
        self.set_castling_rights(item.castling_rights);
        self.set_en_passant_square(item.en_passant_square);
        self.set_halfmove_clock(item.halfmove_clock);
        self.set_hash(item.hash);
        self.switch_side();
        Ok(())
    }
}

/// Taking back a generated move right after making it gives back the board exactly:
/// squares, side, castling rights, en-passant square, clock, history and hash.
pub proof fn lemma_make_unmake(v: BoardView, m: Move)
    requires
        view_ok(v),
        make_ok(v, m),
        crate::move_generator::generated_move(v, m),
    ensures
        unmake_ok(make_result(v, m), m),
        unmake_result(make_result(v, m), m) == v,
{
    let from = m.spec_from() as int;
    let to = m.spec_to() as int;
    let mr = make_result(v, m);
    let ur = unmake_result(mr, m);
    crate::moves::lemma_fields(m.bits);
    let moved = v.pieces[from];
    let p1 = v.pieces.update(from, Piece::spec_empty());
    let item = mr.history.last();
    assert(item == mr.history[mr.history.len() - 1]);
    assert(item.moved_piece == moved);
    assert(item.captured_piece == spec_motion(v, m).1);
    assert(mr.side.spec_opposite() == v.side) by {
        match v.side {
            Side::White => {},
            Side::Black => {},
        }
    }
    assert(from != to);
    let pm = mr.pieces;
    assert(pm == spec_motion(v, m).0);
    let q1 = pm.update(from, moved);
    let q2 = q1.update(to, Piece::spec_empty());
    match m.spec_kind() {
        MoveKind::Quiet => {
            assert(pm[from] == Piece::spec_empty());
            assert(q1[to] == moved);
            assert(ur.pieces =~= v.pieces);
        },
        MoveKind::Capture => {
            if m.spec_flag() == MoveFlag::EnPassant {
                let cs = spec_capture_square(v.side, to as nat);
                assert(cs != to);
                assert(cs != from);
                assert(pm[from] == Piece::spec_empty());
                assert(q1[to] == moved);
                assert(q2[cs] == Piece::spec_empty());
                assert(item.captured_piece == v.pieces[cs]);
                assert(ur.pieces =~= v.pieces);
            } else {
                assert(pm[from] == Piece::spec_empty());
                assert(q1[to] == moved);
                assert(ur.pieces =~= v.pieces);
            }
        },
        MoveKind::Castle => {
            let rf = spec_rook_squares(to as nat)->Some_0.0 as int;
            let rt = spec_rook_squares(to as nat)->Some_0.1 as int;
            assert(from != rf && from != rt && to != rf && to != rt && rf != rt);
            assert(pm[from] == Piece::spec_empty());
            assert(q1[to] == moved);
            assert(q2[rt] == v.pieces[rf]);
            assert(ur.pieces =~= v.pieces);
        },
        MoveKind::Promotion => {
            assert(pm[from] == Piece::spec_empty());
            assert(q1[to].is_real());
            assert(item.captured_piece == v.pieces[to]);
            assert(ur.pieces =~= v.pieces);
        },
    }
    assert(ur.history =~= v.history);
}

/// The square named by a file letter and a rank digit, if both are valid.
pub open spec fn spec_square_of(file: u8, rank: u8) -> Option<nat> {
    if 97 <= file <= 104 && 49 <= rank <= 56 {
        Some(((rank - 49) * 8 + (file - 97)) as nat)
    } else {
        None
    }
}

/// The promotion piece named by a lowercase letter.
pub open spec fn spec_promotion_of(c: u8) -> Option<PieceKind> {
    if c == 110 {
        Some(PieceKind::Knight)
    } else if c == 98 {
        Some(PieceKind::Bishop)
    } else if c == 114 {
        Some(PieceKind::Rook)
    } else if c == 113 {
        Some(PieceKind::Queen)
    } else {
        None
    }
}

fn square_from_bytes(file: u8, rank: u8) -> (r: Result<Square, crate::square::ParseError>)
    ensures
        r is Ok <==> spec_square_of(file, rank) is Some,
        r is Ok ==> r->Ok_0.is_valid() && r->Ok_0@ == spec_square_of(file, rank)->Some_0,
{
    let f = match crate::square::File::try_from_char(file as char) {
        Ok(f) => f,
        Err(e) => { return Err(e); },
    };
    let r = match crate::square::Rank::try_from_char(rank as char) {
        Ok(r) => r,
        Err(e) => { return Err(e); },
    };
    Ok(Square::new(r, f))
}

impl Board {
    /// Reads long algebraic move text: from-square, to-square, and an optional fifth
    /// character naming the promotion piece (`n`, `b`, `r`, `q`); later characters are
    /// ignored.
    pub fn get_move_metadata(&self, move_str: &str) -> (r: Result<MoveMetadata, crate::square::ParseError>)
        ensures
            ({
                let b = move_str.spec_bytes();
                r is Ok <==> (b.len() >= 4 && spec_square_of(b[0], b[1]) is Some && spec_square_of(b[2], b[3]) is Some
                    && (b.len() > 4 ==> spec_promotion_of(b[4]) is Some))
            }),
            ({
                let b = move_str.spec_bytes();
                r is Ok ==> r->Ok_0.from@ == spec_square_of(b[0], b[1])->Some_0 && r->Ok_0.to@ == spec_square_of(b[2], b[3])->Some_0
                    && r->Ok_0.from.is_valid() && r->Ok_0.to.is_valid()
                    && (b.len() > 4 ==> r->Ok_0.promotion == spec_promotion_of(b[4]))
                    && (b.len() == 4 ==> r->Ok_0.promotion is None)
            }),
    {
        let b = move_str.as_bytes();
        if b.len() < 4 {
            return Err(crate::square::ParseError::MoveTooShort);
        }
        let from = square_from_bytes(b[0], b[1])?;
        let to = square_from_bytes(b[2], b[3])?;
        let promotion = if b.len() > 4 {
            match PieceKind::try_from_char(b[4] as char) {
                Ok(k) => Some(k),
                Err(e) => { return Err(e); },
            }
        } else {
            None
        };
        Ok(MoveMetadata { from, to, promotion })
    }

    /// The generated move that goes from and to the given squares (and, for a promotion,
    /// promotes to the given piece), if there is one.
    pub fn find_matching_move(&self, metadata: MoveMetadata) -> (r: Option<Move>)
        requires
            self.inv(),
        ensures
            r is Some ==> crate::move_generator::by_rule(self, r->Some_0),
            r is Some ==> crate::move_generator::generated_move(self@, r->Some_0)
                && r->Some_0.spec_from() == metadata.from@ && r->Some_0.spec_to() == metadata.to@
                && (r->Some_0.spec_kind() == MoveKind::Promotion ==> metadata.promotion == Some(r->Some_0.spec_flag().spec_promotion_kind())),
            r is None ==> no_listed_match(self, metadata),
    {
        let mut moves = crate::moves::MoveList::new();
        self.generate_all_moves(&mut moves);
        proof {
            assert forall|k: int| 0 <= k < moves@.len() implies crate::move_generator::generated_move(self@, #[trigger] moves@[k]) by {
                assert(moves@.subrange(0, 0) == Seq::<Move>::empty());
            }
        }
        let mut i: usize = 0;
        while i < moves.length()
            invariant
                forall|k: int| 0 <= k < moves@.len() ==> crate::move_generator::generated_move(self@, #[trigger] moves@[k]),
                crate::move_generator::all_by_rule(self, moves@, 0),
                i <= moves@.len(),
                forall|k: int| 0 <= k < i ==> !text_matches(metadata, #[trigger] moves@[k]),
            decreases moves@.len() - i,
        {
            let mv = moves.get(i);
            if mv.from_square() == metadata.from && mv.to_square() == metadata.to {
                if mv.kind() == MoveKind::Promotion {
                    match metadata.promotion {
                        Some(kind) => {
                            if kind == mv.flag().promotion_kind() {
                                return Some(mv);
                            }
                        },
                        None => {},
                    }
                } else {
                    return Some(mv);
                }
            }
            i += 1;
        }
        proof {
            let v = self@;
            let e = crate::move_generator::king_home(v.side);
            if crate::move_generator::castle_allowed(self, true) && metadata.from@ == e && metadata.to@ == e + 2 {
                let m = crate::move_generator::castle_move(v.side, true);
                let k = choose|k: int| 0 <= k < moves@.len() && moves@[k] == m;
                crate::moves::lemma_encode(e as u32, (e + 2) as u32, 2, 0);
                assert(text_matches(metadata, moves@[k]));
            }
            if crate::move_generator::castle_allowed(self, false) && metadata.from@ == e && metadata.to@ + 2 == e {
                let m = crate::move_generator::castle_move(v.side, false);
                let k = choose|k: int| 0 <= k < moves@.len() && moves@[k] == m;
                crate::moves::lemma_encode(e as u32, (e - 2) as u32, 2, 0);
                assert(text_matches(metadata, moves@[k]));
            }
            assert forall|flag: MoveFlag| #![trigger flag.spec_promotion_kind()]
                flag.spec_promotion_kind() != PieceKind::NoPiece && crate::move_generator::promo_push_ready(self, metadata.from@ as int)
                    && metadata.to@ == crate::move_generator::push_target(self@.side, metadata.from@ as int, 1)
                    && metadata.promotion == Some(flag.spec_promotion_kind()) implies false by {
                let s = metadata.from@ as int;
                let tt = crate::move_generator::push_target(v.side, s, 1);
                assert(crate::move_generator::promotions_listed(self, moves@, 0, s));
                let m = crate::move_generator::promotion_move(s, tt, flag);
                assert(crate::move_generator::listed_from(moves@, 0, m));
                let k = choose|k: int| 0 <= k < moves@.len() && moves@[k] == m;
                crate::moves::lemma_encode(s as u32, tt as u32, 3, flag.spec_code());
                assert(MoveFlag::spec_from_code(flag.spec_code()) == flag);
                assert(text_matches(metadata, moves@[k]));
            }
            let s = metadata.from@ as int;
            let tt = metadata.to@ as int;
            if crate::move_generator::own_piece_not_pawn(self@, s) && tt < 64 && crate::move_generator::piece_reaches(self, s as nat, tt)
                && crate::move_generator::enemy_on(self@, tt) {
                assert(crate::move_generator::captures_listed(self, moves@, 0, s));
                let m = crate::move_generator::capture_move(s, tt);
                assert(crate::move_generator::listed_from(moves@, 0, m));
                let k = choose|k: int| 0 <= k < moves@.len() && moves@[k] == m;
                crate::moves::lemma_encode(s as u32, tt as u32, 1, 0);
                assert(text_matches(metadata, moves@[k]));
            }
            if s < 64 && self@.pieces[s] == (Piece { color: self@.side.spec_color(), kind: PieceKind::Pawn }) && tt < 64
                && bit(spec_pawn_attacks(self@.side, s as nat), tt as u64) && crate::move_generator::enemy_on(self@, tt)
                && !crate::move_generator::last_rank(self@.side, tt) {
                assert(crate::move_generator::pawn_captures_listed(self, moves@, 0, s));
                assert(crate::move_generator::pawn_capture_listed(self, moves@, 0, s, tt));
                let m = crate::move_generator::capture_move(s, tt);
                let k = choose|k: int| 0 <= k < moves@.len() && moves@[k] == m;
                crate::moves::lemma_encode(s as u32, tt as u32, 1, 0);
                assert(text_matches(metadata, moves@[k]));
            }
            assert forall|flag: MoveFlag| #![trigger flag.spec_promotion_kind()]
                flag.spec_promotion_kind() != PieceKind::NoPiece && s < 64 && self@.pieces[s] == (Piece {
                    color: self@.side.spec_color(),
                    kind: PieceKind::Pawn,
                }) && tt < 64 && bit(spec_pawn_attacks(self@.side, s as nat), tt as u64)
                    && crate::move_generator::enemy_on(self@, tt) && crate::move_generator::last_rank(self@.side, tt)
                    && metadata.promotion == Some(flag.spec_promotion_kind()) implies false by {
                assert(crate::move_generator::pawn_captures_listed(self, moves@, 0, s));
                assert(crate::move_generator::pawn_capture_listed(self, moves@, 0, s, tt));
                let m = crate::move_generator::promotion_move(s, tt, flag);
                assert(crate::move_generator::listed_from(moves@, 0, m));
                let k = choose|k: int| 0 <= k < moves@.len() && moves@[k] == m;
                crate::moves::lemma_encode(s as u32, tt as u32, 3, flag.spec_code());
                assert(MoveFlag::spec_from_code(flag.spec_code()) == flag);
                assert(text_matches(metadata, moves@[k]));
            }
        }
        None
    }
}

/// Why a move given as text could not be played.
#[derive(Clone, Copy, Debug, PartialEq, Eq, Structural)]
pub enum MoveError {
    Unreadable(crate::square::ParseError),
    NoSuchMove,
    LeavesKingInCheck,
    Board(BoardError),
}

impl Board {
    /// Plays a move given in long algebraic notation, if it is legal here; otherwise the
    /// board is left as it was (but for the board faults `make_move` reports).
    pub fn apply_move_text(&mut self, text: &str) -> (r: Result<Move, MoveError>)
        requires
            old(self).wf(),
        ensures
            final(self).inv(),
            r is Ok ==> final(self).wf() && crate::move_generator::generated_move(old(self)@, r->Ok_0)
                && final(self)@ == make_result(old(self)@, r->Ok_0),
            r matches Err(MoveError::Unreadable(_)) ==> final(self)@ == old(self)@,
            r matches Err(MoveError::NoSuchMove) ==> final(self)@ == old(self)@,
            r matches Err(MoveError::NoSuchMove) ==> exists|md: MoveMetadata|
                md.from@ == spec_square_of(text.spec_bytes()[0], text.spec_bytes()[1])->Some_0 && md.to@ == spec_square_of(
                    text.spec_bytes()[2],
                    text.spec_bytes()[3],
                )->Some_0 && (text.spec_bytes().len() > 4 ==> md.promotion == spec_promotion_of(text.spec_bytes()[4]))
                    && (text.spec_bytes().len() == 4 ==> md.promotion is None) && no_listed_match(old(self), md),
            r matches Err(MoveError::LeavesKingInCheck) ==> final(self)@ == old(self)@ && final(self).wf(),
            !(r matches Err(MoveError::Board(_))),
            final(self).wf(),
    {
        let ghost v = self@;
        let metadata = match self.get_move_metadata(text) {
            Ok(m) => m,
            Err(e) => { return Err(MoveError::Unreadable(e)); },
        };
        let mv = match self.find_matching_move(metadata) {
            Some(mv) => mv,
            None => { return Err(MoveError::NoSuchMove); },
        };
        proof {
            self.lemma_inv();
            lemma_generated_make_ok(v, mv);
        }
        let legal = match self.make_move(mv) {
            Ok(l) => l,
            Err(e) => { return Err(MoveError::Board(e)); },
        };
        if !legal {
            proof {
                lemma_make_unmake(v, mv);
            }
            if let Err(e) = self.unmake_move(mv) {
                return Err(MoveError::Board(e));
            }
            return Err(MoveError::LeavesKingInCheck);
        }
        Ok(mv)
    }
}

/// Every move the generator emits can be carried out: `make_move` succeeds on it.
pub proof fn lemma_generated_make_ok(v: BoardView, m: Move)
    requires
        view_ok(v),
        crate::move_generator::generated_move(v, m),
    ensures
        make_ok(v, m),
{
    crate::moves::lemma_fields(m.bits);
    let from = m.spec_from() as int;
    let to = m.spec_to() as int;
    let p1 = v.pieces.update(from, Piece::spec_empty());
    if m.spec_kind() == MoveKind::Castle {
        let rf = spec_rook_squares(to as nat)->Some_0.0 as int;
        let rt = spec_rook_squares(to as nat)->Some_0.1 as int;
        assert(from != rf && from != rt && to != rf && to != rt && rf != rt);
        let q = p1.update(to, v.pieces[from]);
        assert(q[rf] == v.pieces[rf]);
        assert(q.update(rf, Piece::spec_empty())[rt] == v.pieces[rt]);
    }
}

/// The stored hash stays the full hash of the position across a generated move and its
/// take-back: after the move it is the full hash of the new position, and taking the move
/// back restores the earlier position with its hash.
pub proof fn lemma_hash_across_move(v: BoardView, m: Move)
    requires
        view_ok(v),
        v.hash == view_hash_full(v),
        crate::move_generator::generated_move(v, m),
    ensures
        make_ok(v, m),
        make_result(v, m).hash == view_hash_full(make_result(v, m)),
        unmake_ok(make_result(v, m), m),
        unmake_result(make_result(v, m), m).hash == view_hash_full(unmake_result(make_result(v, m), m)),
{
    lemma_generated_make_ok(v, m);
    lemma_make_unmake(v, m);
}

} // verus!
