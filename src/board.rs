use vstd::prelude::*;
use vstd::string::StringSliceAdditionalSpecFns;
use crate::attacks::MoveGenerator;
use crate::bitboard::{Bitboard, bit, lemma_bit_ops, lemma_lowest_bit};
use crate::square::{Piece, PieceColor, PieceKind, Side, Square};
use crate::zobrist_hash::{
    ZobristHasher, ZobristKey, hash_full, key_part, lemma_pieces_hash_update, lemma_xor,
    spec_ep_slot, square_key, CASTLE_OFFSET, EN_PASSANT_OFFSET, SIDE_OFFSET,
    ZOBRIST_NUMBERS_SIZE,
};

verus! {

/// One of the four castling rights, each a bit of the 4-bit rights field.
#[derive(Clone, Copy, Debug, PartialEq, Eq, Structural)]
pub enum CastlingKind {
    WhiteKing,
    WhiteQueen,
    BlackKing,
    BlackQueen,
}

impl CastlingKind {
    pub open spec fn spec_bit(self) -> u8 {
        match self {
            CastlingKind::WhiteKing => 1,
            CastlingKind::WhiteQueen => 2,
            CastlingKind::BlackKing => 4,
            CastlingKind::BlackQueen => 8,
        }
    }

    pub fn bit(self) -> (r: u8)
        ensures
            r == self.spec_bit(),
    {
        match self {
            CastlingKind::WhiteKing => 1,
            CastlingKind::WhiteQueen => 2,
            CastlingKind::BlackKing => 4,
            CastlingKind::BlackQueen => 8,
        }
    }

    /// Reads a right from its FEN letter (`K`, `Q`, `k`, `q`).
    pub fn try_from_char(c: char) -> (r: Option<CastlingKind>)
        ensures
            c == 'K' ==> r == Some(CastlingKind::WhiteKing),
            c == 'Q' ==> r == Some(CastlingKind::WhiteQueen),
            c == 'k' ==> r == Some(CastlingKind::BlackKing),
            c == 'q' ==> r == Some(CastlingKind::BlackQueen),
            !(c == 'K' || c == 'Q' || c == 'k' || c == 'q') ==> r is None,
    {
        match c {
            'K' => Some(CastlingKind::WhiteKing),
            'Q' => Some(CastlingKind::WhiteQueen),
            'k' => Some(CastlingKind::BlackKing),
            'q' => Some(CastlingKind::BlackQueen),
            _ => None,
        }
    }
}

/// What is needed to take a move back: the state fields before it, the piece that moved,
/// the piece it captured (empty if none) and the hash before it.
#[derive(Clone, Copy, Debug, PartialEq, Eq, Structural)]
pub struct HistoryItem {
    pub castling_rights: u8,
    pub en_passant_square: Square,
    pub halfmove_clock: usize,
    pub moved_piece: Piece,
    pub captured_piece: Piece,
    pub hash: u64,
}

#[derive(Clone, Copy, Debug, PartialEq, Eq, Structural)]
pub enum BoardError {
    InvalidPiece,
    EmptySquare,
    OccupiedSquare,
    IllegalCastle,
    MissingPromotion,
    EmptyHistory,
}

/// The mathematical content of a board.
pub struct BoardView {
    pub pieces: Seq<Piece>,
    pub side: Side,
    pub castling: u8,
    pub ep: Square,
    pub clock: nat,
    pub history: Seq<HistoryItem>,
    pub hash: u64,
    pub keys: Seq<u64>,
}

/// The full hash of the position a view describes.
pub open spec fn view_hash_full(v: BoardView) -> u64 {
    hash_full(v.keys, v.pieces, v.side, v.castling, v.ep)
}

/// The same view with other squares.
pub open spec fn with_pieces(v: BoardView, pieces: Seq<Piece>) -> BoardView {
    BoardView { pieces, ..v }
}

/// The same view with another hash.
pub open spec fn with_hash(v: BoardView, hash: u64) -> BoardView {
    BoardView { hash, ..v }
}

/// The position a FEN record (cut into `fields`, its placement into `ranks`) describes.
pub open spec fn fen_board(v: BoardView, b: Seq<u8>, fields: Seq<(usize, usize)>, ranks: Seq<(usize, usize)>) -> bool {
    &&& v.pieces == crate::fen::ranks_scan(b, ranks, 0, crate::fen::empty_squares())->Some_0
    &&& v.side == crate::fen::side_of(b, fields[1])->Some_0
    &&& v.castling == crate::fen::castling_field(b, fields[2])->Some_0
    &&& v.ep@ == crate::fen::ep_field(b, fields[3])->Some_0
    &&& v.clock == crate::fen::number_of(b, fields[4].0 as int, fields[4].1 as int, usize::MAX as int)->Some_0
}

/// The field bounds every board keeps.
pub open spec fn view_ok(v: BoardView) -> bool {
    &&& v.pieces.len() == 64
    &&& v.keys.len() == ZOBRIST_NUMBERS_SIZE
    &&& v.castling < 16
    &&& v.ep@ <= 64
    &&& v.clock <= usize::MAX
    &&& forall|s: int| 0 <= s < 64 ==> (#[trigger] v.pieces[s]).is_real() || v.pieces[s] == Piece::spec_empty()
    &&& forall|k: int| 0 <= k < v.history.len() ==> (#[trigger] v.history[k]).castling_rights < 16 && v.history[k].en_passant_square@ <= 64
}

/// A chess position: twelve piece bitboards, a mailbox, two occupancy sets, the state
/// fields, the history of played moves and the incrementally kept Zobrist hash.
pub struct Board {
    bitboards: Vec<Bitboard>,
    pieces: Vec<Piece>,
    occupancies: Vec<Bitboard>,
    side: Side,
    halfmove_clock: usize,
    castling_rights: u8,
    en_passant_square: Square,
    history: Vec<HistoryItem>,
    move_generator: MoveGenerator,
    hasher: ZobristHasher,
    hash: u64,
}

impl View for Board {
    type V = BoardView;

    closed spec fn view(&self) -> BoardView {
        BoardView {
            pieces: self.pieces@,
            side: self.side,
            castling: self.castling_rights,
            ep: self.en_passant_square,
            clock: self.halfmove_clock as nat,
            history: self.history@,
            hash: self.hash,
            keys: self.hasher@,
        }
    }
}

impl Board {
    /// The bitboards, the occupancies and the mailbox agree, and the fields are in range.
    pub closed spec fn inv(&self) -> bool {
        &&& self.bitboards@.len() == 12
        &&& self.occupancies@.len() == 2
        &&& self.move_generator.wf()
        &&& view_ok(self@)
        &&& forall|i: int, s: int|
            0 <= i < 12 && 0 <= s < 64 ==> (#[trigger] self.bitboards@[i].has(s) <==> (
            self.pieces@[s].is_real() && self.pieces@[s].spec_index() == i))
        &&& forall|c: int, s: int|
            0 <= c < 2 && 0 <= s < 64 ==> (#[trigger] self.occupancies@[c].has(s) <==> (
            self.pieces@[s].is_real() && self.pieces@[s].color.spec_index() == c))
    }

    /// A board whose hash is the full hash of its position.
    pub open spec fn wf(&self) -> bool {
        self.inv() && self@.hash == view_hash_full(self@)
    }

    /// The bitboard of the real piece with index `i` (6 * color + kind).
    pub closed spec fn spec_piece_bb(&self, i: int) -> u64 {
        self.bitboards@[i].0
    }

    /// The occupancy of color index `c`.
    pub closed spec fn spec_occupancy(&self, c: int) -> u64 {
        self.occupancies@[c].0
    }

    pub closed spec fn generator(&self) -> MoveGenerator {
        self.move_generator
    }

    pub proof fn lemma_inv(&self)
        requires
            self.inv(),
        ensures
            view_ok(self@),
            self.generator().wf(),
            forall|i: int, s: int|
                0 <= i < 12 && 0 <= s < 64 ==> (#[trigger] bit(self.spec_piece_bb(i), s as u64) <==> (
                self@.pieces[s].is_real() && self@.pieces[s].spec_index() == i)),
            forall|c: int, s: int|
                0 <= c < 2 && 0 <= s < 64 ==> (#[trigger] bit(self.spec_occupancy(c), s as u64) <==> (
                self@.pieces[s].is_real() && self@.pieces[s].color.spec_index() == c)),
    {
        assert forall|i: int, s: int| 0 <= i < 12 && 0 <= s < 64 implies (#[trigger] bit(
            self.spec_piece_bb(i),
            s as u64,
        ) <==> (self@.pieces[s].is_real() && self@.pieces[s].spec_index() == i)) by {
            assert(self.bitboards@[i].has(s) == bit(self.spec_piece_bb(i), s as u64));
        }
        assert forall|c: int, s: int| 0 <= c < 2 && 0 <= s < 64 implies (#[trigger] bit(
            self.spec_occupancy(c),
            s as u64,
        ) <==> (self@.pieces[s].is_real() && self@.pieces[s].color.spec_index() == c)) by {
            assert(self.occupancies@[c].has(s) == bit(self.spec_occupancy(c), s as u64));
        }
    }

    /// An empty board, White to move, no castling rights, no en-passant square.
    pub fn new() -> (r: Board)
        ensures
            r.wf(),
            r@.pieces == Seq::new(64, |s: int| Piece::spec_empty()),
            r@.side == Side::White,
            r@.castling == 0,
            r@.ep@ == 64,
            r@.clock == 0,
            r@.history.len() == 0,
    {
        let mut bitboards: Vec<Bitboard> = Vec::new();
        let mut i: usize = 0;
        while i < 12
            invariant
                i <= 12,
                bitboards@.len() == i,
                forall|k: int| 0 <= k < i ==> (#[trigger] bitboards@[k]).0 == 0,
            decreases 12 - i,
        {
            bitboards.push(Bitboard(0));
            i += 1;
        }
        let mut pieces: Vec<Piece> = Vec::new();
        let mut s: usize = 0;
        while s < 64
            invariant
                s <= 64,
                pieces@.len() == s,
                forall|k: int| 0 <= k < s ==> (#[trigger] pieces@[k]) == Piece::spec_empty(),
            decreases 64 - s,
        {
            pieces.push(Piece::empty());
            s += 1;
        }
        let mut occupancies: Vec<Bitboard> = Vec::new();
        occupancies.push(Bitboard(0));
        occupancies.push(Bitboard(0));
        let hasher = ZobristHasher::new();
        let hash = hasher.hash_position(&pieces, Side::White, 0, Square::none());
        let b = Board {
            bitboards,
            pieces,
            occupancies,
            side: Side::White,
            halfmove_clock: 0,
            castling_rights: 0,
            en_passant_square: Square::none(),
            history: Vec::new(),
            move_generator: MoveGenerator::new(),
            hasher,
            hash,
        };
        proof {
            assert forall|i: int, s: int| 0 <= i < 12 && 0 <= s < 64 implies (
            #[trigger] b.bitboards@[i].has(s) <==> (b.pieces@[s].is_real()
                && b.pieces@[s].spec_index() == i)) by {
                lemma_bit_ops(0, 0, s as u64);
            }
            assert forall|c: int, s: int| 0 <= c < 2 && 0 <= s < 64 implies (
            #[trigger] b.occupancies@[c].has(s) <==> (b.pieces@[s].is_real()
                && b.pieces@[s].color.spec_index() == c)) by {
                lemma_bit_ops(0, 0, s as u64);
            }
            assert(b@.pieces =~= Seq::new(64, |s: int| Piece::spec_empty()));
        }
        b
    }

    /// The bitboard of a real piece.
    pub fn get_piece_bb(&self, piece: Piece) -> (r: Result<Bitboard, BoardError>)
        requires
            self.inv(),
        ensures
            piece.is_real() <==> r is Ok,
            r is Ok ==> r->Ok_0.0 == self.spec_piece_bb(piece.spec_index() as int),
            r is Ok ==> forall|s: int| 0 <= s < 64 ==> (#[trigger] r->Ok_0.has(s) <==> self@.pieces[s] == piece),
            r is Err ==> r == Err::<Bitboard, BoardError>(BoardError::InvalidPiece),
    {
        if piece.color == PieceColor::NoColor || piece.kind == PieceKind::NoPiece {
            return Err(BoardError::InvalidPiece);
        }
        let i = piece.index();
        let bb = self.bitboards[i];
        proof {
            assert forall|s: int| 0 <= s < 64 implies (#[trigger] bb.has(s) <==> self@.pieces[s] == piece) by {
                assert(self.bitboards@[i as int].has(s) <==> (self.pieces@[s].is_real()
                    && self.pieces@[s].spec_index() == i));
            }
        }
        Ok(bb)
    }

    /// The set of squares holding pieces of `side`.
    pub fn occupancy(&self, side: Side) -> (r: Bitboard)
        requires
            self.inv(),
        ensures
            r.0 == self.spec_occupancy(side.spec_index() as int),
            forall|s: int| 0 <= s < 64 ==> (#[trigger] r.has(s) <==> (self@.pieces[s].is_real()
                && self@.pieces[s].color == side.spec_color())),
    {
        let bb = self.occupancies[side.index()];
        proof {
            assert forall|s: int| 0 <= s < 64 implies (#[trigger] bb.has(s) <==> (self@.pieces[s].is_real()
                && self@.pieces[s].color == side.spec_color())) by {
                assert(self.occupancies@[side.spec_index() as int].has(s) == bb.has(s));
            }
        }
        bb
    }

    /// The set of squares holding no piece.
    pub fn empty_squares(&self) -> (r: Bitboard)
        requires
            self.inv(),
        ensures
            r.0 == !(self.spec_occupancy(0) | self.spec_occupancy(1)),
            forall|s: int| 0 <= s < 64 ==> (#[trigger] r.has(s) <==> self@.pieces[s] == Piece::spec_empty()),
    {
        let w = self.occupancy(Side::White);
        let b = self.occupancy(Side::Black);
        let r = Bitboard(!(w.0 | b.0));
        proof {
            assert forall|s: int| 0 <= s < 64 implies (#[trigger] r.has(s) <==> self@.pieces[s]
                == Piece::spec_empty()) by {
                lemma_bit_ops(w.0, b.0, s as u64);
                lemma_bit_ops(w.0 | b.0, 0, s as u64);
                assert(w.has(s) == bit(w.0, s as u64));
                assert(b.has(s) == bit(b.0, s as u64));
            }
        }
        r
    }

    pub fn get_piece(&self, square: Square) -> (r: Piece)
        requires
            self.inv(),
            square.is_valid(),
        ensures
            r == self@.pieces[square@ as int],
    {
        self.pieces[square.index()]
    }

    /// The 64 squares of the mailbox.
    pub fn pieces(&self) -> (r: &Vec<Piece>)
        ensures
            r@ == self@.pieces,
    {
        &self.pieces
    }

    /// The precomputed attack tables.
    pub fn move_generator(&self) -> (r: &MoveGenerator)
        ensures
            *r == self.generator(),
    {
        &self.move_generator
    }

    /// Puts a real piece on an empty square (the hash is left alone).
    pub fn add_piece(&mut self, piece: Piece, square: Square) -> (r: Result<(), BoardError>)
        requires
            old(self).inv(),
            square.is_valid(),
        ensures
            final(self).inv(),
            final(self).generator() == old(self).generator(),
            r is Ok <==> (piece.is_real() && old(self)@.pieces[square@ as int] == Piece::spec_empty()),
            r is Ok ==> final(self)@ == with_pieces(old(self)@, old(self)@.pieces.update(square@ as int, piece)),
            r is Ok ==> final(self).spec_piece_bb(piece.spec_index() as int) == old(self).spec_piece_bb(piece.spec_index() as int)
                | (1u64 << square.index as u64),
            r is Ok ==> final(self).spec_occupancy(piece.color.spec_index() as int) == old(self).spec_occupancy(
                piece.color.spec_index() as int,
            ) | (1u64 << square.index as u64),
            r is Ok ==> forall|i: int| 0 <= i < 12 && i != piece.spec_index() ==> #[trigger] final(self).spec_piece_bb(i) == old(self).spec_piece_bb(i),
            r is Ok ==> forall|c: int| 0 <= c < 2 && c != piece.color.spec_index() ==> #[trigger] final(self).spec_occupancy(c) == old(self).spec_occupancy(c),
            r is Err ==> final(self)@ == old(self)@,
    {
        if piece.color == PieceColor::NoColor || piece.kind == PieceKind::NoPiece {
            return Err(BoardError::InvalidPiece);
        }
        let s = square.index();
        if self.pieces[s].kind != PieceKind::NoPiece {
            return Err(BoardError::OccupiedSquare);
        }
        let ghost old_bbs = self.bitboards@;
        let ghost old_occ = self.occupancies@;
        let ghost old_pieces = self.pieces@;
        let i = piece.index();
        let mut bb = self.bitboards[i];
        bb.set_bit(square);
        self.bitboards.set(i, bb);
        let c = piece.color.index();
        let mut oc = self.occupancies[c];
        oc.set_bit(square);
        self.occupancies.set(c, oc);
        self.pieces.set(s, piece);
        proof {
            assert forall|i2: int, s2: int| 0 <= i2 < 12 && 0 <= s2 < 64 implies (
            #[trigger] self.bitboards@[i2].has(s2) <==> (self.pieces@[s2].is_real()
                && self.pieces@[s2].spec_index() == i2)) by {
                assert(old_bbs[i2].has(s2) <==> (old_pieces[s2].is_real() && old_pieces[s2].spec_index() == i2));
            }
            assert forall|c2: int, s2: int| 0 <= c2 < 2 && 0 <= s2 < 64 implies (
            #[trigger] self.occupancies@[c2].has(s2) <==> (self.pieces@[s2].is_real()
                && self.pieces@[s2].color.spec_index() == c2)) by {
                assert(old_occ[c2].has(s2) <==> (old_pieces[s2].is_real() && old_pieces[s2].color.spec_index() == c2));
            }
            assert(self@ == with_pieces(old(self)@, old(self)@.pieces.update(square@ as int, piece)));
        }
        Ok(())
    }

    /// Takes the piece off a square and returns it (the hash is left alone).
    pub fn remove_piece(&mut self, square: Square) -> (r: Result<Piece, BoardError>)
        requires
            old(self).inv(),
            square.is_valid(),
        ensures
            final(self).inv(),
            final(self).generator() == old(self).generator(),
            r is Ok <==> old(self)@.pieces[square@ as int].is_real(),
            r is Ok ==> r->Ok_0 == old(self)@.pieces[square@ as int],
            r is Ok ==> final(self)@ == with_pieces(old(self)@, old(self)@.pieces.update(square@ as int, Piece::spec_empty())),
            r is Err ==> final(self)@ == old(self)@ && r == Err::<Piece, BoardError>(BoardError::EmptySquare),
            r is Ok ==> final(self).spec_piece_bb(r->Ok_0.spec_index() as int) == old(self).spec_piece_bb(r->Ok_0.spec_index() as int)
                & !(1u64 << square.index as u64),
            r is Ok ==> final(self).spec_occupancy(r->Ok_0.color.spec_index() as int) == old(self).spec_occupancy(
                r->Ok_0.color.spec_index() as int,
            ) & !(1u64 << square.index as u64),
            r is Ok ==> forall|i: int| 0 <= i < 12 && i != r->Ok_0.spec_index() ==> #[trigger] final(self).spec_piece_bb(i) == old(self).spec_piece_bb(i),
            r is Ok ==> forall|c: int| 0 <= c < 2 && c != r->Ok_0.color.spec_index() ==> #[trigger] final(self).spec_occupancy(c) == old(self).spec_occupancy(c),
    {
        let s = square.index();
        let piece = self.pieces[s];
        if piece.kind == PieceKind::NoPiece {
            return Err(BoardError::EmptySquare);
        }
        let ghost old_bbs = self.bitboards@;
        let ghost old_occ = self.occupancies@;
        let ghost old_pieces = self.pieces@;
        let i = piece.index();
        let mut bb = self.bitboards[i];
        bb.clear_bit(square);
        self.bitboards.set(i, bb);
        let c = piece.color.index();
        let mut oc = self.occupancies[c];
        oc.clear_bit(square);
        self.occupancies.set(c, oc);
        self.pieces.set(s, Piece::empty());
        proof {
            assert forall|i2: int, s2: int| 0 <= i2 < 12 && 0 <= s2 < 64 implies (
            #[trigger] self.bitboards@[i2].has(s2) <==> (self.pieces@[s2].is_real()
                && self.pieces@[s2].spec_index() == i2)) by {
                assert(old_bbs[i2].has(s2) <==> (old_pieces[s2].is_real() && old_pieces[s2].spec_index() == i2));
            }
            assert forall|c2: int, s2: int| 0 <= c2 < 2 && 0 <= s2 < 64 implies (
            #[trigger] self.occupancies@[c2].has(s2) <==> (self.pieces@[s2].is_real()
                && self.pieces@[s2].color.spec_index() == c2)) by {
                assert(old_occ[c2].has(s2) <==> (old_pieces[s2].is_real() && old_pieces[s2].color.spec_index() == c2));
            }
            assert(self@ == with_pieces(old(self)@, old(self)@.pieces.update(square@ as int, Piece::spec_empty())));
        }
        Ok(piece)
    }
}

/// How the full hash moves when one of its four parts changes.
pub proof fn lemma_hash_parts(p: u64, s: u64, c: u64, e: u64, x: u64, y: u64)
    ensures
        (((p ^ x) ^ s) ^ c) ^ e == (((p ^ s) ^ c) ^ e) ^ x,
        ((((p ^ s) ^ c) ^ e) ^ s) ^ y == ((p ^ y) ^ c) ^ e,
        ((((p ^ s) ^ c) ^ e) ^ c) ^ y == ((p ^ s) ^ y) ^ e,
        ((((p ^ s) ^ c) ^ e) ^ e) ^ y == ((p ^ s) ^ c) ^ y,
{
    assert((((p ^ x) ^ s) ^ c) ^ e == (((p ^ s) ^ c) ^ e) ^ x && ((((p ^ s) ^ c) ^ e) ^ s) ^ y == ((
    p ^ y) ^ c) ^ e && ((((p ^ s) ^ c) ^ e) ^ c) ^ y == ((p ^ s) ^ y) ^ e && ((((p ^ s) ^ c) ^ e)
        ^ e) ^ y == ((p ^ s) ^ c) ^ y) by (bit_vector);
}

impl Board {
    pub fn hash(&self) -> (r: u64)
        ensures
            r == self@.hash,
    {
        self.hash
    }

    pub fn set_hash(&mut self, hash: u64)
        requires
            old(self).inv(),
        ensures
            final(self).inv(),
            final(self).generator() == old(self).generator(),
            final(self)@ == with_hash(old(self)@, hash),
    {
        self.hash = hash;
    }

    /// XORs one key into the hash.
    pub fn update_hash(&mut self, key: ZobristKey)
        requires
            old(self).inv(),
            crate::zobrist_hash::key_valid(key),
        ensures
            final(self).inv(),
            final(self).generator() == old(self).generator(),
            final(self)@ == with_hash(old(self)@, old(self)@.hash ^ key_part(old(self)@.keys, key)),
    {
        self.hash = self.hash ^ self.hasher.get_key_part(key);
    }

    /// `add_piece`, with the piece's key XORed into the hash.
    pub fn add_piece_and_hash(&mut self, piece: Piece, square: Square) -> (r: Result<(), BoardError>)
        requires
            old(self).inv(),
            square.is_valid(),
        ensures
            final(self).inv(),
            final(self).generator() == old(self).generator(),
            r is Ok <==> (piece.is_real() && old(self)@.pieces[square@ as int] == Piece::spec_empty()),
            r is Ok ==> final(self)@ == with_hash(
                with_pieces(old(self)@, old(self)@.pieces.update(square@ as int, piece)),
                old(self)@.hash ^ square_key(old(self)@.keys, piece, square@ as int),
            ),
            r is Err ==> final(self)@ == old(self)@,
            old(self).wf() ==> final(self).wf(),
    {
        let r = self.add_piece(piece, square);
        if r.is_ok() {
            self.update_hash(ZobristKey::Piece(piece, square));
            proof {
                let v = old(self)@;
                let s = square@ as int;
                lemma_pieces_hash_update(v.keys, v.pieces, s, piece, 64);
                let k = square_key(v.keys, piece, s);
                lemma_xor(0, k, 0);
                lemma_xor(k, 0, 0);
                let p = crate::zobrist_hash::pieces_hash(v.keys, v.pieces, 64);
                let sk = if v.side == Side::Black { v.keys[SIDE_OFFSET as int] } else { 0 };
                lemma_hash_parts(p, sk, v.keys[CASTLE_OFFSET + v.castling], v.keys[EN_PASSANT_OFFSET + spec_ep_slot(v.ep@)], k, 0);
            }
        }
        r
    }

    /// `remove_piece`, with the piece's key XORed out of the hash.
    pub fn remove_piece_and_hash(&mut self, square: Square) -> (r: Result<Piece, BoardError>)
        requires
            old(self).inv(),
            square.is_valid(),
        ensures
            final(self).inv(),
            final(self).generator() == old(self).generator(),
            r is Ok <==> old(self)@.pieces[square@ as int].is_real(),
            r is Ok ==> r->Ok_0 == old(self)@.pieces[square@ as int],
            r is Ok ==> final(self)@ == with_hash(
                with_pieces(old(self)@, old(self)@.pieces.update(square@ as int, Piece::spec_empty())),
                old(self)@.hash ^ square_key(old(self)@.keys, old(self)@.pieces[square@ as int], square@ as int),
            ),
            r is Err ==> final(self)@ == old(self)@ && r == Err::<Piece, BoardError>(BoardError::EmptySquare),
            old(self).wf() ==> final(self).wf(),
    {
        let r = self.remove_piece(square);
        match r {
            Ok(piece) => {
                self.update_hash(ZobristKey::Piece(piece, square));
                proof {
                    let v = old(self)@;
                    let s = square@ as int;
                    lemma_pieces_hash_update(v.keys, v.pieces, s, Piece::spec_empty(), 64);
                    let k = square_key(v.keys, piece, s);
                    lemma_xor(k, 0, 0);
                    let p = crate::zobrist_hash::pieces_hash(v.keys, v.pieces, 64);
                    let sk = if v.side == Side::Black { v.keys[SIDE_OFFSET as int] } else { 0 };
                    lemma_hash_parts(p, sk, v.keys[CASTLE_OFFSET + v.castling], v.keys[EN_PASSANT_OFFSET + spec_ep_slot(v.ep@)], k, 0);
                }
                Ok(piece)
            },
            Err(e) => Err(e),
        }
    }

    pub fn side_to_move(&self) -> (r: Side)
        ensures
            r == self@.side,
    {
        self.side
    }

    /// Hands the move to the other side (the hash is left alone).
    pub fn switch_side(&mut self)
        requires
            old(self).inv(),
        ensures
            final(self).inv(),
            final(self).generator() == old(self).generator(),
            final(self)@ == (BoardView { side: old(self)@.side.spec_opposite(), ..old(self)@ }),
    {
        self.side = self.side.opposite();
    }

    /// Hands the move to the other side and XORs the side key into the hash.
    pub fn switch_side_and_hash(&mut self)
        requires
            old(self).inv(),
        ensures
            final(self).inv(),
            final(self).generator() == old(self).generator(),
            final(self)@ == (BoardView {
                side: old(self)@.side.spec_opposite(),
                hash: old(self)@.hash ^ old(self)@.keys[SIDE_OFFSET as int],
                ..old(self)@
            }),
            old(self).wf() ==> final(self).wf(),
    {
        self.switch_side();
        self.update_hash(ZobristKey::Side);
        proof {
            let v = old(self)@;
            let key = v.keys[SIDE_OFFSET as int];
            let p = crate::zobrist_hash::pieces_hash(v.keys, v.pieces, 64);
            let c = v.keys[CASTLE_OFFSET + v.castling];
            let e = v.keys[EN_PASSANT_OFFSET + spec_ep_slot(v.ep@)];
            let full = ((p ^ (if v.side == Side::Black { key } else { 0 })) ^ c) ^ e;
            lemma_xor(full, 0, 0);
            lemma_xor(full, key, 0);
            if v.side == Side::Black {
                lemma_hash_parts(p, key, c, e, 0, 0);
            } else {
                lemma_hash_parts(p, 0, c, e, 0, key);
            }
        }
    }

    pub fn castling_rights(&self) -> (r: u8)
        ensures
            r == self@.castling,
    {
        self.castling_rights
    }

    pub fn can_castle(&self, kind: CastlingKind) -> (r: bool)
        ensures
            r == (self@.castling & kind.spec_bit() != 0),
    {
        self.castling_rights & kind.bit() != 0
    }

    /// Replaces the castling rights (the hash is left alone).
    pub fn set_castling_rights(&mut self, rights: u8)
        requires
            old(self).inv(),
            rights < 16,
        ensures
            final(self).inv(),
            final(self).generator() == old(self).generator(),
            final(self)@ == (BoardView { castling: rights, ..old(self)@ }),
    {
        self.castling_rights = rights;
    }

    /// XORs the key of the current castling rights into the hash.
    pub fn hash_castling_rights(&mut self)
        requires
            old(self).inv(),
        ensures
            final(self).inv(),
            final(self).generator() == old(self).generator(),
            final(self)@ == with_hash(old(self)@, old(self)@.hash ^ old(self)@.keys[CASTLE_OFFSET + old(self)@.castling]),
    {
        self.update_hash(ZobristKey::Castling(self.castling_rights));
    }

    /// Replaces the castling rights and keeps the hash in step.
    pub fn replace_castling_rights(&mut self, rights: u8)
        requires
            old(self).inv(),
            rights < 16,
        ensures
            final(self).inv(),
            final(self).generator() == old(self).generator(),
            final(self)@ == (BoardView {
                castling: rights,
                hash: (old(self)@.hash ^ old(self)@.keys[CASTLE_OFFSET + old(self)@.castling]) ^ old(self)@.keys[CASTLE_OFFSET + rights],
                ..old(self)@
            }),
            old(self).wf() ==> final(self).wf(),
    {
        self.hash_castling_rights();
        self.set_castling_rights(rights);
        self.hash_castling_rights();
        proof {
            let v = old(self)@;
            let p = crate::zobrist_hash::pieces_hash(v.keys, v.pieces, 64);
            let sk = if v.side == Side::Black { v.keys[SIDE_OFFSET as int] } else { 0 };
            lemma_hash_parts(p, sk, v.keys[CASTLE_OFFSET + v.castling], v.keys[EN_PASSANT_OFFSET + spec_ep_slot(v.ep@)], 0, v.keys[CASTLE_OFFSET + rights]);
        }
    }

    pub fn en_passant_square(&self) -> (r: Square)
        ensures
            r == self@.ep,
    {
        self.en_passant_square
    }

    /// Replaces the en-passant square (the hash is left alone).
    pub fn set_en_passant_square(&mut self, square: Square)
        requires
            old(self).inv(),
            square@ <= 64,
        ensures
            final(self).inv(),
            final(self).generator() == old(self).generator(),
            final(self)@ == (BoardView { ep: square, ..old(self)@ }),
    {
        self.en_passant_square = square;
    }

    /// XORs the key of the current en-passant file into the hash.
    pub fn hash_en_passant_square(&mut self)
        requires
            old(self).inv(),
        ensures
            final(self).inv(),
            final(self).generator() == old(self).generator(),
            final(self)@ == with_hash(old(self)@, old(self)@.hash ^ old(self)@.keys[EN_PASSANT_OFFSET + spec_ep_slot(old(self)@.ep@)]),
    {
        self.update_hash(ZobristKey::EnPassantFile(self.en_passant_square));
    }

    /// Replaces the en-passant square and keeps the hash in step.
    pub fn replace_en_passant_square(&mut self, square: Square)
        requires
            old(self).inv(),
            square@ <= 64,
        ensures
            final(self).inv(),
            final(self).generator() == old(self).generator(),
            final(self)@ == (BoardView {
                ep: square,
                hash: (old(self)@.hash ^ old(self)@.keys[EN_PASSANT_OFFSET + spec_ep_slot(old(self)@.ep@)]) ^ old(self)@.keys[EN_PASSANT_OFFSET + spec_ep_slot(square@)],
                ..old(self)@
            }),
            old(self).wf() ==> final(self).wf(),
    {
        self.hash_en_passant_square();
        self.set_en_passant_square(square);
        self.hash_en_passant_square();
        proof {
            let v = old(self)@;
            let p = crate::zobrist_hash::pieces_hash(v.keys, v.pieces, 64);
            let sk = if v.side == Side::Black { v.keys[SIDE_OFFSET as int] } else { 0 };
            lemma_hash_parts(p, sk, v.keys[CASTLE_OFFSET + v.castling], v.keys[EN_PASSANT_OFFSET + spec_ep_slot(v.ep@)], 0, v.keys[EN_PASSANT_OFFSET + spec_ep_slot(square@)]);
        }
    }

    pub fn halfmove_clock(&self) -> (r: usize)
        ensures
            r == self@.clock,
    {
        self.halfmove_clock
    }

    pub fn set_halfmove_clock(&mut self, clock: usize)
        requires
            old(self).inv(),
        ensures
            final(self).inv(),
            final(self).generator() == old(self).generator(),
            final(self)@ == (BoardView { clock: clock as nat, ..old(self)@ }),
            old(self).wf() ==> final(self).wf(),
    {
        self.halfmove_clock = clock;
    }

    pub fn reset_clock(&mut self)
        requires
            old(self).inv(),
        ensures
            final(self).inv(),
            final(self).generator() == old(self).generator(),
            final(self)@ == (BoardView { clock: 0, ..old(self)@ }),
            old(self).wf() ==> final(self).wf(),
    {
        self.halfmove_clock = 0;
    }

    /// Counts one more half-move towards the fifty-move rule (saturating at the largest value).
    pub fn increment_clock(&mut self)
        requires
            old(self).inv(),
        ensures
            final(self).inv(),
            final(self).generator() == old(self).generator(),
            final(self)@ == (BoardView {
                clock: if old(self)@.clock < usize::MAX { old(self)@.clock + 1 } else { old(self)@.clock },
                ..old(self)@
            }),
            old(self).wf() ==> final(self).wf(),
    {
        self.halfmove_clock = self.halfmove_clock.saturating_add(1);
    }

    pub fn push_history(&mut self, item: HistoryItem)
        requires
            old(self).inv(),
            item.castling_rights < 16,
            item.en_passant_square@ <= 64,
        ensures
            final(self).inv(),
            final(self).generator() == old(self).generator(),
            final(self)@ == (BoardView { history: old(self)@.history.push(item), ..old(self)@ }),
            old(self).wf() ==> final(self).wf(),
    {
        self.history.push(item);
        proof {
            assert forall|k: int| 0 <= k < self@.history.len() implies (#[trigger] self@.history[k]).castling_rights < 16
                && self@.history[k].en_passant_square@ <= 64 by {
                if k < old(self)@.history.len() {
                    assert(self@.history[k] == old(self)@.history[k]);
                }
            }
        }
    }

    /// Removes and returns the latest history item (`None` when the history is empty).
    pub fn pop_history(&mut self) -> (r: Option<HistoryItem>)
        requires
            old(self).inv(),
        ensures
            final(self).inv(),
            final(self).generator() == old(self).generator(),
            old(self)@.history.len() == 0 <==> r is None,
            r is None ==> final(self)@ == old(self)@,
            r is Some ==> r->Some_0 == old(self)@.history.last() && final(self)@ == (BoardView {
                history: old(self)@.history.drop_last(),
                ..old(self)@
            }),
            old(self).wf() ==> final(self).wf(),
    {
        let r = self.history.pop();
        proof {
            if r is Some {
                assert(self@.history =~= old(self)@.history.drop_last());
            }
        }
        r
    }

    /// Number of moves played since the position was set up.
    pub fn history_length(&self) -> (r: usize)
        ensures
            r == self@.history.len(),
    {
        self.history.len()
    }

    /// The hash recorded before the move `k` of the history.
    pub fn history_hash(&self, k: usize) -> (r: u64)
        requires
            k < self@.history.len(),
        ensures
            r == self@.history[k as int].hash,
    {
        self.history[k].hash
    }

    /// The square of the king of `side`, if it has one.
    pub fn get_king_square(&self, side: Side) -> (r: Option<Square>)
        requires
            self.inv(),
        ensures
            r is None <==> (forall|s: int| 0 <= s < 64 ==> self@.pieces[s] != Piece { color: side.spec_color(), kind: PieceKind::King }),
            r is Some ==> r->Some_0.is_valid() && self@.pieces[r->Some_0@ as int] == (Piece { color: side.spec_color(), kind: PieceKind::King }),
            r is Some ==> forall|j: int| 0 <= j < r->Some_0@ ==> self@.pieces[j] != (Piece { color: side.spec_color(), kind: PieceKind::King }),
    {
        let king = Piece::new(side.color(), PieceKind::King);
        let bb = match self.get_piece_bb(king) {
            Ok(b) => b,
            Err(_) => { return None; },
        };
        if bb.0 == 0 {
            proof {
                assert forall|s: int| 0 <= s < 64 implies self@.pieces[s] != king by {
                    lemma_bit_ops(0, 0, s as u64);
                    assert(!bb.has(s));
                }
            }
            None
        } else {
            let sq = bb.get_lsb_square();
            proof {
                assert forall|j: int| 0 <= j < sq@ implies self@.pieces[j] != king by {
                    assert(!bb.has(j));
                }
            }
            Some(sq)
        }
    }
}

impl Board {
    /// Empties the board: no pieces, White to move, no rights, no en-passant square, clock
    /// 0, no history.
    fn clear(&mut self)
        requires
            old(self).inv(),
        ensures
            final(self).inv(),
            final(self).generator() == old(self).generator(),
            final(self)@.pieces == Seq::new(64, |s: int| Piece::spec_empty()),
            final(self)@.history.len() == 0,
            final(self)@.keys == old(self)@.keys,
    {
        let mut i: usize = 0;
        while i < 12
            invariant
                i <= 12,
                self.bitboards@.len() == 12,
                self.pieces@.len() == 64,
                self.occupancies@.len() == 2,
                self.move_generator == old(self).move_generator,
                self.hasher@ == old(self).hasher@,
                forall|k: int| 0 <= k < i ==> (#[trigger] self.bitboards@[k]).0 == 0,
            decreases 12 - i,
        {
            self.bitboards.set(i, Bitboard(0));
            i += 1;
        }
        let mut s: usize = 0;
        while s < 64
            invariant
                s <= 64,
                self.pieces@.len() == 64,
                self.bitboards@.len() == 12,
                self.occupancies@.len() == 2,
                self.move_generator == old(self).move_generator,
                self.hasher@ == old(self).hasher@,
                forall|k: int| 0 <= k < 12 ==> (#[trigger] self.bitboards@[k]).0 == 0,
                forall|k: int| 0 <= k < s ==> (#[trigger] self.pieces@[k]) == Piece::spec_empty(),
            decreases 64 - s,
        {
            self.pieces.set(s, Piece::empty());
            s += 1;
        }
        self.occupancies.set(0, Bitboard(0));
        self.occupancies.set(1, Bitboard(0));
        self.side = Side::White;
        self.castling_rights = 0;
        self.en_passant_square = Square::none();
        self.halfmove_clock = 0;
        self.history = Vec::new();
        proof {
            assert forall|i: int, s: int| 0 <= i < 12 && 0 <= s < 64 implies (
            #[trigger] self.bitboards@[i].has(s) <==> (self.pieces@[s].is_real()
                && self.pieces@[s].spec_index() == i)) by {
                lemma_bit_ops(0, 0, s as u64);
            }
            assert forall|c: int, s: int| 0 <= c < 2 && 0 <= s < 64 implies (
            #[trigger] self.occupancies@[c].has(s) <==> (self.pieces@[s].is_real()
                && self.pieces@[s].color.spec_index() == c)) by {
                lemma_bit_ops(0, 0, s as u64);
            }
            assert(self@.pieces =~= Seq::new(64, |s: int| Piece::spec_empty()));
        }
    }

    /// Sets up the position given by the fields of a FEN record, with an empty history.
    pub fn load_fields(&mut self, fields: &crate::fen::FenFields)
        requires
            old(self).inv(),
            fields.wf(),
        ensures
            final(self).wf(),
            final(self).generator() == old(self).generator(),
            final(self)@.pieces == fields.pieces@,
            final(self)@.side == fields.side,
            final(self)@.castling == fields.castling,
            final(self)@.ep == fields.ep,
            final(self)@.clock == fields.clock,
            final(self)@.history.len() == 0,
    {
        self.clear();
        let mut s: usize = 0;
        while s < 64
            invariant
                s <= 64,
                self.inv(),
                self.generator() == old(self).generator(),
                fields.wf(),
                self@.history.len() == 0,
                forall|k: int| 0 <= k < s ==> (#[trigger] self@.pieces[k]) == fields.pieces@[k],
                forall|k: int| s <= k < 64 ==> (#[trigger] self@.pieces[k]) == Piece::spec_empty(),
            decreases 64 - s,
        {
            let p = fields.pieces[s];
            if p.color != PieceColor::NoColor && p.kind != PieceKind::NoPiece {
                let r = self.add_piece(p, Square::from_index(s));
            }
            s += 1;
        }
        self.side = fields.side;
        self.castling_rights = fields.castling;
        self.en_passant_square = fields.ep;
        self.halfmove_clock = fields.clock;
        self.hash = self.hasher.hash_position(&self.pieces, self.side, self.castling_rights, self.en_passant_square);
        proof {
            assert(self@.pieces =~= fields.pieces@);
        }
    }

    /// Sets up the position of a FEN record; on a malformed record the board is left as it was.
    pub fn parse_fen(&mut self, fen: &str) -> (r: Result<(), crate::square::ParseError>)
        requires
            old(self).inv(),
        ensures
            final(self).inv(),
            final(self).generator() == old(self).generator(),
            r is Err ==> final(self)@ == old(self)@,
            r is Err ==> exists|fields: Seq<(usize, usize)>|
                crate::fen::is_split(fen.spec_bytes(), 0, fen.spec_bytes().len() as int, 32, fields) && (fields.len() != 6
                    || exists|ranks: Seq<(usize, usize)>|
                    crate::fen::is_split(fen.spec_bytes(), fields[0].0 as int, fields[0].1 as int, 47, ranks)
                        && !crate::fen::fen_reads(fen.spec_bytes(), fields, ranks)),
            r is Ok ==> final(self).wf() && final(self)@.history.len() == 0,
            r is Ok ==> exists|fields: Seq<(usize, usize)>, ranks: Seq<(usize, usize)>|
                crate::fen::is_split(fen.spec_bytes(), 0, fen.spec_bytes().len() as int, 32, fields) && fields.len() == 6
                    && crate::fen::is_split(fen.spec_bytes(), fields[0].0 as int, fields[0].1 as int, 47, ranks)
                    && crate::fen::fen_reads(fen.spec_bytes(), fields, ranks) && fen_board(final(self)@, fen.spec_bytes(), fields, ranks),
    {
        match crate::fen::parse_fen_fields(fen) {
            Ok(fields) => {
                self.load_fields(&fields);
                proof {
                    let (fs, rs) = choose|fs: Seq<(usize, usize)>, rs: Seq<(usize, usize)>|
                        crate::fen::is_split(fen.spec_bytes(), 0, fen.spec_bytes().len() as int, 32, fs) && fs.len() == 6
                            && crate::fen::is_split(fen.spec_bytes(), fs[0].0 as int, fs[0].1 as int, 47, rs)
                            && crate::fen::fen_reads(fen.spec_bytes(), fs, rs) && crate::fen::fen_matches(&fields, fen.spec_bytes(), fs, rs);
                    assert(fen_board(self@, fen.spec_bytes(), fs, rs));
                }
                Ok(())
            },
            Err(e) => Err(e),
        }
    }
}

/// Each square holds exactly the real piece whose bitboard contains it.
pub proof fn lemma_mailbox_matches_bitboards(b: &Board)
    requires
        b.inv(),
    ensures
        forall|p: Piece, s: int|
            p.is_real() && 0 <= s < 64 ==> (b@.pieces[s] == p <==> #[trigger] bit(b.spec_piece_bb(p.spec_index() as int), s as u64)),
{
    b.lemma_inv();
    assert forall|p: Piece, s: int| p.is_real() && 0 <= s < 64 implies (b@.pieces[s] == p <==> #[trigger] bit(
        b.spec_piece_bb(p.spec_index() as int),
        s as u64,
    )) by {
        let q = b@.pieces[s];
        if q.is_real() && q.spec_index() == p.spec_index() {
            assert(q == p);
        }
    }
}

/// The occupancy of a color is the union of the bitboards of its six piece kinds.
pub proof fn lemma_occupancy_is_union(b: &Board, c: int)
    requires
        b.inv(),
        0 <= c < 2,
    ensures
        forall|s: int|
            0 <= s < 64 ==> (#[trigger] bit(b.spec_occupancy(c), s as u64) <==> exists|k: int|
                0 <= k < 6 && bit(#[trigger] b.spec_piece_bb(6 * c + k), s as u64)),
{
    b.lemma_inv();
    assert forall|s: int| 0 <= s < 64 implies (#[trigger] bit(b.spec_occupancy(c), s as u64) <==> exists|k: int|
        0 <= k < 6 && bit(#[trigger] b.spec_piece_bb(6 * c + k), s as u64)) by {
        let q = b@.pieces[s];
        if bit(b.spec_occupancy(c), s as u64) {
            let k = q.kind.spec_index() as int;
            assert(bit(b.spec_piece_bb(6 * c + k), s as u64));
        }
    }
}

/// No square is empty in the mailbox while set in a bitboard, nor the other way round.
pub proof fn lemma_mailbox_bitboard_parity(b: &Board)
    requires
        b.inv(),
    ensures
        forall|s: int|
            0 <= s < 64 ==> (#[trigger] b@.pieces[s] == Piece::spec_empty() <==> forall|i: int|
                0 <= i < 12 ==> !bit(#[trigger] b.spec_piece_bb(i), s as u64)),
{
    b.lemma_inv();
    assert forall|s: int| 0 <= s < 64 implies (#[trigger] b@.pieces[s] == Piece::spec_empty() <==> forall|i: int|
        0 <= i < 12 ==> !bit(#[trigger] b.spec_piece_bb(i), s as u64)) by {
        let q = b@.pieces[s];
        if q != Piece::spec_empty() {
            assert(bit(b.spec_piece_bb(q.spec_index() as int), s as u64));
        }
    }
}

} // verus!
