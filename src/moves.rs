use vstd::prelude::*;
use crate::square::{PieceKind, Square};

verus! {

#[derive(Clone, Copy, Debug, PartialEq, Eq, Structural)]
pub enum MoveKind {
    Quiet,
    Capture,
    Castle,
    Promotion,
}

#[derive(Clone, Copy, Debug, PartialEq, Eq, Structural)]
pub enum MoveFlag {
    NoFlag,
    EnPassant,
    KnightPromotion,
    BishopPromotion,
    RookPromotion,
    QueenPromotion,
}

impl MoveKind {
    pub open spec fn spec_code(self) -> u32 {
        match self {
            MoveKind::Quiet => 0,
            MoveKind::Capture => 1,
            MoveKind::Castle => 2,
            MoveKind::Promotion => 3,
        }
    }

    pub open spec fn spec_from_code(c: u32) -> MoveKind {
        if c == 0 {
            MoveKind::Quiet
        } else if c == 1 {
            MoveKind::Capture
        } else if c == 2 {
            MoveKind::Castle
        } else {
            MoveKind::Promotion
        }
    }

    pub fn code(self) -> (r: u32)
        ensures
            r == self.spec_code(),
    {
        match self {
            MoveKind::Quiet => 0,
            MoveKind::Capture => 1,
            MoveKind::Castle => 2,
            MoveKind::Promotion => 3,
        }
    }

    pub fn from_code(c: u32) -> (r: MoveKind)
        requires
            c < 4,
        ensures
            r == MoveKind::spec_from_code(c),
            r.spec_code() == c,
    {
        if c == 0 {
            MoveKind::Quiet
        } else if c == 1 {
            MoveKind::Capture
        } else if c == 2 {
            MoveKind::Castle
        } else {
            MoveKind::Promotion
        }
    }
}

impl MoveFlag {
    pub open spec fn spec_code(self) -> u32 {
        match self {
            MoveFlag::NoFlag => 0,
            MoveFlag::EnPassant => 1,
            MoveFlag::KnightPromotion => 2,
            MoveFlag::BishopPromotion => 3,
            MoveFlag::RookPromotion => 4,
            MoveFlag::QueenPromotion => 5,
        }
    }

    pub open spec fn spec_from_code(c: u32) -> MoveFlag {
        if c == 0 {
            MoveFlag::NoFlag
        } else if c == 1 {
            MoveFlag::EnPassant
        } else if c == 2 {
            MoveFlag::KnightPromotion
        } else if c == 3 {
            MoveFlag::BishopPromotion
        } else if c == 4 {
            MoveFlag::RookPromotion
        } else {
            MoveFlag::QueenPromotion
        }
    }

    pub fn code(self) -> (r: u32)
        ensures
            r == self.spec_code(),
            r < 6,
    {
        match self {
            MoveFlag::NoFlag => 0,
            MoveFlag::EnPassant => 1,
            MoveFlag::KnightPromotion => 2,
            MoveFlag::BishopPromotion => 3,
            MoveFlag::RookPromotion => 4,
            MoveFlag::QueenPromotion => 5,
        }
    }

    pub fn from_code(c: u32) -> (r: MoveFlag)
        requires
            c < 6,
        ensures
            r == MoveFlag::spec_from_code(c),
            r.spec_code() == c,
    {
        if c == 0 {
            MoveFlag::NoFlag
        } else if c == 1 {
            MoveFlag::EnPassant
        } else if c == 2 {
            MoveFlag::KnightPromotion
        } else if c == 3 {
            MoveFlag::BishopPromotion
        } else if c == 4 {
            MoveFlag::RookPromotion
        } else {
            MoveFlag::QueenPromotion
        }
    }

    /// The piece kind a promotion flag asks for (`NoPiece` for the other flags).
    pub open spec fn spec_promotion_kind(self) -> PieceKind {
        match self {
            MoveFlag::KnightPromotion => PieceKind::Knight,
            MoveFlag::BishopPromotion => PieceKind::Bishop,
            MoveFlag::RookPromotion => PieceKind::Rook,
            MoveFlag::QueenPromotion => PieceKind::Queen,
            _ => PieceKind::NoPiece,
        }
    }

    pub fn promotion_kind(self) -> (r: PieceKind)
        ensures
            r == self.spec_promotion_kind(),
    {
        match self {
            MoveFlag::KnightPromotion => PieceKind::Knight,
            MoveFlag::BishopPromotion => PieceKind::Bishop,
            MoveFlag::RookPromotion => PieceKind::Rook,
            MoveFlag::QueenPromotion => PieceKind::Queen,
            _ => PieceKind::NoPiece,
        }
    }
}

/// A move packed in 32 bits: from (bits 0-5), to (6-11), kind (12-13), flag (14-16)
/// and an ordering score (17-31) that equality ignores.
#[derive(Clone, Copy, Debug)]
pub struct Move {
    pub bits: u32,
}

pub const SQUARE_MASK: u32 = 0x3f;
pub const MOVE_KIND_MASK: u32 = 0x3;
pub const MOVE_FLAG_MASK: u32 = 0x7;
pub const MOVE_SCORE_MASK: u32 = 0xfffe_0000;
pub const MOVE_BODY_MASK: u32 = 0x0001_ffff;

pub open spec fn encode(from: u32, to: u32, kind: u32, flag: u32) -> u32 {
    from | (to << 6u32) | (kind << 12u32) | (flag << 14u32)
}

pub proof fn lemma_encode(from: u32, to: u32, kind: u32, flag: u32)
    requires
        from < 64,
        to < 64,
        kind < 4,
        flag < 8,
    ensures
        encode(from, to, kind, flag) & SQUARE_MASK == from,
        (encode(from, to, kind, flag) >> 6u32) & SQUARE_MASK == to,
        (encode(from, to, kind, flag) >> 12u32) & MOVE_KIND_MASK == kind,
        (encode(from, to, kind, flag) >> 14u32) & MOVE_FLAG_MASK == flag,
        encode(from, to, kind, flag) & MOVE_SCORE_MASK == 0,
        encode(from, to, kind, flag) & MOVE_BODY_MASK == encode(from, to, kind, flag),
        encode(from, to, kind, flag) == 0 <==> (from == 0 && to == 0 && kind == 0 && flag == 0),
{
    assert(encode(from, to, kind, flag) & 0x3fu32 == from && (encode(from, to, kind, flag)
        >> 6u32) & 0x3fu32 == to && (encode(from, to, kind, flag) >> 12u32) & 0x3u32 == kind && (
    encode(from, to, kind, flag) >> 14u32) & 0x7u32 == flag && encode(from, to, kind, flag)
        & 0xfffe_0000u32 == 0 && encode(from, to, kind, flag) & 0x0001_ffffu32 == encode(
        from,
        to,
        kind,
        flag,
    ) && (encode(from, to, kind, flag) == 0 <==> (from == 0 && to == 0 && kind == 0 && flag
        == 0))) by (bit_vector)
        requires
            from < 64,
            to < 64,
            kind < 4,
            flag < 8,
    ;
}

pub proof fn lemma_fields(b: u32)
    ensures
        b & SQUARE_MASK < 64,
        (b >> 6u32) & SQUARE_MASK < 64,
        (b >> 12u32) & MOVE_KIND_MASK < 4,
        (b >> 14u32) & MOVE_FLAG_MASK < 8,
        (b & MOVE_SCORE_MASK) >> 17u32 < 0x8000,
        b & MOVE_BODY_MASK == encode(
            b & SQUARE_MASK,
            (b >> 6u32) & SQUARE_MASK,
            (b >> 12u32) & MOVE_KIND_MASK,
            (b >> 14u32) & MOVE_FLAG_MASK,
        ),
{
    assert(b & 0x3fu32 < 64 && (b >> 6u32) & 0x3fu32 < 64 && (b >> 12u32) & 0x3u32 < 4 && (b
        >> 14u32) & 0x7u32 < 8 && (b & 0xfffe_0000u32) >> 17u32 < 0x8000 && b & 0x0001_ffffu32
        == ((b & 0x3fu32) | (((b >> 6u32) & 0x3fu32) << 6u32) | (((b >> 12u32) & 0x3u32)
        << 12u32) | (((b >> 14u32) & 0x7u32) << 14u32))) by (bit_vector);
}

impl Move {
    pub open spec fn spec_bits(self) -> u32 {
        self.bits
    }

    pub open spec fn spec_from(self) -> nat {
        (self.bits & SQUARE_MASK) as nat
    }

    pub open spec fn spec_to(self) -> nat {
        ((self.bits >> 6u32) & SQUARE_MASK) as nat
    }

    pub open spec fn spec_kind(self) -> MoveKind {
        MoveKind::spec_from_code((self.bits >> 12u32) & MOVE_KIND_MASK)
    }

    pub open spec fn spec_flag_code(self) -> u32 {
        (self.bits >> 14u32) & MOVE_FLAG_MASK
    }

    pub open spec fn spec_flag(self) -> MoveFlag {
        MoveFlag::spec_from_code(self.spec_flag_code())
    }

    pub open spec fn spec_score(self) -> u32 {
        (self.bits & MOVE_SCORE_MASK) >> 17u32
    }

    /// The 17 bits that identify the move (everything but the score).
    pub open spec fn spec_body(self) -> u32 {
        self.bits & MOVE_BODY_MASK
    }

    /// Every move this library builds has a flag among the six defined ones.
    pub open spec fn wf(self) -> bool {
        self.spec_flag_code() < 6
    }

    /// The move that `new` builds.
    pub open spec fn new_spec(from: Square, to: Square, kind: MoveKind, flag: MoveFlag) -> Move {
        Move { bits: encode(from.index as u32, to.index as u32, kind.spec_code(), flag.spec_code()) }
    }

    pub fn new(from: Square, to: Square, kind: MoveKind, flag: MoveFlag) -> (r: Move)
        requires
            from.is_valid(),
            to.is_valid(),
        ensures
            r == Move::new_spec(from, to, kind, flag),
            r.wf(),
            r.spec_from() == from@,
            r.spec_to() == to@,
            r.spec_kind() == kind,
            r.spec_flag() == flag,
            r.spec_score() == 0,
    {
        let f = from.index as u32;
        let t = to.index as u32;
        let k = kind.code();
        let g = flag.code();
        proof {
            lemma_encode(f, t, k, g);
            let b = encode(f, t, k, g);
            assert((b & 0xfffe_0000u32) == 0 ==> (b & 0xfffe_0000u32) >> 17u32 == 0)
                by (bit_vector);
        }
        Move { bits: f | (t << 6) | (k << 12) | (g << 14) }
    }

    /// The sentinel null move (all bits zero).
    pub fn null() -> (r: Move)
        ensures
            r.spec_bits() == 0,
            r.wf(),
            r.spec_from() == 0,
            r.spec_to() == 0,
            r.spec_kind() == MoveKind::Quiet,
            r.spec_flag() == MoveFlag::NoFlag,
    {
        proof {
            lemma_encode(0, 0, 0, 0);
        }
        Move { bits: 0 }
    }

    pub fn from_square(&self) -> (r: Square)
        ensures
            r@ == self.spec_from(),
            r.is_valid(),
    {
        proof {
            lemma_fields(self.bits);
        }
        Square::from_index((self.bits & SQUARE_MASK) as usize)
    }

    pub fn to_square(&self) -> (r: Square)
        ensures
            r@ == self.spec_to(),
            r.is_valid(),
    {
        proof {
            lemma_fields(self.bits);
        }
        Square::from_index(((self.bits >> 6) & SQUARE_MASK) as usize)
    }

    pub fn kind(&self) -> (r: MoveKind)
        ensures
            r == self.spec_kind(),
    {
        proof {
            lemma_fields(self.bits);
        }
        MoveKind::from_code((self.bits >> 12) & MOVE_KIND_MASK)
    }

    pub fn flag(&self) -> (r: MoveFlag)
        requires
            self.wf(),
        ensures
            r == self.spec_flag(),
    {
        MoveFlag::from_code((self.bits >> 14) & MOVE_FLAG_MASK)
    }

    pub fn score(&self) -> (r: u32)
        ensures
            r == self.spec_score(),
            r < 0x8000,
    {
        proof {
            lemma_fields(self.bits);
        }
        (self.bits & MOVE_SCORE_MASK) >> 17
    }

    /// Replaces the ordering score, keeping the move itself.
    pub fn set_score(&mut self, score: u32)
        requires
            score < 0x8000,
        ensures
            final(self).spec_score() == score,
            final(self).spec_body() == old(self).spec_body(),
            final(self).spec_from() == old(self).spec_from(),
            final(self).spec_to() == old(self).spec_to(),
            final(self).spec_kind() == old(self).spec_kind(),
            final(self).spec_flag_code() == old(self).spec_flag_code(),
    {
        let b = self.bits;
        let n = (b & MOVE_BODY_MASK) | (score << 17);
        proof {
            assert((n & 0xfffe_0000u32) >> 17u32 == score && n & 0x0001_ffffu32 == b
                & 0x0001_ffffu32 && n & 0x3fu32 == b & 0x3fu32 && (n >> 6u32) & 0x3fu32 == (b
                >> 6u32) & 0x3fu32 && (n >> 12u32) & 0x3u32 == (b >> 12u32) & 0x3u32 && (n
                >> 14u32) & 0x7u32 == (b >> 14u32) & 0x7u32) by (bit_vector)
                requires
                    score < 0x8000,
                    n == (b & 0x0001_ffffu32) | (score << 17u32),
            ;
        }
        self.bits = n;
    }

    /// Whether this is the null move (score ignored).
    pub fn is_null(&self) -> (r: bool)
        ensures
            r == (self.spec_body() == 0),
    {
        self.bits & MOVE_BODY_MASK == 0
    }

    /// Moves are equal when they agree on everything but the score.
    pub fn same_move(&self, other: &Move) -> (r: bool)
        ensures
            r == (self.spec_body() == other.spec_body()),
    {
        (self.bits & MOVE_BODY_MASK) == (other.bits & MOVE_BODY_MASK)
    }

    /// The long algebraic text of the move (`e2e4`, `e7e8q`, `0000` for the null move).
    pub fn to_uci_chars(&self) -> (r: Vec<char>)
        requires
            self.wf(),
        ensures
            self.spec_body() == 0 ==> r@ == seq!['0', '0', '0', '0'],
            self.spec_body() != 0 ==> r@.len() >= 4 && r@[0] as nat == 'a' as nat + self.spec_from()
                % 8 && r@[1] as nat == '1' as nat + self.spec_from() / 8 && r@[2] as nat == 'a' as nat
                + self.spec_to() % 8 && r@[3] as nat == '1' as nat + self.spec_to() / 8,
    {
        let mut v: Vec<char> = Vec::new();
        if self.is_null() {
            v.push('0');
            v.push('0');
            v.push('0');
            v.push('0');
            return v;
        }
        let from = self.from_square();
        let to = self.to_square();
        v.push(square_file_char(from));
        v.push(square_rank_char(from));
        v.push(square_file_char(to));
        v.push(square_rank_char(to));
        match self.flag() {
            MoveFlag::KnightPromotion => v.push('n'),
            MoveFlag::BishopPromotion => v.push('b'),
            MoveFlag::RookPromotion => v.push('r'),
            MoveFlag::QueenPromotion => v.push('q'),
            _ => {},
        }
        v
    }
}

fn square_file_char(s: Square) -> (r: char)
    requires
        s.is_valid(),
    ensures
        r as nat == 'a' as nat + s@ % 8,
{
    (('a' as u8) + s.index % 8) as char
}

fn square_rank_char(s: Square) -> (r: char)
    requires
        s.is_valid(),
    ensures
        r as nat == '1' as nat + s@ / 8,
{
    (('1' as u8) + s.index / 8) as char
}

impl PartialEq for Move {
    fn eq(&self, other: &Move) -> (r: bool) {
        (self.bits & MOVE_BODY_MASK) == (other.bits & MOVE_BODY_MASK)
    }
}

impl vstd::std_specs::cmp::PartialEqSpecImpl for Move {
    open spec fn obeys_eq_spec() -> bool {
        true
    }

    open spec fn eq_spec(&self, other: &Move) -> bool {
        self.spec_body() == other.spec_body()
    }
}

impl Eq for Move {}

/// An ordered list of moves.
#[derive(Debug)]
pub struct MoveList {
    moves: Vec<Move>,
}

impl View for MoveList {
    type V = Seq<Move>;

    closed spec fn view(&self) -> Seq<Move> {
        self.moves@
    }
}

impl MoveList {
    pub fn new() -> (r: MoveList)
        ensures
            r@ == Seq::<Move>::empty(),
    {
        MoveList { moves: Vec::new() }
    }

    pub fn push(&mut self, mv: Move)
        ensures
            final(self)@ == old(self)@.push(mv),
    {
        self.moves.push(mv);
    }

    pub fn get(&self, index: usize) -> (r: Move)
        requires
            index < self@.len(),
        ensures
            r == self@[index as int],
    {
        self.moves[index]
    }

    pub fn length(&self) -> (r: usize)
        ensures
            r == self@.len(),
    {
        self.moves.len()
    }

    /// Replaces the ordering score of the move at `index`.
    pub fn set_score(&mut self, index: usize, score: u32)
        requires
            index < old(self)@.len(),
            score < 0x8000,
        ensures
            final(self)@.len() == old(self)@.len(),
            forall|j: int| 0 <= j < old(self)@.len() && j != index ==> final(self)@[j] == old(self)@[j],
            final(self)@[index as int].spec_score() == score,
            final(self)@[index as int].spec_body() == old(self)@[index as int].spec_body(),
            final(self)@[index as int].spec_flag_code() == old(self)@[index as int].spec_flag_code(),
            final(self)@[index as int].spec_from() == old(self)@[index as int].spec_from(),
            final(self)@[index as int].spec_to() == old(self)@[index as int].spec_to(),
            final(self)@[index as int].spec_kind() == old(self)@[index as int].spec_kind(),
    {
        let mut mv = self.moves[index];
        mv.set_score(score);
        self.moves.set(index, mv);
    }

    /// Brings the best-scored move of `current..` to `current` (swapping it with the move
    /// there) and returns it.
    pub fn pick_ordered_move(&mut self, current: usize) -> (r: Move)
        requires
            current < old(self)@.len(),
        ensures
            r == final(self)@[current as int],
            exists|b: int|
                current <= b < old(self)@.len() && final(self)@ == old(self)@.update(
                    current as int,
                    old(self)@[b],
                ).update(b, old(self)@[current as int]),
            forall|j: int|
                current <= j < final(self)@.len() ==> #[trigger] final(self)@[j].spec_score()
                    <= r.spec_score(),
    {
        let mut best_index = current;
        let mut best_score = self.get(current).score();
        let len = self.length();
        let mut index = current + 1;
        while index < self.length()
            invariant
                current < index <= self@.len(),
                current <= best_index < index,
                best_score == self@[best_index as int].spec_score(),
                forall|j: int| current <= j < index ==> #[trigger] self@[j].spec_score() <= best_score,
            decreases self@.len() - index,
        {
            let s = self.get(index).score();
            if s > best_score {
                best_index = index;
                best_score = s;
            }
            index += 1;
        }
        let ghost before = self@;
        self.swap_moves(current, best_index);
        proof {
            assert forall|j: int| current <= j < self@.len() implies #[trigger] self@[j].spec_score()
                <= best_score by {
                if j == current as int {
                } else if j == best_index as int {
                    assert(self@[j] == before[current as int]);
                } else {
                    assert(self@[j] == before[j]);
                }
            }
        }
        self.get(current)
    }

    fn swap_moves(&mut self, a: usize, b: usize)
        requires
            a < old(self)@.len(),
            b < old(self)@.len(),
        ensures
            final(self)@ == old(self)@.update(a as int, old(self)@[b as int]).update(
                b as int,
                old(self)@[a as int],
            ),
    {
        let tmp = self.moves[a];
        let other = self.moves[b];
        self.moves.set(a, other);
        self.moves.set(b, tmp);
    }
}

impl Default for MoveList {
    fn default() -> (r: MoveList)
        ensures
            r@ == Seq::<Move>::empty(),
    {
        MoveList::new()
    }
}

} // verus!
