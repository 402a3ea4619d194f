use vstd::prelude::*;

verus! {

/// Errors raised while reading positions, squares, pieces and moves from text.
#[derive(Clone, Copy, Debug, PartialEq, Eq, Structural)]
pub enum ParseError {
    InvalidRank,
    InvalidFile,
    InvalidPiece,
    InvalidSquare,
    InvalidCastling,
    FieldCount,
    RankCount,
    PlacementCharacter,
    RankOverflow,
    RankLength,
    InvalidEnPassant,
    InvalidFullmove,
    KingCount,
    InvalidSide,
    InvalidClock,
    MoveTooShort,
}

/// A board square: 0..63 (a1 = 0, h1 = 7, a8 = 56, h8 = 63), or 64 for "no square".
#[derive(Clone, Copy, Debug, PartialEq, Eq, Structural)]
pub struct Square {
    pub index: u8,
}

pub const NO_SQUARE_INDEX: u8 = 64;

#[derive(Clone, Copy, Debug, PartialEq, Eq, Structural)]
pub enum Rank {
    First,
    Second,
    Third,
    Fourth,
    Fifth,
    Sixth,
    Seventh,
    Eighth,
}

#[derive(Clone, Copy, Debug, PartialEq, Eq, Structural)]
pub enum File {
    A,
    B,
    C,
    D,
    E,
    F,
    G,
    H,
}

#[derive(Clone, Copy, Debug, PartialEq, Eq, Structural)]
pub enum PieceKind {
    Pawn,
    Knight,
    Bishop,
    Rook,
    Queen,
    King,
    NoPiece,
}

#[derive(Clone, Copy, Debug, PartialEq, Eq, Structural)]
pub enum PieceColor {
    White,
    Black,
    NoColor,
}

#[derive(Clone, Copy, Debug, PartialEq, Eq, Structural)]
pub struct Piece {
    pub color: PieceColor,
    pub kind: PieceKind,
}

impl Rank {
    pub open spec fn spec_index(self) -> nat {
        match self {
            Rank::First => 0,
            Rank::Second => 1,
            Rank::Third => 2,
            Rank::Fourth => 3,
            Rank::Fifth => 4,
            Rank::Sixth => 5,
            Rank::Seventh => 6,
            Rank::Eighth => 7,
        }
    }

    pub fn index(self) -> (r: u8)
        ensures
            r as nat == self.spec_index(),
    {
        match self {
            Rank::First => 0,
            Rank::Second => 1,
            Rank::Third => 2,
            Rank::Fourth => 3,
            Rank::Fifth => 4,
            Rank::Sixth => 5,
            Rank::Seventh => 6,
            Rank::Eighth => 7,
        }
    }

    /// The rank with the given 0-based index.
    pub fn try_from_index(value: usize) -> (r: Result<Rank, ParseError>)
        ensures
            value < 8 <==> r is Ok,
            r is Ok ==> r->Ok_0.spec_index() == value,
            r is Err ==> r == Err::<Rank, ParseError>(ParseError::InvalidRank),
    {
        match value {
            0 => Ok(Rank::First),
            1 => Ok(Rank::Second),
            2 => Ok(Rank::Third),
            3 => Ok(Rank::Fourth),
            4 => Ok(Rank::Fifth),
            5 => Ok(Rank::Sixth),
            6 => Ok(Rank::Seventh),
            7 => Ok(Rank::Eighth),
            _ => Err(ParseError::InvalidRank),
        }
    }

    /// Reads a rank from its digit `'1'..='8'`.
    pub fn try_from_char(c: char) -> (r: Result<Rank, ParseError>)
        ensures
            ('1' <= c && c <= '8') <==> r is Ok,
            r is Ok ==> r->Ok_0.spec_index() == (c as nat) - ('1' as nat),
            r is Err ==> r == Err::<Rank, ParseError>(ParseError::InvalidRank),
    {
        if '1' <= c && c <= '8' {
            let d = (c as u32) - ('1' as u32);
            Rank::try_from_index(d as usize)
        } else {
            Err(ParseError::InvalidRank)
        }
    }
}

impl File {
    pub open spec fn spec_index(self) -> nat {
        match self {
            File::A => 0,
            File::B => 1,
            File::C => 2,
            File::D => 3,
            File::E => 4,
            File::F => 5,
            File::G => 6,
            File::H => 7,
        }
    }

    pub fn index(self) -> (r: u8)
        ensures
            r as nat == self.spec_index(),
    {
        match self {
            File::A => 0,
            File::B => 1,
            File::C => 2,
            File::D => 3,
            File::E => 4,
            File::F => 5,
            File::G => 6,
            File::H => 7,
        }
    }

    /// The file with the given 0-based index.
    pub fn try_from_index(value: usize) -> (r: Result<File, ParseError>)
        ensures
            value < 8 <==> r is Ok,
            r is Ok ==> r->Ok_0.spec_index() == value,
            r is Err ==> r == Err::<File, ParseError>(ParseError::InvalidFile),
    {
        match value {
            0 => Ok(File::A),
            1 => Ok(File::B),
            2 => Ok(File::C),
            3 => Ok(File::D),
            4 => Ok(File::E),
            5 => Ok(File::F),
            6 => Ok(File::G),
            7 => Ok(File::H),
            _ => Err(ParseError::InvalidFile),
        }
    }

    /// Reads a file from its lowercase letter `'a'..='h'`.
    pub fn try_from_char(c: char) -> (r: Result<File, ParseError>)
        ensures
            ('a' <= c && c <= 'h') <==> r is Ok,
            r is Ok ==> r->Ok_0.spec_index() == (c as nat) - ('a' as nat),
            r is Err ==> r == Err::<File, ParseError>(ParseError::InvalidFile),
    {
        if 'a' <= c && c <= 'h' {
            let d = (c as u32) - ('a' as u32);
            File::try_from_index(d as usize)
        } else {
            Err(ParseError::InvalidFile)
        }
    }

    /// The lowercase letter naming this file.
    pub fn to_char(self) -> (r: char)
        ensures
            r as nat == ('a' as nat) + self.spec_index(),
    {
        match self {
            File::A => 'a',
            File::B => 'b',
            File::C => 'c',
            File::D => 'd',
            File::E => 'e',
            File::F => 'f',
            File::G => 'g',
            File::H => 'h',
        }
    }
}

impl Square {
    /// The square's index, 0..=64 (64 being "no square").
    pub open spec fn view(self) -> nat {
        self.index as nat
    }

    pub open spec fn is_valid(self) -> bool {
        self.index < 64
    }

    pub open spec fn spec_rank(self) -> nat {
        self.index as nat / 8
    }

    pub open spec fn spec_file(self) -> nat {
        self.index as nat % 8
    }

    pub fn new(rank: Rank, file: File) -> (r: Square)
        ensures
            r@ == rank.spec_index() * 8 + file.spec_index(),
            r.is_valid(),
    {
        Square { index: rank.index() * 8 + file.index() }
    }

    pub fn from_index(index: usize) -> (r: Square)
        requires
            index < 64,
        ensures
            r@ == index,
    {
        Square { index: index as u8 }
    }

    /// The sentinel that stands for "no square" (e.g. no en-passant target).
    pub fn none() -> (r: Square)
        ensures
            r@ == 64,
    {
        Square { index: NO_SQUARE_INDEX }
    }

    pub fn is_none(&self) -> (r: bool)
        ensures
            r == !self.is_valid(),
    {
        self.index >= 64
    }

    pub fn index(&self) -> (r: usize)
        requires
            self.is_valid(),
        ensures
            r == self@,
    {
        self.index as usize
    }

    /// The single-bit set holding this square.
    pub fn bitboard(self) -> (r: crate::bitboard::Bitboard)
        requires
            self.is_valid(),
        ensures
            r.0 == 1u64 << (self.index as u64),
    {
        crate::bitboard::Bitboard(1u64 << (self.index as u64))
    }

    pub fn rank(&self) -> (r: Result<Rank, ParseError>)
        ensures
            self.is_valid() <==> r is Ok,
            r is Ok ==> r->Ok_0.spec_index() == self.spec_rank(),
            r is Err ==> r == Err::<Rank, ParseError>(ParseError::InvalidSquare),
    {
        if self.index >= 64 {
            Err(ParseError::InvalidSquare)
        } else {
            match Rank::try_from_index((self.index / 8) as usize) {
                Ok(r) => Ok(r),
                Err(_) => Err(ParseError::InvalidSquare),
            }
        }
    }

    pub fn file(&self) -> (r: Result<File, ParseError>)
        ensures
            self.is_valid() <==> r is Ok,
            r is Ok ==> r->Ok_0.spec_index() == self.spec_file(),
            r is Err ==> r == Err::<File, ParseError>(ParseError::InvalidSquare),
    {
        if self.index >= 64 {
            Err(ParseError::InvalidSquare)
        } else {
            match File::try_from_index((self.index % 8) as usize) {
                Ok(f) => Ok(f),
                Err(_) => Err(ParseError::InvalidSquare),
            }
        }
    }

    /// The square one rank up.
    pub fn north(&self) -> (r: Square)
        requires
            self@ + 8 < 64,
        ensures
            r@ == self@ + 8,
    {
        Square { index: self.index + 8 }
    }

    /// The square one rank down.
    pub fn south(&self) -> (r: Square)
        requires
            self.is_valid(),
            self@ >= 8,
        ensures
            r@ == self@ - 8,
    {
        Square { index: self.index - 8 }
    }

    /// The absolute difference of the two square indices.
    pub fn distance_between(&self, other: Square) -> (r: u32)
        requires
            self.is_valid(),
            other.is_valid(),
        ensures
            r as int == if self@ >= other@ { self@ - other@ } else { other@ - self@ },
    {
        if self.index >= other.index {
            (self.index - other.index) as u32
        } else {
            (other.index - self.index) as u32
        }
    }
}

impl PieceKind {
    /// Position of a real piece kind in the per-color tables (pawn = 0 .. king = 5).
    pub open spec fn spec_index(self) -> nat {
        match self {
            PieceKind::Pawn => 0,
            PieceKind::Knight => 1,
            PieceKind::Bishop => 2,
            PieceKind::Rook => 3,
            PieceKind::Queen => 4,
            PieceKind::King => 5,
            PieceKind::NoPiece => 6,
        }
    }

    pub fn index(self) -> (r: usize)
        ensures
            r == self.spec_index(),
    {
        match self {
            PieceKind::Pawn => 0,
            PieceKind::Knight => 1,
            PieceKind::Bishop => 2,
            PieceKind::Rook => 3,
            PieceKind::Queen => 4,
            PieceKind::King => 5,
            PieceKind::NoPiece => 6,
        }
    }

    pub open spec fn spec_from_index(i: nat) -> PieceKind {
        if i == 0 {
            PieceKind::Pawn
        } else if i == 1 {
            PieceKind::Knight
        } else if i == 2 {
            PieceKind::Bishop
        } else if i == 3 {
            PieceKind::Rook
        } else if i == 4 {
            PieceKind::Queen
        } else if i == 5 {
            PieceKind::King
        } else {
            PieceKind::NoPiece
        }
    }

    /// Reads a lowercase promotion letter (`n`, `b`, `r`, `q`).
    pub fn try_from_char(c: char) -> (r: Result<PieceKind, ParseError>)
        ensures
            c == 'n' ==> r == Ok::<PieceKind, ParseError>(PieceKind::Knight),
            c == 'b' ==> r == Ok::<PieceKind, ParseError>(PieceKind::Bishop),
            c == 'r' ==> r == Ok::<PieceKind, ParseError>(PieceKind::Rook),
            c == 'q' ==> r == Ok::<PieceKind, ParseError>(PieceKind::Queen),
            !(c == 'n' || c == 'b' || c == 'r' || c == 'q') ==> r == Err::<PieceKind, ParseError>(
                ParseError::InvalidPiece,
            ),
    {
        match c {
            'n' => Ok(PieceKind::Knight),
            'b' => Ok(PieceKind::Bishop),
            'r' => Ok(PieceKind::Rook),
            'q' => Ok(PieceKind::Queen),
            _ => Err(ParseError::InvalidPiece),
        }
    }
}

impl PieceColor {
    pub open spec fn spec_index(self) -> nat {
        match self {
            PieceColor::White => 0,
            PieceColor::Black => 1,
            PieceColor::NoColor => 2,
        }
    }

    pub fn index(self) -> (r: usize)
        ensures
            r == self.spec_index(),
    {
        match self {
            PieceColor::White => 0,
            PieceColor::Black => 1,
            PieceColor::NoColor => 2,
        }
    }
}

impl Piece {
    pub fn new(color: PieceColor, kind: PieceKind) -> (r: Piece)
        ensures
            r.color == color,
            r.kind == kind,
    {
        Piece { color, kind }
    }

    pub open spec fn spec_empty() -> Piece {
        Piece { color: PieceColor::NoColor, kind: PieceKind::NoPiece }
    }

    /// The content of an empty square.
    pub fn empty() -> (r: Piece)
        ensures
            r == Piece::spec_empty(),
    {
        Piece { color: PieceColor::NoColor, kind: PieceKind::NoPiece }
    }

    /// A real piece: a color and a kind, neither of them "none".
    pub open spec fn is_real(self) -> bool {
        self.color != PieceColor::NoColor && self.kind != PieceKind::NoPiece
    }

    /// Index 0..11 of a real piece: 6 * color + kind.
    pub open spec fn spec_index(self) -> nat {
        6 * self.color.spec_index() + self.kind.spec_index()
    }

    pub fn index(self) -> (r: usize)
        requires
            self.is_real(),
        ensures
            r == self.spec_index(),
            r < 12,
    {
        6 * self.color.index() + self.kind.index()
    }

    /// The real piece with the given index 0..11.
    pub open spec fn spec_from_index(i: nat) -> Piece {
        Piece {
            color: if i < 6 { PieceColor::White } else { PieceColor::Black },
            kind: PieceKind::spec_from_index(i % 6),
        }
    }

    pub open spec fn spec_from_char(c: char) -> Option<Piece> {
        let color = if 'a' <= c && c <= 'z' { PieceColor::Black } else { PieceColor::White };
        let lower = if 'A' <= c && c <= 'Z' { ((c as u32) + 32) as char } else { c };
        if lower == 'p' {
            Some(Piece { color, kind: PieceKind::Pawn })
        } else if lower == 'n' {
            Some(Piece { color, kind: PieceKind::Knight })
        } else if lower == 'b' {
            Some(Piece { color, kind: PieceKind::Bishop })
        } else if lower == 'r' {
            Some(Piece { color, kind: PieceKind::Rook })
        } else if lower == 'q' {
            Some(Piece { color, kind: PieceKind::Queen })
        } else if lower == 'k' {
            Some(Piece { color, kind: PieceKind::King })
        } else {
            None
        }
    }

    /// Reads a piece from its FEN letter: uppercase for White, lowercase for Black.
    pub fn try_from_char(c: char) -> (r: Result<Piece, ParseError>)
        ensures
            Piece::spec_from_char(c) is Some <==> r is Ok,
            r is Ok ==> r->Ok_0 == Piece::spec_from_char(c)->Some_0 && r->Ok_0.is_real(),
            r is Err ==> r == Err::<Piece, ParseError>(ParseError::InvalidPiece),
    {
        match c {
            'p' => Ok(Piece::new(PieceColor::Black, PieceKind::Pawn)),
            'n' => Ok(Piece::new(PieceColor::Black, PieceKind::Knight)),
            'b' => Ok(Piece::new(PieceColor::Black, PieceKind::Bishop)),
            'r' => Ok(Piece::new(PieceColor::Black, PieceKind::Rook)),
            'q' => Ok(Piece::new(PieceColor::Black, PieceKind::Queen)),
            'k' => Ok(Piece::new(PieceColor::Black, PieceKind::King)),
            'P' => Ok(Piece::new(PieceColor::White, PieceKind::Pawn)),
            'N' => Ok(Piece::new(PieceColor::White, PieceKind::Knight)),
            'B' => Ok(Piece::new(PieceColor::White, PieceKind::Bishop)),
            'R' => Ok(Piece::new(PieceColor::White, PieceKind::Rook)),
            'Q' => Ok(Piece::new(PieceColor::White, PieceKind::Queen)),
            'K' => Ok(Piece::new(PieceColor::White, PieceKind::King)),
            _ => Err(ParseError::InvalidPiece),
        }
    }

    /// The FEN letter of a real piece, `'.'` for an empty square.
    pub fn to_char(self) -> (r: char)
        ensures
            self.is_real() ==> Piece::spec_from_char(r) == Some(self),
    {
        match (self.color, self.kind) {
            (PieceColor::White, PieceKind::Pawn) => 'P',
            (PieceColor::White, PieceKind::Knight) => 'N',
            (PieceColor::White, PieceKind::Bishop) => 'B',
            (PieceColor::White, PieceKind::Rook) => 'R',
            (PieceColor::White, PieceKind::Queen) => 'Q',
            (PieceColor::White, PieceKind::King) => 'K',
            (PieceColor::Black, PieceKind::Pawn) => 'p',
            (PieceColor::Black, PieceKind::Knight) => 'n',
            (PieceColor::Black, PieceKind::Bishop) => 'b',
            (PieceColor::Black, PieceKind::Rook) => 'r',
            (PieceColor::Black, PieceKind::Queen) => 'q',
            (PieceColor::Black, PieceKind::King) => 'k',
            _ => '.',
        }
    }
}

/// The side to move.
#[derive(Clone, Copy, Debug, PartialEq, Eq, Structural)]
pub enum Side {
    White,
    Black,
}

impl Side {
    pub open spec fn spec_opposite(self) -> Side {
        match self {
            Side::White => Side::Black,
            Side::Black => Side::White,
        }
    }

    pub open spec fn spec_color(self) -> PieceColor {
        match self {
            Side::White => PieceColor::White,
            Side::Black => PieceColor::Black,
        }
    }

    pub open spec fn spec_index(self) -> nat {
        match self {
            Side::White => 0,
            Side::Black => 1,
        }
    }

    pub fn opposite(self) -> (r: Side)
        ensures
            r == self.spec_opposite(),
    {
        match self {
            Side::White => Side::Black,
            Side::Black => Side::White,
        }
    }

    pub fn color(self) -> (r: PieceColor)
        ensures
            r == self.spec_color(),
    {
        match self {
            Side::White => PieceColor::White,
            Side::Black => PieceColor::Black,
        }
    }

    pub fn index(self) -> (r: usize)
        ensures
            r == self.spec_index(),
    {
        match self {
            Side::White => 0,
            Side::Black => 1,
        }
    }

    /// The side of a piece color; a colorless piece has none.
    pub fn try_from_color(color: PieceColor) -> (r: Option<Side>)
        ensures
            color == PieceColor::NoColor <==> r is None,
            r is Some ==> r->Some_0.spec_color() == color,
    {
        match color {
            PieceColor::White => Some(Side::White),
            PieceColor::Black => Some(Side::Black),
            PieceColor::NoColor => None,
        }
    }
}

impl Default for Piece {
    fn default() -> (r: Piece)
        ensures
            r == Piece::spec_empty(),
    {
        Piece::empty()
    }
}

} // verus!
