use vstd::prelude::*;
use vstd::string::StringSliceAdditionalSpecFns;
use crate::board::CastlingKind;
use crate::square::{File, ParseError, Piece, PieceColor, PieceKind, Rank, Side, Square};
use crate::evaluate::count;

verus! {

/// The FEN of the standard starting position.
pub const START_POSITION_FEN: &'static str = "rnbqkbnr/pppppppp/8/8/8/8/PPPPPPPP/RNBQKBNR w KQkq - 0 1";

/// The fields of a FEN record, read but not yet placed on a board.
pub struct FenFields {
    pub pieces: Vec<Piece>,
    pub side: Side,
    pub castling: u8,
    pub ep: Square,
    pub clock: usize,
}

impl FenFields {
    pub open spec fn wf(&self) -> bool {
        &&& self.pieces@.len() == 64
        &&& forall|s: int| 0 <= s < 64 ==> (#[trigger] self.pieces@[s]).is_real() || self.pieces@[s] == Piece::spec_empty()
        &&& self.castling < 16
        &&& self.ep@ <= 64
    }
}

/// `ranges` cut `b[start..end]` at every byte `sep`: consecutive parts, each free of `sep`,
/// separated by exactly one `sep`.
pub open spec fn is_split(b: Seq<u8>, start: int, end: int, sep: u8, ranges: Seq<(usize, usize)>) -> bool {
    &&& ranges.len() >= 1
    &&& ranges[0].0 == start
    &&& ranges[ranges.len() - 1].1 == end
    &&& forall|k: int| 0 <= k < ranges.len() ==> start <= (#[trigger] ranges[k]).0 <= ranges[k].1 <= end
    &&& forall|k: int, i: int| #![trigger ranges[k], b[i]] 0 <= k < ranges.len() && ranges[k].0 <= i < ranges[k].1 ==> b[i] != sep
    &&& forall|k: int| 0 <= k < ranges.len() - 1 ==> (#[trigger] ranges[k + 1]).0 == ranges[k].1 + 1 && b[ranges[k].1 as int] == sep
}

/// The squares after reading the placement characters `b[i..end]` of the rank with index
/// `rank`, from file `file` on: a piece letter fills the square, a digit skips that many
/// files, anything else is refused; the rank must cover exactly the eight files.
pub open spec fn rank_scan(b: Seq<u8>, i: int, end: int, rank: int, file: int, ps: Seq<Piece>) -> Option<Seq<Piece>>
    decreases end - i,
{
    if i >= end {
        if file == 8 {
            Some(ps)
        } else {
            None
        }
    } else {
        let c = b[i];
        if 49 <= c <= 56 {
            if file + c - 48 > 8 {
                None
            } else {
                rank_scan(b, i + 1, end, rank, file + c - 48, ps)
            }
        } else {
            match Piece::spec_from_char(c as char) {
                Some(p) => if file >= 8 {
                    None
                } else {
                    rank_scan(b, i + 1, end, rank, file + 1, ps.update(rank * 8 + file, p))
                },
                None => None,
            }
        }
    }
}

/// The squares after reading ranks `k..8` (rank 8 first).
pub open spec fn ranks_scan(b: Seq<u8>, ranks: Seq<(usize, usize)>, k: int, ps: Seq<Piece>) -> Option<Seq<Piece>>
    decreases 8 - k,
{
    if k >= 8 {
        Some(ps)
    } else {
        match rank_scan(b, ranks[k].0 as int, ranks[k].1 as int, 7 - k, 0, ps) {
            Some(ps2) => ranks_scan(b, ranks, k + 1, ps2),
            None => None,
        }
    }
}

pub open spec fn empty_squares() -> Seq<Piece> {
    Seq::new(64, |s: int| Piece::spec_empty())
}

/// The side field: exactly `w` or `b`.
pub open spec fn side_of(b: Seq<u8>, r: (usize, usize)) -> Option<Side> {
    if r.1 == r.0 + 1 && b[r.0 as int] == 119 {
        Some(Side::White)
    } else if r.1 == r.0 + 1 && b[r.0 as int] == 98 {
        Some(Side::Black)
    } else {
        None
    }
}

pub open spec fn castling_bit_of(c: u8) -> Option<u8> {
    if c == 75 {
        Some(1u8)
    } else if c == 81 {
        Some(2u8)
    } else if c == 107 {
        Some(4u8)
    } else if c == 113 {
        Some(8u8)
    } else {
        None
    }
}

/// The rights named by `b[i..end]` on top of `acc`: each of `KQkq` at most once, nothing else.
pub open spec fn castling_scan(b: Seq<u8>, i: int, end: int, acc: u8) -> Option<u8>
    decreases end - i,
{
    if i >= end {
        Some(acc)
    } else {
        match castling_bit_of(b[i]) {
            Some(bit) => if acc & bit != 0 {
                None
            } else {
                castling_scan(b, i + 1, end, acc | bit)
            },
            None => None,
        }
    }
}

/// The castling field: exactly `-`, or a non-empty subset of `KQkq` without repeats.
pub open spec fn castling_field(b: Seq<u8>, r: (usize, usize)) -> Option<u8> {
    if r.1 == r.0 + 1 && b[r.0 as int] == 45 {
        Some(0u8)
    } else if r.0 >= r.1 {
        None
    } else {
        castling_scan(b, r.0 as int, r.1 as int, 0)
    }
}

/// The en-passant field: exactly `-` (no square, 64) or a square in algebraic notation.
pub open spec fn ep_field(b: Seq<u8>, r: (usize, usize)) -> Option<nat> {
    if r.1 == r.0 + 1 && b[r.0 as int] == 45 {
        Some(64)
    } else if r.1 == r.0 + 2 && 97 <= b[r.0 as int] <= 104 && 49 <= b[r.0 + 1] <= 56 {
        Some(((b[r.0 + 1] - 49) * 8 + (b[r.0 as int] - 97)) as nat)
    } else {
        None
    }
}

/// The value of the digits `b[i..end]` read after `acc`, if all are digits and it fits `max`.
pub open spec fn digits_value(b: Seq<u8>, i: int, end: int, acc: int, max: int) -> Option<int>
    decreases end - i,
{
    if i >= end {
        Some(acc)
    } else if b[i] < 48 || b[i] > 57 {
        None
    } else if acc * 10 + (b[i] - 48) > max {
        None
    } else {
        digits_value(b, i + 1, end, acc * 10 + (b[i] - 48), max)
    }
}

/// A decimal number: an optional `+`, then at least one digit; at most `max`.
pub open spec fn number_of(b: Seq<u8>, start: int, end: int, max: int) -> Option<int> {
    let i = if start < end && b[start] == 43 { start + 1 } else { start };
    if i >= end {
        None
    } else {
        digits_value(b, i, end, 0, max)
    }
}

/// Whether a FEN record cut into `fields` (and its placement into `ranks`) reads.
pub open spec fn fen_reads(b: Seq<u8>, fields: Seq<(usize, usize)>, ranks: Seq<(usize, usize)>) -> bool {
    &&& fields.len() == 6
    &&& ranks.len() == 8
    &&& ranks_scan(b, ranks, 0, empty_squares()) is Some
    &&& side_of(b, fields[1]) is Some
    &&& castling_field(b, fields[2]) is Some
    &&& ep_field(b, fields[3]) is Some
    &&& number_of(b, fields[4].0 as int, fields[4].1 as int, usize::MAX as int) is Some
    &&& number_of(b, fields[5].0 as int, fields[5].1 as int, usize::MAX as int) is Some
    &&& count(ranks_scan(b, ranks, 0, empty_squares())->Some_0, Piece { color: PieceColor::White, kind: PieceKind::King }, 64) == 1
    &&& count(ranks_scan(b, ranks, 0, empty_squares())->Some_0, Piece { color: PieceColor::Black, kind: PieceKind::King }, 64) == 1
}

/// What the record says, when `fen_reads` holds.
pub open spec fn fen_matches(f: &FenFields, b: Seq<u8>, fields: Seq<(usize, usize)>, ranks: Seq<(usize, usize)>) -> bool {
    &&& f.pieces@ == ranks_scan(b, ranks, 0, empty_squares())->Some_0
    &&& f.side == side_of(b, fields[1])->Some_0
    &&& f.castling == castling_field(b, fields[2])->Some_0
    &&& f.ep@ == ep_field(b, fields[3])->Some_0
    &&& f.clock == number_of(b, fields[4].0 as int, fields[4].1 as int, usize::MAX as int)->Some_0
}

/// The ranges of the parts of `b[start..end]` between separator bytes `sep`.
pub fn split_ranges(b: &[u8], start: usize, end: usize, sep: u8) -> (r: Vec<(usize, usize)>)
    requires
        start <= end <= b@.len(),
    ensures
        is_split(b@, start as int, end as int, sep, r@),
{
    let mut ranges: Vec<(usize, usize)> = Vec::new();
    let mut part_start = start;
    let mut i = start;
    while i < end
        invariant
            start <= part_start <= i <= end,
            end <= b@.len(),
            forall|j: int| part_start <= j < i ==> b@[j] != sep,
            ranges@.len() == 0 ==> part_start == start,
            ranges@.len() > 0 ==> ranges@[0].0 == start,
            ranges@.len() > 0 ==> part_start == ranges@[ranges@.len() - 1].1 + 1 && b@[ranges@[ranges@.len() - 1].1 as int] == sep,
            forall|k: int| 0 <= k < ranges@.len() ==> start <= (#[trigger] ranges@[k]).0 <= ranges@[k].1 < part_start,
            forall|k: int, j: int| #![trigger ranges@[k], b@[j]] 0 <= k < ranges@.len() && ranges@[k].0 <= j < ranges@[k].1 ==> b@[j] != sep,
            forall|k: int| 0 <= k < ranges@.len() - 1 ==> (#[trigger] ranges@[k + 1]).0 == ranges@[k].1 + 1 && b@[ranges@[k].1 as int] == sep,
        decreases end - i,
    {
        if b[i] == sep {
            ranges.push((part_start, i));
            part_start = i + 1;
        }
        i += 1;
    }
    ranges.push((part_start, end));
    ranges
}

/// Reads a non-negative decimal number (an optional leading `+`, then digits) that fits
/// a `usize`.
pub fn parse_usize(b: &[u8], start: usize, end: usize) -> (r: Option<usize>)
    requires
        start <= end <= b@.len(),
    ensures
        r is Some <==> number_of(b@, start as int, end as int, usize::MAX as int) is Some,
        r is Some ==> r->Some_0 == number_of(b@, start as int, end as int, usize::MAX as int)->Some_0,
{
    let mut i = start;
    if i < end && b[i] == 43u8 {
        i += 1;
    }
    if i >= end {
        proof {
            assert(number_of(b@, start as int, end as int, usize::MAX as int) is None);
        }
        return None;
    }
    let ghost i0 = i as int;
    proof {
        assert(number_of(b@, start as int, end as int, usize::MAX as int) == digits_value(b@, i0, end as int, 0, usize::MAX as int));
    }
    let mut value: usize = 0;
    while i < end
        invariant
            i0 <= i <= end,
            end <= b@.len(),
            digits_value(b@, i0, end as int, 0, usize::MAX as int) == digits_value(b@, i as int, end as int, value as int, usize::MAX as int),
            number_of(b@, start as int, end as int, usize::MAX as int) == digits_value(b@, i0, end as int, 0, usize::MAX as int),
        decreases end - i,
    {
        let c = b[i];
        if c < 48u8 || c > 57u8 {
            return None;
        }
        let d = (c - 48u8) as usize;
        if value > (usize::MAX - d) / 10 {
            proof {
                assert(value * 10 + d > usize::MAX) by (nonlinear_arith)
                    requires
                        value > (usize::MAX - d) / 10,
                        d <= 9,
                ;
            }
            return None;
        }
        proof {
            assert(value * 10 + d <= usize::MAX) by (nonlinear_arith)
                requires
                    value <= (usize::MAX - d) / 10,
                    d <= 9,
            ;
        }
        value = value * 10 + d;
        i += 1;
    }
    Some(value)
}

/// Reads the six space-separated fields of a FEN record: piece placement (ranks 8 to 1,
/// pieces `KQRBNPkqrbnp`, digits for runs of empty squares), side (`w`/`b`), castling
/// rights (`KQkq` or `-`), en-passant square (or `-`), halfmove clock, fullmove number
/// (not read).
pub fn parse_fen_fields(fen: &str) -> (r: Result<FenFields, ParseError>)
    ensures
        r is Ok ==> r->Ok_0.wf(),
        r is Ok ==> exists|fields: Seq<(usize, usize)>, ranks: Seq<(usize, usize)>|
            is_split(fen.spec_bytes(), 0, fen.spec_bytes().len() as int, 32, fields) && fields.len() == 6 && is_split(
                fen.spec_bytes(),
                fields[0].0 as int,
                fields[0].1 as int,
                47,
                ranks,
            ) && fen_reads(fen.spec_bytes(), fields, ranks) && fen_matches(&r->Ok_0, fen.spec_bytes(), fields, ranks),
        r is Err ==> exists|fields: Seq<(usize, usize)>|
            is_split(fen.spec_bytes(), 0, fen.spec_bytes().len() as int, 32, fields) && (fields.len() != 6 || exists|
                ranks: Seq<(usize, usize)>,
            |
                is_split(fen.spec_bytes(), fields[0].0 as int, fields[0].1 as int, 47, ranks) && !fen_reads(
                    fen.spec_bytes(),
                    fields,
                    ranks,
                )),
{
    let b = fen.as_bytes();
    let fields = split_ranges(b, 0, b.len(), 32u8);
    if fields.len() != 6 {
        proof {
            assert(is_split(b@, 0, b@.len() as int, 32, fields@));
        }
        return Err(ParseError::FieldCount);
    }
    let (p0, p1) = fields[0];
    let ranks = split_ranges(b, p0, p1, 47u8);
    if ranks.len() != 8 {
        proof {
            assert(is_split(b@, 0, b@.len() as int, 32, fields@));
            assert(is_split(b@, p0 as int, p1 as int, 47, ranks@) && !fen_reads(b@, fields@, ranks@));
        }
        return Err(ParseError::RankCount);
    }
    let mut pieces: Vec<Piece> = Vec::new();
    let mut s: usize = 0;
    while s < 64
        invariant
            s <= 64,
            pieces@.len() == s,
            forall|k: int| 0 <= k < s ==> (#[trigger] pieces@[k]) == Piece::spec_empty(),
        decreases 64 - s,
    {
        pieces.push(Piece::empty());
        s += 1;
    }
    proof {
        assert(pieces@ =~= empty_squares());
    }
    let mut k: usize = 0;
    while k < 8
        invariant
            k <= 8,
            ranks@.len() == 8,
            p1 <= b@.len(),
            forall|j: int| 0 <= j < ranks@.len() ==> (#[trigger] ranks@[j]).0 <= ranks@[j].1 <= p1,
            pieces@.len() == 64,
            forall|q: int| 0 <= q < 64 ==> (#[trigger] pieces@[q]).is_real() || pieces@[q] == Piece::spec_empty(),
            ranks_scan(b@, ranks@, 0, empty_squares()) == ranks_scan(b@, ranks@, k as int, pieces@),
            is_split(b@, 0, b@.len() as int, 32, fields@),
            b@ == fen.spec_bytes(),
            fields@.len() == 6,
            fields@[0].0 == p0,
            fields@[0].1 == p1,
            is_split(b@, p0 as int, p1 as int, 47, ranks@),
        decreases 8 - k,
    {
        let rank = 7 - k;
        let (r0, r1) = ranks[k];
        let ghost start_pieces = pieces@;
        let mut file: usize = 0;
        let mut i = r0;
        while i < r1
            invariant
                r0 <= i <= r1,
                r1 <= b@.len(),
                rank < 8,
                rank == 7 - k,
                pieces@.len() == 64,
                forall|q: int| 0 <= q < 64 ==> (#[trigger] pieces@[q]).is_real() || pieces@[q] == Piece::spec_empty(),
                file <= 8,
                k < 8,
                ranks@[k as int].0 == r0,
                ranks@[k as int].1 == r1,
                ranks_scan(b@, ranks@, 0, empty_squares()) == ranks_scan(b@, ranks@, k as int, start_pieces),
                    is_split(b@, 0, b@.len() as int, 32, fields@),
                b@ == fen.spec_bytes(),
                fields@.len() == 6,
                fields@[0].0 == p0,
                fields@[0].1 == p1,
                is_split(b@, p0 as int, p1 as int, 47, ranks@),
                rank_scan(b@, r0 as int, r1 as int, rank as int, 0, start_pieces) == rank_scan(
                    b@,
                    i as int,
                    r1 as int,
                    rank as int,
                    file as int,
                    pieces@,
                ),
            decreases r1 - i,
        {
            let c = b[i];
            if c >= 49u8 && c <= 56u8 {
                let d = (c - 48u8) as usize;
                if file + d > 8 {
                    proof {
                        assert(rank_scan(b@, i as int, r1 as int, rank as int, file as int, pieces@) is None);
                        assert(ranks_scan(b@, ranks@, k as int, start_pieces) is None);
                        assert(is_split(b@, 0, b@.len() as int, 32, fields@));
                        assert(is_split(b@, p0 as int, p1 as int, 47, ranks@));
                        assert(!fen_reads(b@, fields@, ranks@));
                    }
                    return Err(ParseError::RankOverflow);
                }
                file = file + d;
            } else {
                match Piece::try_from_char(c as char) {
                    Ok(piece) => {
                        if file >= 8 {
                            proof {
                                assert(rank_scan(b@, i as int, r1 as int, rank as int, file as int, pieces@) is None);
                                assert(ranks_scan(b@, ranks@, k as int, start_pieces) is None);
                                assert(is_split(b@, 0, b@.len() as int, 32, fields@));
                                assert(is_split(b@, p0 as int, p1 as int, 47, ranks@));
                                assert(!fen_reads(b@, fields@, ranks@));
                            }
                            return Err(ParseError::RankOverflow);
                        }
                        pieces.set(rank * 8 + file, piece);
                        file += 1;
                    },
                    Err(_) => {
                        proof {
                            assert(rank_scan(b@, i as int, r1 as int, rank as int, file as int, pieces@) is None);
                            assert(ranks_scan(b@, ranks@, k as int, start_pieces) is None);
                            assert(is_split(b@, 0, b@.len() as int, 32, fields@));
                            assert(is_split(b@, p0 as int, p1 as int, 47, ranks@));
                            assert(!fen_reads(b@, fields@, ranks@));
                        }
                        return Err(ParseError::PlacementCharacter);
                    },
                }
            }
            i += 1;
        }
        if file != 8 {
            proof {
                assert(rank_scan(b@, i as int, r1 as int, rank as int, file as int, pieces@) is None);
                assert(ranks_scan(b@, ranks@, k as int, start_pieces) is None);
                assert(is_split(b@, 0, b@.len() as int, 32, fields@));
                assert(is_split(b@, p0 as int, p1 as int, 47, ranks@));
                assert(!fen_reads(b@, fields@, ranks@));
            }
            return Err(ParseError::RankLength);
        }
        k += 1;
    }
    proof {
        assert(is_split(b@, 0, b@.len() as int, 32, fields@));
        assert(is_split(b@, p0 as int, p1 as int, 47, ranks@));
        assert(ranks_scan(b@, ranks@, 0, empty_squares()) == Some(pieces@));
    }
    let (s0, s1) = fields[1];
    let side = match read_side(b, s0, s1) {
        Some(s) => s,
        None => {
            proof {
                assert(fields@[1] == (s0, s1));
                assert(!fen_reads(b@, fields@, ranks@));
            }
            return Err(ParseError::InvalidSide);
        },
    };
    let (c0, c1) = fields[2];
    let castling = match read_castling(b, c0, c1) {
        Some(c) => c,
        None => {
            proof {
                assert(fields@[2] == (c0, c1));
                assert(!fen_reads(b@, fields@, ranks@));
            }
            return Err(ParseError::InvalidCastling);
        },
    };
    let (e0, e1) = fields[3];
    let ep = match read_ep(b, e0, e1) {
        Some(e) => e,
        None => {
            proof {
                assert(fields@[3] == (e0, e1));
                assert(!fen_reads(b@, fields@, ranks@));
            }
            return Err(ParseError::InvalidEnPassant);
        },
    };
    let (h0, h1) = fields[4];
    let clock = match parse_usize(b, h0, h1) {
        Some(c) => c,
        None => {
            proof {
                assert(fields@[4] == (h0, h1));
                assert(!fen_reads(b@, fields@, ranks@));
            }
            return Err(ParseError::InvalidClock);
        },
    };
    let (f0, f1) = fields[5];
    if parse_usize(b, f0, f1).is_none() {
        proof {
            assert(fields@[5] == (f0, f1));
            assert(!fen_reads(b@, fields@, ranks@));
        }
        return Err(ParseError::InvalidFullmove);
    }
    let white_kings = king_count(&pieces, Piece::new(PieceColor::White, PieceKind::King));
    let black_kings = king_count(&pieces, Piece::new(PieceColor::Black, PieceKind::King));
    if white_kings != 1 || black_kings != 1 {
        proof {
            assert(!fen_reads(b@, fields@, ranks@));
        }
        return Err(ParseError::KingCount);
    }
    let r = FenFields { pieces, side, castling, ep, clock };
    proof {
        assert(fen_reads(b@, fields@, ranks@));
        assert(fen_matches(&r, b@, fields@, ranks@));
    }
    Ok(r)
}

fn read_side(b: &[u8], s0: usize, s1: usize) -> (r: Option<Side>)
    requires
        s0 <= s1 <= b@.len(),
    ensures
        r == side_of(b@, (s0, s1)),
{
    if s1 - s0 != 1 {
        None
    } else if b[s0] == 119u8 {
        Some(Side::White)
    } else if b[s0] == 98u8 {
        Some(Side::Black)
    } else {
        None
    }
}

fn read_castling(b: &[u8], c0: usize, c1: usize) -> (r: Option<u8>)
    requires
        c0 <= c1 <= b@.len(),
    ensures
        r == castling_field(b@, (c0, c1)),
        r is Some ==> r->Some_0 < 16,
{
    if c1 - c0 == 1 && b[c0] == 45u8 {
        return Some(0);
    }
    if c0 >= c1 {
        return None;
    }
    let mut castling: u8 = 0;
    let mut i = c0;
    while i < c1
        invariant
            c0 <= i <= c1,
            c1 <= b@.len(),
            castling < 16,
            castling_field(b@, (c0, c1)) == castling_scan(b@, i as int, c1 as int, castling),
        decreases c1 - i,
    {
        match CastlingKind::try_from_char(b[i] as char) {
            Some(kind) => {
                let bit = kind.bit();
                if castling & bit != 0 {
                    return None;
                }
                proof {
                    assert(castling | bit < 16) by (bit_vector)
                        requires
                            castling < 16,
                            bit == 1 || bit == 2 || bit == 4 || bit == 8,
                    ;
                }
                castling = castling | bit;
            },
            None => { return None; },
        }
        i += 1;
    }
    Some(castling)
}

fn read_ep(b: &[u8], e0: usize, e1: usize) -> (r: Option<Square>)
    requires
        e0 <= e1 <= b@.len(),
    ensures
        r is Some <==> ep_field(b@, (e0, e1)) is Some,
        r is Some ==> r->Some_0@ == ep_field(b@, (e0, e1))->Some_0 && r->Some_0@ <= 64,
{
    if e1 - e0 == 1 && b[e0] == 45u8 {
        return Some(Square::none());
    }
    if e1 - e0 != 2 {
        return None;
    }
    match (File::try_from_char(b[e0] as char), Rank::try_from_char(b[e0 + 1] as char)) {
        (Ok(f), Ok(r)) => Some(Square::new(r, f)),
        _ => None,
    }
}

/// Number of squares holding `king`.
fn king_count(pieces: &Vec<Piece>, king: Piece) -> (r: usize)
    requires
        pieces@.len() == 64,
    ensures
        r == count(pieces@, king, 64),
{
    let mut n: usize = 0;
    let mut s: usize = 0;
    while s < 64
        invariant
            s <= 64,
            pieces@.len() == 64,
            n == count(pieces@, king, s as nat),
            n <= s,
        decreases 64 - s,
    {
        if pieces[s] == king {
            n += 1;
        }
        s += 1;
    }
    n
}

} // verus!
