use vstd::prelude::*;
use crate::prng::Prng;
use crate::square::{Piece, Side, Square};

verus! {

pub const PIECE_KEYS: usize = 768;
pub const SIDE_OFFSET: usize = 768;
pub const CASTLE_OFFSET: usize = 769;
pub const EN_PASSANT_OFFSET: usize = 785;
pub const ZOBRIST_NUMBERS_SIZE: usize = 794;
pub const ZOBRIST_SEED: u64 = 123;

/// The 794 pseudorandom numbers behind the position hash.
pub struct ZobristHasher {
    numbers: Vec<u64>,
}

/// One component of the position hash.
#[derive(Clone, Copy, Debug, PartialEq, Eq, Structural)]
pub enum ZobristKey {
    Piece(Piece, Square),
    Side,
    Castling(u8),
    EnPassantFile(Square),
}

impl View for ZobristHasher {
    type V = Seq<u64>;

    closed spec fn view(&self) -> Seq<u64> {
        self.numbers@
    }
}

/// Slot 0..7 of the en-passant keys for a square on rank 3 or 6 (its file), 8 otherwise.
pub open spec fn spec_ep_slot(s: nat) -> nat {
    if s < 64 && (s / 8 == 2 || s / 8 == 5) {
        s % 8
    } else {
        8
    }
}

pub open spec fn key_valid(key: ZobristKey) -> bool {
    match key {
        ZobristKey::Piece(p, s) => p.is_real() && s.is_valid(),
        ZobristKey::Side => true,
        ZobristKey::Castling(c) => c < 16,
        ZobristKey::EnPassantFile(s) => s@ <= 64,
    }
}

pub open spec fn key_index(key: ZobristKey) -> int {
    match key {
        ZobristKey::Piece(p, s) => (p.spec_index() * 64 + s@) as int,
        ZobristKey::Side => SIDE_OFFSET as int,
        ZobristKey::Castling(c) => CASTLE_OFFSET + c,
        ZobristKey::EnPassantFile(s) => EN_PASSANT_OFFSET + spec_ep_slot(s@),
    }
}

pub open spec fn key_part(keys: Seq<u64>, key: ZobristKey) -> u64 {
    keys[key_index(key)]
}

/// The key of what stands on square `s` (0 for an empty square).
pub open spec fn square_key(keys: Seq<u64>, p: Piece, s: int) -> u64 {
    if p.is_real() {
        keys[p.spec_index() * 64 + s]
    } else {
        0
    }
}

/// XOR of the keys of the first `n` squares.
pub open spec fn pieces_hash(keys: Seq<u64>, pieces: Seq<Piece>, n: nat) -> u64
    decreases n,
{
    if n == 0 {
        0
    } else {
        pieces_hash(keys, pieces, (n - 1) as nat) ^ square_key(keys, pieces[n - 1], n - 1)
    }
}

/// The full Zobrist hash of a position.
pub open spec fn hash_full(keys: Seq<u64>, pieces: Seq<Piece>, side: Side, castling: u8, ep: Square) -> u64 {
    pieces_hash(keys, pieces, 64) ^ (if side == Side::Black {
        keys[SIDE_OFFSET as int]
    } else {
        0
    }) ^ keys[CASTLE_OFFSET + castling] ^ keys[EN_PASSANT_OFFSET + spec_ep_slot(ep@)]
}

pub proof fn lemma_xor(a: u64, b: u64, c: u64)
    ensures
        (a ^ b) ^ c == a ^ (b ^ c),
        a ^ b == b ^ a,
        a ^ 0 == a,
        a ^ a == 0,
        (a ^ b) ^ (b ^ c) == a ^ c,
        (a ^ b) ^ c == (a ^ c) ^ b,
{
    assert((a ^ b) ^ c == a ^ (b ^ c) && a ^ b == b ^ a && a ^ 0 == a && a ^ a == 0 && (a ^ b) ^ (
    b ^ c) == a ^ c && (a ^ b) ^ c == (a ^ c) ^ b) by (bit_vector);
}

/// Changing what stands on one square changes the hash by the old and the new key.
pub proof fn lemma_pieces_hash_update(keys: Seq<u64>, pieces: Seq<Piece>, s: int, p: Piece, n: nat)
    requires
        0 <= s < pieces.len(),
        n <= pieces.len(),
    ensures
        s < n ==> pieces_hash(keys, pieces.update(s, p), n) == pieces_hash(keys, pieces, n) ^ (
        square_key(keys, pieces[s], s) ^ square_key(keys, p, s)),
        s >= n ==> pieces_hash(keys, pieces.update(s, p), n) == pieces_hash(keys, pieces, n),
    decreases n,
{
    if n > 0 {
        lemma_pieces_hash_update(keys, pieces, s, p, (n - 1) as nat);
        let u = pieces.update(s, p);
        let h = pieces_hash(keys, pieces, (n - 1) as nat);
        let d = square_key(keys, pieces[s], s) ^ square_key(keys, p, s);
        if s == n - 1 {
            let ko = square_key(keys, pieces[s], s);
            let kn = square_key(keys, p, s);
            lemma_xor(h, ko, kn);
            assert(u[n - 1] == p);
        } else if s < n - 1 {
            let k = square_key(keys, pieces[n - 1], n - 1);
            assert(u[n - 1] == pieces[n - 1]);
            lemma_xor(h, d, k);
        }
    }
}

pub proof fn lemma_pieces_hash_ext(keys: Seq<u64>, a: Seq<Piece>, b: Seq<Piece>, n: nat)
    requires
        n <= a.len(),
        n <= b.len(),
        forall|i: int| 0 <= i < n ==> a[i] == b[i],
    ensures
        pieces_hash(keys, a, n) == pieces_hash(keys, b, n),
    decreases n,
{
    if n > 0 {
        lemma_pieces_hash_ext(keys, a, b, (n - 1) as nat);
    }
}

/// The generator state after `k` draws from the fixed seed.
pub open spec fn seeded_state(k: nat) -> u64
    decreases k,
{
    if k == 0 {
        ZOBRIST_SEED
    } else {
        crate::prng::xorshift(seeded_state((k - 1) as nat))
    }
}

/// The `k`-th number drawn from the generator seeded with the fixed seed.
pub open spec fn seeded_number(k: nat) -> u64 {
    vstd::wrapping::u64_specs::wrapping_mul(seeded_state(k + 1), crate::prng::PRNG_MULTIPLIER)
}

impl ZobristHasher {
    /// Draws the 794 numbers from the generator seeded with the fixed seed.
    pub fn new() -> (r: ZobristHasher)
        ensures
            r@.len() == ZOBRIST_NUMBERS_SIZE,
            forall|k: int| 0 <= k < ZOBRIST_NUMBERS_SIZE ==> r@[k] == seeded_number(k as nat),
    {
        let mut prng = Prng::new(ZOBRIST_SEED);
        let mut numbers: Vec<u64> = Vec::new();
        let mut i: usize = 0;
        while i < ZOBRIST_NUMBERS_SIZE
            invariant
                i <= ZOBRIST_NUMBERS_SIZE,
                numbers@.len() == i,
                prng.state == seeded_state(i as nat),
                forall|k: int| 0 <= k < i ==> numbers@[k] == seeded_number(k as nat),
            decreases ZOBRIST_NUMBERS_SIZE - i,
        {
            numbers.push(prng.random_u64());
            i += 1;
        }
        ZobristHasher { numbers }
    }

    /// The en-passant key slot of a square (8 for squares off ranks 3 and 6, and "no square").
    pub fn ep_slot(square: Square) -> (r: usize)
        requires
            square@ <= 64,
        ensures
            r == spec_ep_slot(square@),
    {
        let s = square.index as usize;
        if s < 64 && (s / 8 == 2 || s / 8 == 5) {
            s % 8
        } else {
            8
        }
    }

    pub fn get_key_part(&self, key: ZobristKey) -> (r: u64)
        requires
            self@.len() == ZOBRIST_NUMBERS_SIZE,
            key_valid(key),
        ensures
            r == key_part(self@, key),
    {
        match key {
            ZobristKey::Piece(piece, square) => {
                let i = piece.index() * 64 + square.index();
                self.numbers[i]
            },
            ZobristKey::Side => self.numbers[SIDE_OFFSET],
            ZobristKey::Castling(c) => self.numbers[CASTLE_OFFSET + c as usize],
            ZobristKey::EnPassantFile(s) => self.numbers[EN_PASSANT_OFFSET + ZobristHasher::ep_slot(s)],
        }
    }

    /// The full hash of a position given by its squares and state fields.
    pub fn hash_position(&self, pieces: &Vec<Piece>, side: Side, castling: u8, ep: Square) -> (r: u64)
        requires
            self@.len() == ZOBRIST_NUMBERS_SIZE,
            pieces@.len() == 64,
            castling < 16,
            ep@ <= 64,
        ensures
            r == hash_full(self@, pieces@, side, castling, ep),
    {
        let mut hash: u64 = 0;
        let mut i: usize = 0;
        while i < 64
            invariant
                i <= 64,
                pieces@.len() == 64,
                self@.len() == ZOBRIST_NUMBERS_SIZE,
                hash == pieces_hash(self@, pieces@, i as nat),
            decreases 64 - i,
        {
            let p = pieces[i];
            if p.color != crate::square::PieceColor::NoColor && p.kind != crate::square::PieceKind::NoPiece {
                hash = hash ^ self.get_key_part(ZobristKey::Piece(p, Square::from_index(i)));
            } else {
                proof {
                    lemma_xor(hash, 0, 0);
                }
            }
            i += 1;
        }
        if side == Side::Black {
            hash = hash ^ self.get_key_part(ZobristKey::Side);
        } else {
            proof {
                lemma_xor(hash, 0, 0);
            }
        }
        hash = hash ^ self.get_key_part(ZobristKey::Castling(castling));
        hash = hash ^ self.get_key_part(ZobristKey::EnPassantFile(ep));
        hash
    }
}

} // verus!
