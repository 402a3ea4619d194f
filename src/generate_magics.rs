use vstd::prelude::*;
use crate::attacks::{direction_ok, generate_sliding_attack_mask, generate_sliding_blocker_mask, lemma_next_subset};
use crate::bitboard::Bitboard;
use crate::prng::Prng;
use crate::square::Square;

verus! {

pub const MAGIC_SEED: u64 = 123;

/// Number of set bits.
pub fn bit_count(b: u64) -> (r: u8)
    ensures
        r <= 64,
        b == 0 <==> r == 0,
{
    let mut rest = Bitboard(b);
    let mut n: u8 = 0;
    while rest.0 != 0
        invariant
            n <= 64,
            b == 0 ==> n == 0 && rest.0 == 0,
            b != 0 ==> (n > 0 || rest.0 != 0),
        decreases rest.0,
    {
        let _ = rest.pop_bit();
        if n < 64 {
            n += 1;
        }
    }
    n
}

/// A candidate magic for one square: the square's blocker mask and the generator that
/// draws candidates.
pub struct MagicCandidate {
    pub magic: u64,
    pub mask: Bitboard,
    pub bits_in_mask: u8,
    pub prng: Prng,
}

pub proof fn lemma_index_bound(h: u64, bits: u64)
    requires
        1 <= bits <= 63,
    ensures
        (h >> ((64 - bits) as u64)) < (1u64 << bits),
{
    assert((h >> ((64 - bits) as u64)) < (1u64 << bits)) by (bit_vector)
        requires
            1 <= bits <= 63,
    ;
}

impl MagicCandidate {
    pub fn new(mask: Bitboard) -> (r: MagicCandidate)
        ensures
            r.mask == mask,
            r.magic == 0,
            r.bits_in_mask <= 64,
            r.prng.state == MAGIC_SEED,
    {
        MagicCandidate { magic: 0, mask, bits_in_mask: bit_count(mask.0), prng: Prng::new(MAGIC_SEED) }
    }

    /// Draws the next sparse random candidate.
    pub fn update_magic(&mut self)
        ensures
            final(self).mask == old(self).mask,
            final(self).bits_in_mask == old(self).bits_in_mask,
    {
        self.magic = self.prng.sparse_random_u64();
    }

    /// The slot `((mask & blockers) * magic) >> (64 - bits)` in a table of `2^bits` slots.
    pub fn get_magic_index(&self, blockers: Bitboard) -> (r: usize)
        requires
            1 <= self.bits_in_mask <= 16,
        ensures
            r < (1u64 << (self.bits_in_mask as u64)),
    {
        let blockers = self.mask.0 & blockers.0;
        let hash = self.magic.wrapping_mul(blockers);
        let shift = 64 - self.bits_in_mask as u64;
        proof {
            lemma_index_bound(hash, self.bits_in_mask as u64);
        }
        (hash >> shift) as usize
    }
}

/// Whether the candidate hashes every blocker subset of its mask without a harmful
/// collision (two subsets with different attacks in one slot); if so, the table size.
pub fn check_magic(candidate: &MagicCandidate, square: Square, directions: [(i32, i32); 4]) -> (r: Option<usize>)
    requires
        square.is_valid(),
        1 <= candidate.bits_in_mask <= 16,
        forall|i: int| 0 <= i < 4 ==> direction_ok(#[trigger] directions@[i]),
{
    let size: usize = 1usize << (candidate.bits_in_mask as usize);
    proof {
        let b = candidate.bits_in_mask as u64;
        assert((1u64 << b) as int == (1usize << (b as usize)) as int) by (bit_vector)
            requires
                1 <= b <= 16,
        ;
    }
    let mut table: Vec<u64> = vec![0u64; size];
    let mask = candidate.mask.0;
    let mut blockers: u64 = 0;
    proof {
        assert(0u64 & !mask == 0) by (bit_vector);
    }
    loop
        invariant
            table@.len() == size,
            size as int == (1u64 << (candidate.bits_in_mask as u64)) as int,
            1 <= candidate.bits_in_mask <= 16,
            mask == candidate.mask.0,
            blockers & !mask == 0,
            square.is_valid(),
            forall|i: int| 0 <= i < 4 ==> direction_ok(#[trigger] directions@[i]),
        decreases u64::MAX - blockers,
    {
        let moves = generate_sliding_attack_mask(square, Bitboard(blockers), directions);
        let index = candidate.get_magic_index(Bitboard(blockers));
        let entry = table[index];
        if entry == 0 {
            table.set(index, moves.0);
        } else if entry != moves.0 {
            return None;
        }
        proof {
            lemma_next_subset(blockers, mask);
        }
        let next = blockers.wrapping_sub(mask) & mask;
        if next == 0 {
            break;
        }
        blockers = next;
    }
    Some(size)
}

/// Searches up to `attempts` sparse random candidates for a working magic of `square`:
/// its magic, shift and table size.
pub fn find_magic(square: Square, directions: [(i32, i32); 4], attempts: u64) -> (r: Option<(u64, u8, usize)>)
    requires
        square.is_valid(),
        forall|i: int| 0 <= i < 4 ==> direction_ok(#[trigger] directions@[i]),
{
    let mask = generate_sliding_blocker_mask(square, directions);
    let mut candidate = MagicCandidate::new(mask);
    if candidate.bits_in_mask == 0 || candidate.bits_in_mask > 16 {
        return None;
    }
    let mut n: u64 = 0;
    while n < attempts
        invariant
            1 <= candidate.bits_in_mask <= 16,
            square.is_valid(),
            forall|i: int| 0 <= i < 4 ==> direction_ok(#[trigger] directions@[i]),
        decreases attempts - n,
    {
        candidate.update_magic();
        if let Some(size) = check_magic(&candidate, square, directions) {
            return Some((candidate.magic, 64 - candidate.bits_in_mask, size));
        }
        n += 1;
    }
    None
}

} // verus!
