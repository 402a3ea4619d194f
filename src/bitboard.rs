use vstd::prelude::*;
use vstd::std_specs::bits::axiom_u64_trailing_zeros;
use crate::square::Square;

verus! {

/// A set of squares: bit i is set iff square i is in the set.
#[derive(Clone, Copy, Debug, PartialEq, Eq, Structural)]
pub struct Bitboard(pub u64);

pub const EMPTY_BB: u64 = 0;

/// Whether bit `i` of `b` is set.
pub open spec fn bit(b: u64, i: u64) -> bool {
    (b >> i) & 1u64 == 1u64
}

pub proof fn lemma_bit_single(s: u64, i: u64)
    requires
        s < 64,
        i < 64,
    ensures
        bit(1u64 << s, i) <==> i == s,
{
    assert(((1u64 << s) >> i) & 1u64 == 1u64 <==> i == s) by (bit_vector)
        requires
            s < 64,
            i < 64,
    ;
}

/// How union, intersection, complement and symmetric difference act on one bit.
pub proof fn lemma_bit_ops(a: u64, b: u64, i: u64)
    requires
        i < 64,
    ensures
        bit(a | b, i) <==> (bit(a, i) || bit(b, i)),
        bit(a & b, i) <==> (bit(a, i) && bit(b, i)),
        bit(a ^ b, i) <==> (bit(a, i) != bit(b, i)),
        bit(!a, i) <==> !bit(a, i),
        !bit(0u64, i),
{
    assert(((a | b) >> i) & 1u64 == 1u64 <==> ((a >> i) & 1u64 == 1u64 || (b >> i) & 1u64
        == 1u64)) by (bit_vector)
        requires
            i < 64,
    ;
    assert(((a & b) >> i) & 1u64 == 1u64 <==> ((a >> i) & 1u64 == 1u64 && (b >> i) & 1u64
        == 1u64)) by (bit_vector)
        requires
            i < 64,
    ;
    assert(((a ^ b) >> i) & 1u64 == 1u64 <==> ((a >> i) & 1u64 == 1u64) != ((b >> i) & 1u64
        == 1u64)) by (bit_vector)
        requires
            i < 64,
    ;
    assert(((!a) >> i) & 1u64 == 1u64 <==> !((a >> i) & 1u64 == 1u64)) by (bit_vector)
        requires
            i < 64,
    ;
    assert(!((0u64 >> i) & 1u64 == 1u64)) by (bit_vector);
}

/// A set with no bit set is empty, and clearing a set bit makes the number smaller.
pub proof fn lemma_bit_clear_decreases(a: u64, i: u64)
    requires
        i < 64,
        bit(a, i),
    ensures
        a ^ (1u64 << i) < a,
        a != 0,
        (a ^ (1u64 << i)) == a & !(1u64 << i),
{
    assert(a ^ (1u64 << i) < a && a != 0 && (a ^ (1u64 << i)) == a & !(1u64 << i))
        by (bit_vector)
        requires
            i < 64,
            (a >> i) & 1u64 == 1u64,
    ;
}

/// The lowest set bit of a non-empty set.
pub proof fn lemma_lowest_bit(a: u64)
    requires
        a != 0,
    ensures
        a.trailing_zeros() < 64,
        bit(a, a.trailing_zeros() as u64),
        forall|j: u64| j < a.trailing_zeros() ==> !#[trigger] bit(a, j),
        a & (!a).wrapping_add(1) == 1u64 << (a.trailing_zeros() as u64),
{
    broadcast use axiom_u64_trailing_zeros;
    let t = a.trailing_zeros() as u64;
    assert(t < 64);
    assert forall|j: u64| j < a.trailing_zeros() implies !#[trigger] bit(a, j) by {
        assert((a >> j) & 1u64 == 0u64);
    }
    let w = (!a).wrapping_add(1);
    assert(w == (if !a == 0xffff_ffff_ffff_ffffu64 { 0u64 } else { (!a + 1) as u64 }));
    assert(a & w == 1u64 << t) by (bit_vector)
        requires
            t < 64,
            (a >> t) & 1u64 == 1u64,
            t == 0 || a << ((64 - t) as u64) == 0,
            w == (if !a == 0xffff_ffff_ffff_ffffu64 { 0u64 } else { (!a + 1) as u64 }),
    ;
}

impl Bitboard {
    /// Whether the set holds square index `s`.
    pub open spec fn has(self, s: int) -> bool {
        0 <= s < 64 && bit(self.0, s as u64)
    }

    pub fn set_bit(&mut self, square: Square)
        requires
            square.is_valid(),
        ensures
            final(self).0 == old(self).0 | (1u64 << square.index as u64),
            forall|i: int| #[trigger]
                final(self).has(i) <==> (old(self).has(i) || i == square@),
    {
        let b = square.bitboard();
        self.0 = self.0 | b.0;
        proof {
            assert forall|i: int| #[trigger] self.has(i) <==> (old(self).has(i) || i == square@) by {
                if 0 <= i < 64 {
                    lemma_bit_ops(old(self).0, b.0, i as u64);
                    lemma_bit_single(square.index as u64, i as u64);
                }
            }
        }
    }

    pub fn clear_bit(&mut self, square: Square)
        requires
            square.is_valid(),
        ensures
            final(self).0 == old(self).0 & !(1u64 << square.index as u64),
            forall|i: int| #[trigger]
                final(self).has(i) <==> (old(self).has(i) && i != square@),
    {
        let b = square.bitboard();
        self.0 = self.0 & !b.0;
        proof {
            assert forall|i: int| #[trigger] self.has(i) <==> (old(self).has(i) && i != square@) by {
                if 0 <= i < 64 {
                    lemma_bit_ops(old(self).0, !b.0, i as u64);
                    lemma_bit_ops(b.0, b.0, i as u64);
                    lemma_bit_single(square.index as u64, i as u64);
                }
            }
        }
    }

    pub fn is_occupied(self, square: Square) -> (r: bool)
        requires
            square.is_valid(),
        ensures
            r == self.has(square@ as int),
    {
        let b = square.bitboard();
        proof {
            let v = self.0;
            let s = square.index as u64;
            assert((v & (1u64 << s) != 0) <==> (v >> s) & 1u64 == 1u64) by (bit_vector)
                requires
                    s < 64,
            ;
        }
        self.0 & b.0 != 0
    }

    /// Removes the lowest set square and returns it.
    pub fn pop_bit(&mut self) -> (r: Square)
        requires
            old(self).0 != 0,
        ensures
            r.is_valid(),
            old(self).has(r@ as int),
            forall|j: int| 0 <= j < r@ ==> !#[trigger] old(self).has(j),
            final(self).0 < old(self).0,
            final(self).0 == old(self).0 ^ (1u64 << r.index as u64),
            forall|i: int| #[trigger]
                final(self).has(i) <==> (old(self).has(i) && i != r@),
    {
        let square = self.get_lsb_square();
        let b = square.bitboard();
        proof {
            lemma_bit_clear_decreases(self.0, square.index as u64);
        }
        self.0 = self.0 ^ b.0;
        proof {
            assert forall|i: int| #[trigger] self.has(i) <==> (old(self).has(i) && i != square@) by {
                if 0 <= i < 64 {
                    lemma_bit_ops(old(self).0, b.0, i as u64);
                    lemma_bit_single(square.index as u64, i as u64);
                }
            }
        }
        square
    }

    /// The lowest set bit alone (0 for the empty set).
    pub fn get_lsb(self) -> (r: u64)
        ensures
            self.0 != 0 ==> r == 1u64 << (self.0.trailing_zeros() as u64),
            self.0 == 0 ==> r == 0,
    {
        proof {
            if self.0 != 0 {
                lemma_lowest_bit(self.0);
            } else {
                assert(0u64 & (!0u64).wrapping_add(1) == 0) by (bit_vector);
            }
        }
        self.0 & (!self.0).wrapping_add(1)
    }

    /// The lowest square of a non-empty set.
    pub fn get_lsb_square(self) -> (r: Square)
        requires
            self.0 != 0,
        ensures
            r.is_valid(),
            r@ == self.0.trailing_zeros(),
            self.has(r@ as int),
            forall|j: int| 0 <= j < r@ ==> !#[trigger] self.has(j),
    {
        proof {
            lemma_lowest_bit(self.0);
        }
        let t = self.0.trailing_zeros();
        proof {
            assert forall|j: int| 0 <= j < t implies !#[trigger] self.has(j) by {
                assert(!bit(self.0, j as u64));
            }
        }
        Square::from_index(t as usize)
    }
}

} // verus!
