use vstd::prelude::*;
use crate::bitboard::{Bitboard, bit};
use crate::magics::{
    MagicNumber, bishop_magic, magic_fits, rook_magic, spec_magic_index,
    BISHOP_ATTACK_TABLE_SIZE, ROOK_ATTACK_TABLE_SIZE,
};
use crate::square::{Side, Square};

verus! {

pub const NOT_A_FILE: u64 = 18374403900871474942u64;
pub const NOT_H_FILE: u64 = 9187201950435737471u64;
pub const NOT_AB_FILE: u64 = 18229723555195321596u64;
pub const NOT_GH_FILE: u64 = 4557430888798830399u64;
pub const RANK_4_MASK: u64 = 4278190080u64;
pub const RANK_5_MASK: u64 = 1095216660480u64;

pub open spec fn spec_pawn_pushes(side: Side, s: nat) -> u64 {
    let b = 1u64 << (s as u64);
    match side {
        Side::White => b << 8u64,
        Side::Black => b >> 8u64,
    }
}

pub open spec fn spec_pawn_attacks(side: Side, s: nat) -> u64 {
    let b = 1u64 << (s as u64);
    match side {
        Side::White => ((b << 9u64) & NOT_A_FILE) | ((b << 7u64) & NOT_H_FILE),
        Side::Black => ((b >> 7u64) & NOT_A_FILE) | ((b >> 9u64) & NOT_H_FILE),
    }
}

pub open spec fn spec_knight_attacks(s: nat) -> u64 {
    let b = 1u64 << (s as u64);
    ((b << 17u64) & NOT_A_FILE) | ((b << 15u64) & NOT_H_FILE) | ((b << 10u64) & NOT_AB_FILE) | ((b
        << 6u64) & NOT_GH_FILE) | ((b >> 15u64) & NOT_A_FILE) | ((b >> 17u64) & NOT_H_FILE) | ((b
        >> 6u64) & NOT_AB_FILE) | ((b >> 10u64) & NOT_GH_FILE)
}

pub open spec fn east_one(b: u64) -> u64 {
    (b << 1u64) & NOT_A_FILE
}

pub open spec fn west_one(b: u64) -> u64 {
    (b >> 1u64) & NOT_H_FILE
}

/// King attacks by the parallel-prefix method: east and west, then north and south of both.
pub open spec fn spec_king_attacks(s: nat) -> u64 {
    let k = 1u64 << (s as u64);
    let a = east_one(k) | west_one(k);
    let k2 = k | a;
    a | (k2 << 8u64) | (k2 >> 8u64)
}

/// The square a single pawn push from `square` reaches (as a set; empty off the board).
pub fn pawn_pushes(side: Side, square: usize) -> (r: Bitboard)
    requires
        square < 64,
    ensures
        r.0 == spec_pawn_pushes(side, square as nat),
{
    let b = 1u64 << (square as u64);
    match side {
        Side::White => Bitboard(b << 8),
        Side::Black => Bitboard(b >> 8),
    }
}

/// The squares a pawn of `side` on `square` attacks.
pub fn pawn_attacks(side: Side, square: usize) -> (r: Bitboard)
    requires
        square < 64,
    ensures
        r.0 == spec_pawn_attacks(side, square as nat),
{
    let b = 1u64 << (square as u64);
    match side {
        Side::White => Bitboard(((b << 9) & NOT_A_FILE) | ((b << 7) & NOT_H_FILE)),
        Side::Black => Bitboard(((b >> 7) & NOT_A_FILE) | ((b >> 9) & NOT_H_FILE)),
    }
}

/// The eight knight hops from `square`, masked against wrapping round the board.
pub fn knight_attacks(square: usize) -> (r: Bitboard)
    requires
        square < 64,
    ensures
        r.0 == spec_knight_attacks(square as nat),
{
    let b = 1u64 << (square as u64);
    Bitboard(((b << 17) & NOT_A_FILE) | ((b << 15) & NOT_H_FILE) | ((b << 10) & NOT_AB_FILE) | ((b
        << 6) & NOT_GH_FILE) | ((b >> 15) & NOT_A_FILE) | ((b >> 17) & NOT_H_FILE) | ((b >> 6)
        & NOT_AB_FILE) | ((b >> 10) & NOT_GH_FILE))
}

/// The eight squares round `square`.
pub fn king_attacks(square: usize) -> (r: Bitboard)
    requires
        square < 64,
    ensures
        r.0 == spec_king_attacks(square as nat),
{
    let k = 1u64 << (square as u64);
    let a = ((k << 1) & NOT_A_FILE) | ((k >> 1) & NOT_H_FILE);
    let k2 = k | a;
    Bitboard(a | (k2 << 8) | (k2 >> 8))
}

pub fn rook_directions() -> (r: [(i32, i32); 4])
    ensures
        r@ == seq![(1i32, 0i32), (0i32, 1i32), (-1i32, 0i32), (0i32, -1i32)],
{
    let r = [(1i32, 0i32), (0i32, 1i32), (-1i32, 0i32), (0i32, -1i32)];
    proof {
        assert(r@ =~= seq![(1i32, 0i32), (0i32, 1i32), (-1i32, 0i32), (0i32, -1i32)]);
    }
    r
}

pub fn bishop_directions() -> (r: [(i32, i32); 4])
    ensures
        r@ == seq![(1i32, 1i32), (1i32, -1i32), (-1i32, 1i32), (-1i32, -1i32)],
{
    let r = [(1i32, 1i32), (1i32, -1i32), (-1i32, 1i32), (-1i32, -1i32)];
    proof {
        assert(r@ =~= seq![(1i32, 1i32), (1i32, -1i32), (-1i32, 1i32), (-1i32, -1i32)]);
    }
    r
}

pub open spec fn on_board(rank: int, file: int) -> bool {
    0 <= rank <= 7 && 0 <= file <= 7
}

pub open spec fn direction_ok(d: (i32, i32)) -> bool {
    -1 <= d.0 <= 1 && -1 <= d.1 <= 1
}

/// Whether the ray from `(r0, f0)` in direction `d` reaches square `t` after exactly `k` steps.
pub open spec fn ray_hits(r0: int, f0: int, d: (i32, i32), k: int, t: int) -> bool {
    k >= 1 && on_board(r0 + k * d.0, f0 + k * d.1) && t == (r0 + k * d.0) * 8 + (f0 + k * d.1)
}

/// Step `j` of the ray from `s` in direction `d` can block: it and the step after it are
/// both on the board (the last square of a ray never matters).
pub open spec fn ray_inner(s: int, d: (i32, i32), j: int) -> bool {
    &&& 0 <= j <= 7
    &&& on_board(ray_rank(s, d, j), ray_file(s, d, j))
    &&& on_board(ray_rank(s, d, j + 1), ray_file(s, d, j + 1))
}

/// Square `t` is in the blocker mask of a slider on `s` moving along `dirs`.
pub open spec fn in_blocker_mask(s: int, dirs: Seq<(i32, i32)>, t: int) -> bool {
    t != s && exists|i: int, j: int| 0 <= i < 4 && #[trigger] ray_inner(s, dirs[i], j) && t == ray_sq(s, dirs[i], j)
}

/// The squares whose occupancy can block a slider on `square`: every ray square but the
/// last one on the board in each direction.
pub fn generate_sliding_blocker_mask(square: Square, directions: [(i32, i32); 4]) -> (r: Bitboard)
    requires
        square.is_valid(),
        forall|i: int| 0 <= i < 4 ==> direction_ok(#[trigger] directions@[i]),
    ensures
        !r.has(square@ as int),
        forall|t: int| 0 <= t < 64 ==> (#[trigger] r.has(t) <==> in_blocker_mask(square@ as int, directions@, t)),
{
    let ghost s = square@ as int;
    let ghost dirs = directions@;
    let mut blockers = Bitboard(0);
    let start_rank = (square.index / 8) as i32;
    let start_file = (square.index % 8) as i32;
    proof {
        assert forall|t: int| 0 <= t < 64 implies !#[trigger] blockers.has(t) by {
            crate::bitboard::lemma_bit_ops(0, 0, t as u64);
        }
    }
    let mut d: usize = 0;
    while d < 4
        invariant
            0 <= start_rank <= 7,
            0 <= start_file <= 7,
            start_rank == s / 8,
            start_file == s % 8,
            0 <= s < 64,
            d <= 4,
            dirs == directions@,
            forall|i: int| 0 <= i < 4 ==> direction_ok(#[trigger] directions@[i]),
            forall|t: int| 0 <= t < 64 ==> (#[trigger] blockers.has(t) <==> exists|i: int, j: int|
                0 <= i < d && #[trigger] ray_inner(s, dirs[i], j) && t == ray_sq(s, dirs[i], j)),
        decreases 4 - d,
    {
        let (dr, df) = directions[d];
        let ghost dir = dirs[d as int];
        let ghost a0 = blockers;
        let mut rank = start_rank;
        let mut file = start_file;
        let mut steps: u32 = 0;
        proof {
            lemma_ray_step(s, dir, 0);
        }
        while steps < 8
            invariant_except_break
                steps < 8,
                on_board(rank as int, file as int),
                rank == ray_rank(s, dir, steps as int),
                file == ray_file(s, dir, steps as int),
                forall|i: int| 0 <= i <= steps ==> on_board(#[trigger] ray_rank(s, dir, i), ray_file(s, dir, i)),
                forall|t: int| 0 <= t < 64 ==> (#[trigger] blockers.has(t) <==> (a0.has(t) || exists|j: int|
                    0 <= j < steps && t == ray_sq(s, dir, j))),
            invariant
                dir == (dr, df),
                direction_ok(dir),
                0 <= s < 64,
                steps <= 8,
            ensures
                forall|t: int| 0 <= t < 64 ==> (#[trigger] blockers.has(t) <==> (a0.has(t) || exists|j: int|
                    #[trigger] ray_inner(s, dir, j) && t == ray_sq(s, dir, j))),
            decreases 8 - steps,
        {
            let ghost k = steps as int;
            let next = (rank * 8 + file) as usize;
            proof {
                lemma_ray_step(s, dir, k);
            }
            rank = rank + dr;
            file = file + df;
            if 0 <= rank && rank <= 7 && 0 <= file && file <= 7 {
                let ghost before = blockers;
                blockers.set_bit(Square::from_index(next));
                proof {
                    assert forall|t: int| 0 <= t < 64 implies (#[trigger] blockers.has(t) <==> (a0.has(t) || exists|j: int|
                        0 <= j <= k && t == ray_sq(s, dir, j))) by {
                        if t == next as int {
                            assert(t == ray_sq(s, dir, k));
                        }
                        if exists|j: int| 0 <= j <= k && t == ray_sq(s, dir, j) {
                            let j = choose|j: int| 0 <= j <= k && t == ray_sq(s, dir, j);
                            if j < k {
                                assert(before.has(t));
                            }
                        }
                    }
                }
            } else {
                proof {
                    assert forall|t: int| 0 <= t < 64 implies (#[trigger] blockers.has(t) <==> (a0.has(t) || exists|j: int|
                        #[trigger] ray_inner(s, dir, j) && t == ray_sq(s, dir, j))) by {
                        if exists|j: int| #[trigger] ray_inner(s, dir, j) && t == ray_sq(s, dir, j) {
                            let j = choose|j: int| #[trigger] ray_inner(s, dir, j) && t == ray_sq(s, dir, j);
                            if j >= k {
                                lemma_ray_leaves(s, dir, k + 1, j + 1);
                            }
                        }
                        if exists|j: int| 0 <= j < k && t == ray_sq(s, dir, j) {
                            let j = choose|j: int| 0 <= j < k && t == ray_sq(s, dir, j);
                            assert(ray_inner(s, dir, j));
                        }
                    }
                }
                break;
            }
            steps += 1;
            if steps == 8 {
                proof {
                    assert forall|t: int| 0 <= t < 64 implies (#[trigger] blockers.has(t) <==> (a0.has(t) || exists|j: int|
                        #[trigger] ray_inner(s, dir, j) && t == ray_sq(s, dir, j))) by {
                        if exists|j: int| 0 <= j < 8 && t == ray_sq(s, dir, j) {
                            let j = choose|j: int| 0 <= j < 8 && t == ray_sq(s, dir, j);
                            assert(ray_inner(s, dir, j));
                        }
                    }
                }
                break;
            }
        }
        proof {
            assert forall|t: int| 0 <= t < 64 implies (#[trigger] blockers.has(t) <==> exists|i: int, j: int|
                0 <= i < d + 1 && #[trigger] ray_inner(s, dirs[i], j) && t == ray_sq(s, dirs[i], j)) by {
                if exists|i: int, j: int| 0 <= i < d + 1 && #[trigger] ray_inner(s, dirs[i], j) && t == ray_sq(s, dirs[i], j) {
                    let (i, j) = choose|i: int, j: int| 0 <= i < d + 1 && #[trigger] ray_inner(s, dirs[i], j) && t == ray_sq(s, dirs[i], j);
                    if i < d {
                        assert(a0.has(t));
                    }
                }
            }
        }
        d += 1;
    }
    let mut bb = blockers;
    bb.clear_bit(square);
    bb
}

pub open spec fn ray_rank(s: int, d: (i32, i32), k: int) -> int {
    s / 8 + k * d.0
}

pub open spec fn ray_file(s: int, d: (i32, i32), k: int) -> int {
    s % 8 + k * d.1
}

/// The square `k` steps from `s` in direction `d`.
pub open spec fn ray_sq(s: int, d: (i32, i32), k: int) -> int {
    ray_rank(s, d, k) * 8 + ray_file(s, d, k)
}

/// Step `j` of the ray from `s` in direction `d` is reached: it is on the board and no
/// earlier square of the ray (the start included) is in `blockers`.
pub open spec fn ray_reaches(s: int, blockers: u64, d: (i32, i32), j: int) -> bool {
    &&& 0 <= j <= 7
    &&& on_board(ray_rank(s, d, j), ray_file(s, d, j))
    &&& forall|i: int| 0 <= i < j ==> !#[trigger] bit(blockers, ray_sq(s, d, i) as u64)
}

/// Square `t` is attacked by a slider on `s` moving along `dirs`: some ray reaches it, the
/// first blocker on each ray included.
pub open spec fn slide_attacked(s: int, blockers: u64, dirs: Seq<(i32, i32)>, t: int) -> bool {
    t != s && exists|i: int, j: int| 0 <= i < 4 && #[trigger] ray_reaches(s, blockers, dirs[i], j) && t == ray_sq(s, dirs[i], j)
}

/// Once a ray has left the board it stays off it.
proof fn lemma_unit_mul(k: int, x: int)
    requires
        -1 <= x <= 1,
    ensures
        k * x == (if x == 1 { k } else if x == -1 { -k } else { 0 }),
{
    if x == 1 {
        assert(k * x == k) by (nonlinear_arith)
            requires
                x == 1,
        ;
    } else if x == -1 {
        assert(k * x == -k) by (nonlinear_arith)
            requires
                x == -1,
        ;
    } else {
        assert(k * x == 0) by (nonlinear_arith)
            requires
                x == 0,
        ;
    }
}

/// Once a ray has left the board it stays off it.
proof fn lemma_ray_leaves(s: int, d: (i32, i32), a: int, b: int)
    requires
        0 <= s < 64,
        direction_ok(d),
        0 <= a <= b,
        !on_board(ray_rank(s, d, a), ray_file(s, d, a)),
    ensures
        !on_board(ray_rank(s, d, b), ray_file(s, d, b)),
{
    lemma_unit_mul(a, d.0 as int);
    lemma_unit_mul(b, d.0 as int);
    lemma_unit_mul(a, d.1 as int);
    lemma_unit_mul(b, d.1 as int);
}

proof fn lemma_ray_step(s: int, d: (i32, i32), k: int)
    ensures
        ray_rank(s, d, k + 1) == ray_rank(s, d, k) + d.0,
        ray_file(s, d, k + 1) == ray_file(s, d, k) + d.1,
        ray_rank(s, d, 0) == s / 8,
        ray_file(s, d, 0) == s % 8,
{
    assert((k + 1) * d.0 == k * d.0 + d.0) by (nonlinear_arith);
    assert((k + 1) * d.1 == k * d.1 + d.1) by (nonlinear_arith);
}

/// The squares a slider on `square` attacks along the four directions, each ray stopping at
/// (and including) the first square in `blockers`.
pub fn generate_sliding_attack_mask(square: Square, blockers: Bitboard, directions: [(i32, i32); 4]) -> (r: Bitboard)
    requires
        square.is_valid(),
        forall|i: int| 0 <= i < 4 ==> direction_ok(#[trigger] directions@[i]),
    ensures
        !r.has(square@ as int),
        forall|t: int| 0 <= t < 64 ==> (#[trigger] r.has(t) <==> slide_attacked(square@ as int, blockers.0, directions@, t)),
{
    let ghost s = square@ as int;
    let ghost dirs = directions@;
    let mut attacks = Bitboard(0);
    let start_rank = (square.index / 8) as i32;
    let start_file = (square.index % 8) as i32;
    proof {
        assert forall|t: int| 0 <= t < 64 implies !#[trigger] attacks.has(t) by {
            crate::bitboard::lemma_bit_ops(0, 0, t as u64);
        }
    }
    let mut d: usize = 0;
    while d < 4
        invariant
            0 <= start_rank <= 7,
            0 <= start_file <= 7,
            start_rank == s / 8,
            start_file == s % 8,
            0 <= s < 64,
            d <= 4,
            dirs == directions@,
            forall|i: int| 0 <= i < 4 ==> direction_ok(#[trigger] directions@[i]),
            forall|t: int| 0 <= t < 64 ==> (#[trigger] attacks.has(t) <==> exists|i: int, j: int|
                0 <= i < d && #[trigger] ray_reaches(s, blockers.0, dirs[i], j) && t == ray_sq(s, dirs[i], j)),
        decreases 4 - d,
    {
        let (dr, df) = directions[d];
        let ghost dir = dirs[d as int];
        let ghost a0 = attacks;
        let mut rank = start_rank;
        let mut file = start_file;
        let mut steps: u32 = 0;
        proof {
            lemma_ray_step(s, dir, 0);
        }
        while steps < 8
            invariant_except_break
                steps < 8,
                on_board(rank as int, file as int),
                rank == ray_rank(s, dir, steps as int),
                file == ray_file(s, dir, steps as int),
                forall|i: int| 0 <= i < steps ==> !#[trigger] bit(blockers.0, ray_sq(s, dir, i) as u64),
                forall|i: int| 0 <= i < steps ==> on_board(#[trigger] ray_rank(s, dir, i), ray_file(s, dir, i)),
                forall|t: int| 0 <= t < 64 ==> (#[trigger] attacks.has(t) <==> (a0.has(t) || exists|j: int|
                    0 <= j < steps && t == ray_sq(s, dir, j))),
            invariant
                dir == (dr, df),
                direction_ok(dir),
                0 <= s < 64,
                steps <= 8,
            ensures
                forall|t: int| 0 <= t < 64 ==> (#[trigger] attacks.has(t) <==> (a0.has(t) || exists|j: int|
                    #[trigger] ray_reaches(s, blockers.0, dir, j) && t == ray_sq(s, dir, j))),
            decreases 8 - steps,
        {
            let ghost k = steps as int;
            let next = (rank * 8 + file) as usize;
            let nsq = Square::from_index(next);
            let ghost before = attacks;
            attacks.set_bit(nsq);
            proof {
                lemma_ray_step(s, dir, k);
                assert forall|t: int| 0 <= t < 64 implies (#[trigger] attacks.has(t) <==> (a0.has(t) || exists|j: int|
                    0 <= j <= k && t == ray_sq(s, dir, j))) by {
                    if t == next as int {
                        assert(t == ray_sq(s, dir, k));
                    }
                    if exists|j: int| 0 <= j <= k && t == ray_sq(s, dir, j) {
                        let j = choose|j: int| 0 <= j <= k && t == ray_sq(s, dir, j);
                        if j < k {
                            assert(before.has(t));
                        }
                    }
                }
            }
            rank = rank + dr;
            file = file + df;
            if !(0 <= rank && rank <= 7 && 0 <= file && file <= 7) {
                proof {
                    assert forall|t: int| 0 <= t < 64 implies (#[trigger] attacks.has(t) <==> (a0.has(t) || exists|j: int|
                        #[trigger] ray_reaches(s, blockers.0, dir, j) && t == ray_sq(s, dir, j))) by {
                        if exists|j: int| #[trigger] ray_reaches(s, blockers.0, dir, j) && t == ray_sq(s, dir, j) {
                            let j = choose|j: int| #[trigger] ray_reaches(s, blockers.0, dir, j) && t == ray_sq(s, dir, j);
                            if j > k {
                                lemma_ray_leaves(s, dir, k + 1, j);
                            }
                        }
                        if exists|j: int| 0 <= j <= k && t == ray_sq(s, dir, j) {
                            let j = choose|j: int| 0 <= j <= k && t == ray_sq(s, dir, j);
                            assert(ray_reaches(s, blockers.0, dir, j));
                        }
                    }
                }
                break;
            }
            if blockers.is_occupied(nsq) {
                proof {
                    assert(bit(blockers.0, ray_sq(s, dir, k) as u64));
                    assert forall|t: int| 0 <= t < 64 implies (#[trigger] attacks.has(t) <==> (a0.has(t) || exists|j: int|
                        #[trigger] ray_reaches(s, blockers.0, dir, j) && t == ray_sq(s, dir, j))) by {
                        if exists|j: int| #[trigger] ray_reaches(s, blockers.0, dir, j) && t == ray_sq(s, dir, j) {
                            let j = choose|j: int| #[trigger] ray_reaches(s, blockers.0, dir, j) && t == ray_sq(s, dir, j);
                            if j > k {
                                assert(!bit(blockers.0, ray_sq(s, dir, k) as u64));
                            }
                        }
                        if exists|j: int| 0 <= j <= k && t == ray_sq(s, dir, j) {
                            let j = choose|j: int| 0 <= j <= k && t == ray_sq(s, dir, j);
                            assert(ray_reaches(s, blockers.0, dir, j));
                        }
                    }
                }
                break;
            }
            steps += 1;
            if steps == 8 {
                proof {
                    assert forall|t: int| 0 <= t < 64 implies (#[trigger] attacks.has(t) <==> (a0.has(t) || exists|j: int|
                        #[trigger] ray_reaches(s, blockers.0, dir, j) && t == ray_sq(s, dir, j))) by {
                        if exists|j: int| 0 <= j < 8 && t == ray_sq(s, dir, j) {
                            let j = choose|j: int| 0 <= j < 8 && t == ray_sq(s, dir, j);
                            assert(ray_reaches(s, blockers.0, dir, j));
                        }
                    }
                }
                break;
            }
        }
        proof {
            assert forall|t: int| 0 <= t < 64 implies (#[trigger] attacks.has(t) <==> exists|i: int, j: int|
                0 <= i < d + 1 && #[trigger] ray_reaches(s, blockers.0, dirs[i], j) && t == ray_sq(s, dirs[i], j)) by {
                if exists|i: int, j: int| 0 <= i < d + 1 && #[trigger] ray_reaches(s, blockers.0, dirs[i], j) && t == ray_sq(s, dirs[i], j) {
                    let (i, j) = choose|i: int, j: int| 0 <= i < d + 1 && #[trigger] ray_reaches(s, blockers.0, dirs[i], j) && t == ray_sq(s, dirs[i], j);
                    if i < d {
                        assert(a0.has(t));
                    }
                }
            }
        }
        d += 1;
    }
    let mut bb = attacks;
    bb.clear_bit(square);
    bb
}

/// The next subset of `mask` after `b` in increasing order (0 after the last).
pub open spec fn next_subset(b: u64, mask: u64) -> u64 {
    (vstd::wrapping::u64_specs::wrapping_sub(b, mask)) & mask
}

pub proof fn lemma_next_subset(b: u64, mask: u64)
    requires
        b & !mask == 0,
    ensures
        next_subset(b, mask) == 0 || next_subset(b, mask) > b,
        next_subset(b, mask) & !mask == 0,
{
    let w = vstd::wrapping::u64_specs::wrapping_sub(b, mask);
    assert(w == (if b >= mask { (b - mask) as u64 } else { (b - mask + 0x1_0000_0000_0000_0000) as u64 }));
    assert((w & mask) == 0 || (w & mask) > b) by (bit_vector)
        requires
            b & !mask == 0,
            w == (if b >= mask { (b - mask) as u64 } else { (b - mask + 0x1_0000_0000_0000_0000) as u64 }),
    ;
    assert((w & mask) & !mask == 0) by (bit_vector);
}

/// The subset after `b` is the smallest subset of `mask` above `b`.
pub proof fn lemma_next_subset_least(b: u64, mask: u64, c: u64)
    requires
        b & !mask == 0,
        c & !mask == 0,
        b < c,
    ensures
        next_subset(b, mask) != 0,
        next_subset(b, mask) <= c,
{
    let w = vstd::wrapping::u64_specs::wrapping_sub(b, mask);
    assert(w == (if b >= mask { (b - mask) as u64 } else { (b - mask + 0x1_0000_0000_0000_0000) as u64 }));
    assert((w & mask) != 0 && (w & mask) <= c) by (bit_vector)
        requires
            b & !mask == 0,
            c & !mask == 0,
            b < c,
            w == (if b >= mask { (b - mask) as u64 } else { (b - mask + 0x1_0000_0000_0000_0000) as u64 }),
    ;
}

pub open spec fn rook_dirs() -> Seq<(i32, i32)> {
    seq![(1i32, 0i32), (0i32, 1i32), (-1i32, 0i32), (0i32, -1i32)]
}

pub open spec fn bishop_dirs() -> Seq<(i32, i32)> {
    seq![(1i32, 1i32), (1i32, -1i32), (-1i32, 1i32), (-1i32, -1i32)]
}

/// The table slot of blocker set `c` under magic `m` holds exactly the slider attacks from
/// `s` with blockers `c`.
pub open spec fn entry_ok(table: Seq<u64>, m: MagicNumber, s: int, c: u64, dirs: Seq<(i32, i32)>) -> bool {
    forall|t: int| 0 <= t < 64 ==> (#[trigger] bit(table[spec_magic_index(m, c) as int], t as u64) <==> slide_attacked(s, c, dirs, t))
}

/// The slot of blocker set `c` is claimed and holds the right attacks.
pub open spec fn slot_ok(table: Seq<u64>, written: Seq<bool>, m: MagicNumber, s: int, c: u64, dirs: Seq<(i32, i32)>) -> bool {
    entry_ok(table, m, s, c, dirs) && written[spec_magic_index(m, c) as int]
}

pub proof fn lemma_index_in_table(m: MagicNumber, c: u64, size: nat)
    requires
        magic_fits(m, size),
    ensures
        spec_magic_index(m, c) < size,
{
    crate::magics::lemma_shift_bound(vstd::wrapping::u64_specs::wrapping_mul(m.magic, c), m.shift);
}

/// Every blocker set of every square's mask finds its attacks in the table.
pub open spec fn table_ok(table: Seq<u64>, magics: Seq<MagicNumber>, masks: Seq<u64>, dirs: Seq<(i32, i32)>) -> bool {
    forall|s: int, c: u64| 0 <= s < 64 && c & !masks[s] == 0 ==> #[trigger] entry_ok(table, magics[s], s, c, dirs)
}

/// Each mask is the blocker mask of its square.
pub open spec fn masks_ok(masks: Seq<u64>, dirs: Seq<(i32, i32)>) -> bool {
    forall|s: int, t: int| 0 <= s < 64 && 0 <= t < 64 ==> (#[trigger] bit(masks[s], t as u64) <==> in_blocker_mask(s, dirs, t))
}

pub proof fn lemma_masked_subset(o: u64, m: u64)
    ensures
        (o & m) & !m == 0,
{
    assert((o & m) & !m == 0) by (bit_vector);
}

/// Precomputed sliding attacks for every square and every blocker pattern, looked up by
/// fancy magic hashing. Building the tables checks that no two blocker sets of a square
/// that need different attacks share a slot; should that check fail, lookups walk the
/// rays instead.
pub struct MoveGenerator {
    rook_magics: Vec<MagicNumber>,
    bishop_magics: Vec<MagicNumber>,
    rook_masks: Vec<u64>,
    bishop_masks: Vec<u64>,
    rook_attacks: Vec<u64>,
    bishop_attacks: Vec<u64>,
    rook_table_ok: bool,
    bishop_table_ok: bool,
}

impl MoveGenerator {
    pub closed spec fn wf(&self) -> bool {
        &&& self.rook_magics@.len() == 64
        &&& self.bishop_magics@.len() == 64
        &&& self.rook_masks@.len() == 64
        &&& self.bishop_masks@.len() == 64
        &&& self.rook_attacks@.len() == ROOK_ATTACK_TABLE_SIZE
        &&& self.bishop_attacks@.len() == BISHOP_ATTACK_TABLE_SIZE
        &&& forall|s: int| 0 <= s < 64 ==> magic_fits(#[trigger] self.rook_magics@[s], ROOK_ATTACK_TABLE_SIZE as nat)
        &&& forall|s: int| 0 <= s < 64 ==> magic_fits(#[trigger] self.bishop_magics@[s], BISHOP_ATTACK_TABLE_SIZE as nat)
        &&& masks_ok(self.rook_masks@, rook_dirs())
        &&& masks_ok(self.bishop_masks@, bishop_dirs())
        &&& self.rook_table_ok ==> table_ok(self.rook_attacks@, self.rook_magics@, self.rook_masks@, rook_dirs())
        &&& self.bishop_table_ok ==> table_ok(self.bishop_attacks@, self.bishop_magics@, self.bishop_masks@, bishop_dirs())
    }

    pub closed spec fn rook_table(&self) -> Seq<u64> {
        self.rook_attacks@
    }

    pub closed spec fn bishop_table(&self) -> Seq<u64> {
        self.bishop_attacks@
    }

    /// The rook blocker mask of square `s`.
    pub closed spec fn spec_rook_mask(&self, s: nat) -> u64 {
        self.rook_masks@[s as int]
    }

    /// The bishop blocker mask of square `s`.
    pub closed spec fn spec_bishop_mask(&self, s: nat) -> u64 {
        self.bishop_masks@[s as int]
    }

    /// A rook on `s` attacks `t` on a board with `occupancy`.
    pub open spec fn spec_rook_attacked(&self, s: nat, occupancy: u64, t: int) -> bool {
        slide_attacked(s as int, occupancy & self.spec_rook_mask(s), rook_dirs(), t)
    }

    /// A bishop on `s` attacks `t` on a board with `occupancy`.
    pub open spec fn spec_bishop_attacked(&self, s: nat, occupancy: u64, t: int) -> bool {
        slide_attacked(s as int, occupancy & self.spec_bishop_mask(s), bishop_dirs(), t)
    }

    pub fn new() -> (r: MoveGenerator)
        ensures
            r.wf(),
    {
        let mut rook_magics: Vec<MagicNumber> = Vec::new();
        let mut bishop_magics: Vec<MagicNumber> = Vec::new();
        let mut rook_masks: Vec<u64> = Vec::new();
        let mut bishop_masks: Vec<u64> = Vec::new();
        let mut s: usize = 0;
        while s < 64
            invariant
                s <= 64,
                rook_magics@.len() == s,
                bishop_magics@.len() == s,
                rook_masks@.len() == s,
                bishop_masks@.len() == s,
                forall|i: int| 0 <= i < s ==> magic_fits(#[trigger] rook_magics@[i], ROOK_ATTACK_TABLE_SIZE as nat),
                forall|i: int| 0 <= i < s ==> magic_fits(#[trigger] bishop_magics@[i], BISHOP_ATTACK_TABLE_SIZE as nat),
                forall|i: int, t: int| 0 <= i < s && 0 <= t < 64 ==> (#[trigger] bit(rook_masks@[i], t as u64) <==> in_blocker_mask(i, rook_dirs(), t)),
                forall|i: int, t: int| 0 <= i < s && 0 <= t < 64 ==> (#[trigger] bit(bishop_masks@[i], t as u64) <==> in_blocker_mask(i, bishop_dirs(), t)),
            decreases 64 - s,
        {
            rook_magics.push(rook_magic(s));
            bishop_magics.push(bishop_magic(s));
            let rm = generate_sliding_blocker_mask(Square::from_index(s), rook_directions());
            let bm = generate_sliding_blocker_mask(Square::from_index(s), bishop_directions());
            rook_masks.push(rm.0);
            bishop_masks.push(bm.0);
            proof {
                assert forall|i: int, t: int| 0 <= i < s + 1 && 0 <= t < 64 implies (#[trigger] bit(rook_masks@[i], t as u64)
                    <==> in_blocker_mask(i, rook_dirs(), t)) by {
                    if i == s {
                        assert(rm.has(t) == bit(rm.0, t as u64));
                    }
                }
                assert forall|i: int, t: int| 0 <= i < s + 1 && 0 <= t < 64 implies (#[trigger] bit(bishop_masks@[i], t as u64)
                    <==> in_blocker_mask(i, bishop_dirs(), t)) by {
                    if i == s {
                        assert(bm.has(t) == bit(bm.0, t as u64));
                    }
                }
            }
            s += 1;
        }
        let (rook_attacks, rook_table_ok) = build_attack_table(&rook_magics, &rook_masks, rook_directions(), ROOK_ATTACK_TABLE_SIZE);
        let (bishop_attacks, bishop_table_ok) = build_attack_table(&bishop_magics, &bishop_masks, bishop_directions(), BISHOP_ATTACK_TABLE_SIZE);
        MoveGenerator {
            rook_magics,
            bishop_magics,
            rook_masks,
            bishop_masks,
            rook_attacks,
            bishop_attacks,
            rook_table_ok,
            bishop_table_ok,
        }
    }

    pub fn get_rook_attacks(&self, magic_index: usize) -> (r: Bitboard)
        requires
            self.wf(),
            magic_index < ROOK_ATTACK_TABLE_SIZE,
        ensures
            r.0 == self.rook_table()[magic_index as int],
    {
        Bitboard(self.rook_attacks[magic_index])
    }

    pub fn get_bishop_attacks(&self, magic_index: usize) -> (r: Bitboard)
        requires
            self.wf(),
            magic_index < BISHOP_ATTACK_TABLE_SIZE,
        ensures
            r.0 == self.bishop_table()[magic_index as int],
    {
        Bitboard(self.bishop_attacks[magic_index])
    }

    /// Rook attacks from `square` given all occupied squares: the rays stop at the first
    /// occupied square of the blocker mask, which they include.
    pub fn rook_attacks_from(&self, square: usize, occupancy: u64) -> (r: Bitboard)
        requires
            self.wf(),
            square < 64,
        ensures
            forall|t: int| 0 <= t < 64 ==> (#[trigger] r.has(t) <==> self.spec_rook_attacked(square as nat, occupancy, t)),
            forall|t: int| 0 <= t < 64 ==> (#[trigger] bit(self.spec_rook_mask(square as nat), t as u64) <==> in_blocker_mask(square as int, rook_dirs(), t)),
    {
        let mask = self.rook_masks[square];
        let blockers = occupancy & mask;
        if self.rook_table_ok {
            let magic = self.rook_magics[square];
            let index = magic.get_magic_index(Bitboard(blockers));
            proof {
                lemma_masked_subset(occupancy, mask);
                assert(entry_ok(self.rook_attacks@, self.rook_magics@[square as int], square as int, blockers, rook_dirs()));
            }
            Bitboard(self.rook_attacks[index])
        } else {
            generate_sliding_attack_mask(Square::from_index(square), Bitboard(blockers), rook_directions())
        }
    }

    /// Bishop attacks from `square` given all occupied squares: the rays stop at the first
    /// occupied square of the blocker mask, which they include.
    pub fn bishop_attacks_from(&self, square: usize, occupancy: u64) -> (r: Bitboard)
        requires
            self.wf(),
            square < 64,
        ensures
            forall|t: int| 0 <= t < 64 ==> (#[trigger] r.has(t) <==> self.spec_bishop_attacked(square as nat, occupancy, t)),
            forall|t: int| 0 <= t < 64 ==> (#[trigger] bit(self.spec_bishop_mask(square as nat), t as u64) <==> in_blocker_mask(square as int, bishop_dirs(), t)),
    {
        let mask = self.bishop_masks[square];
        let blockers = occupancy & mask;
        if self.bishop_table_ok {
            let magic = self.bishop_magics[square];
            let index = magic.get_magic_index(Bitboard(blockers));
            proof {
                lemma_masked_subset(occupancy, mask);
                assert(entry_ok(self.bishop_attacks@, self.bishop_magics@[square as int], square as int, blockers, bishop_dirs()));
            }
            Bitboard(self.bishop_attacks[index])
        } else {
            generate_sliding_attack_mask(Square::from_index(square), Bitboard(blockers), bishop_directions())
        }
    }
}

/// Fills one shared attack table: for each square, walks every subset of its blocker mask
/// (in increasing order) and stores the ray attacks at the subset's magic index. Returns
/// whether no slot was claimed by two subsets needing different attacks; if so, every
/// subset finds its attacks in the table.
fn build_attack_table(magics: &Vec<MagicNumber>, masks: &Vec<u64>, directions: [(i32, i32); 4], size: usize) -> (r: (Vec<u64>, bool))
    requires
        magics@.len() == 64,
        masks@.len() == 64,
        size <= 200000,
        forall|s: int| 0 <= s < 64 ==> magic_fits(#[trigger] magics@[s], size as nat),
        forall|i: int| 0 <= i < 4 ==> direction_ok(#[trigger] directions@[i]),
    ensures
        r.0@.len() == size,
        r.1 ==> table_ok(r.0@, magics@, masks@, directions@),
{
    let mut table: Vec<u64> = vec![0u64; size];
    let mut written: Vec<bool> = vec![false; size];
    let ghost dirs = directions@;
    let mut s: usize = 0;
    while s < 64
        invariant
            s <= 64,
            table@.len() == size,
            written@.len() == size,
            magics@.len() == 64,
            masks@.len() == 64,
            size <= 200000,
            dirs == directions@,
            forall|q: int| 0 <= q < 64 ==> magic_fits(#[trigger] magics@[q], size as nat),
            forall|i: int| 0 <= i < 4 ==> direction_ok(#[trigger] directions@[i]),
            forall|q: int, c: u64| 0 <= q < s && c & !masks@[q] == 0 ==> #[trigger] slot_ok(table@, written@, magics@[q], q, c, dirs),
        decreases 64 - s,
    {
        let magic = magics[s];
        let mask = masks[s];
        let mut blockers: u64 = 0;
        proof {
            assert(0u64 & !mask == 0) by (bit_vector);
        }
        loop
            invariant
                table@.len() == size,
                written@.len() == size,
                magic == magics@[s as int],
                mask == masks@[s as int],
                magics@.len() == 64,
                masks@.len() == 64,
                magic_fits(magic, size as nat),
                size <= 200000,
                blockers & !mask == 0,
                s < 64,
                dirs == directions@,
                forall|q: int| 0 <= q < 64 ==> magic_fits(#[trigger] magics@[q], size as nat),
                forall|i: int| 0 <= i < 4 ==> direction_ok(#[trigger] directions@[i]),
                forall|q: int, c: u64| 0 <= q < s && c & !masks@[q] == 0 ==> #[trigger] slot_ok(table@, written@, magics@[q], q, c, dirs),
                forall|c: u64| c & !mask == 0 && c < blockers ==> #[trigger] slot_ok(table@, written@, magic, s as int, c, dirs),
            ensures
                forall|q: int, c: u64| 0 <= q <= s && c & !masks@[q] == 0 ==> #[trigger] slot_ok(table@, written@, magics@[q], q, c, dirs),
                table@.len() == size,
                written@.len() == size,
            decreases u64::MAX - blockers,
        {
            let attacks = generate_sliding_attack_mask(Square::from_index(s), Bitboard(blockers), directions);
            let index = magic.get_magic_index(Bitboard(blockers));
            let ghost old_table = table@;
            let ghost old_written = written@;
            if written[index] {
                if table[index] != attacks.0 {
                    return (table, false);
                }
            } else {
                table.set(index, attacks.0);
                written.set(index, true);
            }
            proof {
                assert forall|t: int| 0 <= t < 64 implies (#[trigger] bit(table@[index as int], t as u64) <==> slide_attacked(s as int, blockers, dirs, t)) by {
                    assert(attacks.has(t) == bit(attacks.0, t as u64));
                }
                assert(entry_ok(table@, magic, s as int, blockers, dirs));
                assert forall|q: int, c: u64| 0 <= q < s && c & !masks@[q] == 0 implies #[trigger] slot_ok(table@, written@, magics@[q], q, c, dirs) by {
                    assert(slot_ok(old_table, old_written, magics@[q], q, c, dirs));
                    lemma_index_in_table(magics@[q], c, size as nat);
                    assert(table@[spec_magic_index(magics@[q], c) as int] == old_table[spec_magic_index(magics@[q], c) as int]);
                }
                assert forall|c: u64| c & !mask == 0 && c < blockers implies #[trigger] slot_ok(table@, written@, magic, s as int, c, dirs) by {
                    assert(slot_ok(old_table, old_written, magic, s as int, c, dirs));
                    lemma_index_in_table(magic, c, size as nat);
                    assert(table@[spec_magic_index(magic, c) as int] == old_table[spec_magic_index(magic, c) as int]);
                }
                assert(slot_ok(table@, written@, magic, s as int, blockers, dirs));
                lemma_next_subset(blockers, mask);
            }
            let next = blockers.wrapping_sub(mask) & mask;
            if next == 0 {
                proof {
                    assert forall|q: int, c: u64| 0 <= q <= s && c & !masks@[q] == 0 implies #[trigger] slot_ok(table@, written@, magics@[q], q, c, dirs) by {
                        if q == s {
                            if c > blockers {
                                lemma_next_subset_least(blockers, mask, c);
                            }
                        }
                    }
                }
                break;
            }
            proof {
                assert forall|c: u64| c & !mask == 0 && c < next implies #[trigger] slot_ok(table@, written@, magic, s as int, c, dirs) by {
                    if c > blockers {
                        lemma_next_subset_least(blockers, mask, c);
                    }
                }
            }
            blockers = next;
        }
        s += 1;
    }
    proof {
        assert forall|q: int, c: u64| 0 <= q < 64 && c & !masks@[q] == 0 implies #[trigger] entry_ok(table@, magics@[q], q, c, dirs) by {
            assert(slot_ok(table@, written@, magics@[q], q, c, dirs));
        }
    }
    (table, true)
}

} // verus!
