use vstd::prelude::*;
use vstd::arithmetic::power2::{pow2, lemma2_to64, lemma_pow2_pos};
use crate::bits::{popcount, lemma_popcount_split, lemma_popcount_nonzero, lemma_popcount_shift};

verus! {

/// File A: one square on each rank.
pub const FILE_A: u64 = 0x0101010101010101;

/// Rank 1: the eight lowest squares.
pub const RANK_1: u64 = 0xFF;

/// The diagonal from A1 to H8.
pub const MAIN_DIAGONAL: u64 = 0x8040201008040201;

/// The diagonal from H1 to A8.
pub const ANTI_DIAGONAL: u64 = 0x0102040810204080;

/// Whether square `i` is in the set `b`.
pub open spec fn has_square(b: u64, i: u64) -> bool {
    (b >> i) & 1 == 1
}

/// The eight squares sharing the file of square `s`.
pub open spec fn file_mask(s: nat) -> u64 {
    FILE_A << ((s % 8) as u64)
}

/// The eight squares sharing the rank of square `s`.
pub open spec fn rank_mask(s: nat) -> u64 {
    RANK_1 << ((8 * (s / 8)) as u64)
}

/// The squares on the diagonal through `s` that runs from lower left to upper right
/// (file minus rank is constant).
pub open spec fn diagonal_mask(s: nat) -> u64 {
    let f = s % 8;
    let r = s / 8;
    if f >= r {
        MAIN_DIAGONAL >> ((8 * (f - r)) as u64)
    } else {
        MAIN_DIAGONAL << ((8 * (r - f)) as u64)
    }
}

/// The squares on the diagonal through `s` that runs from lower right to upper left
/// (file plus rank is constant).
pub open spec fn anti_diagonal_mask(s: nat) -> u64 {
    let f = s % 8;
    let r = s / 8;
    if f + r >= 7 {
        ANTI_DIAGONAL << ((8 * (f + r - 7)) as u64)
    } else {
        ANTI_DIAGONAL >> ((8 * (7 - f - r)) as u64)
    }
}

/// Line masks of every square: for rooks its file and its rank, for bishops its two
/// diagonals, each indexed by the square's index.
pub struct PrecomputedMasks {
    pub rook_masks: Vec<(u64, u64)>,
    pub bishop_masks: Vec<(u64, u64)>,
}

impl PrecomputedMasks {
    /// Every square holds its file, rank and diagonal masks.
    pub open spec fn is_complete(&self) -> bool {
        &&& self.rook_masks@.len() == 64
        &&& self.bishop_masks@.len() == 64
        &&& forall|s: int|
            0 <= s < 64 ==> #[trigger] self.rook_masks@[s] == (file_mask(s as nat), rank_mask(s as nat))
        &&& forall|s: int|
            0 <= s < 64 ==> #[trigger] self.bishop_masks@[s] == (
                diagonal_mask(s as nat),
                anti_diagonal_mask(s as nat),
            )
    }
}

/// Computes the line masks of all 64 squares.
pub fn precompute_masks() -> (r: PrecomputedMasks)
    ensures
        r.is_complete(),
{
    let mut rook_masks: Vec<(u64, u64)> = Vec::new();
    let mut bishop_masks: Vec<(u64, u64)> = Vec::new();
    let mut s: u64 = 0;
    while s < 64
        invariant
            s <= 64,
            rook_masks@.len() == s,
            bishop_masks@.len() == s,
            forall|t: int|
                0 <= t < s ==> #[trigger] rook_masks@[t] == (file_mask(t as nat), rank_mask(t as nat)),
            forall|t: int|
                0 <= t < s ==> #[trigger] bishop_masks@[t] == (
                    diagonal_mask(t as nat),
                    anti_diagonal_mask(t as nat),
                ),
        decreases 64 - s,
    {
        let file = s % 8;
        let rank = s / 8;
        rook_masks.push((FILE_A << file, RANK_1 << (8 * rank)));
        let diagonal = if file >= rank {
            MAIN_DIAGONAL >> (8 * (file - rank))
        } else {
            MAIN_DIAGONAL << (8 * (rank - file))
        };
        let anti_diagonal = if file + rank >= 7 {
            ANTI_DIAGONAL << (8 * (file + rank - 7))
        } else {
            ANTI_DIAGONAL >> (8 * (7 - file - rank))
        };
        bishop_masks.push((diagonal, anti_diagonal));
        s += 1;
    }
    PrecomputedMasks { rook_masks, bishop_masks }
}

/// The file mask of a square holds exactly the squares of its file, the rank mask
/// those of its rank, and the two diagonal masks those of its two diagonals.
pub proof fn lemma_mask_members(s: u64, i: u64)
    requires
        s < 64,
        i < 64,
    ensures
        has_square(file_mask(s as nat), i) <==> i % 8 == s % 8,
        has_square(rank_mask(s as nat), i) <==> i / 8 == s / 8,
        has_square(diagonal_mask(s as nat), i) <==> i % 8 + s / 8 == s % 8 + i / 8,
        has_square(anti_diagonal_mask(s as nat), i) <==> i % 8 + i / 8 == s % 8 + s / 8,
{
    let f: u64 = s % 8;
    let r: u64 = s / 8;
    let a: u64 = i % 8;
    let b: u64 = i / 8;
    assert(i == 8 * b + a);
    lemma_bits_members(f, r, a, b, i);
}

proof fn lemma_bits_members(f: u64, r: u64, a: u64, b: u64, i: u64)
    requires
        f < 8,
        r < 8,
        a < 8,
        b < 8,
        i == 8 * b + a,
    ensures
        ((FILE_A << f) >> i) & 1 == 1 <==> a == f,
        ((RANK_1 << ((8 * r) as u64)) >> i) & 1 == 1 <==> b == r,
        f >= r ==> (((MAIN_DIAGONAL >> ((8 * (f - r)) as u64)) >> i) & 1 == 1 <==> a + r == f + b),
        f < r ==> (((MAIN_DIAGONAL << ((8 * (r - f)) as u64)) >> i) & 1 == 1 <==> a + r == f + b),
        f + r >= 7 ==> (((ANTI_DIAGONAL << ((8 * (f + r - 7)) as u64)) >> i) & 1 == 1 <==> a + b == f + r),
        f + r < 7 ==> (((ANTI_DIAGONAL >> ((8 * (7 - f - r)) as u64)) >> i) & 1 == 1 <==> a + b == f + r),
{
    assert(((0x0101010101010101u64 << f) >> i) & 1 == 1 <==> a == f) by (bit_vector)
        requires
            f < 8,
            a < 8,
            b < 8,
            i == 8 * b + a,
    ;
    assert(((0xFFu64 << ((8 * r) as u64)) >> i) & 1 == 1 <==> b == r) by (bit_vector)
        requires
            r < 8,
            a < 8,
            b < 8,
            i == 8 * b + a,
    ;
    assert(f >= r ==> (((0x8040201008040201u64 >> ((8 * (f - r)) as u64)) >> i) & 1 == 1 <==> a + r == f + b)) by (bit_vector)
        requires
            f < 8,
            r < 8,
            a < 8,
            b < 8,
            i == 8 * b + a,
    ;
    assert(f < r ==> (((0x8040201008040201u64 << ((8 * (r - f)) as u64)) >> i) & 1 == 1 <==> a + r == f + b)) by (bit_vector)
        requires
            f < 8,
            r < 8,
            a < 8,
            b < 8,
            i == 8 * b + a,
    ;
    assert(f + r >= 7 ==> (((0x0102040810204080u64 << ((8 * (f + r - 7)) as u64)) >> i) & 1 == 1 <==> a + b == f + r)) by (bit_vector)
        requires
            f < 8,
            r < 8,
            a < 8,
            b < 8,
            i == 8 * b + a,
    ;
    assert(f + r < 7 ==> (((0x0102040810204080u64 >> ((8 * (7 - f - r)) as u64)) >> i) & 1 == 1 <==> a + b == f + r)) by (bit_vector)
        requires
            f < 8,
            r < 8,
            a < 8,
            b < 8,
            i == 8 * b + a,
    ;
}

/// Two complete sets of masks hold the same masks for every square.
pub proof fn lemma_masks_unique(a: PrecomputedMasks, b: PrecomputedMasks)
    requires
        a.is_complete(),
        b.is_complete(),
    ensures
        a.rook_masks@ == b.rook_masks@,
        a.bishop_masks@ == b.bishop_masks@,
{
    assert(a.rook_masks@ =~= b.rook_masks@);
    assert(a.bishop_masks@ =~= b.bishop_masks@);
}

proof fn lemma_popcount_file_a()
    ensures
        popcount(FILE_A as nat) == 8,
{
    lemma2_to64();
    reveal_with_fuel(popcount, 2);
    assert(popcount(1) == 1);
    lemma_popcount_split(1, 1, 8);
    lemma_popcount_split(0x0101, 1, 8);
    lemma_popcount_split(0x010101, 1, 8);
    lemma_popcount_split(0x01010101, 1, 8);
    lemma_popcount_split(0x0101010101, 1, 8);
    lemma_popcount_split(0x010101010101, 1, 8);
    lemma_popcount_split(0x01010101010101, 1, 8);
}

/// Every file mask and every rank mask holds eight squares.
pub proof fn lemma_rook_masks_popcount(s: nat)
    requires
        s < 64,
    ensures
        popcount(file_mask(s) as nat) == 8,
        popcount(rank_mask(s) as nat) == 8,
{
    lemma2_to64();
    let f: u64 = (s % 8) as u64;
    let k: u64 = (8 * (s / 8)) as u64;
    lemma_pow2_pos(f as nat);
    lemma_pow2_pos(k as nat);
    vstd::arithmetic::power2::lemma2_to64_rest();
    if f < 7 {
        vstd::arithmetic::power2::lemma_pow2_strictly_increases(f as nat, 7);
    }
    if k < 56 {
        vstd::arithmetic::power2::lemma_pow2_strictly_increases(k as nat, 56);
    }
    assert(FILE_A * pow2(f as nat) <= FILE_A * pow2(7)) by (nonlinear_arith)
        requires
            pow2(f as nat) <= pow2(7),
    ;
    assert(RANK_1 * pow2(k as nat) <= RANK_1 * pow2(56)) by (nonlinear_arith)
        requires
            pow2(k as nat) <= pow2(56),
    ;
    vstd::bits::lemma_u64_shl_is_mul(FILE_A, f);
    vstd::bits::lemma_u64_shl_is_mul(RANK_1, k);
    lemma_popcount_file_a();
    lemma_popcount_split(FILE_A as nat, 0, f as nat);
    reveal_with_fuel(popcount, 9);
    assert(popcount(RANK_1 as nat) == 8);
    lemma_popcount_split(RANK_1 as nat, 0, k as nat);
}

proof fn lemma_popcount_diagonals()
    ensures
        popcount(MAIN_DIAGONAL as nat) == 8,
        popcount(ANTI_DIAGONAL as nat) == 8,
{
    lemma2_to64();
    reveal_with_fuel(popcount, 2);
    assert(popcount(1) == 1);
    lemma_popcount_split(1, 1, 9);
    lemma_popcount_split(0x201, 1, 9);
    lemma_popcount_split(0x40201, 1, 9);
    lemma_popcount_split(0x8040201, 1, 9);
    lemma_popcount_split(0x1008040201, 1, 9);
    lemma_popcount_split(0x201008040201, 1, 9);
    lemma_popcount_split(0x40201008040201, 1, 9);
    lemma_popcount_split(1, 1, 7);
    lemma_popcount_split(0x81, 1, 7);
    lemma_popcount_split(0x4081, 1, 7);
    lemma_popcount_split(0x204081, 1, 7);
    lemma_popcount_split(0x10204081, 1, 7);
    lemma_popcount_split(0x810204081, 1, 7);
    lemma_popcount_split(0x40810204081, 1, 7);
    lemma_popcount_split(0x2040810204081, 0, 7);
}

/// Every diagonal mask of a square holds that square, and between one and eight
/// squares in all.
pub proof fn lemma_bishop_masks_popcount(s: nat)
    requires
        s < 64,
    ensures
        has_square(diagonal_mask(s), s as u64),
        has_square(anti_diagonal_mask(s), s as u64),
        1 <= popcount(diagonal_mask(s) as nat) <= 8,
        1 <= popcount(anti_diagonal_mask(s) as nat) <= 8,
{
    lemma_popcount_diagonals();
    let f = s % 8;
    let r = s / 8;
    if f >= r {
        lemma_popcount_shift(MAIN_DIAGONAL, (8 * (f - r)) as u64);
    } else {
        lemma_popcount_shift(MAIN_DIAGONAL, (8 * (r - f)) as u64);
    }
    if f + r >= 7 {
        lemma_popcount_shift(ANTI_DIAGONAL, (8 * (f + r - 7)) as u64);
    } else {
        lemma_popcount_shift(ANTI_DIAGONAL, (8 * (7 - f - r)) as u64);
    }
    lemma_masks_hold_origin(s as u64);
    let d = diagonal_mask(s);
    let a = anti_diagonal_mask(s);
    let i = s as u64;
    assert((d >> i) & 1 == 1 ==> d != 0) by (bit_vector);
    assert((a >> i) & 1 == 1 ==> a != 0) by (bit_vector);
    lemma_popcount_nonzero(d as nat);
    lemma_popcount_nonzero(a as nat);
}

/// Each of the four line masks of a square holds the square itself.
pub proof fn lemma_masks_hold_origin(s: u64)
    requires
        s < 64,
    ensures
        has_square(file_mask(s as nat), s),
        has_square(rank_mask(s as nat), s),
        has_square(diagonal_mask(s as nat), s),
        has_square(anti_diagonal_mask(s as nat), s),
{
    let f: u64 = s % 8;
    let r: u64 = s / 8;
    assert(f < 8 && r < 8);
    let p: u64 = s;
    assert(p == 8 * r + f);
    lemma_bits_hold_origin(f, r, p);
}

proof fn lemma_bits_hold_origin(f: u64, r: u64, p: u64)
    requires
        f < 8,
        r < 8,
        p == 8 * r + f,
    ensures
        ((FILE_A << f) >> p) & 1 == 1,
        ((RANK_1 << ((8 * r) as u64)) >> p) & 1 == 1,
        f >= r ==> ((MAIN_DIAGONAL >> ((8 * (f - r)) as u64)) >> p) & 1 == 1,
        f < r ==> ((MAIN_DIAGONAL << ((8 * (r - f)) as u64)) >> p) & 1 == 1,
        f + r >= 7 ==> ((ANTI_DIAGONAL << ((8 * (f + r - 7)) as u64)) >> p) & 1 == 1,
        f + r < 7 ==> ((ANTI_DIAGONAL >> ((8 * (7 - f - r)) as u64)) >> p) & 1 == 1,
{
    assert(((0x0101010101010101u64 << f) >> p) & 1 == 1) by (bit_vector)
        requires
            f < 8,
            r < 8,
            p == 8 * r + f,
    ;
    assert(((0xFFu64 << ((8 * r) as u64)) >> p) & 1 == 1) by (bit_vector)
        requires
            f < 8,
            r < 8,
            p == 8 * r + f,
    ;
    assert(f >= r ==> ((0x8040201008040201u64 >> ((8 * (f - r)) as u64)) >> p) & 1 == 1) by (bit_vector)
        requires
            f < 8,
            r < 8,
            p == 8 * r + f,
    ;
    assert(f < r ==> ((0x8040201008040201u64 << ((8 * (r - f)) as u64)) >> p) & 1 == 1) by (bit_vector)
        requires
            f < 8,
            r < 8,
            p == 8 * r + f,
    ;
    assert(f + r >= 7 ==> ((0x0102040810204080u64 << ((8 * (f + r - 7)) as u64)) >> p) & 1 == 1) by (bit_vector)
        requires
            f < 8,
            r < 8,
            p == 8 * r + f,
    ;
    assert(f + r < 7 ==> ((0x0102040810204080u64 >> ((8 * (7 - f - r)) as u64)) >> p) & 1 == 1) by (bit_vector)
        requires
            f < 8,
            r < 8,
            p == 8 * r + f,
    ;
}

} // verus!
