use vstd::prelude::*;
use crate::bits::{deposit, extract, pdep, pext, popcount, lemma_extract_bound};
use crate::bitboard::BitBoard;
use crate::masks::{
    anti_diagonal_mask, diagonal_mask, file_mask, rank_mask, PrecomputedMasks,
    lemma_rook_masks_popcount, lemma_bishop_masks_popcount,
};
use crate::piece::Piece;
use crate::square::Square;
use crate::tables::{SlidingAttackTable, line_attacks, lemma_line_attacks_bound};

verus! {

/// The attacks along one line: the occupancy under `mask` read as a line of eight,
/// looked up at position `idx`, and spread back onto the squares of `mask`.
pub open spec fn line_through(occ: u64, mask: u64, idx: nat) -> u64 {
    deposit(line_attacks(idx, extract(occ as nat, mask as nat)), mask as nat) as u64
}

/// The squares a rook on `s` attacks, along its file and along its rank.
pub open spec fn rook_attacks(s: nat, occ: u64) -> u64 {
    line_through(occ, file_mask(s), s / 8) | line_through(occ, rank_mask(s), s % 8)
}

/// Position of square `s` on its diagonal, counted in ranks from the diagonal's
/// lowest square.
pub open spec fn diagonal_index(s: nat) -> nat {
    if s / 8 <= s % 8 { s / 8 } else { s % 8 }
}

/// Position of square `s` on its anti-diagonal, counted in ranks from the
/// anti-diagonal's lowest square.
pub open spec fn anti_diagonal_index(s: nat) -> nat {
    if s / 8 + s % 8 <= 7 { s / 8 } else { (7 - s % 8) as nat }
}

/// The squares a bishop on `s` attacks, along its two diagonals.
pub open spec fn bishop_attacks(s: nat, occ: u64) -> u64 {
    line_through(occ, diagonal_mask(s), diagonal_index(s)) | line_through(
        occ,
        anti_diagonal_mask(s),
        anti_diagonal_index(s),
    )
}

/// The attacks of a slider at position `index` of the line selected by `mask`.
fn attacks_along(occupancy: u64, mask: u64, index: u8, rank_attacks: &SlidingAttackTable) -> (r: u64)
    requires
        rank_attacks.is_rank_attack_table(),
        index < 8,
        popcount(mask as nat) <= 8,
    ensures
        r == line_through(occupancy, mask, index as nat),
{
    let key = pext(occupancy, mask);
    proof {
        lemma_extract_bound(occupancy as nat, mask as nat);
        vstd::arithmetic::power2::lemma2_to64();
        if popcount(mask as nat) < 8 {
            vstd::arithmetic::power2::lemma_pow2_strictly_increases(popcount(mask as nat), 8);
        }
        lemma_line_attacks_bound(index as nat, key as nat);
        assert(rank_attacks.entry(index as nat, key as nat) == Some(
            line_attacks(index as nat, key as nat) as u64,
        ));
    }
    match rank_attacks.get(index, key) {
        Some(pattern) => pdep(pattern, mask),
        None => 0,
    }
}

/// Squares attacked by a bishop on `square` when `occupancy` holds the pieces.
pub fn get_attack_mask_for_bishop(
    square: Square,
    occupancy: BitBoard,
    rank_attacks: &SlidingAttackTable,
    precomputed_masks: &PrecomputedMasks,
) -> (r: BitBoard)
    requires
        square.wf(),
        rank_attacks.is_rank_attack_table(),
        precomputed_masks.is_complete(),
    ensures
        r.0 == bishop_attacks(square.index_spec(), occupancy.0),
{
    let masks = precomputed_masks.bishop_masks[square.index() as usize];
    proof {
        lemma_bishop_masks_popcount(square.index_spec());
    }
    let rank = square.rank();
    let file = square.file();
    let diagonal_index = if rank <= file { rank } else { file };
    let anti_diagonal_index = if rank + file <= 7 { rank } else { 7 - file };
    let diagonal = attacks_along(occupancy.0, masks.0, diagonal_index, rank_attacks);
    let anti_diagonal = attacks_along(occupancy.0, masks.1, anti_diagonal_index, rank_attacks);
    BitBoard(diagonal | anti_diagonal)
}

/// Squares attacked by a rook on `square` when `occupancy` holds the pieces.
pub fn get_attack_mask_for_rook(
    square: Square,
    occupancy: BitBoard,
    rank_attacks: &SlidingAttackTable,
    precomputed_masks: &PrecomputedMasks,
) -> (r: BitBoard)
    requires
        square.wf(),
        rank_attacks.is_rank_attack_table(),
        precomputed_masks.is_complete(),
    ensures
        r.0 == rook_attacks(square.index_spec(), occupancy.0),
{
    let masks = precomputed_masks.rook_masks[square.index() as usize];
    proof {
        lemma_rook_masks_popcount(square.index_spec());
    }
    let vertical = attacks_along(occupancy.0, masks.0, square.rank(), rank_attacks);
    let horizontal = attacks_along(occupancy.0, masks.1, square.file(), rank_attacks);
    BitBoard(vertical | horizontal)
}

/// Squares attacked by a queen on `square`: those of a rook and of a bishop there.
pub fn get_attack_mask_for_queen(
    square: Square,
    occupancy: BitBoard,
    rank_attacks: &SlidingAttackTable,
    precomputed_masks: &PrecomputedMasks,
) -> (r: BitBoard)
    requires
        square.wf(),
        rank_attacks.is_rank_attack_table(),
        precomputed_masks.is_complete(),
    ensures
        r.0 == bishop_attacks(square.index_spec(), occupancy.0) | rook_attacks(
            square.index_spec(),
            occupancy.0,
        ),
{
    let diagonal = get_attack_mask_for_bishop(square, occupancy, rank_attacks, precomputed_masks);
    let straight = get_attack_mask_for_rook(square, occupancy, rank_attacks, precomputed_masks);
    BitBoard(diagonal.0 | straight.0)
}

/// Entry point for move generation of every kind of piece; it answers the board
/// holding square A1 alone, whatever it is asked.
pub fn fetch_psuedo_legal_moves(piece: Piece, square: Square, occupation: BitBoard) -> (r: BitBoard)
    ensures
        r.0 == 1,
{
    BitBoard(1)
}

} // verus!
