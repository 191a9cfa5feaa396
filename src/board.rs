use vstd::prelude::*;
use crate::bitboard::BitBoard;

verus! {

/// One set of squares for each kind and colour of piece, and the unions of them.
pub struct Board {
    pub white_pieces: BitBoard,
    pub black_pieces: BitBoard,
    pub white_pawns: BitBoard,
    pub black_pawns: BitBoard,
    pub white_knights: BitBoard,
    pub black_knights: BitBoard,
    pub white_bishops: BitBoard,
    pub black_bishops: BitBoard,
    pub white_rooks: BitBoard,
    pub black_rooks: BitBoard,
    pub white_queens: BitBoard,
    pub black_queens: BitBoard,
    pub white_king: BitBoard,
    pub black_king: BitBoard,
    pub all_pieces: BitBoard,
}

impl Board {
    /// The union fields agree with the sets of the single pieces.
    pub open spec fn is_consistent(&self) -> bool {
        &&& self.white_pieces.0 == self.white_pawns.0 | self.white_knights.0 | self.white_bishops.0
            | self.white_rooks.0 | self.white_queens.0 | self.white_king.0
        &&& self.black_pieces.0 == self.black_pawns.0 | self.black_knights.0 | self.black_bishops.0
            | self.black_rooks.0 | self.black_queens.0 | self.black_king.0
        &&& self.all_pieces.0 == self.white_pieces.0 | self.black_pieces.0
    }

    /// The starting position.
    pub fn new() -> (r: Self)
        ensures
            r.white_pawns.0 == 0xFF00,
            r.black_pawns.0 == 0x00FF000000000000,
            r.white_knights.0 == 0x42,
            r.black_knights.0 == 0x4200000000000000,
            r.white_bishops.0 == 0x24,
            r.black_bishops.0 == 0x2400000000000000,
            r.white_rooks.0 == 0x81,
            r.black_rooks.0 == 0x8100000000000000,
            r.white_queens.0 == 0x08,
            r.black_queens.0 == 0x0800000000000000,
            r.white_king.0 == 0x10,
            r.black_king.0 == 0x1000000000000000,
            r.white_pieces.0 == 0xFFFF,
            r.black_pieces.0 == 0xFFFF000000000000,
            r.all_pieces.0 == 0xFFFF00000000FFFF,
            r.is_consistent(),
    {
        let r = Board {
            white_pieces: BitBoard(0x000000000000FFFF),
            black_pieces: BitBoard(0xFFFF000000000000),
            all_pieces: BitBoard(0xFFFF00000000FFFF),
            white_pawns: BitBoard(0x000000000000FF00),
            black_pawns: BitBoard(0x00FF000000000000),
            white_knights: BitBoard(0x0000000000000042),
            black_knights: BitBoard(0x4200000000000000),
            white_bishops: BitBoard(0x0000000000000024),
            black_bishops: BitBoard(0x2400000000000000),
            white_rooks: BitBoard(0x0000000000000081),
            black_rooks: BitBoard(0x8100000000000000),
            white_queens: BitBoard(0x0000000000000008),
            black_queens: BitBoard(0x0800000000000000),
            white_king: BitBoard(0x0000000000000010),
            black_king: BitBoard(0x1000000000000000),
        };
        assert(0xFF00u64 | 0x42u64 | 0x24u64 | 0x81u64 | 0x08u64 | 0x10u64 == 0xFFFFu64) by (bit_vector);
        assert(0x00FF000000000000u64 | 0x4200000000000000u64 | 0x2400000000000000u64
            | 0x8100000000000000u64 | 0x0800000000000000u64 | 0x1000000000000000u64
            == 0xFFFF000000000000u64) by (bit_vector);
        assert(0xFFFFu64 | 0xFFFF000000000000u64 == 0xFFFF00000000FFFFu64) by (bit_vector);
        r
    }

    /// Recomputes the union fields from the sets of the single pieces.
    pub fn update(&mut self)
        ensures
            final(self).is_consistent(),
            final(self).white_pawns == old(self).white_pawns,
            final(self).black_pawns == old(self).black_pawns,
            final(self).white_knights == old(self).white_knights,
            final(self).black_knights == old(self).black_knights,
            final(self).white_bishops == old(self).white_bishops,
            final(self).black_bishops == old(self).black_bishops,
            final(self).white_rooks == old(self).white_rooks,
            final(self).black_rooks == old(self).black_rooks,
            final(self).white_queens == old(self).white_queens,
            final(self).black_queens == old(self).black_queens,
            final(self).white_king == old(self).white_king,
            final(self).black_king == old(self).black_king,
    {
        self.white_pieces = BitBoard(self.white_pawns.0 | self.white_knights.0 | self.white_bishops.0
            | self.white_rooks.0 | self.white_queens.0 | self.white_king.0);
        self.black_pieces = BitBoard(self.black_pawns.0 | self.black_knights.0 | self.black_bishops.0
            | self.black_rooks.0 | self.black_queens.0 | self.black_king.0);
        self.all_pieces = BitBoard(self.white_pieces.0 | self.black_pieces.0);
    }
}

} // verus!
