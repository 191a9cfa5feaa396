use vstd::prelude::*;
use crate::masks::has_square;
use crate::square::Square;
use vstd::string::StringSliceAdditionalSpecFns;

verus! {

/// A set of squares: bit `i` stands for the square with index `i`.
#[derive(Clone, Copy, Debug, PartialEq, Eq)]
pub struct BitBoard(pub u64);

impl BitBoard {
    /// An empty board.
    pub fn new() -> (r: BitBoard)
        ensures
            r.0 == 0,
    {
        BitBoard(0)
    }

    /// The board holding every square.
    pub fn full() -> (r: BitBoard)
        ensures
            r.0 == 0xFFFF_FFFF_FFFF_FFFF,
    {
        BitBoard(0xFFFF_FFFF_FFFF_FFFF)
    }

    /// This board with the square `index` added.
    pub fn set_bit(self, index: u8) -> (r: BitBoard)
        requires
            index < 64,
        ensures
            r.0 == self.0 | (1u64 << index),
    {
        BitBoard(self.0 | (1u64 << index))
    }

    /// The squares of both boards.
    pub fn union(self, other: BitBoard) -> (r: BitBoard)
        ensures
            r.0 == self.0 | other.0,
    {
        BitBoard(self.0 | other.0)
    }

    /// The squares common to both boards.
    pub fn intersection(self, other: BitBoard) -> (r: BitBoard)
        ensures
            r.0 == self.0 & other.0,
    {
        BitBoard(self.0 & other.0)
    }

    /// This board with its lowest square removed; the empty board stays empty.
    pub fn pop_lsb(self) -> (r: BitBoard)
        ensures
            self.0 != 0 ==> r.0 == self.0 & ((self.0 - 1) as u64),
            self.0 == 0 ==> r.0 == 0,
    {
        if self.0 == 0 {
            BitBoard(0)
        } else {
            BitBoard(self.0 & (self.0 - 1))
        }
    }

    /// The squares of this board, each once, in increasing order of index.
    pub fn iter_squares(self) -> (r: Vec<Square>)
        ensures
            forall|k: int| 0 <= k < r@.len() ==> #[trigger] r@[k].wf(),
            forall|k: int, l: int| 0 <= k < l < r@.len() ==> r@[k].index_spec() < r@[l].index_spec(),
            forall|i: u64|
                i < 64 ==> (has_square(self.0, i) <==> exists|k: int|
                    0 <= k < r@.len() && #[trigger] r@[k].index_spec() == i),
    {
        let mut r: Vec<Square> = Vec::new();
        let mut i: u8 = 0;
        while i < 64
            invariant
                i <= 64,
                forall|k: int| 0 <= k < r@.len() ==> #[trigger] r@[k].wf(),
                forall|k: int| 0 <= k < r@.len() ==> #[trigger] r@[k].index_spec() < i,
                forall|k: int, l: int| 0 <= k < l < r@.len() ==> r@[k].index_spec() < r@[l].index_spec(),
                forall|j: u64|
                    j < i ==> (has_square(self.0, j) <==> exists|k: int|
                        0 <= k < r@.len() && #[trigger] r@[k].index_spec() == j),
            decreases 64 - i,
        {
            let present = (self.0 >> (i as u64)) & 1 == 1;
            let ghost before = r@;
            if present {
                let sq = Square::from_index(i);
                r.push(sq);
            }
            proof {
                assert forall|j: u64|
                    j < i + 1 implies (has_square(self.0, j) <==> exists|k: int|
                        0 <= k < r@.len() && #[trigger] r@[k].index_spec() == j) by {
                    if has_square(self.0, j) {
                        if j == i {
                            assert(r@[r@.len() - 1].index_spec() == j);
                        } else {
                            let k = choose|k: int| 0 <= k < before.len() && #[trigger] before[k].index_spec() == j;
                            assert(r@[k] == before[k]);
                        }
                    }
                    if exists|k: int| 0 <= k < r@.len() && #[trigger] r@[k].index_spec() == j {
                        let k = choose|k: int| 0 <= k < r@.len() && #[trigger] r@[k].index_spec() == j;
                        if k < before.len() {
                            assert(before[k].index_spec() == j);
                        }
                    }
                }
            }
            i += 1;
        }
        r
    }

    /// The board holding the one square named by a file letter `A`..`H` and a rank
    /// digit `1`..`8`, as in "A4"; `None` for any other text.
    pub fn from_square(square: &str) -> (r: Option<BitBoard>)
        ensures
            r.is_some() <==> square_name_ok(square.spec_bytes()),
            r matches Some(b) ==> b.0 == 1u64 << square_name_index(square.spec_bytes()),
    {
        let bytes = square.as_bytes();
        if bytes.len() != 2 {
            return None;
        }
        let letter = bytes[0];
        let digit = bytes[1];
        if letter < 65 || letter > 72 || digit < 49 || digit > 56 {
            return None;
        }
        let index: u64 = (digit - 49) as u64 * 8 + (letter - 65) as u64;
        Some(BitBoard(1u64 << index))
    }
}

/// The squares of `b` as an 8 by 8 grid in the order a board is drawn: row 0 is
/// rank 8, row 7 is rank 1, and within a row column 0 is file A.
pub fn bitboard_grid(b: u64) -> (r: Vec<Vec<bool>>)
    ensures
        r@.len() == 8,
        forall|i: int| 0 <= i < 8 ==> (#[trigger] r@[i])@.len() == 8,
        forall|i: int, j: int|
            0 <= i < 8 && 0 <= j < 8 ==> r@[i]@[j] == has_square(b, ((7 - i) * 8 + j) as u64),
{
    let mut rows: Vec<Vec<bool>> = Vec::new();
    let mut i: u64 = 0;
    while i < 8
        invariant
            i <= 8,
            rows@.len() == i,
            forall|k: int| 0 <= k < i ==> (#[trigger] rows@[k])@.len() == 8,
            forall|k: int, j: int|
                0 <= k < i && 0 <= j < 8 ==> rows@[k]@[j] == has_square(b, ((7 - k) * 8 + j) as u64),
        decreases 8 - i,
    {
        let mut row: Vec<bool> = Vec::new();
        let mut j: u64 = 0;
        while j < 8
            invariant
                i < 8,
                j <= 8,
                row@.len() == j,
                forall|m: int| 0 <= m < j ==> row@[m] == has_square(b, ((7 - i) * 8 + m) as u64),
            decreases 8 - j,
        {
            row.push((b >> ((7 - i) * 8 + j)) & 1 == 1);
            j += 1;
        }
        rows.push(row);
        i += 1;
    }
    rows
}

/// Whether the bytes are a file letter `A`..`H` followed by a rank digit `1`..`8`.
pub open spec fn square_name_ok(b: Seq<u8>) -> bool {
    b.len() == 2 && 65 <= b[0] <= 72 && 49 <= b[1] <= 56
}

/// The index of the square named by the bytes `b`.
pub open spec fn square_name_index(b: Seq<u8>) -> u64 {
    ((b[1] - 49) * 8 + (b[0] - 65)) as u64
}

} // verus!
