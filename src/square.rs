use vstd::prelude::*;

verus! {

/// A square of the board, numbered 0 (A1) to 63 (H8) rank by rank.
#[derive(Clone, Copy, Debug, PartialEq, Eq, Hash)]
pub struct Square {
    index: u8,
}

impl Square {
    pub closed spec fn index_spec(self) -> nat {
        self.index as nat
    }

    pub closed spec fn wf(self) -> bool {
        self.index < 64
    }

    /// The square with the given index.
    pub fn from_index(index: u8) -> (r: Square)
        requires
            index < 64,
        ensures
            r.wf(),
            r.index_spec() == index,
    {
        Square { index }
    }

    /// The square with the given index, or `None` when the index is not below 64.
    pub fn try_from_index(index: u8) -> (r: Option<Square>)
        ensures
            r.is_some() <==> index < 64,
            r matches Some(s) ==> s.wf() && s.index_spec() == index,
    {
        if index < 64 {
            Some(Square { index })
        } else {
            None
        }
    }

    pub fn index(self) -> (r: u8)
        ensures
            r == self.index_spec(),
            self.wf() ==> r < 64,
    {
        self.index
    }

    /// The square's name: its file as a lowercase letter, then its rank as a digit
    /// from 1 to 8, as in "e4".
    pub fn algebraic(self) -> (r: (char, char))
        requires
            self.wf(),
        ensures
            r.0 as u32 == 97 + self.index_spec() % 8,
            r.1 as u32 == 49 + self.index_spec() / 8,
    {
        let file = (97 + self.file()) as char;
        let rank = (49 + self.rank()) as char;
        (file, rank)
    }

    /// The file of the square, 0 for file A to 7 for file H.
    pub fn file(self) -> (r: u8)
        requires
            self.wf(),
        ensures
            r == self.index_spec() % 8,
            r < 8,
    {
        let i = self.index;
        let r = i & 7;
        assert(i & 7 == i % 8) by (bit_vector);
        r
    }

    /// The rank of the square, 0 for rank 1 to 7 for rank 8.
    pub fn rank(self) -> (r: u8)
        requires
            self.wf(),
        ensures
            r == self.index_spec() / 8,
            r < 8,
    {
        let i = self.index;
        let r = i >> 3;
        assert(i >> 3 == i / 8) by (bit_vector);
        r
    }
}

/// Rebuilding a square from its rank and file gives the square back: the index
/// `rank * 8 + file` is in range, and the one square with that index is `s`.
pub proof fn lemma_rank_file_round_trip(s: Square)
    requires
        s.wf(),
    ensures
        (s.index_spec() / 8) * 8 + s.index_spec() % 8 < 64,
        forall|t: Square|
            #[trigger] t.index_spec() == (s.index_spec() / 8) * 8 + s.index_spec() % 8 ==> t == s,
{
}

} // verus!
