use vstd::prelude::*;
use crate::piece::{Color, Piece};

verus! {

/// The content of one square of the board.
#[derive(Clone, Copy, Debug, PartialEq, Eq)]
pub enum Tile {
    Empty,
    Occupied { piece: Piece, color: Color },
}

} // verus!
