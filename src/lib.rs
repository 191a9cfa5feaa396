pub mod bitboard;
pub mod bits;
pub mod board;
pub mod masks;
pub mod movegen;
pub mod piece;
pub mod square;
pub mod tables;
pub mod tile;
