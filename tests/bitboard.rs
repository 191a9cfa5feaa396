use slider_attacks::bitboard::{bitboard_grid, BitBoard};
use slider_attacks::square::Square;
use slider_attacks::board::Board;

#[test]
fn from_square_a4() {
    assert_eq!(BitBoard::from_square("A4"), Some(BitBoard(0x0000000001000000)));
    assert_eq!(BitBoard::from_square("E4"), Some(BitBoard(0x0000000010000000)));
    assert_eq!(BitBoard::from_square("A1"), Some(BitBoard(1)));
    assert_eq!(BitBoard::from_square("H8"), Some(BitBoard(1u64 << 63)));
}

#[test]
fn from_square_malformed() {
    assert_eq!(BitBoard::from_square(""), None);
    assert_eq!(BitBoard::from_square("A"), None);
    assert_eq!(BitBoard::from_square("A44"), None);
    assert_eq!(BitBoard::from_square("I4"), None);
    assert_eq!(BitBoard::from_square("A9"), None);
    assert_eq!(BitBoard::from_square("A0"), None);
    assert_eq!(BitBoard::from_square("a4"), None);
}

#[test]
fn iterates_squares_in_order() {
    let b = BitBoard(0x8000000000000005);
    let idx: Vec<u8> = b.iter_squares().iter().map(|s| s.index()).collect();
    assert_eq!(idx, vec![0, 2, 63]);
    assert!(BitBoard::new().iter_squares().is_empty());
    assert_eq!(BitBoard(u64::MAX).iter_squares().len(), 64);
}

#[test]
fn pop_lsb_and_set_bit() {
    assert_eq!(BitBoard(0b1100).pop_lsb(), BitBoard(0b1000));
    assert_eq!(BitBoard(0).pop_lsb(), BitBoard(0));
    assert_eq!(BitBoard::new().set_bit(5), BitBoard(32));
    assert_eq!(BitBoard(1).union(BitBoard(2)), BitBoard(3));
    assert_eq!(BitBoard(3).intersection(BitBoard(6)), BitBoard(2));
}

#[test]
fn board_start_and_update() {
    let mut b = Board::new();
    assert_eq!(b.all_pieces.0, 0xFFFF00000000FFFF);
    b.white_pawns = BitBoard(0x0000000010000000);
    b.update();
    assert_eq!(b.white_pieces.0, 0x100000FF);
    assert_eq!(b.all_pieces.0, 0xFFFF0000100000FF);
}

#[test]
fn grid_puts_rank_eight_on_top() {
    // A1 and H8
    let g = bitboard_grid(1 | (1u64 << 63));
    assert_eq!(g.len(), 8);
    assert_eq!(g[0], vec![false, false, false, false, false, false, false, true]);
    assert_eq!(g[7], vec![true, false, false, false, false, false, false, false]);
    assert!(g[1..7].iter().all(|row| row.iter().all(|&b| !b)));
}

#[test]
fn full_board_has_all_squares() {
    assert_eq!(BitBoard::full().0, u64::MAX);
    assert_eq!(BitBoard::full().iter_squares().len(), 64);
}

#[test]
fn square_names() {
    assert_eq!(Square::from_index(28).algebraic(), ('e', '4'));
    assert_eq!(Square::from_index(0).algebraic(), ('a', '1'));
    assert_eq!(Square::from_index(63).algebraic(), ('h', '8'));
}
