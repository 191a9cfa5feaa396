use slider_attacks::bitboard::BitBoard;
use slider_attacks::bits::{pdep, pext};
use slider_attacks::masks::precompute_masks;
use slider_attacks::movegen::{
    fetch_psuedo_legal_moves, get_attack_mask_for_bishop, get_attack_mask_for_queen,
    get_attack_mask_for_rook,
};
use slider_attacks::piece::Piece;
use slider_attacks::square::Square;
use slider_attacks::tables::generate_rank_attack_table;

fn bits(squares: &[u8]) -> u64 {
    squares.iter().fold(0u64, |acc, s| acc | (1u64 << s))
}

#[test]
fn rank_table_edges_on_empty_line() {
    let table = generate_rank_attack_table();
    assert_eq!(table.get(0, 0), Some(0b11111110));
    assert_eq!(table.get(7, 0), Some(0b01111111));
    assert_eq!(table.get(3, 0), Some(0b11110111));
}

#[test]
fn rank_table_stops_at_blockers() {
    let table = generate_rank_attack_table();
    // position 4 with blockers on 2 and 6: reaches 2, 3, 5, 6
    assert_eq!(table.get(4, 0b01000100), Some(0b01101100));
    assert_eq!(table.get(4, 0b11110100), Some(0b00101100));
    assert_eq!(table.get(8, 0), None);
    assert_eq!(table.get(0, 256), None);
}

#[test]
fn rook_on_a1_empty_board() {
    let table = generate_rank_attack_table();
    let masks = precompute_masks();
    let r = get_attack_mask_for_rook(Square::from_index(0), BitBoard(0), &table, &masks);
    assert_eq!(r.0, (0x0101010101010101u64 | 0xFF) & !1u64);
}

#[test]
fn bishop_on_e4_empty_board() {
    let table = generate_rank_attack_table();
    let masks = precompute_masks();
    let r = get_attack_mask_for_bishop(Square::from_index(28), BitBoard(0), &table, &masks);
    let expected = bits(&[1, 10, 19, 37, 46, 55, 7, 14, 21, 35, 42, 49, 56]);
    assert_eq!(r.0, expected);
}

#[test]
fn rook_on_d4_blocked_on_d6() {
    let table = generate_rank_attack_table();
    let masks = precompute_masks();
    let occupancy = BitBoard(bits(&[27, 43]));
    let r = get_attack_mask_for_rook(Square::from_index(27), occupancy, &table, &masks);
    assert!(r.0 & (1u64 << 35) != 0);
    assert!(r.0 & (1u64 << 43) != 0);
    assert!(r.0 & (1u64 << 51) == 0);
    assert!(r.0 & (1u64 << 59) == 0);
    let expected = bits(&[3, 11, 19, 35, 43, 24, 25, 26, 28, 29, 30, 31]);
    assert_eq!(r.0, expected);
}

#[test]
fn bishop_blocked_both_ways() {
    let table = generate_rank_attack_table();
    let masks = precompute_masks();
    // bishop on C1 with a blocker on E3: reaches D2, E3 and B2, A3
    let occupancy = BitBoard(bits(&[2, 20]));
    let r = get_attack_mask_for_bishop(Square::from_index(2), occupancy, &table, &masks);
    assert_eq!(r.0, bits(&[11, 20, 9, 16]));
}

#[test]
fn queen_is_rook_and_bishop() {
    let table = generate_rank_attack_table();
    let masks = precompute_masks();
    let occupancies = [0u64, 0xFFFF00000000FFFF, 0x0000_1234_5678_0000, 0x8100_0000_0000_0081];
    for s in 0..64u8 {
        for &o in occupancies.iter() {
            let sq = Square::from_index(s);
            let q = get_attack_mask_for_queen(sq, BitBoard(o), &table, &masks);
            let r = get_attack_mask_for_rook(sq, BitBoard(o), &table, &masks);
            let b = get_attack_mask_for_bishop(sq, BitBoard(o), &table, &masks);
            assert_eq!(q.0, r.0 | b.0);
        }
    }
}

#[test]
fn queen_on_d1_start_position() {
    let table = generate_rank_attack_table();
    let masks = precompute_masks();
    let q = get_attack_mask_for_queen(Square::from_index(3), BitBoard(0xFFFF00000000FFFF), &table, &masks);
    assert_eq!(q.0, bits(&[2, 4, 10, 11, 12]));
}

#[test]
fn masks_have_expected_sizes() {
    let masks = precompute_masks();
    for s in 0..64usize {
        let (file, rank) = masks.rook_masks[s];
        assert_eq!(file.count_ones(), 8);
        assert_eq!(rank.count_ones(), 8);
        assert!(file & (1u64 << s) != 0);
        assert!(rank & (1u64 << s) != 0);
        let (d1, d2) = masks.bishop_masks[s];
        for d in [d1, d2] {
            assert!(d.count_ones() >= 1 && d.count_ones() <= 8);
            assert!(d & (1u64 << s) != 0);
        }
    }
    assert_eq!(masks.bishop_masks[0].0, 0x8040201008040201);
    assert_eq!(masks.bishop_masks[0].1, 1);
    assert_eq!(masks.bishop_masks[7].1, 0x0102040810204080);
    assert_eq!(masks.bishop_masks[7].0, 0x80);
}

#[test]
fn constructions_are_identical() {
    let a = generate_rank_attack_table();
    let b = generate_rank_attack_table();
    assert_eq!(a.table, b.table);
    let m = precompute_masks();
    let n = precompute_masks();
    assert_eq!(m.rook_masks, n.rook_masks);
    assert_eq!(m.bishop_masks, n.bishop_masks);
}

#[test]
fn extract_and_deposit() {
    assert_eq!(pext(0b1011_0110, 0b1111_0000), 0b1011);
    assert_eq!(pext(0xFFFF00000000FFFF, 0x0101010101010101), 0b11000011);
    assert_eq!(pdep(0b101, 0b1101_0000), 0b1001_0000);
    assert_eq!(pdep(0b11000011, 0x0101010101010101), 0x0101000000000101);
    let masks = [0x0101010101010101u64, 0xFF00, 0x8040201008040201, 0x8000000000000001];
    for &m in masks.iter() {
        let width = m.count_ones();
        for v in 0..256u64 {
            if v < (1u64 << width) {
                assert_eq!(pext(pdep(v, m), m), v);
            }
        }
    }
}

#[test]
fn square_round_trip() {
    for i in 0..64u8 {
        let s = Square::from_index(i);
        assert_eq!(Square::from_index(s.rank() * 8 + s.file()), s);
        assert_eq!(s.index(), i);
    }
    let e4 = Square::from_index(28);
    assert_eq!(e4.file(), 4);
    assert_eq!(e4.rank(), 3);
    assert_eq!(Square::try_from_index(64), None);
    assert_eq!(Square::try_from_index(63), Some(Square::from_index(63)));
}

#[test]
fn pseudo_legal_moves_entry() {
    let r = fetch_psuedo_legal_moves(Piece::Knight, Square::from_index(1), BitBoard(0));
    assert_eq!(r.0, 1);
}
