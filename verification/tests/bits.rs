use chess_engine::bboard::{bb_coord, bb_has, bb_square, bb_to_coord, pop_count};
use chess_engine::common::{add_bit, has_bit};
use std::num::Wrapping;

#[test]
fn test_pop_count() {
    let test3 = 1u64 << 5 | 1 << 10 | 1 << 20;
    assert_eq!(test3.count_ones(), 3);
    assert_eq!(pop_count(test3), 3);
}

#[test]
fn test_pop_count_side_bits() {
    let test64 = (Wrapping(1u64) << 63) + Wrapping(1);
    assert_eq!(test64.0.count_ones(), 2);
    assert_eq!(pop_count(test64.0), 2);
}

#[test]
fn test_pop_count_all_bits() {
    let test64 = Wrapping(0u64) - Wrapping(1);
    assert_eq!(test64.0.count_ones(), 64);
    assert_eq!(pop_count(test64.0), 64);
}

#[test]
fn test_pop_count_0() {
    assert_eq!(0u64.count_ones(), 0);
    assert_eq!(pop_count(0), 0);
}

#[test]
fn pop_count_agrees_with_the_hardware_count() {
    let mut x: u64 = 0x9e37_79b9_7f4a_7c15;
    for _ in 0..200 {
        x ^= x << 13;
        x ^= x >> 7;
        x ^= x << 17;
        assert_eq!(pop_count(x), x.count_ones());
    }
}

#[test]
fn added_square_is_found_on_every_square() {
    for x in 0..8u32 {
        for y in 0..8u32 {
            let mut board = 0u64;
            add_bit(&mut board, x, y);
            assert_eq!(board, 1u64 << (x + 8 * y));
            assert!(has_bit(&board, x, y));
            for ox in 0..8u32 {
                for oy in 0..8u32 {
                    assert_eq!(has_bit(&board, ox, oy), ox == x && oy == y);
                }
            }
        }
    }
}

#[test]
fn add_bit_keeps_what_was_there() {
    let mut board = 0x8000_0000_0000_0001u64;
    add_bit(&mut board, 3, 2);
    assert_eq!(board, 0x8000_0000_0000_0001u64 | (1 << 19));
}

#[test]
fn coordinates_off_the_board_are_ignored() {
    let full = !0u64;
    for &(x, y) in &[(8u32, 0u32), (0, 8), (8, 8), (100, 3), (3, 100), (u32::MAX, 0), (0, u32::MAX), (u32::MAX, u32::MAX)] {
        let mut board = 0x1234_5678_9abc_def0u64;
        add_bit(&mut board, x, y);
        assert_eq!(board, 0x1234_5678_9abc_def0u64);
        assert!(!has_bit(&full, x, y));
    }
}

#[test]
fn bb_coord_names_one_square_or_none() {
    assert_eq!(bb_coord(0, 0), 1);
    assert_eq!(bb_coord(7, 7), 1u64 << 63);
    assert_eq!(bb_coord(4, 1), 1u64 << 12);
    assert_eq!(bb_coord(8, 1), 0);
    assert_eq!(bb_coord(1, 8), 0);
    assert_eq!(bb_square(12), 1u64 << 12);
    assert!(bb_has(1u64 << 12, 12));
    assert!(!bb_has(1u64 << 12, 13));
}

#[test]
fn bb_to_coord_writes_algebraic_names() {
    assert_eq!(bb_to_coord(0), "-");
    assert_eq!(bb_to_coord(1), "a1");
    assert_eq!(bb_to_coord(1u64 << 16), "a3");
    assert_eq!(bb_to_coord(1u64 << 45), "f6");
    assert_eq!(bb_to_coord(1u64 << 63), "h8");
    assert_eq!(bb_to_coord(1u64 << 7), "h1");
}
