use bitchess::bitboard::{
    BitBoard, Shift, ALL_SQUARES, A_FILE, DARK_SQUARES, DIAGONAL_A1_H8, DIAGONAL_H1_A8, H_FILE,
    LIGHT_SQUARES, NOT_A_FILE, NOT_H_FILE, NOT_RANK_1, NOT_RANK_8, NO_SQUARES, RANK_1, RANK_8,
};
use bitchess::square::{Square, SquareColor, SQUARES};

#[test]
fn test_shift_north_overflow() {
    assert!(BitBoard::new(RANK_8).shift_north() == BitBoard::new(NO_SQUARES));
}

#[test]
fn test_shift_south_overflow() {
    assert!(BitBoard::new(RANK_1).shift_south() == BitBoard::new(NO_SQUARES));
}

#[test]
fn test_shift_east_overflow() {
    assert!(BitBoard::new(H_FILE).shift_east() == BitBoard::new(NO_SQUARES));
}

#[test]
fn test_shift_west_overflow() {
    assert!(BitBoard::new(A_FILE).shift_west() == BitBoard::new(NO_SQUARES));
}

#[test]
fn test_shift_north() {
    let mut board = BitBoard::new(RANK_1);
    for _ in 0..7 {
        board = board.shift_north()
    }
    assert!(board == BitBoard::new(RANK_8));
}

#[test]
fn test_shift_south() {
    let mut board = BitBoard::new(RANK_8);
    for _ in 0..7 {
        board = board.shift_south()
    }
    assert!(board == BitBoard::new(RANK_1));
}

#[test]
fn test_shift_east() {
    let mut board = BitBoard::new(A_FILE);
    for _ in 0..7 {
        board = board.shift_east()
    }
    assert!(board == BitBoard::new(H_FILE));
}

#[test]
fn test_shift_west() {
    let mut board = BitBoard::new(H_FILE);
    for _ in 0..7 {
        board = board.shift_west()
    }
    assert!(board == BitBoard::new(A_FILE));
}

#[test]
fn test_shift_northest() {
    let mut board = BitBoard::from_square(Square::A1);
    for _ in 0..7 {
        board = board.shift_northeast()
    }
    assert!(board == BitBoard::from_square(Square::H8));
}

#[test]
fn test_shift_northwest() {
    let mut board = BitBoard::from_square(Square::H1);
    for _ in 0..7 {
        board = board.shift_northwest()
    }
    assert!(board == BitBoard::from_square(Square::A8));
}

#[test]
fn test_shift_southeast() {
    let mut board = BitBoard::from_square(Square::A8);
    for _ in 0..7 {
        board = board.shift_southeast()
    }
    assert!(board == BitBoard::from_square(Square::H1));
}

#[test]
fn test_shift_southwest() {
    let mut board = BitBoard::from_square(Square::H8);
    for _ in 0..7 {
        board = board.shift_southwest()
    }
    assert!(board == BitBoard::from_square(Square::A1));
}

#[test]
fn test_shift_west_by() {
    assert!(BitBoard::new(H_FILE).shift_west_by(Shift::new(7)) == BitBoard::new(A_FILE));
}

#[test]
fn test_shift_east_by() {
    assert!(BitBoard::new(A_FILE).shift_east_by(Shift::new(7)) == BitBoard::new(H_FILE));
}

#[test]
fn test_shift_north_by() {
    assert!(BitBoard::new(RANK_1).shift_north_by(Shift::new(7)) == BitBoard::new(RANK_8));
}

#[test]
fn test_shift_south_by() {
    assert!(BitBoard::new(RANK_8).shift_south_by(Shift::new(7)) == BitBoard::new(RANK_1));
}

#[test]
fn test_shift_northeast_by() {
    assert!(
        BitBoard::from_square(Square::A1).shift_northeast_by(Shift::new(7))
            == BitBoard::from_square(Square::H8)
    );
}

#[test]
fn test_shift_northwest_by() {
    assert!(
        BitBoard::from_square(Square::H1).shift_northwest_by(Shift::new(7))
            == BitBoard::from_square(Square::A8)
    );
}

#[test]
fn test_shift_southeast_by() {
    assert!(
        BitBoard::from_square(Square::A8).shift_southeast_by(Shift::new(7))
            == BitBoard::from_square(Square::H1)
    );
}

#[test]
fn test_shift_southwest_by() {
    assert!(
        BitBoard::from_square(Square::H8).shift_southwest_by(Shift::new(7))
            == BitBoard::from_square(Square::A1)
    );
}

#[test]
fn test_from_square() {
    assert!(BitBoard::from_square(Square::A1).shift_south() == BitBoard::new(NO_SQUARES));
    assert!(BitBoard::from_square(Square::A1).shift_west() == BitBoard::new(NO_SQUARES));
    assert!(BitBoard::from_square(Square::A8).shift_north() == BitBoard::new(NO_SQUARES));
    assert!(BitBoard::from_square(Square::A8).shift_west() == BitBoard::new(NO_SQUARES));
    assert!(BitBoard::from_square(Square::H1).shift_east() == BitBoard::new(NO_SQUARES));
    assert!(BitBoard::from_square(Square::H1).shift_south() == BitBoard::new(NO_SQUARES));
    assert!(BitBoard::from_square(Square::H8).shift_east() == BitBoard::new(NO_SQUARES));
    assert!(BitBoard::from_square(Square::H8).shift_north() == BitBoard::new(NO_SQUARES));
}

#[test]
fn test_from_squares() {
    assert!(
        BitBoard::from_squares(&vec![
            Square::A1,
            Square::B1,
            Square::C1,
            Square::D1,
            Square::E1,
            Square::F1,
            Square::G1,
            Square::H1
        ]) == BitBoard::new(RANK_1)
    )
}

#[test]
fn test_set() {
    assert!(BitBoard::new(NO_SQUARES).set(Square::A1) == BitBoard::from_square(Square::A1))
}

#[test]
fn test_unset() {
    assert!(BitBoard::from_square(Square::A1).unset(Square::A1) == BitBoard::new(NO_SQUARES))
}

#[test]
fn test_toggle_on() {
    assert!(BitBoard::new(NO_SQUARES).toggle(Square::A1) == BitBoard::from_square(Square::A1))
}

#[test]
fn test_toggle_off() {
    assert!(BitBoard::from_square(Square::A1).toggle(Square::A1) == BitBoard::new(NO_SQUARES))
}

fn samples() -> Vec<BitBoard> {
    vec![
        BitBoard::new(NO_SQUARES),
        BitBoard::new(ALL_SQUARES),
        BitBoard::new(A_FILE),
        BitBoard::new(H_FILE),
        BitBoard::new(RANK_1),
        BitBoard::new(RANK_8),
        BitBoard::new(DIAGONAL_A1_H8),
        BitBoard::new(DIAGONAL_H1_A8),
        BitBoard::new(LIGHT_SQUARES),
        BitBoard::new(0x0123_4567_89AB_CDEF),
        BitBoard::new(0x8000_0000_0000_0001),
        BitBoard::new(0x0000_0018_1800_0000),
        BitBoard::from_square(Square::D4),
    ]
}

#[test]
fn notable_masks_are_bit_exact() {
    assert_eq!(NO_SQUARES, 0x0);
    assert_eq!(ALL_SQUARES, 0xFFFF_FFFF_FFFF_FFFF);
    assert_eq!(A_FILE, 0x0101_0101_0101_0101);
    assert_eq!(H_FILE, 0x8080_8080_8080_8080);
    assert_eq!(RANK_1, 0x0000_0000_0000_00FF);
    assert_eq!(RANK_8, 0xFF00_0000_0000_0000);
    assert_eq!(DIAGONAL_A1_H8, 0x8040_2010_0804_0201);
    assert_eq!(DIAGONAL_H1_A8, 0x0102_0408_1020_4080);
    assert_eq!(LIGHT_SQUARES, 0x55AA_55AA_55AA_55AA);
    assert_eq!(DARK_SQUARES, 0xAA55_AA55_AA55_AA55);
    assert_eq!(DARK_SQUARES, !LIGHT_SQUARES);
    assert_eq!(NOT_A_FILE, !A_FILE);
    assert_eq!(NOT_H_FILE, !H_FILE);
    assert_eq!(NOT_RANK_1, !RANK_1);
    assert_eq!(NOT_RANK_8, !RANK_8);
}

#[test]
fn light_and_dark_squares_part_the_board() {
    assert_eq!(LIGHT_SQUARES & DARK_SQUARES, 0);
    assert_eq!(LIGHT_SQUARES | DARK_SQUARES, ALL_SQUARES);
    assert!(BitBoard::new(DARK_SQUARES).occupied(Square::A1));
    for square in SQUARES {
        assert_eq!(
            BitBoard::new(LIGHT_SQUARES).occupied(square),
            square.color() == SquareColor::White
        );
        assert_eq!(
            BitBoard::new(DARK_SQUARES).occupied(square),
            square.color() == SquareColor::Black
        );
    }
}

#[test]
fn notable_masks_hold_their_squares() {
    assert_eq!(
        BitBoard::new(A_FILE).occupied_squares(),
        vec![
            Square::A1,
            Square::A2,
            Square::A3,
            Square::A4,
            Square::A5,
            Square::A6,
            Square::A7,
            Square::A8
        ]
    );
    assert_eq!(
        BitBoard::new(RANK_8).occupied_squares(),
        vec![
            Square::A8,
            Square::B8,
            Square::C8,
            Square::D8,
            Square::E8,
            Square::F8,
            Square::G8,
            Square::H8
        ]
    );
    assert_eq!(
        BitBoard::new(DIAGONAL_A1_H8).occupied_squares(),
        vec![
            Square::A1,
            Square::B2,
            Square::C3,
            Square::D4,
            Square::E5,
            Square::F6,
            Square::G7,
            Square::H8
        ]
    );
    assert_eq!(
        BitBoard::new(DIAGONAL_H1_A8).occupied_squares(),
        vec![
            Square::H1,
            Square::G2,
            Square::F3,
            Square::E4,
            Square::D5,
            Square::C6,
            Square::B7,
            Square::A8
        ]
    );
}

#[test]
fn from_square_sets_the_bit_of_the_index() {
    assert!(BitBoard::from_square(Square::A1) == BitBoard::new(1));
    assert!(BitBoard::from_square(Square::B1) == BitBoard::new(2));
    assert!(BitBoard::from_square(Square::A2) == BitBoard::new(0x100));
    assert!(BitBoard::from_square(Square::H8) == BitBoard::new(0x8000_0000_0000_0000));
    for (index, square) in SQUARES.into_iter().enumerate() {
        assert!(BitBoard::from_square(square) == BitBoard::new(1u64 << index));
    }
}

#[test]
fn is_empty_only_for_no_squares() {
    assert!(BitBoard::new(NO_SQUARES).is_empty());
    assert!(!BitBoard::new(1).is_empty());
    assert!(!BitBoard::new(ALL_SQUARES).is_empty());
    assert!(!BitBoard::from_square(Square::H8).is_empty());
}

#[test]
fn occupied_reads_one_bit() {
    let board = BitBoard::new(RANK_1);
    assert!(board.occupied(Square::A1));
    assert!(board.occupied(Square::H1));
    assert!(!board.occupied(Square::A2));
    assert!(!BitBoard::new(NO_SQUARES).occupied(Square::E4));
    assert!(BitBoard::new(ALL_SQUARES).occupied(Square::E4));
}

#[test]
fn occupied_squares_ascend_by_index() {
    let board = BitBoard::from_squares(&vec![Square::H8, Square::A1, Square::E4, Square::B1]);
    assert_eq!(
        board.occupied_squares(),
        vec![Square::A1, Square::B1, Square::E4, Square::H8]
    );
    assert_eq!(BitBoard::new(NO_SQUARES).occupied_squares(), vec![]);
    assert_eq!(BitBoard::new(ALL_SQUARES).occupied_squares(), SQUARES.to_vec());
    assert_eq!(board.occupied_squares(), board.occupied_squares());
}

#[test]
fn set_algebra_on_masks() {
    let a = BitBoard::new(0b1100);
    let b = BitBoard::new(0b1010);
    assert!(a.intersection(&b) == BitBoard::new(0b1000));
    assert!(a.union(&b) == BitBoard::new(0b1110));
    assert!(a.complement() == BitBoard::new(!0b1100u64));
    assert!(a.relative_complement(&b) == BitBoard::new(0b0010));
    assert!(a.implication(&b) == BitBoard::new(!0b1100u64 | 0b1010));
    assert!(a.exclusive_or(&b) == BitBoard::new(0b0110));
    assert!(a.iff(&b) == BitBoard::new(!0b0110u64));
    assert!(a.intersects(&b));
    assert!(!a.is_disjoint_with(&b));
    assert!(!a.intersects(&BitBoard::new(0b0011)));
    assert!(a.is_disjoint_with(&BitBoard::new(0b0011)));
    assert!(!a.intersects(&BitBoard::new(NO_SQUARES)));
}

#[test]
fn set_algebra_laws_on_samples() {
    let all = BitBoard::new(ALL_SQUARES);
    let none = BitBoard::new(NO_SQUARES);
    for a in samples() {
        assert!(a.union(&a.complement()) == all);
        assert!(a.exclusive_or(&a) == none);
        assert!(a.iff(&a) == all);
        for b in samples() {
            assert!(a.intersection(&b) == b.intersection(&a));
        }
    }
}

#[test]
fn bit_and_is_intersection() {
    let a = BitBoard::new(0b1100);
    let b = BitBoard::new(0b1010);
    assert!(a & b == BitBoard::new(0b1000));
    assert!(&a & &b == a.intersection(&b));
}

#[test]
fn masks_convert_both_ways() {
    assert!(BitBoard::from(0xFFu64) == BitBoard::new(RANK_1));
    assert_eq!(u64::from(BitBoard::new(RANK_8)), RANK_8);
    assert_eq!(u64::from(&BitBoard::new(A_FILE)), A_FILE);
    let mask: u64 = BitBoard::from_square(Square::C1).into();
    assert_eq!(mask, 4);
}

#[test]
fn shift_distance_is_taken_modulo_eight() {
    for board in samples() {
        assert!(board.shift_north_by(Shift::new(8)) == board);
        assert!(board.shift_east_by(Shift::new(8)) == board.shift_east_by(Shift::new(0)));
        assert!(board.shift_southwest_by(Shift::new(8)) == board);
        assert!(board.shift_west_by(Shift::new(9)) == board.shift_west());
        assert!(board.shift_south_by(Shift::new(255)) == board.shift_south_by(Shift::new(7)));
    }
}

fn repeated(board: BitBoard, step: fn(&BitBoard) -> BitBoard, times: u8) -> BitBoard {
    let mut result = board;
    for _ in 0..times {
        result = step(&result);
    }
    result
}

#[test]
fn shift_by_is_the_single_shift_repeated() {
    for board in samples() {
        for n in 0..8u8 {
            let shift = Shift::new(n);
            assert!(board.shift_east_by(shift) == repeated(board, BitBoard::shift_east, n));
            assert!(
                board.shift_northeast_by(shift) == repeated(board, BitBoard::shift_northeast, n)
            );
            assert!(board.shift_north_by(shift) == repeated(board, BitBoard::shift_north, n));
            assert!(
                board.shift_northwest_by(shift) == repeated(board, BitBoard::shift_northwest, n)
            );
            assert!(board.shift_west_by(shift) == repeated(board, BitBoard::shift_west, n));
            assert!(
                board.shift_southwest_by(shift) == repeated(board, BitBoard::shift_southwest, n)
            );
            assert!(board.shift_south_by(shift) == repeated(board, BitBoard::shift_south, n));
            assert!(
                board.shift_southeast_by(shift) == repeated(board, BitBoard::shift_southeast, n)
            );
        }
    }
}

#[test]
fn shift_by_never_wraps_to_the_next_rank() {
    let none = BitBoard::new(NO_SQUARES);
    assert!(BitBoard::from_square(Square::G1).shift_east_by(Shift::new(2)) == none);
    assert!(BitBoard::from_square(Square::B2).shift_west_by(Shift::new(2)) == none);
    assert!(BitBoard::from_square(Square::G1).shift_northeast_by(Shift::new(2)) == none);
    assert!(BitBoard::from_square(Square::B3).shift_southwest_by(Shift::new(2)) == none);
    assert!(BitBoard::from_square(Square::B1).shift_northwest_by(Shift::new(2)) == none);
    assert!(BitBoard::from_square(Square::G3).shift_southeast_by(Shift::new(2)) == none);
    assert!(
        BitBoard::new(RANK_1).shift_east_by(Shift::new(3))
            == BitBoard::from_squares(&vec![
                Square::D1,
                Square::E1,
                Square::F1,
                Square::G1,
                Square::H1
            ])
    );
    assert!(
        BitBoard::new(ALL_SQUARES).shift_northwest_by(Shift::new(7))
            == BitBoard::from_square(Square::A8)
    );
}

#[test]
fn single_shifts_move_one_square() {
    let d4 = BitBoard::from_square(Square::D4);
    assert!(d4.shift_east() == BitBoard::from_square(Square::E4));
    assert!(d4.shift_northeast() == BitBoard::from_square(Square::E5));
    assert!(d4.shift_north() == BitBoard::from_square(Square::D5));
    assert!(d4.shift_northwest() == BitBoard::from_square(Square::C5));
    assert!(d4.shift_west() == BitBoard::from_square(Square::C4));
    assert!(d4.shift_southwest() == BitBoard::from_square(Square::C3));
    assert!(d4.shift_south() == BitBoard::from_square(Square::D3));
    assert!(d4.shift_southeast() == BitBoard::from_square(Square::E3));
}

#[test]
fn single_shifts_drop_the_far_file() {
    let all = BitBoard::new(ALL_SQUARES);
    assert!(all.shift_east() == BitBoard::new(NOT_A_FILE));
    assert!(all.shift_west() == BitBoard::new(NOT_H_FILE));
    assert!(all.shift_north() == BitBoard::new(NOT_RANK_1));
    assert!(all.shift_south() == BitBoard::new(NOT_RANK_8));
    assert!(all.shift_northeast() == BitBoard::new(NOT_A_FILE & NOT_RANK_1));
    assert!(all.shift_southwest() == BitBoard::new(NOT_H_FILE & NOT_RANK_8));
    assert!(all.shift_northwest() == BitBoard::new(NOT_H_FILE & NOT_RANK_1));
    assert!(all.shift_southeast() == BitBoard::new(NOT_A_FILE & NOT_RANK_8));
}

#[test]
fn rank_1_northwards_sweeps_the_ranks() {
    let ranks: [u64; 8] = [
        0x0000_0000_0000_00FF,
        0x0000_0000_0000_FFFF,
        0x0000_0000_00FF_FFFF,
        0x0000_0000_FFFF_FFFF,
        0x0000_00FF_FFFF_FFFF,
        0x0000_FFFF_FFFF_FFFF,
        0x00FF_FFFF_FFFF_FFFF,
        0xFFFF_FFFF_FFFF_FFFF,
    ];
    for n in 0..7 {
        let mut board = BitBoard::new(RANK_1);
        let mut swept = board;
        for _ in 0..n {
            board = board.shift_north();
            swept = swept.union(&board);
        }
        board = board.shift_north();
        swept = swept.union(&board);
        assert!(swept == BitBoard::new(ranks[n + 1]));
        assert!(board == BitBoard::new(RANK_1 << (8 * (n + 1))));
    }
}

#[test]
fn from_squares_takes_any_order() {
    let squares = vec![Square::C3, Square::A1, Square::H8, Square::E2];
    let expected = BitBoard::new(0x8000_0000_0004_1001);
    assert!(BitBoard::from_squares(&squares) == expected);
    assert!(
        BitBoard::from_squares(&vec![Square::E2, Square::H8, Square::C3, Square::A1]) == expected
    );
    assert!(
        BitBoard::from_squares(&vec![Square::H8, Square::E2, Square::A1, Square::C3]) == expected
    );
    assert!(
        BitBoard::from_squares(&vec![Square::A1, Square::A1, Square::C3, Square::E2, Square::H8])
            == expected
    );
    assert!(BitBoard::from_squares(&vec![]) == BitBoard::new(NO_SQUARES));
}

#[test]
fn from_boards_takes_any_order() {
    let a = BitBoard::new(A_FILE);
    let b = BitBoard::new(RANK_1);
    let c = BitBoard::from_square(Square::E4);
    let expected = BitBoard::new(A_FILE | RANK_1 | (1 << 28));
    assert!(BitBoard::from_boards(&vec![a, b, c]) == expected);
    assert!(BitBoard::from_boards(&vec![c, a, b]) == expected);
    assert!(BitBoard::from_boards(&vec![b, c, a]) == expected);
    assert!(BitBoard::from_boards(&vec![]) == BitBoard::new(NO_SQUARES));
}

#[test]
fn set_and_unset_leave_other_squares() {
    let board = BitBoard::new(RANK_1);
    assert!(board.set(Square::A1) == board);
    assert!(board.set(Square::A2) == BitBoard::new(0x1FF));
    assert!(board.unset(Square::A2) == board);
    assert!(board.unset(Square::A1) == BitBoard::new(0xFE));
    assert!(board.toggle(Square::A1) == BitBoard::new(0xFE));
    assert!(board.toggle(Square::A2) == BitBoard::new(0x1FF));
}

#[test]
fn bitboard_text_lists_the_squares() {
    assert_eq!(BitBoard::new(NO_SQUARES).to_string(), "[]");
    assert_eq!(BitBoard::from_square(Square::E4).to_string(), "[E4]");
    assert_eq!(
        BitBoard::new(RANK_1).to_string(),
        "[A1, B1, C1, D1, E1, F1, G1, H1]"
    );
    assert_eq!(
        BitBoard::from_squares(&vec![Square::H8, Square::A1]).to_string(),
        "[A1, H8]"
    );
}

#[test]
fn eight_single_shifts_leave_the_board_empty() {
    let none = BitBoard::new(NO_SQUARES);
    for board in samples() {
        assert!(repeated(board, BitBoard::shift_east, 8) == none);
        assert!(repeated(board, BitBoard::shift_northeast, 8) == none);
        assert!(repeated(board, BitBoard::shift_north, 8) == none);
        assert!(repeated(board, BitBoard::shift_northwest, 8) == none);
        assert!(repeated(board, BitBoard::shift_west, 8) == none);
        assert!(repeated(board, BitBoard::shift_southwest, 8) == none);
        assert!(repeated(board, BitBoard::shift_south, 8) == none);
        assert!(repeated(board, BitBoard::shift_southeast, 8) == none);
    }
}

#[test]
fn single_shifts_never_reach_the_far_edge() {
    let a_file = BitBoard::new(A_FILE);
    let h_file = BitBoard::new(H_FILE);
    let rank_1 = BitBoard::new(RANK_1);
    let rank_8 = BitBoard::new(RANK_8);
    for board in samples() {
        assert!(board.shift_east().is_disjoint_with(&a_file));
        assert!(board.shift_northeast().is_disjoint_with(&a_file.union(&rank_1)));
        assert!(board.shift_north().is_disjoint_with(&rank_1));
        assert!(board.shift_northwest().is_disjoint_with(&h_file.union(&rank_1)));
        assert!(board.shift_west().is_disjoint_with(&h_file));
        assert!(board.shift_southwest().is_disjoint_with(&h_file.union(&rank_8)));
        assert!(board.shift_south().is_disjoint_with(&rank_8));
        assert!(board.shift_southeast().is_disjoint_with(&a_file.union(&rank_8)));
    }
}
