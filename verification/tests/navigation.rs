use bitchess::bitboard::{BitBoard, NO_SQUARES};
use bitchess::compass::Compass;
use bitchess::navigation::{BitIndex, Error, SelfReturningCheckedAdd};
use bitchess::square::{Square, SQUARES};

#[test]
fn move_north() {
    let cur_pos = Square::A1;
    let next_pos = cur_pos.next_square(Compass::North).unwrap();
    assert_eq!(next_pos, Square::A2);
}

#[test]
fn move_south() {
    let cur_pos = Square::B2;
    let next_pos = cur_pos.next_square(Compass::South).unwrap();
    assert_eq!(next_pos, Square::B1);
}

#[test]
fn move_east() {
    let cur_pos = Square::B1;
    let next_pos = cur_pos.next_square(Compass::East).unwrap();
    assert_eq!(next_pos, Square::C1);
}

#[test]
fn move_west() {
    let cur_pos = Square::B2;
    let next_pos = cur_pos.next_square(Compass::West).unwrap();
    assert_eq!(next_pos, Square::A2);
}

#[test]
fn move_northwest() {
    let cur_pos = Square::B2;
    let next_pos = cur_pos.next_square(Compass::NorthWest).unwrap();
    assert_eq!(next_pos, Square::A3);
}

#[test]
fn move_northeast() {
    let cur_pos = Square::B2;
    let next_pos = cur_pos.next_square(Compass::NorthEast).unwrap();
    assert_eq!(next_pos, Square::C3);
}

#[test]
fn move_southwest() {
    let cur_pos = Square::B2;
    let next_pos = cur_pos.next_square(Compass::SouthWest).unwrap();
    assert_eq!(next_pos, Square::A1);
}

#[test]
fn move_southeast() {
    let cur_pos = Square::B2;
    let next_pos = cur_pos.next_square(Compass::SouthEast).unwrap();
    assert_eq!(next_pos, Square::C1);
}

#[test]
fn move_offboard_south() {
    let cur_pos = Square::A1;
    let next_pos = cur_pos.next_square(Compass::South);
    assert_eq!(next_pos, Err(Error::OffBoard));
}

#[test]
fn move_offboard_north() {
    let cur_pos = Square::A8;
    let next_pos = cur_pos.next_square(Compass::North);
    assert_eq!(next_pos, Err(Error::OffBoard));
}

#[test]
fn move_offboard_east() {
    let cur_pos = Square::H5;
    let next_pos = cur_pos.next_square(Compass::East);
    assert_eq!(next_pos, Err(Error::OffBoard));
}

#[test]
fn move_offboard_west() {
    let cur_pos = Square::A5;
    let next_pos = cur_pos.next_square(Compass::West);
    assert_eq!(next_pos, Err(Error::OffBoard));
}

#[test]
fn move_offboard_northwest_north() {
    let cur_pos = Square::H8;
    let next_pos = cur_pos.next_square(Compass::NorthWest);
    assert_eq!(next_pos, Err(Error::OffBoard));
}

#[test]
fn move_offboard_northwest_west() {
    let cur_pos = Square::A1;
    let next_pos = cur_pos.next_square(Compass::NorthWest);
    assert_eq!(next_pos, Err(Error::OffBoard));
}

#[test]
fn move_offboard_northwest_northwest() {
    let cur_pos = Square::A8;
    let next_pos = cur_pos.next_square(Compass::NorthWest);
    assert_eq!(next_pos, Err(Error::OffBoard));
}

#[test]
fn move_offboard_southwest_south() {
    let cur_pos = Square::H1;
    let next_pos = cur_pos.next_square(Compass::SouthWest);
    assert_eq!(next_pos, Err(Error::OffBoard));
}

#[test]
fn move_offboard_southwest_west() {
    let cur_pos = Square::A8;
    let next_pos = cur_pos.next_square(Compass::NorthWest);
    assert_eq!(next_pos, Err(Error::OffBoard));
}

#[test]
fn move_offboard_southwest_southwest() {
    let cur_pos = Square::A1;
    let next_pos = cur_pos.next_square(Compass::NorthWest);
    assert_eq!(next_pos, Err(Error::OffBoard));
}

#[test]
fn move_offboard_northeast_north() {
    let cur_pos = Square::A8;
    let next_pos = cur_pos.next_square(Compass::NorthEast);
    assert_eq!(next_pos, Err(Error::OffBoard));
}

#[test]
fn move_offboard_northeast_east() {
    let cur_pos = Square::H1;
    let next_pos = cur_pos.next_square(Compass::NorthEast);
    assert_eq!(next_pos, Err(Error::OffBoard));
}

#[test]
fn move_offboard_northeast_northeast() {
    let cur_pos = Square::H8;
    let next_pos = cur_pos.next_square(Compass::NorthEast);
    assert_eq!(next_pos, Err(Error::OffBoard));
}

#[test]
fn move_offboard_southeast_south() {
    let cur_pos = Square::A1;
    let next_pos = cur_pos.next_square(Compass::SouthEast);
    assert_eq!(next_pos, Err(Error::OffBoard));
}

#[test]
fn move_offboard_southeast_east() {
    let cur_pos = Square::H8;
    let next_pos = cur_pos.next_square(Compass::SouthEast);
    assert_eq!(next_pos, Err(Error::OffBoard));
}

#[test]
fn move_offboard_southeast_southeast() {
    let cur_pos = Square::H1;
    let next_pos = cur_pos.next_square(Compass::SouthEast);
    assert_eq!(next_pos, Err(Error::OffBoard));
}

#[test]
fn next_square_steps_by_the_offset() {
    let directions = [
        Compass::North,
        Compass::East,
        Compass::South,
        Compass::West,
        Compass::NorthEast,
        Compass::NorthWest,
        Compass::SouthEast,
        Compass::SouthWest,
    ];
    for square in SQUARES {
        let file = (square.index() % 8) as i8;
        let rank = (square.index() / 8) as i8;
        for direction in directions {
            let (file_step, rank_step) = match direction {
                Compass::North => (0, 1),
                Compass::East => (1, 0),
                Compass::South => (0, -1),
                Compass::West => (-1, 0),
                Compass::NorthEast => (1, 1),
                Compass::NorthWest => (-1, 1),
                Compass::SouthEast => (1, -1),
                Compass::SouthWest => (-1, -1),
            };
            let on_board =
                (0..8).contains(&(file + file_step)) && (0..8).contains(&(rank + rank_step));
            assert_eq!(square.next_square_on_board(&direction), on_board);
            match square.next_square(direction) {
                Ok(next) => {
                    assert!(on_board);
                    assert_eq!(
                        next.index() as i8,
                        square.index() as i8 + direction.to_offset()
                    );
                }
                Err(error) => {
                    assert!(!on_board);
                    assert_eq!(error, Error::OffBoard);
                }
            }
        }
    }
}

#[test]
fn a_shift_of_one_square_follows_the_step() {
    let shifts: [(Compass, fn(&BitBoard) -> BitBoard); 8] = [
        (Compass::North, BitBoard::shift_north),
        (Compass::East, BitBoard::shift_east),
        (Compass::South, BitBoard::shift_south),
        (Compass::West, BitBoard::shift_west),
        (Compass::NorthEast, BitBoard::shift_northeast),
        (Compass::NorthWest, BitBoard::shift_northwest),
        (Compass::SouthEast, BitBoard::shift_southeast),
        (Compass::SouthWest, BitBoard::shift_southwest),
    ];
    for square in SQUARES {
        for (direction, shift) in shifts {
            let expected = match square.next_square(direction) {
                Ok(next) => BitBoard::from_square(next),
                Err(_) => BitBoard::new(NO_SQUARES),
            };
            assert!(shift(&BitBoard::from_square(square)) == expected);
        }
    }
}

#[test]
fn squares_know_their_edges() {
    assert!(Square::A4.on_a_file());
    assert!(!Square::B4.on_a_file());
    assert!(Square::H4.on_h_file());
    assert!(!Square::G4.on_h_file());
    assert!(Square::D1.on_first_rank());
    assert!(!Square::D2.on_first_rank());
    assert!(Square::D8.on_last_rank());
    assert!(!Square::D7.on_last_rank());
    assert!(Square::G4.east_on_board());
    assert!(!Square::H4.east_on_board());
    assert!(Square::B4.west_on_board());
    assert!(!Square::A4.west_on_board());
    assert!(Square::D7.north_on_board());
    assert!(!Square::D8.north_on_board());
    assert!(Square::D2.south_on_board());
    assert!(!Square::D1.south_on_board());
}

#[test]
fn bit_index_of_a_number() {
    assert_eq!(BitIndex::from(0).map(u8::from), Some(0));
    assert_eq!(BitIndex::from(8).map(u8::from), Some(8));
    assert_eq!(BitIndex::from(63).map(u8::from), Some(63));
    assert_eq!(BitIndex::from(64), None);
    assert_eq!(BitIndex::from(255), None);
}

#[test]
fn bit_index_of_a_square() {
    assert_eq!(u8::from(BitIndex::sq_to_bitindex(&Square::A1)), 0);
    assert_eq!(u8::from(BitIndex::sq_to_bitindex(&Square::C2)), 10);
    assert_eq!(u8::from(Square::H8.to_bitindex()), 63);
    assert_eq!(<BitIndex as From<Square>>::from(Square::E4), Square::E4.to_bitindex());
    assert_eq!(<BitIndex as From<&Square>>::from(&Square::E4), Square::E4.to_bitindex());
    assert_eq!(u8::from(&Square::E4.to_bitindex()), 28);
}

#[test]
fn bit_index_checked_add_unsigned() {
    let eight = BitIndex::from(8).unwrap();
    assert_eq!(eight.checked_add(8u8).map(u8::from), Some(16));
    assert_eq!(eight.checked_add(247u8).map(u8::from), Some(255));
    assert_eq!(eight.checked_add(248u8), None);
    assert_eq!(eight.checked_add(255u8), None);
}

#[test]
fn bit_index_checked_add_signed() {
    let eight = BitIndex::from(8).unwrap();
    assert_eq!(eight.checked_add(2i8).map(u8::from), Some(10));
    assert_eq!(eight.checked_add(-2i8).map(u8::from), Some(6));
    assert_eq!(eight.checked_add(-8i8).map(u8::from), Some(0));
    assert_eq!(eight.checked_add(-9i8), None);
    assert_eq!(eight.checked_add(127i8).map(u8::from), Some(135));
    assert_eq!(eight.checked_add(i8::MIN), None);
    assert_eq!(BitIndex::from(0).unwrap().checked_add(-2i8), None);
    let top = eight.checked_add(247u8).unwrap();
    assert_eq!(top.checked_add(1i8), None);
    assert_eq!(top.checked_add(-127i8).map(u8::from), Some(128));
}

#[test]
fn bit_index_remainders() {
    let ten = BitIndex::from(10).unwrap();
    let eight = BitIndex::from(8).unwrap();
    assert_eq!(ten % 8, 2);
    assert_eq!(&ten % 8, 2);
    assert_eq!(&ten % eight, 2);
    assert_eq!(&ten % &eight, 2);
}

#[test]
fn square_of_a_bit_index() {
    assert_eq!(Square::try_from(BitIndex::from(0).unwrap()), Ok(Square::A1));
    assert_eq!(Square::try_from(BitIndex::from(28).unwrap()), Ok(Square::E4));
    assert_eq!(Square::try_from(BitIndex::from(63).unwrap()), Ok(Square::H8));
    let beyond = BitIndex::from(63).unwrap().checked_add(1u8).unwrap();
    assert_eq!(Square::try_from(beyond), Err(Error::OffBoard));
    for square in SQUARES {
        assert_eq!(Square::try_from(square.to_bitindex()), Ok(square));
    }
}

#[test]
fn off_board_has_a_name() {
    assert_eq!(Error::OffBoard.to_string(), "OffBoard");
}
