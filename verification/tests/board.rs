use bitchess::bitboard::{BitBoard, NO_SQUARES, RANK_1, RANK_8};
use bitchess::board::{
    Board, BoardIter, Color, Move, Piece, PieceBoard, Pieces, PiecesIter, STARTING_BLACK_BISHOPS,
    STARTING_BLACK_KING, STARTING_BLACK_KNIGHTS, STARTING_BLACK_PAWNS, STARTING_BLACK_QUEEN,
    STARTING_BLACK_ROOKS, STARTING_WHITE_BISHOPS, STARTING_WHITE_KING, STARTING_WHITE_KNIGHTS,
    STARTING_WHITE_PAWNS, STARTING_WHITE_QUEEN, STARTING_WHITE_ROOKS,
};
use bitchess::square::{Square, SQUARES};
use bitchess::traits::{Movable, Occupied};

fn boards_of(mut walk: BoardIter) -> Vec<BitBoard> {
    let mut boards = Vec::new();
    while let Some(piece_board) = walk.next() {
        boards.push(piece_board.board());
    }
    boards
}

fn boards_of_side(mut walk: PiecesIter) -> Vec<BitBoard> {
    let mut boards = Vec::new();
    while let Some(piece_board) = walk.next() {
        boards.push(piece_board.board());
    }
    boards
}

#[test]
fn test_starting_white_pawns() {
    assert!(
        BitBoard::new(STARTING_WHITE_PAWNS)
            == BitBoard::from_squares(&vec![
                Square::A2,
                Square::B2,
                Square::C2,
                Square::D2,
                Square::E2,
                Square::F2,
                Square::G2,
                Square::H2,
            ])
    );
}

#[test]
fn test_starting_black_pawns() {
    assert!(
        BitBoard::new(STARTING_BLACK_PAWNS)
            == BitBoard::from_squares(&vec![
                Square::A7,
                Square::B7,
                Square::C7,
                Square::D7,
                Square::E7,
                Square::F7,
                Square::G7,
                Square::H7,
            ])
    );
}

#[test]
fn test_starting_white_rooks() {
    assert!(
        BitBoard::new(STARTING_WHITE_ROOKS)
            == BitBoard::from_squares(&vec![Square::A1, Square::H1])
    );
}

#[test]
fn test_starting_black_rooks() {
    assert!(
        BitBoard::new(STARTING_BLACK_ROOKS)
            == BitBoard::from_squares(&vec![Square::A8, Square::H8])
    );
}

#[test]
fn test_starting_white_bishops() {
    assert!(
        BitBoard::new(STARTING_WHITE_BISHOPS)
            == BitBoard::from_squares(&vec![Square::C1, Square::F1])
    );
}

#[test]
fn test_starting_black_bishops() {
    assert!(
        BitBoard::new(STARTING_BLACK_BISHOPS)
            == BitBoard::from_squares(&vec![Square::C8, Square::F8])
    );
}

#[test]
fn test_starting_white_knights() {
    assert!(
        BitBoard::new(STARTING_WHITE_KNIGHTS)
            == BitBoard::from_squares(&vec![Square::B1, Square::G1])
    );
}

#[test]
fn test_starting_black_knights() {
    assert!(
        BitBoard::new(STARTING_BLACK_KNIGHTS)
            == BitBoard::from_squares(&vec![Square::B8, Square::G8])
    );
}

#[test]
fn test_fresh_game_all_pieces() {
    assert!(
        BitBoard::from_boards(&boards_of(Board::fresh_game().iter_pieces()))
            == BitBoard::new(RANK_1)
            .union(&BitBoard::new(RANK_1).shift_north())
            .union(&BitBoard::new(RANK_8))
            .union(&BitBoard::new(RANK_8).shift_south())
    );
}

#[test]
fn test_fresh_game_white_pieces() {
    assert!(
        BitBoard::from_boards(&boards_of_side(Board::fresh_game().white().iter_pieces()))
            == BitBoard::new(RANK_1).union(&BitBoard::new(RANK_1).shift_north())
    );
}

#[test]
fn test_fresh_game_black_pieces() {
    assert!(
        BitBoard::from_boards(&boards_of_side(Board::fresh_game().black().iter_pieces()))
            == BitBoard::new(RANK_8).union(&BitBoard::new(RANK_8).shift_south())
    );
}

#[test]
fn test_occupied_true() {
    assert!(Board::fresh_game().occupied(&Square::A1) == true);
    assert!(Board::fresh_game().occupied(&Square::A8) == true);
}

#[test]
fn test_occupied_false() {
    assert!(Board::fresh_game().occupied(&Square::A3) == false);
    assert!(Board::fresh_game().occupied(&Square::A6) == false);
}

#[test]
fn test_apply_move_from_occupied_to_empty() {
    let board = Board::fresh_game();
    assert!(board.white().pawns().occupied(&Square::A2));
    assert!(!board.occupied(&Square::A3));
    let new_board = board.apply_move(&Move::new(&Square::A2, &Square::A3));
    assert!(new_board.white().pawns().occupied(&Square::A3));
    assert!(!new_board.occupied(&Square::A2));
}

#[test]
fn test_apply_move_from_occupied_to_occupied() {
    let board = Board::fresh_game();
    assert!(board.white().rooks().occupied(&Square::A1));
    assert!(board.black().pawns().occupied(&Square::A7));
    let new_board = board.apply_move(&Move::new(&Square::A1, &Square::A7));
    assert!(!new_board.white().rooks().occupied(&Square::A1));
    assert!(!new_board.black().pawns().occupied(&Square::A7));
    assert!(new_board.white().rooks().occupied(&Square::A7));
}

#[test]
fn test_apply_move_from_empty_to_empty() {
    let board = Board::fresh_game();
    assert!(!board.occupied(&Square::A3));
    assert!(!board.occupied(&Square::A4));
    let new_board = board.apply_move(&Move::new(&Square::A3, &Square::A4));
    assert!(!new_board.occupied(&Square::A3));
    assert!(!new_board.occupied(&Square::A4));
}

#[test]
fn test_apply_move_from_empty_to_occupied() {
    let board = Board::fresh_game();
    assert!(!board.occupied(&Square::A3));
    assert!(board.white().pawns().occupied(&Square::A2));
    let new_board = board.apply_move(&Move::new(&Square::A3, &Square::A2));
    assert!(!new_board.occupied(&Square::A3));
    assert!(!new_board.occupied(&Square::A2));
    assert!(!new_board.white().pawns().occupied(&Square::A2));
}

fn pieces_of(board: &Board) -> Vec<PieceBoard> {
    let mut walk = board.iter_pieces();
    let mut result = Vec::new();
    while let Some(piece_board) = walk.next() {
        result.push(*piece_board);
    }
    result
}

fn officer(file: u8) -> Piece {
    match file {
        0 | 7 => Piece::Rook,
        1 | 6 => Piece::Knight,
        2 | 5 => Piece::Bishop,
        3 => Piece::Queen,
        _ => Piece::King,
    }
}

fn starting_occupant(square: Square) -> Option<(Piece, Color)> {
    let file = square.index() % 8;
    match square.index() / 8 {
        0 => Some((officer(file), Color::White)),
        1 => Some((Piece::Pawn, Color::White)),
        6 => Some((Piece::Pawn, Color::Black)),
        7 => Some((officer(file), Color::Black)),
        _ => None,
    }
}

fn assert_unchanged_but(before: &Board, after: &Board, changed: &[Square]) {
    for square in SQUARES {
        if !changed.contains(&square) {
            assert_eq!(after.occupant(&square), before.occupant(&square));
            assert_eq!(after.occupied(&square), before.occupied(&square));
        }
    }
}

#[test]
fn starting_queens_and_kings_stand_on_their_squares() {
    assert!(BitBoard::new(STARTING_WHITE_QUEEN) == BitBoard::from_square(Square::D1));
    assert!(BitBoard::new(STARTING_BLACK_QUEEN) == BitBoard::from_square(Square::D8));
    assert!(BitBoard::new(STARTING_WHITE_KING) == BitBoard::from_square(Square::E1));
    assert!(BitBoard::new(STARTING_BLACK_KING) == BitBoard::from_square(Square::E8));
}

#[test]
fn fresh_game_is_the_standard_setup() {
    let board = Board::fresh_game();
    for square in SQUARES {
        assert_eq!(board.occupant(&square), starting_occupant(square));
        assert_eq!(board.occupied(&square), starting_occupant(square).is_some());
    }
    assert_eq!(board.occupant(&Square::E1), Some((Piece::King, Color::White)));
    assert_eq!(board.occupant(&Square::D8), Some((Piece::Queen, Color::Black)));
    assert_eq!(board.occupant(&Square::E4), None);
}

#[test]
fn fresh_game_boards_are_exclusive() {
    let boards = pieces_of(&Board::fresh_game());
    assert_eq!(boards.len(), 12);
    for (i, a) in boards.iter().enumerate() {
        for b in &boards[i + 1..] {
            assert!(a.board().is_disjoint_with(&b.board()));
        }
    }
}

#[test]
fn pieces_come_in_their_fixed_order() {
    let board = Board::fresh_game();
    let kinds = [
        Piece::King,
        Piece::Queen,
        Piece::Rook,
        Piece::Bishop,
        Piece::Knight,
        Piece::Pawn,
    ];
    let mut walk = board.white().iter_pieces();
    for kind in kinds {
        assert_eq!(walk.next().map(|piece_board| piece_board.piece()), Some(kind));
    }
    assert!(walk.next().is_none());
    assert!(walk.next().is_none());

    let all: Vec<Piece> = pieces_of(&board).iter().map(|piece_board| piece_board.piece()).collect();
    assert_eq!(all, [kinds, kinds].concat());
    let boards = pieces_of(&board);
    assert!(boards[0].board() == BitBoard::new(STARTING_WHITE_KING));
    assert!(boards[5].board() == BitBoard::new(STARTING_WHITE_PAWNS));
    assert!(boards[6].board() == BitBoard::new(STARTING_BLACK_KING));
    assert!(boards[11].board() == BitBoard::new(STARTING_BLACK_PAWNS));
    let mut walk = board.iter_pieces();
    for _ in 0..12 {
        assert!(walk.next().is_some());
    }
    assert!(walk.next().is_none());
    assert!(walk.next().is_none());
}

#[test]
fn pieces_hold_the_union_of_their_boards() {
    let pieces = Pieces::new(
        BitBoard::from_square(Square::E1),
        BitBoard::new(NO_SQUARES),
        BitBoard::from_squares(&vec![Square::A1, Square::H1]),
        BitBoard::new(NO_SQUARES),
        BitBoard::from_square(Square::G1),
        BitBoard::new(STARTING_WHITE_PAWNS),
    );
    assert!(pieces.all() == BitBoard::new(0xFF00 | 0x10 | 0x81 | 0x40));
    assert!(pieces.occupied(&Square::E1));
    assert!(pieces.occupied(&Square::H2));
    assert!(!pieces.occupied(&Square::D1));
    assert_eq!(pieces.king().piece(), Piece::King);
    assert_eq!(pieces.queens().piece(), Piece::Queen);
    assert_eq!(pieces.rooks().piece(), Piece::Rook);
    assert_eq!(pieces.bishops().piece(), Piece::Bishop);
    assert_eq!(pieces.knights().piece(), Piece::Knight);
    assert_eq!(pieces.pawns().piece(), Piece::Pawn);
    assert!(pieces.rooks().board() == BitBoard::new(0x81));
}

#[test]
fn piece_board_relocates_strips_or_stays() {
    let rooks = Board::fresh_game().white().rooks();
    let relocated = rooks.apply_move(&Move::new(&Square::A1, &Square::A4));
    assert!(relocated.board() == BitBoard::from_squares(&vec![Square::A4, Square::H1]));
    assert_eq!(relocated.piece(), Piece::Rook);
    let stripped = rooks.apply_move(&Move::new(&Square::B1, &Square::H1));
    assert!(stripped.board() == BitBoard::from_square(Square::A1));
    let same = rooks.apply_move(&Move::new(&Square::B1, &Square::C1));
    assert!(same == rooks);
    let onto_own = rooks.apply_move(&Move::new(&Square::A1, &Square::H1));
    assert!(onto_own.board() == BitBoard::from_square(Square::H1));
    let in_place = rooks.apply_move(&Move::new(&Square::A1, &Square::A1));
    assert!(in_place == rooks);
}

#[test]
fn move_from_occupied_to_empty_changes_only_two_squares() {
    let board = Board::fresh_game();
    let after = board.apply_move(&Move::new(&Square::A2, &Square::A3));
    assert_eq!(after.occupant(&Square::A3), Some((Piece::Pawn, Color::White)));
    assert_eq!(after.occupant(&Square::A2), None);
    assert_unchanged_but(&board, &after, &[Square::A2, Square::A3]);
    let before = pieces_of(&board);
    let now = pieces_of(&after);
    for k in 0..12 {
        if k != 5 {
            assert!(now[k] == before[k]);
        }
    }
    assert!(now[5].board() == BitBoard::new(0x01FE00));
    assert!(after.white().all() == BitBoard::new(0x01FEFF));
    assert!(*after.black() == *board.black());
}

#[test]
fn move_from_occupied_to_occupied_captures() {
    let board = Board::fresh_game();
    let after = board.apply_move(&Move::new(&Square::A1, &Square::A7));
    assert_eq!(after.occupant(&Square::A7), Some((Piece::Rook, Color::White)));
    assert_eq!(after.occupant(&Square::A1), None);
    assert!(!after.black().pawns().occupied(&Square::A7));
    assert!(!after.black().occupied(&Square::A7));
    assert!(after.black().pawns().board() == BitBoard::new(0x00FE_0000_0000_0000));
    assert_unchanged_but(&board, &after, &[Square::A1, Square::A7]);
}

#[test]
fn move_between_empty_squares_changes_nothing() {
    let board = Board::fresh_game();
    let after = board.apply_move(&Move::new(&Square::A3, &Square::A4));
    assert!(after == board);
    assert_unchanged_but(&board, &after, &[]);
}

#[test]
fn move_from_empty_onto_occupied_removes_the_piece() {
    let board = Board::fresh_game();
    let after = board.apply_move(&Move::new(&Square::A3, &Square::A2));
    assert_eq!(after.occupant(&Square::A2), None);
    assert_eq!(after.occupant(&Square::A3), None);
    assert!(after.white().pawns().board() == BitBoard::new(0xFE00));
    assert_unchanged_but(&board, &after, &[Square::A2]);
}

#[test]
fn move_onto_the_own_colour_is_accepted() {
    let board = Board::fresh_game();
    let after = board.apply_move(&Move::new(&Square::A1, &Square::A2));
    assert_eq!(after.occupant(&Square::A2), Some((Piece::Rook, Color::White)));
    assert_eq!(after.occupant(&Square::A1), None);
    assert_unchanged_but(&board, &after, &[Square::A1, Square::A2]);
    let stay = board.apply_move(&Move::new(&Square::E1, &Square::E1));
    assert!(stay == board);
}

#[test]
fn move_leaves_the_old_position_as_it_was() {
    let board = Board::fresh_game();
    let _ = board.apply_move(&Move::new(&Square::E2, &Square::E4));
    assert!(board == Board::fresh_game());
}

#[test]
fn occupant_takes_the_first_board_that_holds_the_square() {
    let e4 = BitBoard::from_square(Square::E4);
    let none = BitBoard::new(NO_SQUARES);
    let crowded = Pieces::new(none, e4, e4, none, none, e4);
    let pawn = Pieces::new(none, none, none, none, none, e4);
    let empty = Pieces::new(none, none, none, none, none, none);
    assert_eq!(
        Board::new(crowded, pawn).occupant(&Square::E4),
        Some((Piece::Queen, Color::White))
    );
    assert_eq!(
        Board::new(pawn, crowded).occupant(&Square::E4),
        Some((Piece::Pawn, Color::White))
    );
    assert_eq!(
        Board::new(empty, crowded).occupant(&Square::E4),
        Some((Piece::Queen, Color::Black))
    );
    assert_eq!(Board::new(empty, empty).occupant(&Square::E4), None);
    assert!(Board::new(empty, pawn).occupied(&Square::E4));
    assert!(!Board::new(empty, pawn).occupied(&Square::E5));
}

#[test]
fn piece_symbols() {
    assert_eq!(Piece::King.to_string(), "♚");
    assert_eq!(Piece::Queen.to_string(), "♛");
    assert_eq!(Piece::Rook.to_string(), "♜");
    assert_eq!(Piece::Bishop.to_string(), "♝");
    assert_eq!(Piece::Knight.to_string(), "♞");
    assert_eq!(Piece::Pawn.to_string(), "♟");
}

#[test]
fn piece_board_text() {
    let board = Board::fresh_game();
    assert_eq!(board.white().rooks().to_string(), "Rook: [A1, H1]");
    assert_eq!(board.black().king().to_string(), "King: [E8]");
    let empty = Pieces::new(
        BitBoard::new(NO_SQUARES),
        BitBoard::new(NO_SQUARES),
        BitBoard::new(NO_SQUARES),
        BitBoard::new(NO_SQUARES),
        BitBoard::new(NO_SQUARES),
        BitBoard::new(NO_SQUARES),
    );
    assert_eq!(empty.queens().to_string(), "Queen: []");
}

#[test]
fn pieces_text() {
    assert_eq!(
        Board::fresh_game().white().to_string(),
        "\nKing: [E1]\nQueen: [D1]\nRook: [A1, H1]\nBishop: [C1, F1]\nKnight: [B1, G1]\n\
         Pawn: [A2, B2, C2, D2, E2, F2, G2, H2]\n"
    );
}

#[test]
fn board_text() {
    assert_eq!(
        Board::fresh_game().to_string(),
        "\nWhite:\n  King: [E1]\n  Queen: [D1]\n  Rook: [A1, H1]\n  Bishop: [C1, F1]\n  \
         Knight: [B1, G1]\n  Pawn: [A2, B2, C2, D2, E2, F2, G2, H2]Black:\n  King: [E8]\n  \
         Queen: [D8]\n  Rook: [A8, H8]\n  Bishop: [C8, F8]\n  Knight: [B8, G8]\n  \
         Pawn: [A7, B7, C7, D7, E7, F7, G7, H7]\n"
    );
}

#[test]
fn empty_board_holds_no_piece() {
    let board = Board::empty();
    for square in SQUARES {
        assert!(!board.occupied(&square));
        assert_eq!(board.occupant(&square), None);
    }
    for piece_board in pieces_of(&board) {
        assert!(piece_board.board().is_empty());
    }
    let none = BitBoard::new(NO_SQUARES);
    let empty = Pieces::new(none, none, none, none, none, none);
    assert!(board == Board::new(empty, empty));
    let after = board.apply_move(&Move::new(&Square::E2, &Square::E4));
    assert!(after == board);
}
