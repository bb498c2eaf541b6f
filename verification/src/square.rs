//! The 64 squares of the board and their little-endian rank-file indices.

use vstd::prelude::*;
use vstd::string::StringExecFns;

verus! {

/// The shade of a square on the checkerboard.
#[derive(Clone, Copy, Debug, PartialEq, Eq, Structural)]
pub enum SquareColor {
    White,
    Black,
}

/// One of the 64 squares, declared in index order: files A to H across, then
/// ranks 1 to 8 upwards, so that A1 has index 0 and H8 has index 63.
#[derive(Clone, Copy, Debug, PartialEq, Eq, Structural)]
pub enum Square {
    A1, B1, C1, D1, E1, F1, G1, H1,
    A2, B2, C2, D2, E2, F2, G2, H2,
    A3, B3, C3, D3, E3, F3, G3, H3,
    A4, B4, C4, D4, E4, F4, G4, H4,
    A5, B5, C5, D5, E5, F5, G5, H5,
    A6, B6, C6, D6, E6, F6, G6, H6,
    A7, B7, C7, D7, E7, F7, G7, H7,
    A8, B8, C8, D8, E8, F8, G8, H8,
}

/// Every square, each at the position of its own index.
pub const SQUARES: [Square; 64] = [
    Square::A1, Square::B1, Square::C1, Square::D1, Square::E1, Square::F1, Square::G1, Square::H1,
    Square::A2, Square::B2, Square::C2, Square::D2, Square::E2, Square::F2, Square::G2, Square::H2,
    Square::A3, Square::B3, Square::C3, Square::D3, Square::E3, Square::F3, Square::G3, Square::H3,
    Square::A4, Square::B4, Square::C4, Square::D4, Square::E4, Square::F4, Square::G4, Square::H4,
    Square::A5, Square::B5, Square::C5, Square::D5, Square::E5, Square::F5, Square::G5, Square::H5,
    Square::A6, Square::B6, Square::C6, Square::D6, Square::E6, Square::F6, Square::G6, Square::H6,
    Square::A7, Square::B7, Square::C7, Square::D7, Square::E7, Square::F7, Square::G7, Square::H7,
    Square::A8, Square::B8, Square::C8, Square::D8, Square::E8, Square::F8, Square::G8, Square::H8,
];

impl Square {
    /// The bit index of the square: its position in the declaration.
    pub open spec fn spec_index(&self) -> u8 {
        *self as u8
    }

    /// The file of the square, 0 for A to 7 for H.
    pub open spec fn file(&self) -> int {
        self.spec_index() as int % 8
    }

    /// The rank of the square, 0 for rank 1 to 7 for rank 8.
    pub open spec fn rank(&self) -> int {
        self.spec_index() as int / 8
    }

    /// Whether a file and a rank name a square of the board.
    pub open spec fn on_board(file: int, rank: int) -> bool {
        0 <= file < 8 && 0 <= rank < 8
    }

    /// The square with index `i`, meaningful for `0 <= i < 64`.
    pub open spec fn from_index(i: int) -> Square {
        SQUARES[i]
    }

    /// The square on a file and a rank, meaningful where these are on the board.
    pub open spec fn at(file: int, rank: int) -> Square {
        Self::from_index(rank * 8 + file)
    }

    /// Dark where file and rank have the same parity, as A1 has; light elsewhere.
    pub open spec fn spec_color(&self) -> SquareColor {
        if (self.file() + self.rank()) % 2 == 0 {
            SquareColor::Black
        } else {
            SquareColor::White
        }
    }

    /// The letter of a file: A for file 0 up to H for file 7.
    pub open spec fn file_letter(file: int) -> char {
        if file == 0 {
            'A'
        } else if file == 1 {
            'B'
        } else if file == 2 {
            'C'
        } else if file == 3 {
            'D'
        } else if file == 4 {
            'E'
        } else if file == 5 {
            'F'
        } else if file == 6 {
            'G'
        } else {
            'H'
        }
    }

    /// The digit of a rank: 1 for rank 0 up to 8 for rank 7.
    pub open spec fn rank_digit(rank: int) -> char {
        if rank == 0 {
            '1'
        } else if rank == 1 {
            '2'
        } else if rank == 2 {
            '3'
        } else if rank == 3 {
            '4'
        } else if rank == 4 {
            '5'
        } else if rank == 5 {
            '6'
        } else if rank == 6 {
            '7'
        } else {
            '8'
        }
    }

    /// The name of the square: the letter of its file, then the digit of its
    /// rank.
    pub open spec fn name(&self) -> Seq<char> {
        seq![Self::file_letter(self.file()), Self::rank_digit(self.rank())]
    }

    /// The corners of the board have the least and the greatest index of their
    /// ranks: the index grows by 1 from file to file and by 8 from rank to rank.
    pub proof fn lemma_corner_indices()
        ensures
            Square::A1.spec_index() == 0,
            Square::H1.spec_index() == 7,
            Square::A8.spec_index() == 56,
            Square::H8.spec_index() == 63,
    {
    }

    /// The index of a square and the square of an index undo each other.
    pub proof fn lemma_index_bijection()
        ensures
            forall|s: Square| #[trigger] s.spec_index() < 64,
            forall|s: Square| Self::from_index(#[trigger] s.spec_index() as int) == s,
            forall|i: int| 0 <= i < 64 ==> (#[trigger] Self::from_index(i)).spec_index() == i,
    {
    }

    /// On the board, a file and a rank name exactly one square, and every
    /// square is named by its own file and rank.
    pub proof fn lemma_coordinates()
        ensures
            forall|s: Square| Self::on_board(#[trigger] s.file(), s.rank()),
            forall|s: Square| Self::at(s.file(), s.rank()) == s,
            forall|f: int, r: int|
                Self::on_board(f, r) ==> (#[trigger] Self::at(f, r)).file() == f && Self::at(
                    f,
                    r,
                ).rank() == r,
    {
        Self::lemma_index_bijection();
    }

    /// The bit index of the square: 8 times its rank, plus its file.
    #[verifier::when_used_as_spec(spec_index)]
    pub fn index(&self) -> (r: u8)
        ensures
            r == self.spec_index(),
            r < 64,
            r == self.rank() * 8 + self.file(),
    {
        *self as u8
    }

    /// The name of the square, such as `A1`.
    pub fn to_string(&self) -> (r: String)
        ensures
            r@ == self.name(),
    {
        let i: u8 = self.index();
        let file: &str = match i % 8 {
            0 => "A",
            1 => "B",
            2 => "C",
            3 => "D",
            4 => "E",
            5 => "F",
            6 => "G",
            _ => "H",
        };
        let rank: &str = match i / 8 {
            0 => "1",
            1 => "2",
            2 => "3",
            3 => "4",
            4 => "5",
            5 => "6",
            6 => "7",
            _ => "8",
        };
        proof {
            reveal_strlit("A");
            reveal_strlit("B");
            reveal_strlit("C");
            reveal_strlit("D");
            reveal_strlit("E");
            reveal_strlit("F");
            reveal_strlit("G");
            reveal_strlit("H");
            reveal_strlit("1");
            reveal_strlit("2");
            reveal_strlit("3");
            reveal_strlit("4");
            reveal_strlit("5");
            reveal_strlit("6");
            reveal_strlit("7");
            reveal_strlit("8");
            assert(file@ =~= seq![Self::file_letter(self.file())]);
            assert(rank@ =~= seq![Self::rank_digit(self.rank())]);
            assert(file@ + rank@ =~= self.name());
        }
        String::from_str(file).concat(rank)
    }

    /// The shade of the square.
    #[verifier::when_used_as_spec(spec_color)]
    pub fn color(&self) -> (r: SquareColor)
        ensures
            r == self.spec_color(),
    {
        let i: u8 = self.index();
        if (i / 8 + i % 8) % 2 == 0 {
            SquareColor::Black
        } else {
            SquareColor::White
        }
    }
}

/// The single-bit mask of one square.
#[derive(Clone, Copy, Debug)]
pub struct SquarePosition {
    mask: u64,
}

impl SquarePosition {
    /// The 64-bit mask, in which only the bit of the square is set.
    pub closed spec fn spec_mask(&self) -> u64 {
        self.mask
    }

    /// The mask of a square.
    pub fn from_square(square: &Square) -> (r: Self)
        ensures
            r.spec_mask() == 1u64 << square.spec_index(),
    {
        SquarePosition { mask: 1u64 << square.index() }
    }

    /// The 64-bit mask, in which only the bit of the square is set.
    #[verifier::when_used_as_spec(spec_mask)]
    pub fn mask(&self) -> (r: u64)
        ensures
            r == self.spec_mask(),
    {
        self.mask
    }
}

} // verus!
