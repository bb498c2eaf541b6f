//! Single steps from square to square, with the edge of the board reported as
//! an error.

use crate::compass::Compass;
use crate::square::{Square, SQUARES};
use vstd::prelude::*;
use vstd::std_specs::convert::{FromSpecImpl, TryFromSpecImpl};
use vstd::std_specs::ops::RemSpecImpl;
use vstd::string::StringExecFns;

verus! {

/// What can go wrong when stepping from a square.
#[derive(Clone, Copy, Debug, PartialEq, Eq, Structural)]
pub enum Error {
    /// The step leads off the board.
    OffBoard,
}

impl Error {
    /// The name of the error.
    pub open spec fn text(&self) -> Seq<char> {
        match self {
            Error::OffBoard => "OffBoard"@,
        }
    }

    /// The error as a text.
    pub fn to_string(&self) -> (r: String)
        ensures
            r@ == self.text(),
    {
        match self {
            Error::OffBoard => String::from_str("OffBoard"),
        }
    }
}

/// Addition that gives a value of the type of its left operand, or nothing
/// where the sum cannot be held.
pub trait SelfReturningCheckedAdd<T> where Self: Sized {
    /// The sum, or nothing where it cannot be held.
    spec fn spec_checked_add(self, rhs: T) -> Option<Self>;

    /// The sum, or nothing where it cannot be held.
    fn checked_add(self, rhs: T) -> (r: Option<Self>)
        ensures
            r == self.spec_checked_add(rhs),
    ;
}

/// The index of a bit in a mask. The indices from 0 to 63 are those of the
/// squares; a sum of indices may lie above them.
#[derive(Clone, Copy, Debug, PartialEq, Eq, PartialOrd, Ord, Structural)]
pub struct BitIndex(u8);

impl BitIndex {
    /// The index as a number.
    pub closed spec fn value(&self) -> u8 {
        self.0
    }

    /// The index with the given number.
    pub closed spec fn spec_new(value: u8) -> BitIndex {
        BitIndex(value)
    }

    /// An index is its number.
    pub proof fn lemma_new(value: u8)
        ensures
            Self::spec_new(value).value() == value,
            forall|bi: BitIndex| Self::spec_new(#[trigger] bi.value()) == bi,
    {
    }

    /// The index of a square, for a number below 64; nothing for any other.
    pub fn from(val: u8) -> (r: Option<Self>)
        ensures
            r == if val < 64 {
                Some(Self::spec_new(val))
            } else {
                None
            },
            r matches Some(index) ==> index.value() == val,
    {
        if val < 64 {
            Some(Self(val))
        } else {
            None
        }
    }

    /// The index of the bit that stands for a square.
    pub fn sq_to_bitindex(sq: &Square) -> (r: BitIndex)
        ensures
            r == Self::spec_new(sq.spec_index()),
            r.value() == sq.spec_index(),
    {
        BitIndex(sq.index())
    }
}

impl From<Square> for BitIndex {
    /// The index of the bit that stands for a square.
    fn from(sq: Square) -> (r: Self) {
        Self::sq_to_bitindex(&sq)
    }
}

impl FromSpecImpl<Square> for BitIndex {
    open spec fn obeys_from_spec() -> bool {
        true
    }

    open spec fn from_spec(sq: Square) -> Self {
        BitIndex::spec_new(sq.spec_index())
    }
}

impl From<&Square> for BitIndex {
    /// The index of the bit that stands for a square.
    fn from(sq: &Square) -> (r: Self) {
        Self::sq_to_bitindex(sq)
    }
}

impl FromSpecImpl<&Square> for BitIndex {
    open spec fn obeys_from_spec() -> bool {
        true
    }

    open spec fn from_spec(sq: &Square) -> Self {
        BitIndex::spec_new(sq.spec_index())
    }
}

impl From<BitIndex> for u8 {
    /// The index as a number.
    fn from(bi: BitIndex) -> (r: Self) {
        bi.0
    }
}

impl FromSpecImpl<BitIndex> for u8 {
    open spec fn obeys_from_spec() -> bool {
        true
    }

    open spec fn from_spec(bi: BitIndex) -> Self {
        bi.value()
    }
}

impl From<&BitIndex> for u8 {
    /// The index as a number.
    fn from(bi: &BitIndex) -> (r: Self) {
        bi.0
    }
}

impl FromSpecImpl<&BitIndex> for u8 {
    open spec fn obeys_from_spec() -> bool {
        true
    }

    open spec fn from_spec(bi: &BitIndex) -> Self {
        bi.value()
    }
}

impl core::ops::Rem<u8> for BitIndex {
    type Output = u8;

    /// The remainder of the index by a number other than 0.
    fn rem(self, other: u8) -> (r: u8) {
        self.0 % other
    }
}

impl RemSpecImpl<u8> for BitIndex {
    open spec fn obeys_rem_spec() -> bool {
        true
    }

    open spec fn rem_req(self, other: u8) -> bool {
        other != 0
    }

    open spec fn rem_spec(self, other: u8) -> u8 {
        self.value() % other
    }
}

impl core::ops::Rem<u8> for &BitIndex {
    type Output = u8;

    /// The remainder of the index by a number other than 0.
    fn rem(self, other: u8) -> (r: u8) {
        self.0 % other
    }
}

impl RemSpecImpl<u8> for &BitIndex {
    open spec fn obeys_rem_spec() -> bool {
        true
    }

    open spec fn rem_req(self, other: u8) -> bool {
        other != 0
    }

    open spec fn rem_spec(self, other: u8) -> u8 {
        self.value() % other
    }
}

impl core::ops::Rem<BitIndex> for &BitIndex {
    type Output = u8;

    /// The remainder of the index by an index other than 0.
    fn rem(self, other: BitIndex) -> (r: u8) {
        self.0 % other.0
    }
}

impl RemSpecImpl<BitIndex> for &BitIndex {
    open spec fn obeys_rem_spec() -> bool {
        true
    }

    open spec fn rem_req(self, other: BitIndex) -> bool {
        other.value() != 0
    }

    open spec fn rem_spec(self, other: BitIndex) -> u8 {
        self.value() % other.value()
    }
}

impl core::ops::Rem<&BitIndex> for &BitIndex {
    type Output = u8;

    /// The remainder of the index by an index other than 0.
    fn rem(self, other: &BitIndex) -> (r: u8) {
        self.0 % other.0
    }
}

impl RemSpecImpl<&BitIndex> for &BitIndex {
    open spec fn obeys_rem_spec() -> bool {
        true
    }

    open spec fn rem_req(self, other: &BitIndex) -> bool {
        other.value() != 0
    }

    open spec fn rem_spec(self, other: &BitIndex) -> u8 {
        self.value() % other.value()
    }
}

impl TryFrom<BitIndex> for Square {
    type Error = Error;

    /// The square with a given bit index, or `OffBoard` where the index is
    /// not below 64.
    fn try_from(bi: BitIndex) -> (r: Result<Self, Error>) {
        let val: u8 = bi.into();
        if val < 64 {
            Ok(SQUARES[val as usize])
        } else {
            Err(Error::OffBoard)
        }
    }
}

impl TryFromSpecImpl<BitIndex> for Square {
    open spec fn obeys_try_from_spec() -> bool {
        true
    }

    open spec fn try_from_spec(bi: BitIndex) -> Result<Self, Error> {
        Square::spec_try_from(bi)
    }
}

impl SelfReturningCheckedAdd<u8> for BitIndex {
    open spec fn spec_checked_add(self, rhs: u8) -> Option<Self> {
        if self.value() + rhs <= u8::MAX {
            Some(Self::spec_new((self.value() + rhs) as u8))
        } else {
            None
        }
    }

    /// The index `rhs` bits further up, or nothing where that is above 255.
    fn checked_add(self, rhs: u8) -> (r: Option<BitIndex>)
        ensures
            r matches Some(sum) ==> sum.value() == self.value() + rhs,
    {
        match self.0.checked_add(rhs) {
            Some(sum) => Some(Self(sum)),
            None => None,
        }
    }
}

impl SelfReturningCheckedAdd<i8> for BitIndex {
    open spec fn spec_checked_add(self, rhs: i8) -> Option<Self> {
        if rhs != i8::MIN && 0 <= self.value() + rhs <= u8::MAX {
            Some(Self::spec_new((self.value() + rhs) as u8))
        } else {
            None
        }
    }

    /// The index `rhs` bits further up, or further down for a negative `rhs`;
    /// nothing where that is below 0 or above 255, or where the size of `rhs`
    /// is not itself an `i8`.
    fn checked_add(self, rhs: i8) -> (r: Option<BitIndex>)
        ensures
            r matches Some(sum) ==> sum.value() == self.value() + rhs,
    {
        if rhs == i8::MIN {
            return None;
        }
        let moved = if rhs < 0 {
            self.0.checked_sub((-rhs) as u8)
        } else {
            self.0.checked_add(rhs as u8)
        };
        match moved {
            Some(sum) => Some(Self(sum)),
            None => None,
        }
    }
}

impl Square {
    /// The square one step away, or the error where the step leaves the board.
    pub open spec fn spec_next_square(&self, direction: Compass) -> Result<Square, Error> {
        let file = self.file() + direction.file_step();
        let rank = self.rank() + direction.rank_step();
        if Square::on_board(file, rank) {
            Ok(Square::at(file, rank))
        } else {
            Err(Error::OffBoard)
        }
    }

    /// The square with a given bit index, or the error where no square has it.
    pub open spec fn spec_try_from(bi: BitIndex) -> Result<Square, Error> {
        if bi.value() < 64 {
            Ok(Square::from_index(bi.value() as int))
        } else {
            Err(Error::OffBoard)
        }
    }

    /// The index of the bit that stands for the square.
    pub fn to_bitindex(&self) -> (r: BitIndex)
        ensures
            r == BitIndex::spec_new(self.spec_index()),
            r.value() == self.spec_index(),
    {
        self.into()
    }

    /// Whether a step in the direction stays on the board.
    pub fn next_square_on_board(&self, direction: &Compass) -> (r: bool)
        ensures
            r == Square::on_board(
                self.file() + direction.file_step(),
                self.rank() + direction.rank_step(),
            ),
            r == self.spec_next_square(*direction).is_ok(),
    {
        match direction {
            Compass::North => self.north_on_board(),
            Compass::South => self.south_on_board(),
            Compass::East => self.east_on_board(),
            Compass::West => self.west_on_board(),
            Compass::NorthEast => self.north_on_board() && self.east_on_board(),
            Compass::NorthWest => self.north_on_board() && self.west_on_board(),
            Compass::SouthEast => self.south_on_board() && self.east_on_board(),
            Compass::SouthWest => self.south_on_board() && self.west_on_board(),
        }
    }

    /// The square one step away in the direction, or `OffBoard` where the
    /// step leaves the board.
    #[verifier::when_used_as_spec(spec_next_square)]
    pub fn next_square(&self, direction: Compass) -> (r: Result<Self, Error>)
        ensures
            r == self.spec_next_square(direction),
    {
        if !self.next_square_on_board(&direction) {
            return Err(Error::OffBoard);
        }
        let cur: BitIndex = self.into();
        let offset = direction.to_offset();
        proof {
            Square::lemma_index_bijection();
            BitIndex::lemma_new(self.spec_index());
        }
        match cur.checked_add(offset) {
            Some(new_bitindex) => {
                proof {
                    BitIndex::lemma_new((self.spec_index() + offset) as u8);
                }
                Self::try_from(new_bitindex)
            },
            None => Err(Error::OffBoard),
        }
    }

    /// Whether the square is on file A.
    pub fn on_a_file(&self) -> (r: bool)
        ensures
            r == (self.file() == 0),
    {
        self.to_bitindex() % 8 == 0
    }

    /// Whether the square is on rank 1.
    pub fn on_first_rank(&self) -> (r: bool)
        ensures
            r == (self.rank() == 0),
    {
        let bi: u8 = self.to_bitindex().into();
        bi < 8
    }

    /// Whether the square is on rank 8.
    pub fn on_last_rank(&self) -> (r: bool)
        ensures
            r == (self.rank() == 7),
    {
        let bi: u8 = self.to_bitindex().into();
        bi > 55
    }

    /// Whether the square is on file H.
    pub fn on_h_file(&self) -> (r: bool)
        ensures
            r == (self.file() == 7),
    {
        self.to_bitindex() % 8 == 7
    }

    /// Whether there is a square to the east.
    pub fn east_on_board(&self) -> (r: bool)
        ensures
            r == (self.file() < 7),
    {
        !self.on_h_file()
    }

    /// Whether there is a square to the west.
    pub fn west_on_board(&self) -> (r: bool)
        ensures
            r == (self.file() > 0),
    {
        !self.on_a_file()
    }

    /// Whether there is a square to the north.
    pub fn north_on_board(&self) -> (r: bool)
        ensures
            r == (self.rank() < 7),
    {
        !self.on_last_rank()
    }

    /// Whether there is a square to the south.
    pub fn south_on_board(&self) -> (r: bool)
        ensures
            r == (self.rank() > 0),
    {
        !self.on_first_rank()
    }
}

} // verus!
