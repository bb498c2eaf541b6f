//! The eight directions in which a square, or a whole set of squares, can step.

use vstd::prelude::*;

verus! {

/// A direction on the board, seen from white's side: north is towards rank 8,
/// east is towards file H.
#[derive(Clone, Copy, Debug, PartialEq, Eq, Structural)]
pub enum Compass {
    North,
    East,
    South,
    West,
    NorthEast,
    NorthWest,
    SouthEast,
    SouthWest,
}

impl Compass {
    /// The change of file that one step makes: 1 eastwards, -1 westwards.
    pub open spec fn file_step(&self) -> int {
        match self {
            Compass::East | Compass::NorthEast | Compass::SouthEast => 1,
            Compass::West | Compass::NorthWest | Compass::SouthWest => -1,
            Compass::North | Compass::South => 0,
        }
    }

    /// The change of rank that one step makes: 1 northwards, -1 southwards.
    pub open spec fn rank_step(&self) -> int {
        match self {
            Compass::North | Compass::NorthEast | Compass::NorthWest => 1,
            Compass::South | Compass::SouthEast | Compass::SouthWest => -1,
            Compass::East | Compass::West => 0,
        }
    }

    /// The change of bit index that one step makes, where the step stays on
    /// the board.
    pub open spec fn spec_to_offset(&self) -> i8 {
        (8 * self.rank_step() + self.file_step()) as i8
    }

    /// The change of bit index that one step makes: 8 for each rank north, 1
    /// for each file east.
    #[verifier::when_used_as_spec(spec_to_offset)]
    pub fn to_offset(&self) -> (r: i8)
        ensures
            r == self.spec_to_offset(),
            r == 8 * self.rank_step() + self.file_step(),
    {
        match self {
            Compass::East => 1,
            Compass::West => -1,
            Compass::North => 8,
            Compass::South => -8,
            Compass::NorthEast => 9,
            Compass::SouthWest => -9,
            Compass::NorthWest => 7,
            Compass::SouthEast => -7,
        }
    }
}

} // verus!
