//! What the parts of a position have in common: they can be asked whether a
//! square is taken, and a move can be applied to them.

use crate::board::Move;
use crate::square::Square;
use vstd::prelude::*;

verus! {

/// Something that can say whether a square is occupied.
pub trait Occupied {
    /// Whether the square is occupied.
    spec fn spec_occupied(&self, square: Square) -> bool;

    /// Whether the square is occupied.
    fn occupied(&self, square: &Square) -> (r: bool)
        ensures
            r == self.spec_occupied(*square),
    ;
}

/// Something to which a move can be applied, giving a new value and leaving
/// the old one as it was.
pub trait Movable: Sized {
    /// The value after the move.
    spec fn spec_apply_move(&self, mv: &Move) -> Self;

    /// The value after the move.
    fn apply_move(&self, mv: &Move) -> (r: Self)
        ensures
            r == self.spec_apply_move(mv),
    ;
}

} // verus!
