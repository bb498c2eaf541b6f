//! Sets of squares as 64-bit masks, in little-endian rank-file order: bit `i`
//! is set exactly when the square with index `i` belongs to the set.

use crate::bits::{
    bit, keep_east, keep_west, lemma_bit_algebra, lemma_bit_east, lemma_bit_north,
    lemma_bit_northeast, lemma_bit_northwest, lemma_bit_single, lemma_bit_south,
    lemma_bit_southeast, lemma_bit_southwest, lemma_bit_west, lemma_keep_masks, lemma_same_bits,
};
use crate::compass::Compass;
use crate::square::{Square, SquareColor, SquarePosition, SQUARES};
use crate::text::{join, joined, texts};
use vstd::prelude::*;
use vstd::std_specs::convert::FromSpecImpl;
use vstd::std_specs::ops::BitAndSpecImpl;
use vstd::string::StringExecFns;

verus! {

// The masks of some notable sets of squares.
pub const NO_SQUARES: u64 = 0x0000000000000000;

pub const ALL_SQUARES: u64 = 0xFFFFFFFFFFFFFFFF;

pub const A_FILE: u64 = 0x0101010101010101;

pub const NOT_A_FILE: u64 = 0xFEFEFEFEFEFEFEFE;

pub const H_FILE: u64 = 0x8080808080808080;

pub const NOT_H_FILE: u64 = 0x7F7F7F7F7F7F7F7F;

pub const RANK_1: u64 = 0x00000000000000FF;

pub const NOT_RANK_1: u64 = 0xFFFFFFFFFFFFFF00;

pub const RANK_8: u64 = 0xFF00000000000000;

pub const NOT_RANK_8: u64 = 0x00FFFFFFFFFFFFFF;

pub const DIAGONAL_A1_H8: u64 = 0x8040201008040201;

pub const DIAGONAL_H1_A8: u64 = 0x0102040810204080;

pub const LIGHT_SQUARES: u64 = 0x55AA55AA55AA55AA;

pub const DARK_SQUARES: u64 = 0xAA55AA55AA55AA55;

/// Which bits the notable masks hold, by the file `i % 8` and the rank `i / 8`
/// of bit `i`.
proof fn lemma_bit_notable(i: u64)
    by (bit_vector)
    requires
        i < 64,
    ensures
        !bit(NO_SQUARES, i),
        bit(ALL_SQUARES, i),
        bit(A_FILE, i) == (i % 8 == 0),
        bit(NOT_A_FILE, i) == (i % 8 != 0),
        bit(H_FILE, i) == (i % 8 == 7),
        bit(NOT_H_FILE, i) == (i % 8 != 7),
        bit(RANK_1, i) == (i / 8 == 0),
        bit(NOT_RANK_1, i) == (i / 8 != 0),
        bit(RANK_8, i) == (i / 8 == 7),
        bit(NOT_RANK_8, i) == (i / 8 != 7),
        bit(DIAGONAL_A1_H8, i) == (i % 8 == i / 8),
        bit(DIAGONAL_H1_A8, i) == (i % 8 + i / 8 == 7),
        bit(LIGHT_SQUARES, i) == ((i % 8 + i / 8) % 2 == 1),
        bit(DARK_SQUARES, i) == ((i % 8 + i / 8) % 2 == 0),
{
}

/// The squares of each notable mask.
pub proof fn lemma_notable_masks()
    ensures
        BitBoard::new(NO_SQUARES)@ == Set::<Square>::empty(),
        BitBoard::new(ALL_SQUARES)@ == Set::<Square>::full(),
        BitBoard::new(A_FILE)@ == Set::new(|s: Square| s.file() == 0),
        BitBoard::new(NOT_A_FILE)@ == Set::new(|s: Square| s.file() != 0),
        BitBoard::new(H_FILE)@ == Set::new(|s: Square| s.file() == 7),
        BitBoard::new(NOT_H_FILE)@ == Set::new(|s: Square| s.file() != 7),
        BitBoard::new(RANK_1)@ == Set::new(|s: Square| s.rank() == 0),
        BitBoard::new(NOT_RANK_1)@ == Set::new(|s: Square| s.rank() != 0),
        BitBoard::new(RANK_8)@ == Set::new(|s: Square| s.rank() == 7),
        BitBoard::new(NOT_RANK_8)@ == Set::new(|s: Square| s.rank() != 7),
        BitBoard::new(DIAGONAL_A1_H8)@ == Set::new(|s: Square| s.file() == s.rank()),
        BitBoard::new(DIAGONAL_H1_A8)@ == Set::new(|s: Square| s.file() + s.rank() == 7),
        BitBoard::new(LIGHT_SQUARES)@ == Set::new(|s: Square| s.color() == SquareColor::White),
        BitBoard::new(DARK_SQUARES)@ == Set::new(|s: Square| s.color() == SquareColor::Black),
{
    assert forall|s: Square|
        {
            let i = #[trigger] s.spec_index() as u64;
            &&& !bit(NO_SQUARES, i)
            &&& bit(ALL_SQUARES, i)
            &&& bit(A_FILE, i) == (s.file() == 0)
            &&& bit(NOT_A_FILE, i) == (s.file() != 0)
            &&& bit(H_FILE, i) == (s.file() == 7)
            &&& bit(NOT_H_FILE, i) == (s.file() != 7)
            &&& bit(RANK_1, i) == (s.rank() == 0)
            &&& bit(NOT_RANK_1, i) == (s.rank() != 0)
            &&& bit(RANK_8, i) == (s.rank() == 7)
            &&& bit(NOT_RANK_8, i) == (s.rank() != 7)
            &&& bit(DIAGONAL_A1_H8, i) == (s.file() == s.rank())
            &&& bit(DIAGONAL_H1_A8, i) == (s.file() + s.rank() == 7)
            &&& bit(LIGHT_SQUARES, i) == (s.color() == SquareColor::White)
            &&& bit(DARK_SQUARES, i) == (s.color() == SquareColor::Black)
        } by {
        lemma_bit_notable(s.spec_index() as u64);
    }
    assert(BitBoard::new(NO_SQUARES)@ =~= Set::<Square>::empty());
    assert(BitBoard::new(ALL_SQUARES)@ =~= Set::<Square>::full());
    assert(BitBoard::new(A_FILE)@ =~= Set::new(|s: Square| s.file() == 0));
    assert(BitBoard::new(NOT_A_FILE)@ =~= Set::new(|s: Square| s.file() != 0));
    assert(BitBoard::new(H_FILE)@ =~= Set::new(|s: Square| s.file() == 7));
    assert(BitBoard::new(NOT_H_FILE)@ =~= Set::new(|s: Square| s.file() != 7));
    assert(BitBoard::new(RANK_1)@ =~= Set::new(|s: Square| s.rank() == 0));
    assert(BitBoard::new(NOT_RANK_1)@ =~= Set::new(|s: Square| s.rank() != 0));
    assert(BitBoard::new(RANK_8)@ =~= Set::new(|s: Square| s.rank() == 7));
    assert(BitBoard::new(NOT_RANK_8)@ =~= Set::new(|s: Square| s.rank() != 7));
    assert(BitBoard::new(DIAGONAL_A1_H8)@ =~= Set::new(|s: Square| s.file() == s.rank()));
    assert(BitBoard::new(DIAGONAL_H1_A8)@ =~= Set::new(|s: Square| s.file() + s.rank() == 7));
    assert(BitBoard::new(LIGHT_SQUARES)@ =~= Set::new(
        |s: Square| s.color() == SquareColor::White,
    ));
    assert(BitBoard::new(DARK_SQUARES)@ =~= Set::new(|s: Square| s.color() == SquareColor::Black));
}

/// The squares that `s` reaches by `n` steps in one direction: each square of
/// `s` moves `n` files and ranks along `dir`, and leaves the set where that
/// takes it off the board.
pub open spec fn stepped(s: Set<Square>, dir: Compass, n: nat) -> Set<Square> {
    Set::new(
        |t: Square|
            {
                let file = t.file() - n * dir.file_step();
                let rank = t.rank() - n * dir.rank_step();
                Square::on_board(file, rank) && s.contains(Square::at(file, rank))
            },
    )
}

/// A number of steps for a shift, always below 8.
#[derive(Clone, Copy)]
pub struct Shift {
    distance: u8,
}

impl Shift {
    #[verifier::type_invariant]
    spec fn in_range(self) -> bool {
        self.distance < 8
    }

    /// The number of steps.
    pub closed spec fn distance(&self) -> nat {
        self.distance as nat
    }

    /// The shift by `distance % 8` steps.
    pub closed spec fn spec_new(distance: u8) -> Shift {
        Shift { distance: distance % 8 }
    }

    /// A distance is taken modulo 8, so 8 steps are no step.
    pub proof fn lemma_new(distance: u8)
        ensures
            Self::spec_new(distance).distance() == distance % 8,
            Self::spec_new(distance) == Self::spec_new(distance % 8),
    {
    }

    /// The shift by `distance % 8` steps: a distance of 8 or more is taken
    /// modulo 8.
    #[verifier::when_used_as_spec(spec_new)]
    pub fn new(distance: u8) -> (r: Shift)
        ensures
            r == Self::spec_new(distance),
            r.distance() == distance % 8,
    {
        Shift { distance: distance % 8 }
    }
}

/// A set of squares, held as a 64-bit mask.
#[derive(Clone, Copy, Debug, PartialEq, Eq, Structural)]
pub struct BitBoard {
    positions: u64,
}

impl View for BitBoard {
    type V = Set<Square>;

    /// The squares whose bits are set.
    open spec fn view(&self) -> Set<Square> {
        Set::new(|sq: Square| bit(self.positions(), sq.spec_index() as u64))
    }
}

/// Construction.
impl BitBoard {
    /// The mask itself.
    pub closed spec fn positions(&self) -> u64 {
        self.positions
    }

    /// The board with the given mask.
    pub closed spec fn spec_new(positions: u64) -> BitBoard {
        BitBoard { positions }
    }

    /// The board that holds one square and no other.
    pub closed spec fn spec_from_square(square: Square) -> BitBoard {
        BitBoard { positions: 1u64 << square.spec_index() }
    }

    /// A board is its mask: `spec_new` and `positions` undo each other.
    pub proof fn lemma_new(positions: u64)
        ensures
            Self::spec_new(positions).positions() == positions,
            forall|b: BitBoard| Self::spec_new(#[trigger] b.positions()) == b,
    {
    }

    /// The board of one square holds that square and no other.
    pub proof fn lemma_from_square(square: Square)
        ensures
            Self::spec_from_square(square)@ == Set::<Square>::empty().insert(square),
    {
        let b = Self::spec_from_square(square);
        assert forall|sq: Square| b@.contains(sq) == (sq == square) by {
            lemma_bit_single(square.spec_index() as u64, sq.spec_index() as u64);
        }
        assert(b@ =~= Set::<Square>::empty().insert(square));
    }

    /// Two boards that hold the same squares are the same board.
    pub proof fn lemma_extensional(a: BitBoard, b: BitBoard)
        requires
            a@ == b@,
        ensures
            a == b,
    {
        assert forall|i: u64| i < 64 implies bit(a.positions, i) == bit(b.positions, i) by {
            Square::lemma_index_bijection();
            let sq = Square::from_index(i as int);
            assert(sq.spec_index() == i);
            assert(a@.contains(sq) == bit(a.positions(), sq.spec_index() as u64));
            assert(b@.contains(sq) == bit(b.positions(), sq.spec_index() as u64));
        }
        lemma_same_bits(a.positions, b.positions);
    }

    /// The board with the given mask.
    #[verifier::when_used_as_spec(spec_new)]
    pub fn new(positions: u64) -> (r: BitBoard)
        ensures
            r == Self::spec_new(positions),
            r.positions() == positions,
    {
        BitBoard { positions }
    }

    /// The board that holds one square and no other.
    #[verifier::when_used_as_spec(spec_from_square)]
    pub fn from_square(square: Square) -> (r: BitBoard)
        ensures
            r == Self::spec_from_square(square),
            r@ == Set::<Square>::empty().insert(square),
    {
        proof {
            Self::lemma_from_square(square);
        }
        BitBoard::new(SquarePosition::from_square(&square).mask())
    }
}

impl From<u64> for BitBoard {
    /// The board with the given mask.
    fn from(positions: u64) -> (r: Self) {
        BitBoard::new(positions)
    }
}

impl FromSpecImpl<u64> for BitBoard {
    open spec fn obeys_from_spec() -> bool {
        true
    }

    open spec fn from_spec(positions: u64) -> Self {
        BitBoard::new(positions)
    }
}

impl From<BitBoard> for u64 {
    /// The mask of the board.
    fn from(board: BitBoard) -> (r: Self) {
        board.positions
    }
}

impl FromSpecImpl<BitBoard> for u64 {
    open spec fn obeys_from_spec() -> bool {
        true
    }

    open spec fn from_spec(board: BitBoard) -> Self {
        board.positions()
    }
}

impl From<&BitBoard> for u64 {
    /// The mask of the board.
    fn from(board: &BitBoard) -> (r: Self) {
        board.positions
    }
}

impl FromSpecImpl<&BitBoard> for u64 {
    open spec fn obeys_from_spec() -> bool {
        true
    }

    open spec fn from_spec(board: &BitBoard) -> Self {
        board.positions()
    }
}

impl core::ops::BitAnd for BitBoard {
    type Output = BitBoard;

    /// The squares that both boards hold.
    fn bitand(self, other: BitBoard) -> (r: BitBoard) {
        self.intersection(&other)
    }
}

impl BitAndSpecImpl for BitBoard {
    open spec fn obeys_bitand_spec() -> bool {
        true
    }

    open spec fn bitand_req(self, other: BitBoard) -> bool {
        true
    }

    open spec fn bitand_spec(self, other: BitBoard) -> BitBoard {
        self.intersection(&other)
    }
}

impl core::ops::BitAnd for &BitBoard {
    type Output = BitBoard;

    /// The squares that both boards hold.
    fn bitand(self, other: &BitBoard) -> (r: BitBoard) {
        self.intersection(other)
    }
}

impl BitAndSpecImpl for &BitBoard {
    open spec fn obeys_bitand_spec() -> bool {
        true
    }

    open spec fn bitand_req(self, other: &BitBoard) -> bool {
        true
    }

    open spec fn bitand_spec(self, other: &BitBoard) -> BitBoard {
        self.intersection(other)
    }
}

/// Containment and combination.
impl BitBoard {
    /// The bitwise and of the masks.
    pub closed spec fn spec_intersection(&self, other: &Self) -> BitBoard {
        BitBoard { positions: self.positions & other.positions }
    }

    /// The bitwise or of the masks.
    pub closed spec fn spec_union(&self, other: &Self) -> BitBoard {
        BitBoard { positions: self.positions | other.positions }
    }

    /// The bitwise not of the mask.
    pub closed spec fn spec_complement(&self) -> BitBoard {
        BitBoard { positions: !self.positions }
    }

    /// The mask of `other` without the bits of `self`.
    pub closed spec fn spec_relative_complement(&self, other: &Self) -> BitBoard {
        BitBoard { positions: !self.positions & other.positions }
    }

    /// The mask of `other` with the bits that `self` lacks.
    pub closed spec fn spec_implication(&self, other: &Self) -> BitBoard {
        BitBoard { positions: !self.positions | other.positions }
    }

    /// The bitwise exclusive or of the masks.
    pub closed spec fn spec_exclusive_or(&self, other: &Self) -> BitBoard {
        BitBoard { positions: self.positions ^ other.positions }
    }

    /// The bitwise not of the exclusive or of the masks.
    pub closed spec fn spec_iff(&self, other: &Self) -> BitBoard {
        BitBoard { positions: !(self.positions ^ other.positions) }
    }

    /// What each combination of two boards holds, as a set of squares.
    pub proof fn lemma_algebra(a: BitBoard, b: BitBoard)
        ensures
            a.spec_intersection(&b)@ == a@.intersect(b@),
            a.spec_union(&b)@ == a@.union(b@),
            a.spec_complement()@ == a@.complement(),
            a.spec_relative_complement(&b)@ == b@.difference(a@),
            a.spec_implication(&b)@ == a@.complement().union(b@),
            a.spec_exclusive_or(&b)@ == a@.difference(b@).union(b@.difference(a@)),
            a.spec_iff(&b)@ == a@.difference(b@).union(b@.difference(a@)).complement(),
    {
        let x = a.positions;
        let y = b.positions;
        assert forall|sq: Square|
            {
                let i = #[trigger] sq.spec_index() as u64;
                &&& bit(x & y, i) == (bit(x, i) && bit(y, i))
                &&& bit(x | y, i) == (bit(x, i) || bit(y, i))
                &&& bit(!x, i) == !bit(x, i)
                &&& bit(!x & y, i) == (!bit(x, i) && bit(y, i))
                &&& bit(!x | y, i) == (!bit(x, i) || bit(y, i))
                &&& bit(x ^ y, i) == (bit(x, i) != bit(y, i))
                &&& bit(!(x ^ y), i) == (bit(x, i) == bit(y, i))
            } by {
            let i = sq.spec_index() as u64;
            lemma_bit_algebra(x, y, i);
            lemma_bit_algebra(!x, y, i);
            lemma_bit_algebra(x ^ y, y, i);
        }
        assert(a.spec_intersection(&b)@ =~= a@.intersect(b@));
        assert(a.spec_union(&b)@ =~= a@.union(b@));
        assert(a.spec_complement()@ =~= a@.complement());
        assert(a.spec_relative_complement(&b)@ =~= b@.difference(a@));
        assert(a.spec_implication(&b)@ =~= a@.complement().union(b@));
        assert(a.spec_exclusive_or(&b)@ =~= a@.difference(b@).union(b@.difference(a@)));
        assert(a.spec_iff(&b)@ =~= a@.difference(b@).union(b@.difference(a@)).complement());
    }

    /// Only the board of mask zero holds no square.
    pub proof fn lemma_empty(a: BitBoard)
        ensures
            (a.positions() == 0) == (a@ == Set::<Square>::empty()),
            (a.positions() == 0) == (a == Self::spec_new(NO_SQUARES)),
        decreases
            (if a.positions() == 0 { 0nat } else { 1nat }),
    {
        if a.positions == 0 {
            assert forall|sq: Square| !a@.contains(sq) by {
                lemma_bit_algebra(0, 0, sq.spec_index() as u64);
            }
            assert(a@ =~= Set::<Square>::empty());
        } else if a@ == Set::<Square>::empty() {
            Self::lemma_empty(Self::spec_new(NO_SQUARES));
            Self::lemma_extensional(a, Self::spec_new(NO_SQUARES));
        }
    }

    /// Whether the board holds no square.
    pub fn is_empty(&self) -> (r: bool)
        ensures
            r == (self.positions() == 0),
            r == (self@ == Set::<Square>::empty()),
    {
        proof {
            Self::lemma_empty(*self);
        }
        self.positions == 0
    }

    /// Whether the board holds the square.
    pub fn occupied(&self, square: Square) -> (r: bool)
        ensures
            r == self@.contains(square),
    {
        let single = Self::from_square(square);
        let common = single.intersection(self);
        assert(common@ =~= Set::<Square>::empty() <==> !self@.contains(square)) by {
            if self@.contains(square) {
                assert(common@.contains(square));
            }
        }
        !common.is_empty()
    }

    /// The squares that both boards hold.
    #[verifier::when_used_as_spec(spec_intersection)]
    pub fn intersection(&self, other: &Self) -> (r: BitBoard)
        ensures
            r == self.spec_intersection(other),
            r.positions() == self.positions() & other.positions(),
            r@ == self@.intersect(other@),
    {
        proof {
            Self::lemma_algebra(*self, *other);
        }
        BitBoard::new(self.positions & other.positions)
    }

    /// Whether some square is held by both boards.
    pub fn intersects(&self, other: &Self) -> (r: bool)
        ensures
            r == !self@.disjoint(other@),
    {
        !self.is_disjoint_with(other)
    }

    /// Whether no square is held by both boards.
    pub fn is_disjoint_with(&self, other: &Self) -> (r: bool)
        ensures
            r == self@.disjoint(other@),
    {
        let common = self.intersection(other);
        assert(common@ =~= Set::<Square>::empty() <==> self@.disjoint(other@)) by {
            if common@ =~= Set::<Square>::empty() {
                assert forall|sq: Square| self@.contains(sq) implies !other@.contains(sq) by {
                    assert(!common@.contains(sq));
                }
            }
        }
        common.is_empty()
    }

    /// The squares that either board holds.
    #[verifier::when_used_as_spec(spec_union)]
    pub fn union(&self, other: &Self) -> (r: BitBoard)
        ensures
            r == self.spec_union(other),
            r.positions() == self.positions() | other.positions(),
            r@ == self@.union(other@),
    {
        proof {
            Self::lemma_algebra(*self, *other);
        }
        BitBoard::new(self.positions | other.positions)
    }

    /// The squares that the board does not hold.
    #[verifier::when_used_as_spec(spec_complement)]
    pub fn complement(&self) -> (r: BitBoard)
        ensures
            r == self.spec_complement(),
            r.positions() == !self.positions(),
            r@ == self@.complement(),
    {
        proof {
            Self::lemma_algebra(*self, *self);
        }
        BitBoard::new(!self.positions)
    }

    /// The squares that only `other` holds.
    #[verifier::when_used_as_spec(spec_relative_complement)]
    pub fn relative_complement(&self, other: &Self) -> (r: BitBoard)
        ensures
            r == self.spec_relative_complement(other),
            r.positions() == !self.positions() & other.positions(),
            r@ == other@.difference(self@),
    {
        proof {
            Self::lemma_algebra(*self, *other);
        }
        BitBoard::new(!self.positions & other.positions)
    }

    /// Every square but those that only `self` holds.
    #[verifier::when_used_as_spec(spec_implication)]
    pub fn implication(&self, other: &Self) -> (r: BitBoard)
        ensures
            r == self.spec_implication(other),
            r.positions() == !self.positions() | other.positions(),
            r@ == self@.complement().union(other@),
    {
        proof {
            Self::lemma_algebra(*self, *other);
        }
        BitBoard::new(!self.positions | other.positions)
    }

    /// The squares that exactly one of the boards holds.
    #[verifier::when_used_as_spec(spec_exclusive_or)]
    pub fn exclusive_or(&self, other: &Self) -> (r: BitBoard)
        ensures
            r == self.spec_exclusive_or(other),
            r.positions() == self.positions() ^ other.positions(),
            r@ == self@.difference(other@).union(other@.difference(self@)),
    {
        proof {
            Self::lemma_algebra(*self, *other);
        }
        BitBoard::new(self.positions ^ other.positions)
    }

    /// The squares that both boards hold or neither does.
    #[verifier::when_used_as_spec(spec_iff)]
    pub fn iff(&self, other: &Self) -> (r: BitBoard)
        ensures
            r == self.spec_iff(other),
            r.positions() == !(self.positions() ^ other.positions()),
            r@ == self@.difference(other@).union(other@.difference(self@)).complement(),
    {
        proof {
            Self::lemma_algebra(*self, *other);
        }
        BitBoard::new(!(self.positions ^ other.positions))
    }
}

/// Shifts. Whatever a shift would carry off the board is dropped: nothing
/// comes back on the far side.
impl BitBoard {
    /// The board after `n` steps in one direction, for `n < 8`. Before a shift
    /// with an eastward or westward part, the files that would leave the board
    /// are masked out.
    pub closed spec fn shifted_by(&self, dir: Compass, n: nat) -> BitBoard {
        let k = n as u64;
        let p = self.positions;
        BitBoard {
            positions: match dir {
                Compass::East => (p & keep_east(k)) << k,
                Compass::NorthEast => (p & keep_east(k)) << ((9 * k) as u64),
                Compass::North => p << ((8 * k) as u64),
                Compass::NorthWest => (p & keep_west(k)) << ((7 * k) as u64),
                Compass::West => (p & keep_west(k)) >> k,
                Compass::SouthWest => (p & keep_west(k)) >> ((9 * k) as u64),
                Compass::South => p >> ((8 * k) as u64),
                Compass::SouthEast => (p & keep_east(k)) >> ((7 * k) as u64),
            },
        }
    }

    /// The board after one step in one direction.
    pub open spec fn shifted(&self, dir: Compass) -> BitBoard {
        self.shifted_by(dir, 1)
    }

    /// The board after `n` single steps in one direction, one after another.
    pub open spec fn shifted_times(&self, dir: Compass, n: nat) -> BitBoard
        decreases n,
    {
        if n == 0 {
            *self
        } else {
            self.shifted_times(dir, (n - 1) as nat).shifted(dir)
        }
    }

    /// A shift moves every square of the set and drops what leaves the board.
    pub proof fn lemma_shifted(b: BitBoard, dir: Compass, n: nat)
        requires
            n < 8,
        ensures
            b.shifted_by(dir, n)@ == stepped(b@, dir, n),
    {
        Square::lemma_coordinates();
        Square::lemma_index_bijection();
        let x = b.positions;
        let k = n as u64;
        let r = b.shifted_by(dir, n);
        assert forall|t: Square| r@.contains(t) == stepped(b@, dir, n).contains(t) by {
            let i = t.spec_index() as u64;
            let file = t.file() - n * dir.file_step();
            let rank = t.rank() - n * dir.rank_step();
            let src = Square::at(file, rank);
            assert(r@.contains(t) == bit(r.positions, i));
            if Square::on_board(file, rank) {
                assert(src.spec_index() == rank * 8 + file);
                assert(b@.contains(src) == bit(x, (rank * 8 + file) as u64));
            }
            match dir {
                Compass::East => lemma_bit_east(x, k, i),
                Compass::NorthEast => lemma_bit_northeast(x, k, i),
                Compass::North => lemma_bit_north(x, k, i),
                Compass::NorthWest => lemma_bit_northwest(x, k, i),
                Compass::West => lemma_bit_west(x, k, i),
                Compass::SouthWest => lemma_bit_southwest(x, k, i),
                Compass::South => lemma_bit_south(x, k, i),
                Compass::SouthEast => lemma_bit_southeast(x, k, i),
            }
        }
        assert(r@ =~= stepped(b@, dir, n));
    }

    /// The mask of the files that stay on the board in `n` steps east.
    fn keep_for_east(n: u64) -> (r: u64)
        requires
            n < 8,
        ensures
            r == keep_east(n),
    {
        proof {
            lemma_keep_masks(n);
        }
        (0xFFu64 >> n) * 0x0101010101010101u64
    }

    /// The mask of the files that stay on the board in `n` steps west.
    fn keep_for_west(n: u64) -> (r: u64)
        requires
            n < 8,
        ensures
            r == keep_west(n),
    {
        proof {
            lemma_keep_masks(n);
        }
        ((0xFFu64 << n) & 0xFF) * 0x0101010101010101u64
    }

    /// Every square moves one file east.
    pub fn shift_east(&self) -> (r: BitBoard)
        ensures
            r == self.shifted(Compass::East),
            r.positions() == (self.positions() & NOT_H_FILE) << 1,
            r@ == stepped(self@, Compass::East, 1),
    {
        proof {
            lemma_keep_masks(1);
            Self::lemma_shifted(*self, Compass::East, 1);
        }
        BitBoard::new(self.intersection(&BitBoard::new(NOT_H_FILE)).positions << 1)
    }

    /// Every square moves one file east and one rank north.
    pub fn shift_northeast(&self) -> (r: BitBoard)
        ensures
            r == self.shifted(Compass::NorthEast),
            r.positions() == (self.positions() & NOT_H_FILE) << 9,
            r@ == stepped(self@, Compass::NorthEast, 1),
    {
        proof {
            lemma_keep_masks(1);
            Self::lemma_shifted(*self, Compass::NorthEast, 1);
        }
        BitBoard::new(self.intersection(&BitBoard::new(NOT_H_FILE)).positions << 9)
    }

    /// Every square moves one rank north.
    pub fn shift_north(&self) -> (r: BitBoard)
        ensures
            r == self.shifted(Compass::North),
            r.positions() == self.positions() << 8,
            r@ == stepped(self@, Compass::North, 1),
    {
        proof {
            lemma_keep_masks(1);
            Self::lemma_shifted(*self, Compass::North, 1);
        }
        BitBoard::new(self.positions << 8)
    }

    /// Every square moves one file west and one rank north.
    pub fn shift_northwest(&self) -> (r: BitBoard)
        ensures
            r == self.shifted(Compass::NorthWest),
            r.positions() == (self.positions() & NOT_A_FILE) << 7,
            r@ == stepped(self@, Compass::NorthWest, 1),
    {
        proof {
            lemma_keep_masks(1);
            Self::lemma_shifted(*self, Compass::NorthWest, 1);
        }
        BitBoard::new(self.intersection(&BitBoard::new(NOT_A_FILE)).positions << 7)
    }

    /// Every square moves one file west.
    pub fn shift_west(&self) -> (r: BitBoard)
        ensures
            r == self.shifted(Compass::West),
            r.positions() == (self.positions() & NOT_A_FILE) >> 1,
            r@ == stepped(self@, Compass::West, 1),
    {
        proof {
            lemma_keep_masks(1);
            Self::lemma_shifted(*self, Compass::West, 1);
        }
        BitBoard::new(self.intersection(&BitBoard::new(NOT_A_FILE)).positions >> 1)
    }

    /// Every square moves one file west and one rank south.
    pub fn shift_southwest(&self) -> (r: BitBoard)
        ensures
            r == self.shifted(Compass::SouthWest),
            r.positions() == (self.positions() & NOT_A_FILE) >> 9,
            r@ == stepped(self@, Compass::SouthWest, 1),
    {
        proof {
            lemma_keep_masks(1);
            Self::lemma_shifted(*self, Compass::SouthWest, 1);
        }
        BitBoard::new(self.intersection(&BitBoard::new(NOT_A_FILE)).positions >> 9)
    }

    /// Every square moves one rank south.
    pub fn shift_south(&self) -> (r: BitBoard)
        ensures
            r == self.shifted(Compass::South),
            r.positions() == self.positions() >> 8,
            r@ == stepped(self@, Compass::South, 1),
    {
        proof {
            lemma_keep_masks(1);
            Self::lemma_shifted(*self, Compass::South, 1);
        }
        BitBoard::new(self.positions >> 8)
    }

    /// Every square moves one file east and one rank south.
    pub fn shift_southeast(&self) -> (r: BitBoard)
        ensures
            r == self.shifted(Compass::SouthEast),
            r.positions() == (self.positions() & NOT_H_FILE) >> 7,
            r@ == stepped(self@, Compass::SouthEast, 1),
    {
        proof {
            lemma_keep_masks(1);
            Self::lemma_shifted(*self, Compass::SouthEast, 1);
        }
        BitBoard::new(self.intersection(&BitBoard::new(NOT_H_FILE)).positions >> 7)
    }

    /// Every square moves `shift` files east.
    pub fn shift_east_by(&self, shift: Shift) -> (r: BitBoard)
        ensures
            r == self.shifted_by(Compass::East, shift.distance()),
            r@ == stepped(self@, Compass::East, shift.distance()),
    {
        proof {
            use_type_invariant(&shift);
            Self::lemma_shifted(*self, Compass::East, shift.distance());
        }
        let n: u64 = shift.distance as u64;
        BitBoard::new((self.positions & Self::keep_for_east(n)) << n)
    }

    /// Every square moves `shift` files east and `shift` ranks north.
    pub fn shift_northeast_by(&self, shift: Shift) -> (r: BitBoard)
        ensures
            r == self.shifted_by(Compass::NorthEast, shift.distance()),
            r@ == stepped(self@, Compass::NorthEast, shift.distance()),
    {
        proof {
            use_type_invariant(&shift);
            Self::lemma_shifted(*self, Compass::NorthEast, shift.distance());
        }
        let n: u64 = shift.distance as u64;
        BitBoard::new((self.positions & Self::keep_for_east(n)) << (9 * n))
    }

    /// Every square moves `shift` ranks north.
    pub fn shift_north_by(&self, shift: Shift) -> (r: BitBoard)
        ensures
            r == self.shifted_by(Compass::North, shift.distance()),
            r@ == stepped(self@, Compass::North, shift.distance()),
    {
        proof {
            use_type_invariant(&shift);
            Self::lemma_shifted(*self, Compass::North, shift.distance());
        }
        let n: u64 = shift.distance as u64;
        BitBoard::new(self.positions << (8 * n))
    }

    /// Every square moves `shift` files west and `shift` ranks north.
    pub fn shift_northwest_by(&self, shift: Shift) -> (r: BitBoard)
        ensures
            r == self.shifted_by(Compass::NorthWest, shift.distance()),
            r@ == stepped(self@, Compass::NorthWest, shift.distance()),
    {
        proof {
            use_type_invariant(&shift);
            Self::lemma_shifted(*self, Compass::NorthWest, shift.distance());
        }
        let n: u64 = shift.distance as u64;
        BitBoard::new((self.positions & Self::keep_for_west(n)) << (7 * n))
    }

    /// Every square moves `shift` files west.
    pub fn shift_west_by(&self, shift: Shift) -> (r: BitBoard)
        ensures
            r == self.shifted_by(Compass::West, shift.distance()),
            r@ == stepped(self@, Compass::West, shift.distance()),
    {
        proof {
            use_type_invariant(&shift);
            Self::lemma_shifted(*self, Compass::West, shift.distance());
        }
        let n: u64 = shift.distance as u64;
        BitBoard::new((self.positions & Self::keep_for_west(n)) >> n)
    }

    /// Every square moves `shift` files west and `shift` ranks south.
    pub fn shift_southwest_by(&self, shift: Shift) -> (r: BitBoard)
        ensures
            r == self.shifted_by(Compass::SouthWest, shift.distance()),
            r@ == stepped(self@, Compass::SouthWest, shift.distance()),
    {
        proof {
            use_type_invariant(&shift);
            Self::lemma_shifted(*self, Compass::SouthWest, shift.distance());
        }
        let n: u64 = shift.distance as u64;
        BitBoard::new((self.positions & Self::keep_for_west(n)) >> (9 * n))
    }

    /// Every square moves `shift` ranks south.
    pub fn shift_south_by(&self, shift: Shift) -> (r: BitBoard)
        ensures
            r == self.shifted_by(Compass::South, shift.distance()),
            r@ == stepped(self@, Compass::South, shift.distance()),
    {
        proof {
            use_type_invariant(&shift);
            Self::lemma_shifted(*self, Compass::South, shift.distance());
        }
        let n: u64 = shift.distance as u64;
        BitBoard::new(self.positions >> (8 * n))
    }

    /// Every square moves `shift` files east and `shift` ranks south.
    pub fn shift_southeast_by(&self, shift: Shift) -> (r: BitBoard)
        ensures
            r == self.shifted_by(Compass::SouthEast, shift.distance()),
            r@ == stepped(self@, Compass::SouthEast, shift.distance()),
    {
        proof {
            use_type_invariant(&shift);
            Self::lemma_shifted(*self, Compass::SouthEast, shift.distance());
        }
        let n: u64 = shift.distance as u64;
        BitBoard::new((self.positions & Self::keep_for_east(n)) >> (7 * n))
    }
}

/// Boards of many squares, and the squares of a board.
impl BitBoard {
    /// The union of the boards of the squares of a sequence, folded from the
    /// empty board.
    pub open spec fn spec_from_squares(squares: Seq<Square>) -> BitBoard
        decreases squares.len(),
    {
        if squares.len() == 0 {
            Self::spec_new(NO_SQUARES)
        } else {
            Self::spec_from_squares(squares.drop_last()).spec_union(
                &Self::spec_from_square(squares.last()),
            )
        }
    }

    /// The union of the boards of a sequence, folded from the empty board.
    pub open spec fn spec_from_boards(boards: Seq<BitBoard>) -> BitBoard
        decreases boards.len(),
    {
        if boards.len() == 0 {
            Self::spec_new(NO_SQUARES)
        } else {
            Self::spec_from_boards(boards.drop_last()).spec_union(&boards.last())
        }
    }

    /// Those squares of a sequence that the board holds, in the order of the
    /// sequence.
    pub open spec fn occupied_among(&self, squares: Seq<Square>) -> Seq<Square> {
        squares.filter(|sq: Square| self@.contains(sq))
    }

    /// The squares of the board in ascending order of index.
    pub open spec fn spec_occupied_squares(&self) -> Seq<Square> {
        self.occupied_among(SQUARES@)
    }

    /// The board of a sequence of squares holds the squares that occur in it.
    pub proof fn lemma_from_squares(squares: Seq<Square>)
        ensures
            Self::spec_from_squares(squares)@ == squares.to_set(),
        decreases squares.len(),
    {
        let r = Self::spec_from_squares(squares);
        if squares.len() == 0 {
            Self::lemma_empty(r);
            Self::lemma_new(NO_SQUARES);
            assert(r@ =~= squares.to_set());
        } else {
            let rest = squares.drop_last();
            let last = Self::spec_from_square(squares.last());
            Self::lemma_from_squares(rest);
            Self::lemma_from_square(squares.last());
            Self::lemma_algebra(Self::spec_from_squares(rest), last);
            assert forall|sq: Square| r@.contains(sq) == squares.to_set().contains(sq) by {
                if rest.contains(sq) {
                    let i = choose|i: int| 0 <= i < rest.len() && rest[i] == sq;
                    assert(squares[i] == sq);
                }
                if squares.contains(sq) {
                    let i = choose|i: int| 0 <= i < squares.len() && squares[i] == sq;
                    if i < rest.len() {
                        assert(rest[i] == sq);
                    }
                }
            }
            assert(r@ =~= squares.to_set());
        }
    }

    /// The union of a sequence of boards holds the squares that some board
    /// of the sequence holds.
    pub proof fn lemma_from_boards(boards: Seq<BitBoard>)
        ensures
            Self::spec_from_boards(boards)@ == Set::new(
                |sq: Square|
                    exists|i: int| 0 <= i < boards.len() && (#[trigger] boards[i])@.contains(sq),
            ),
        decreases boards.len(),
    {
        let r = Self::spec_from_boards(boards);
        let any = Set::new(
            |sq: Square|
                exists|i: int| 0 <= i < boards.len() && (#[trigger] boards[i])@.contains(sq),
        );
        if boards.len() == 0 {
            Self::lemma_empty(r);
            Self::lemma_new(NO_SQUARES);
            assert(r@ =~= any);
        } else {
            let rest = boards.drop_last();
            Self::lemma_from_boards(rest);
            Self::lemma_algebra(Self::spec_from_boards(rest), boards.last());
            assert forall|sq: Square| r@.contains(sq) == any.contains(sq) by {
                if Self::spec_from_boards(rest)@.contains(sq) {
                    let i = choose|i: int|
                        0 <= i < rest.len() && (#[trigger] rest[i])@.contains(sq);
                    assert(boards[i]@.contains(sq));
                }
                if boards.last()@.contains(sq) {
                    assert(boards[boards.len() - 1]@.contains(sq));
                }
                if any.contains(sq) {
                    let i = choose|i: int|
                        0 <= i < boards.len() && (#[trigger] boards[i])@.contains(sq);
                    if i < rest.len() {
                        assert(rest[i]@.contains(sq));
                    }
                }
            }
            assert(r@ =~= any);
        }
    }

    /// The board that holds the squares of a vector, in whatever order and
    /// however often they occur in it.
    pub fn from_squares(squares: &Vec<Square>) -> (r: BitBoard)
        ensures
            r == Self::spec_from_squares(squares@),
            r@ == squares@.to_set(),
    {
        let mut result = BitBoard::new(NO_SQUARES);
        let mut i: usize = 0;
        while i < squares.len()
            invariant
                i <= squares.len(),
                result == Self::spec_from_squares(squares@.take(i as int)),
            decreases squares.len() - i,
        {
            assert(squares@.take(i + 1).drop_last() =~= squares@.take(i as int));
            result = result.union(&BitBoard::from_square(squares[i]));
            i += 1;
        }
        proof {
            assert(squares@.take(i as int) =~= squares@);
            Self::lemma_from_squares(squares@);
        }
        result
    }

    /// The board that holds the squares of all the boards of a vector.
    pub fn from_boards(boards: &Vec<BitBoard>) -> (r: BitBoard)
        ensures
            r == Self::spec_from_boards(boards@),
            r@ == Set::new(
                |sq: Square|
                    exists|i: int| 0 <= i < boards.len() && (#[trigger] boards[i])@.contains(sq),
            ),
    {
        let mut result = BitBoard::new(NO_SQUARES);
        let mut i: usize = 0;
        while i < boards.len()
            invariant
                i <= boards.len(),
                result == Self::spec_from_boards(boards@.take(i as int)),
            decreases boards.len() - i,
        {
            assert(boards@.take(i + 1).drop_last() =~= boards@.take(i as int));
            result = result.union(&boards[i]);
            i += 1;
        }
        proof {
            assert(boards@.take(i as int) =~= boards@);
            Self::lemma_from_boards(boards@);
        }
        result
    }

    /// The squares of the board, each once, in ascending order of index.
    pub fn occupied_squares(&self) -> (r: Vec<Square>)
        ensures
            r@ == self.spec_occupied_squares(),
            forall|sq: Square| r@.contains(sq) == self@.contains(sq),
            forall|i: int, j: int|
                0 <= i < j < r.len() ==> (#[trigger] r[i]).spec_index() < (
                #[trigger] r[j]).spec_index(),
    {
        let mut result: Vec<Square> = Vec::new();
        let mut i: usize = 0;
        proof {
            Square::lemma_index_bijection();
            reveal(Seq::filter);
        }
        while i < 64
            invariant
                i <= 64,
                result@ == self.occupied_among(SQUARES@.take(i as int)),
                forall|sq: Square|
                    result@.contains(sq) == (self@.contains(sq) && sq.spec_index() < i),
                forall|k: int| 0 <= k < result.len() ==> (#[trigger] result[k]).spec_index() < i,
                forall|k: int, l: int|
                    0 <= k < l < result.len() ==> (#[trigger] result[k]).spec_index() < (
                    #[trigger] result[l]).spec_index(),
                forall|s: Square| Square::from_index(#[trigger] s.spec_index() as int) == s,
                forall|n: int| 0 <= n < 64 ==> (#[trigger] Square::from_index(n)).spec_index() == n,
            decreases 64 - i,
        {
            let square = SQUARES[i];
            let ghost before = result@;
            proof {
                reveal(Seq::filter);
            }
            assert(SQUARES@.take(i + 1).drop_last() =~= SQUARES@.take(i as int));
            assert(SQUARES@.take(i + 1).last() == square);
            assert(square == Square::from_index(i as int));
            if self.occupied(square) {
                result.push(square);
                assert forall|sq: Square|
                    result@.contains(sq) == (self@.contains(sq) && sq.spec_index() < i + 1) by {
                    if before.contains(sq) {
                        let k = choose|k: int| 0 <= k < before.len() && before[k] == sq;
                        assert(result@[k] == sq);
                    }
                    if sq == square {
                        assert(result@[before.len() as int] == sq);
                    }
                }
            } else {
                assert forall|sq: Square|
                    result@.contains(sq) == (self@.contains(sq) && sq.spec_index() < i + 1) by {
                    if sq.spec_index() == i {
                        assert(sq == square);
                    }
                }
            }
            i += 1;
        }
        assert(SQUARES@.take(64) =~= SQUARES@);
        result
    }
}

/// Changes of one square.
impl BitBoard {
    /// The union with the board of the square.
    pub open spec fn spec_set(&self, square: Square) -> BitBoard {
        self.spec_union(&Self::spec_from_square(square))
    }

    /// The exclusive or with the board of the square.
    pub open spec fn spec_toggle(&self, square: Square) -> BitBoard {
        self.spec_exclusive_or(&Self::spec_from_square(square))
    }

    /// The intersection with the complement of the board of the square.
    pub open spec fn spec_unset(&self, square: Square) -> BitBoard {
        self.spec_intersection(&Self::spec_from_square(square).spec_complement())
    }

    /// What a board holds after the change of one square.
    pub proof fn lemma_update(a: BitBoard, square: Square)
        ensures
            a.spec_set(square)@ == a@.insert(square),
            a.spec_unset(square)@ == a@.remove(square),
            a.spec_toggle(square)@ == if a@.contains(square) {
                a@.remove(square)
            } else {
                a@.insert(square)
            },
    {
        let single = Self::spec_from_square(square);
        Self::lemma_from_square(square);
        Self::lemma_algebra(a, single);
        Self::lemma_algebra(single, a);
        Self::lemma_algebra(a, single.spec_complement());
        assert(a.spec_set(square)@ =~= a@.insert(square));
        assert(a.spec_unset(square)@ =~= a@.remove(square));
        if a@.contains(square) {
            assert(a.spec_toggle(square)@ =~= a@.remove(square));
        } else {
            assert(a.spec_toggle(square)@ =~= a@.insert(square));
        }
    }

    /// The board with the square in it.
    #[verifier::when_used_as_spec(spec_set)]
    pub fn set(&self, square: Square) -> (r: Self)
        ensures
            r == self.spec_set(square),
            r@ == self@.insert(square),
    {
        proof {
            Self::lemma_update(*self, square);
        }
        self.union(&Self::from_square(square))
    }

    /// The board with the square in it if it was not, and without it if it was.
    #[verifier::when_used_as_spec(spec_toggle)]
    pub fn toggle(&self, square: Square) -> (r: Self)
        ensures
            r == self.spec_toggle(square),
            r@ == if self@.contains(square) {
                self@.remove(square)
            } else {
                self@.insert(square)
            },
    {
        proof {
            Self::lemma_update(*self, square);
        }
        self.exclusive_or(&Self::from_square(square))
    }

    /// The board without the square.
    #[verifier::when_used_as_spec(spec_unset)]
    pub fn unset(&self, square: Square) -> (r: Self)
        ensures
            r == self.spec_unset(square),
            r@ == self@.remove(square),
    {
        proof {
            Self::lemma_update(*self, square);
        }
        self.intersection(&Self::from_square(square).complement())
    }
}

/// Diagnostic text.
impl BitBoard {
    /// The names of the squares of the board in ascending order of index,
    /// with a comma and a space between each two, in square brackets.
    pub open spec fn text(&self) -> Seq<char> {
        "["@ + joined(self.spec_occupied_squares().map_values(|sq: Square| sq.name()), ", "@) + "]"@
    }

    /// The board as a text, such as `[A1, B1]`.
    pub fn to_string(&self) -> (r: String)
        ensures
            r@ == self.text(),
    {
        let squares = self.occupied_squares();
        let mut names: Vec<String> = Vec::new();
        let mut i: usize = 0;
        while i < squares.len()
            invariant
                i <= squares.len(),
                names.len() == i,
                forall|k: int| 0 <= k < i ==> (#[trigger] names[k])@ == squares[k].name(),
            decreases squares.len() - i,
        {
            names.push(squares[i].to_string());
            i += 1;
        }
        assert(texts(names@) =~= squares@.map_values(|sq: Square| sq.name()));
        let mut result = String::from_str("[");
        result.append(join(&names, ", ").as_str());
        result.append("]");
        result
    }
}

} // verus!
