//! Laws of the set algebra, of the shifts and of the fold constructors of
//! [`BitBoard`], each proved from what the functions of the board state.

use crate::bitboard::{
    lemma_notable_masks, stepped, BitBoard, Shift, ALL_SQUARES, A_FILE, H_FILE, NO_SQUARES,
    RANK_1, RANK_8,
};
use crate::compass::Compass;
use crate::square::Square;
use vstd::prelude::*;

verus! {

/// Intersection does not depend on the order of its operands; a board and its
/// complement make up the whole board; a board differs from itself nowhere
/// and agrees with itself everywhere.
pub proof fn lemma_set_algebra(a: BitBoard, b: BitBoard)
    ensures
        a.intersection(&b) == b.intersection(&a),
        a.union(&a.complement()) == BitBoard::new(ALL_SQUARES),
        a.exclusive_or(&a) == BitBoard::new(NO_SQUARES),
        a.iff(&a) == BitBoard::new(ALL_SQUARES),
{
    lemma_notable_masks();
    BitBoard::lemma_algebra(a, b);
    BitBoard::lemma_algebra(b, a);
    BitBoard::lemma_algebra(a, a);
    BitBoard::lemma_algebra(a, a.complement());
    assert(a.intersection(&b)@ =~= b.intersection(&a)@);
    BitBoard::lemma_extensional(a.intersection(&b), b.intersection(&a));
    assert(a.union(&a.complement())@ =~= Set::<Square>::full());
    BitBoard::lemma_extensional(a.union(&a.complement()), BitBoard::new(ALL_SQUARES));
    assert(a.exclusive_or(&a)@ =~= Set::<Square>::empty());
    BitBoard::lemma_extensional(a.exclusive_or(&a), BitBoard::new(NO_SQUARES));
    assert(a.iff(&a)@ =~= Set::<Square>::full());
    BitBoard::lemma_extensional(a.iff(&a), BitBoard::new(ALL_SQUARES));
}

/// One more step after `n` steps is `n + 1` steps: a square that is on the
/// board before and after `n + 1` steps is on it after each step between.
pub proof fn lemma_stepped_once_more(s: Set<Square>, dir: Compass, n: nat)
    ensures
        stepped(stepped(s, dir, n), dir, 1) == stepped(s, dir, n + 1),
        stepped(s, dir, 0) == s,
{
    Square::lemma_coordinates();
    let once = stepped(s, dir, n);
    let a = dir.file_step();
    let c = dir.rank_step();
    assert forall|t: Square|
        stepped(once, dir, 1).contains(t) == stepped(s, dir, n + 1).contains(t) by {
        let f1 = t.file() - 1 * a;
        let r1 = t.rank() - 1 * c;
        let f = t.file() - (n + 1) * a;
        let r = t.rank() - (n + 1) * c;
        assert(n * a == if a == 1 {
            n as int
        } else if a == 0 {
            0
        } else {
            -(n as int)
        }) by (nonlinear_arith)
            requires
                -1 <= a <= 1,
        ;
        assert(n * c == if c == 1 {
            n as int
        } else if c == 0 {
            0
        } else {
            -(n as int)
        }) by (nonlinear_arith)
            requires
                -1 <= c <= 1,
        ;
        assert((n + 1) * a == n * a + a) by (nonlinear_arith);
        assert((n + 1) * c == n * c + c) by (nonlinear_arith);
        if Square::on_board(f1, r1) {
            let mid = Square::at(f1, r1);
            assert(mid.file() == f1 && mid.rank() == r1);
            assert(mid.file() - n * a == f);
            assert(mid.rank() - n * c == r);
            assert(once.contains(mid) == (Square::on_board(f, r) && s.contains(Square::at(f, r))));
        } else {
            assert(!Square::on_board(f, r));
        }
    }
    assert(stepped(once, dir, 1) =~= stepped(s, dir, n + 1));
    assert(stepped(s, dir, 0) =~= s);
}

/// Up to seven single steps move the set of squares by as many steps.
pub proof fn lemma_shifted_times(b: BitBoard, dir: Compass, n: nat)
    requires
        n < 8,
    ensures
        b.shifted_times(dir, n)@ == stepped(b@, dir, n),
    decreases n,
{
    if n == 0 {
        lemma_stepped_once_more(b@, dir, 0);
    } else {
        let before = b.shifted_times(dir, (n - 1) as nat);
        lemma_shifted_times(b, dir, (n - 1) as nat);
        BitBoard::lemma_shifted(before, dir, 1);
        lemma_stepped_once_more(b@, dir, (n - 1) as nat);
    }
}

/// A shift by several steps is the single step repeated as many times.
pub proof fn lemma_shift_by_repeats(b: BitBoard, dir: Compass, n: nat)
    requires
        n < 8,
    ensures
        b.shifted_by(dir, n) == b.shifted_times(dir, n),
{
    BitBoard::lemma_shifted(b, dir, n);
    lemma_shifted_times(b, dir, n);
    BitBoard::lemma_extensional(b.shifted_by(dir, n), b.shifted_times(dir, n));
}

/// A shift by a distance made from any count is the single step repeated
/// that count modulo 8 times: a count of 8 shifts nothing, as a count of 0.
pub proof fn lemma_shift_count_wraps(b: BitBoard, dir: Compass, count: u8)
    ensures
        b.shifted_by(dir, Shift::new(count).distance()) == b.shifted_times(
            dir,
            (count % 8) as nat,
        ),
        b.shifted_by(dir, Shift::new(8).distance()) == b.shifted_by(dir, Shift::new(0).distance()),
        b.shifted_by(dir, Shift::new(8).distance()) == b,
{
    Shift::lemma_new(count);
    Shift::lemma_new(8);
    Shift::lemma_new(0);
    lemma_shift_by_repeats(b, dir, (count % 8) as nat);
    lemma_shift_by_repeats(b, dir, 0);
}

/// Nothing comes back on the far side of the board: after a step with an
/// eastward part no square of file A is held, after one with a westward part
/// none of file H, after one with a northward part none of rank 1, and after
/// one with a southward part none of rank 8.
pub proof fn lemma_shift_never_wraps(b: BitBoard, dir: Compass)
    ensures
        dir.file_step() == 1 ==> b.shifted(dir)@.disjoint(BitBoard::new(A_FILE)@),
        dir.file_step() == -1 ==> b.shifted(dir)@.disjoint(BitBoard::new(H_FILE)@),
        dir.rank_step() == 1 ==> b.shifted(dir)@.disjoint(BitBoard::new(RANK_1)@),
        dir.rank_step() == -1 ==> b.shifted(dir)@.disjoint(BitBoard::new(RANK_8)@),
{
    lemma_notable_masks();
    BitBoard::lemma_shifted(b, dir, 1);
}

/// Eight single steps in any direction leave no square on the board.
pub proof fn lemma_eight_steps_leave(b: BitBoard, dir: Compass)
    ensures
        b.shifted_times(dir, 8) == BitBoard::new(NO_SQUARES),
{
    lemma_notable_masks();
    let before = b.shifted_times(dir, 7);
    let end = b.shifted_times(dir, 8);
    lemma_shifted_times(b, dir, 7);
    BitBoard::lemma_shifted(before, dir, 1);
    lemma_stepped_once_more(b@, dir, 7);
    assert(end@ =~= Set::<Square>::empty());
    BitBoard::lemma_extensional(end, BitBoard::new(NO_SQUARES));
}

/// A file or a rank at the edge of the board leaves it whole when shifted
/// outwards.
pub proof fn lemma_edges_leave()
    ensures
        BitBoard::new(H_FILE).shifted(Compass::East) == BitBoard::new(NO_SQUARES),
        BitBoard::new(A_FILE).shifted(Compass::West) == BitBoard::new(NO_SQUARES),
        BitBoard::new(RANK_8).shifted(Compass::North) == BitBoard::new(NO_SQUARES),
        BitBoard::new(RANK_1).shifted(Compass::South) == BitBoard::new(NO_SQUARES),
{
    lemma_notable_masks();
    Square::lemma_coordinates();
    let none = BitBoard::new(NO_SQUARES);
    let east = BitBoard::new(H_FILE).shifted(Compass::East);
    let west = BitBoard::new(A_FILE).shifted(Compass::West);
    let north = BitBoard::new(RANK_8).shifted(Compass::North);
    let south = BitBoard::new(RANK_1).shifted(Compass::South);
    BitBoard::lemma_shifted(BitBoard::new(H_FILE), Compass::East, 1);
    BitBoard::lemma_shifted(BitBoard::new(A_FILE), Compass::West, 1);
    BitBoard::lemma_shifted(BitBoard::new(RANK_8), Compass::North, 1);
    BitBoard::lemma_shifted(BitBoard::new(RANK_1), Compass::South, 1);
    assert(east@ =~= none@);
    assert(west@ =~= none@);
    assert(north@ =~= none@);
    assert(south@ =~= none@);
    BitBoard::lemma_extensional(east, none);
    BitBoard::lemma_extensional(west, none);
    BitBoard::lemma_extensional(north, none);
    BitBoard::lemma_extensional(south, none);
}

/// Seven diagonal steps carry a corner to the opposite corner, and to no
/// other square.
pub proof fn lemma_corner_to_corner()
    ensures
        BitBoard::from_square(Square::A1).shifted_times(Compass::NorthEast, 7)
            == BitBoard::from_square(Square::H8),
        BitBoard::from_square(Square::H1).shifted_times(Compass::NorthWest, 7)
            == BitBoard::from_square(Square::A8),
        BitBoard::from_square(Square::A8).shifted_times(Compass::SouthEast, 7)
            == BitBoard::from_square(Square::H1),
        BitBoard::from_square(Square::H8).shifted_times(Compass::SouthWest, 7)
            == BitBoard::from_square(Square::A1),
{
    lemma_corner_crosses(Square::A1, Compass::NorthEast, Square::H8);
    lemma_corner_crosses(Square::H1, Compass::NorthWest, Square::A8);
    lemma_corner_crosses(Square::A8, Compass::SouthEast, Square::H1);
    lemma_corner_crosses(Square::H8, Compass::SouthWest, Square::A1);
}

/// Seven steps carry one square to the square seven files and seven ranks
/// along the direction.
proof fn lemma_corner_crosses(from: Square, dir: Compass, to: Square)
    requires
        to.file() == from.file() + 7 * dir.file_step(),
        to.rank() == from.rank() + 7 * dir.rank_step(),
        dir.file_step() != 0,
        dir.rank_step() != 0,
    ensures
        BitBoard::from_square(from).shifted_times(dir, 7) == BitBoard::from_square(to),
{
    Square::lemma_coordinates();
    BitBoard::lemma_from_square(from);
    BitBoard::lemma_from_square(to);
    let start = BitBoard::from_square(from);
    let end = start.shifted_times(dir, 7);
    lemma_shifted_times(start, dir, 7);
    assert forall|t: Square| end@.contains(t) == (t == to) by {
        let f = t.file() - 7 * dir.file_step();
        let r = t.rank() - 7 * dir.rank_step();
        if Square::on_board(f, r) {
            assert(Square::at(f, r).file() == f);
        }
    }
    assert(end@ =~= BitBoard::from_square(to)@);
    BitBoard::lemma_extensional(end, BitBoard::from_square(to));
}

/// The squares of one rank.
pub open spec fn rank_squares(rank: int) -> Set<Square> {
    Set::new(|s: Square| s.rank() == rank)
}

/// The squares of the ranks from the first up to `top`.
pub open spec fn ranks_through(top: int) -> Set<Square> {
    Set::new(|s: Square| s.rank() <= top)
}

/// The squares that a board covers in the course of `n` single steps: the
/// board itself and what it has become after each step.
pub open spec fn swept(b: BitBoard, dir: Compass, n: nat) -> BitBoard
    decreases n,
{
    if n == 0 {
        b
    } else {
        swept(b, dir, (n - 1) as nat).union(&b.shifted_times(dir, n))
    }
}

/// The first rank stepped north `n` times is rank `n + 1`, for up to seven
/// steps; what it has covered by then is the first `n + 1` ranks.
pub proof fn lemma_rank_1_steps(n: nat)
    requires
        n <= 7,
    ensures
        BitBoard::new(RANK_1).shifted_times(Compass::North, n)@ == rank_squares(n as int),
        swept(BitBoard::new(RANK_1), Compass::North, n)@ == ranks_through(n as int),
    decreases n,
{
    lemma_notable_masks();
    Square::lemma_coordinates();
    let first = BitBoard::new(RANK_1);
    let now = first.shifted_times(Compass::North, n);
    lemma_shifted_times(first, Compass::North, n);
    assert forall|t: Square| now@.contains(t) == (t.rank() == n) by {
        let f = t.file() - n * 0;
        let r = t.rank() - n * 1;
        if Square::on_board(f, r) {
            assert(Square::at(f, r).rank() == r);
        }
    }
    assert(now@ =~= rank_squares(n as int));
    if n == 0 {
        assert(swept(first, Compass::North, n)@ =~= ranks_through(0));
    } else {
        lemma_rank_1_steps((n - 1) as nat);
        let before = swept(first, Compass::North, (n - 1) as nat);
        BitBoard::lemma_algebra(before, now);
        assert(swept(first, Compass::North, n)@ =~= ranks_through(n as int));
    }
}

/// For each `n` below 7, the first rank stepped north `n` times and then once
/// more has covered exactly the first `n + 2` ranks; after seven steps the
/// first rank has become the eighth.
pub proof fn lemma_rank_1_northwards(n: nat)
    requires
        n < 7,
    ensures
        swept(BitBoard::new(RANK_1), Compass::North, n + 1)@ == ranks_through(n as int + 1),
        BitBoard::new(RANK_1).shifted_times(Compass::North, 7) == BitBoard::new(RANK_8),
{
    lemma_rank_1_steps(n + 1);
    lemma_rank_1_steps(7);
    lemma_notable_masks();
    assert(BitBoard::new(RANK_1).shifted_times(Compass::North, 7)@ =~= BitBoard::new(RANK_8)@);
    BitBoard::lemma_extensional(
        BitBoard::new(RANK_1).shifted_times(Compass::North, 7),
        BitBoard::new(RANK_8),
    );
}

/// The board of a sequence of squares does not depend on their order: two
/// sequences that are permutations of each other give the same board.
pub proof fn lemma_from_squares_any_order(a: Seq<Square>, b: Seq<Square>)
    requires
        a.to_multiset() == b.to_multiset(),
    ensures
        BitBoard::spec_from_squares(a) == BitBoard::spec_from_squares(b),
{
    a.to_multiset_ensures();
    b.to_multiset_ensures();
    BitBoard::lemma_from_squares(a);
    BitBoard::lemma_from_squares(b);
    assert forall|sq: Square| a.to_set().contains(sq) == b.to_set().contains(sq) by {
        assert(a.contains(sq) == (a.to_multiset().count(sq) > 0));
        assert(b.contains(sq) == (b.to_multiset().count(sq) > 0));
    }
    assert(a.to_set() =~= b.to_set());
    BitBoard::lemma_extensional(BitBoard::spec_from_squares(a), BitBoard::spec_from_squares(b));
}

/// The union of a sequence of boards does not depend on their order: two
/// sequences that are permutations of each other give the same board.
pub proof fn lemma_from_boards_any_order(a: Seq<BitBoard>, b: Seq<BitBoard>)
    requires
        a.to_multiset() == b.to_multiset(),
    ensures
        BitBoard::spec_from_boards(a) == BitBoard::spec_from_boards(b),
{
    a.to_multiset_ensures();
    b.to_multiset_ensures();
    BitBoard::lemma_from_boards(a);
    BitBoard::lemma_from_boards(b);
    let ua = BitBoard::spec_from_boards(a);
    let ub = BitBoard::spec_from_boards(b);
    assert forall|sq: Square| ua@.contains(sq) == ub@.contains(sq) by {
        if ua@.contains(sq) {
            let i = choose|i: int| 0 <= i < a.len() && (#[trigger] a[i])@.contains(sq);
            assert(a.contains(a[i]));
            assert(b.contains(a[i]) == (b.to_multiset().count(a[i]) > 0));
            assert(a.contains(a[i]) == (a.to_multiset().count(a[i]) > 0));
            let j = choose|j: int| 0 <= j < b.len() && b[j] == a[i];
            assert(b[j]@.contains(sq));
        }
        if ub@.contains(sq) {
            let j = choose|j: int| 0 <= j < b.len() && (#[trigger] b[j])@.contains(sq);
            assert(b.contains(b[j]));
            assert(a.contains(b[j]) == (a.to_multiset().count(b[j]) > 0));
            assert(b.contains(b[j]) == (b.to_multiset().count(b[j]) > 0));
            let i = choose|i: int| 0 <= i < a.len() && a[i] == b[j];
            assert(a[i]@.contains(sq));
        }
    }
    assert(ua@ =~= ub@);
    BitBoard::lemma_extensional(ua, ub);
}

/// A board of one square, shifted one step, is the board of the square one
/// step away, or the empty board where that step leaves the board.
pub proof fn lemma_shift_follows_step(square: Square, dir: Compass)
    ensures
        BitBoard::from_square(square).shifted(dir) == match square.next_square(dir) {
            Ok(next) => BitBoard::from_square(next),
            Err(_) => BitBoard::new(NO_SQUARES),
        },
{
    lemma_notable_masks();
    Square::lemma_coordinates();
    BitBoard::lemma_from_square(square);
    let start = BitBoard::from_square(square);
    let end = start.shifted(dir);
    BitBoard::lemma_shifted(start, dir, 1);
    match square.next_square(dir) {
        Ok(next) => {
            BitBoard::lemma_from_square(next);
            assert forall|t: Square| end@.contains(t) == (t == next) by {
                let f = t.file() - 1 * dir.file_step();
                let r = t.rank() - 1 * dir.rank_step();
                if Square::on_board(f, r) {
                    assert(Square::at(f, r).file() == f);
                }
            }
            assert(end@ =~= BitBoard::from_square(next)@);
            BitBoard::lemma_extensional(end, BitBoard::from_square(next));
        },
        Err(_) => {
            assert forall|t: Square| !end@.contains(t) by {
                let f = t.file() - 1 * dir.file_step();
                let r = t.rank() - 1 * dir.rank_step();
                if Square::on_board(f, r) {
                    assert(Square::at(f, r).file() == f);
                }
            }
            assert(end@ =~= BitBoard::new(NO_SQUARES)@);
            BitBoard::lemma_extensional(end, BitBoard::new(NO_SQUARES));
        },
    }
}

} // verus!
