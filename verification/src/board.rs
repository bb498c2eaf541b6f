//! The position: the boards of each kind of piece of each colour, and what a
//! move does to them. No rule of chess is checked here: a move is applied
//! mechanically, whether or not it is legal.

use crate::bitboard::{lemma_notable_masks, BitBoard, NO_SQUARES};
use crate::bits::bit;
use crate::square::Square;
use crate::text::{join, joined, texts};
use crate::traits::{Movable, Occupied};
use vstd::prelude::*;
use vstd::string::StringExecFns;

verus! {

// The masks of the squares on which the pieces stand when a game begins.
pub const STARTING_WHITE_PAWNS: u64 = 0x000000000000ff00;

pub const STARTING_BLACK_PAWNS: u64 = 0x00ff000000000000;

pub const STARTING_WHITE_ROOKS: u64 = 0x0000000000000081;

pub const STARTING_BLACK_ROOKS: u64 = 0x8100000000000000;

pub const STARTING_WHITE_KNIGHTS: u64 = 0x0000000000000042;

pub const STARTING_BLACK_KNIGHTS: u64 = 0x4200000000000000;

pub const STARTING_WHITE_BISHOPS: u64 = 0x0000000000000024;

pub const STARTING_BLACK_BISHOPS: u64 = 0x2400000000000000;

pub const STARTING_WHITE_QUEEN: u64 = 0x0000000000000008;

pub const STARTING_BLACK_QUEEN: u64 = 0x0800000000000000;

pub const STARTING_WHITE_KING: u64 = 0x0000000000000010;

pub const STARTING_BLACK_KING: u64 = 0x1000000000000000;

/// One end of a move: a square, with the board that holds only that square.
pub struct MoveComponent<'a> {
    square: &'a Square,
    board: BitBoard,
}

impl<'a> MoveComponent<'a> {
    #[verifier::type_invariant]
    spec fn single(self) -> bool {
        self.board == BitBoard::from_square(*self.square)
    }

    /// The square.
    pub closed spec fn square(&self) -> Square {
        *self.square
    }

    /// The board of the square alone.
    pub closed spec fn board(&self) -> BitBoard {
        self.board
    }

    /// The end of a move on a square.
    pub fn new(square: &'a Square) -> (r: Self)
        ensures
            r.square() == *square,
            r.board() == BitBoard::from_square(*square),
    {
        Self { square, board: BitBoard::from_square(*square) }
    }
}

/// A move from one square to another. Nothing is asked of the two squares.
pub struct Move<'a> {
    from: MoveComponent<'a>,
    to: MoveComponent<'a>,
}

impl<'a> Move<'a> {
    #[verifier::type_invariant]
    spec fn single(self) -> bool {
        &&& self.from.board == BitBoard::from_square(*self.from.square)
        &&& self.to.board == BitBoard::from_square(*self.to.square)
    }

    /// The square that the move leaves.
    pub closed spec fn origin(&self) -> Square {
        *self.from.square
    }

    /// The square that the move reaches.
    pub closed spec fn destination(&self) -> Square {
        *self.to.square
    }

    /// The move from one square to another.
    pub fn new(from: &'a Square, to: &'a Square) -> (r: Self)
        ensures
            r.origin() == *from,
            r.destination() == *to,
    {
        let from = MoveComponent::new(from);
        let to = MoveComponent::new(to);
        proof {
            use_type_invariant(&from);
            use_type_invariant(&to);
        }
        Self { from, to }
    }
}

/// The side that a piece belongs to.
#[derive(Clone, Copy, Debug, PartialEq, Eq, Structural)]
pub enum Color {
    White,
    Black,
}

/// A kind of piece.
#[derive(Clone, Copy, Debug, PartialEq, Eq, Structural)]
pub enum Piece {
    King,
    Queen,
    Rook,
    Bishop,
    Knight,
    Pawn,
}

/// The squares on which one colour has pieces of one kind.
#[derive(Clone, Copy, Debug, PartialEq, Eq)]
pub struct PieceBoard {
    piece: Piece,
    board: BitBoard,
}

impl PieceBoard {
    /// The kind of piece.
    pub closed spec fn spec_piece(&self) -> Piece {
        self.piece
    }

    /// The squares that hold such a piece.
    pub closed spec fn spec_board(&self) -> BitBoard {
        self.board
    }

    /// The board of a kind of piece on given squares.
    pub closed spec fn spec_new(piece: Piece, board: BitBoard) -> Self {
        Self { piece, board }
    }

    /// A piece board is its kind and its squares.
    pub proof fn lemma_new(piece: Piece, board: BitBoard)
        ensures
            Self::spec_new(piece, board).piece() == piece,
            Self::spec_new(piece, board).board() == board,
            forall|pb: PieceBoard| Self::spec_new(pb.piece(), #[trigger] pb.board()) == pb,
    {
    }

    /// The board of a kind of piece on given squares.
    fn new(piece: Piece, board: BitBoard) -> (r: Self)
        ensures
            r == Self::spec_new(piece, board),
    {
        Self { piece, board }
    }

    /// The kind of piece.
    #[verifier::when_used_as_spec(spec_piece)]
    pub fn piece(&self) -> (r: Piece)
        ensures
            r == self.spec_piece(),
    {
        self.piece
    }

    /// The squares that hold such a piece.
    #[verifier::when_used_as_spec(spec_board)]
    pub fn board(&self) -> (r: BitBoard)
        ensures
            r == self.spec_board(),
    {
        self.board
    }
}

impl Occupied for PieceBoard {
    open spec fn spec_occupied(&self, square: Square) -> bool {
        self.board()@.contains(square)
    }

    /// Whether the square holds a piece of this kind and colour.
    fn occupied(&self, square: &Square) -> (r: bool) {
        let single = BitBoard::from_square(*square);
        assert(!self.board@.disjoint(single@) <==> self.board@.contains(*square)) by {
            if self.board@.contains(*square) {
                assert(single@.contains(*square));
            }
        }
        self.board.intersects(&single)
    }
}

impl Movable for PieceBoard {
    /// A board that holds the origin loses it and gains the destination. Any
    /// other board that holds the destination loses it. Any other is unchanged.
    open spec fn spec_apply_move(&self, mv: &Move) -> Self {
        if self.board()@.contains(mv.origin()) {
            Self::spec_new(self.piece(), self.board().unset(mv.origin()).set(mv.destination()))
        } else if self.board()@.contains(mv.destination()) {
            Self::spec_new(self.piece(), self.board().unset(mv.destination()))
        } else {
            *self
        }
    }

    /// The board after the move.
    fn apply_move(&self, mv: &Move) -> (r: Self) {
        proof {
            use_type_invariant(mv);
            BitBoard::lemma_from_square(mv.origin());
            BitBoard::lemma_from_square(mv.destination());
            assert(!self.board@.disjoint(mv.from.board@) <==> self.board@.contains(mv.origin()))
                by {
                if self.board@.contains(mv.origin()) {
                    assert(mv.from.board@.contains(mv.origin()));
                }
            }
            assert(!self.board@.disjoint(mv.to.board@) <==> self.board@.contains(mv.destination()))
                by {
                if self.board@.contains(mv.destination()) {
                    assert(mv.to.board@.contains(mv.destination()));
                }
            }
        }
        if self.board.intersects(&mv.from.board) {
            Self::new(
                self.piece,
                self.board.intersection(&mv.from.board.complement()).union(&mv.to.board),
            )
        } else if self.board.intersects(&mv.to.board) {
            Self::new(self.piece, self.board.intersection(&mv.to.board.complement()))
        } else {
            *self
        }
    }
}

/// The six piece boards of one colour, with the board of all its pieces.
#[derive(Clone, Copy, Debug, PartialEq, Eq)]
pub struct Pieces {
    king: PieceBoard,
    queens: PieceBoard,
    rooks: PieceBoard,
    bishops: PieceBoard,
    knights: PieceBoard,
    pawns: PieceBoard,
    all: BitBoard,
}

impl Pieces {
    /// Each board is of its own kind, and the board of all pieces is the
    /// union of the six.
    #[verifier::type_invariant]
    pub closed spec fn wf(&self) -> bool {
        &&& self.king.piece == Piece::King
        &&& self.queens.piece == Piece::Queen
        &&& self.rooks.piece == Piece::Rook
        &&& self.bishops.piece == Piece::Bishop
        &&& self.knights.piece == Piece::Knight
        &&& self.pawns.piece == Piece::Pawn
        &&& self.all == Self::union_of(
            self.king.board,
            self.queens.board,
            self.rooks.board,
            self.bishops.board,
            self.knights.board,
            self.pawns.board,
        )
    }

    /// The union of six boards.
    pub open spec fn union_of(
        king: BitBoard,
        queens: BitBoard,
        rooks: BitBoard,
        bishops: BitBoard,
        knights: BitBoard,
        pawns: BitBoard,
    ) -> BitBoard {
        king.union(&queens).union(&rooks).union(&bishops).union(&knights).union(&pawns)
    }

    /// The board of the king.
    pub closed spec fn spec_king(&self) -> PieceBoard {
        self.king
    }

    /// The board of the queens.
    pub closed spec fn spec_queens(&self) -> PieceBoard {
        self.queens
    }

    /// The board of the rooks.
    pub closed spec fn spec_rooks(&self) -> PieceBoard {
        self.rooks
    }

    /// The board of the bishops.
    pub closed spec fn spec_bishops(&self) -> PieceBoard {
        self.bishops
    }

    /// The board of the knights.
    pub closed spec fn spec_knights(&self) -> PieceBoard {
        self.knights
    }

    /// The board of the pawns.
    pub closed spec fn spec_pawns(&self) -> PieceBoard {
        self.pawns
    }

    /// The squares that hold any piece of this colour.
    pub closed spec fn spec_all(&self) -> BitBoard {
        self.all
    }

    /// The six boards in their fixed order: king, queens, rooks, bishops,
    /// knights, pawns.
    pub open spec fn boards(&self) -> Seq<PieceBoard> {
        seq![
            self.king(),
            self.queens(),
            self.rooks(),
            self.bishops(),
            self.knights(),
            self.pawns(),
        ]
    }

    /// The kind of the first board, in the fixed order, that holds the square.
    pub open spec fn kind_at(&self, square: Square) -> Option<Piece> {
        if self.king().spec_occupied(square) {
            Some(self.king().piece())
        } else if self.queens().spec_occupied(square) {
            Some(self.queens().piece())
        } else if self.rooks().spec_occupied(square) {
            Some(self.rooks().piece())
        } else if self.bishops().spec_occupied(square) {
            Some(self.bishops().piece())
        } else if self.knights().spec_occupied(square) {
            Some(self.knights().piece())
        } else if self.pawns().spec_occupied(square) {
            Some(self.pawns().piece())
        } else {
            None
        }
    }

    /// The pieces made of six piece boards, in the fixed order.
    pub closed spec fn of_boards(
        king: PieceBoard,
        queens: PieceBoard,
        rooks: PieceBoard,
        bishops: PieceBoard,
        knights: PieceBoard,
        pawns: PieceBoard,
    ) -> Pieces {
        Pieces {
            king,
            queens,
            rooks,
            bishops,
            knights,
            pawns,
            all: Self::union_of(
                king.board,
                queens.board,
                rooks.board,
                bishops.board,
                knights.board,
                pawns.board,
            ),
        }
    }

    /// The pieces that stand on six boards, one for each kind.
    pub open spec fn spec_new(
        king: BitBoard,
        queens: BitBoard,
        rooks: BitBoard,
        bishops: BitBoard,
        knights: BitBoard,
        pawns: BitBoard,
    ) -> Pieces {
        Self::of_boards(
            PieceBoard::spec_new(Piece::King, king),
            PieceBoard::spec_new(Piece::Queen, queens),
            PieceBoard::spec_new(Piece::Rook, rooks),
            PieceBoard::spec_new(Piece::Bishop, bishops),
            PieceBoard::spec_new(Piece::Knight, knights),
            PieceBoard::spec_new(Piece::Pawn, pawns),
        )
    }

    /// Pieces made of six boards hold these boards, and are well formed where
    /// each board is of its own kind.
    pub proof fn lemma_of_boards(
        king: PieceBoard,
        queens: PieceBoard,
        rooks: PieceBoard,
        bishops: PieceBoard,
        knights: PieceBoard,
        pawns: PieceBoard,
    )
        ensures
            Self::of_boards(king, queens, rooks, bishops, knights, pawns).boards() == seq![
                king,
                queens,
                rooks,
                bishops,
                knights,
                pawns,
            ],
            Self::of_boards(king, queens, rooks, bishops, knights, pawns).wf() <==> {
                &&& king.piece() == Piece::King
                &&& queens.piece() == Piece::Queen
                &&& rooks.piece() == Piece::Rook
                &&& bishops.piece() == Piece::Bishop
                &&& knights.piece() == Piece::Knight
                &&& pawns.piece() == Piece::Pawn
            },
    {
    }

    /// Well-formed pieces are made of their own six boards, each of its kind;
    /// the board of all pieces holds the squares that some board holds.
    pub proof fn lemma_wf(p: Pieces)
        requires
            p.wf(),
        ensures
            p == Self::of_boards(
                p.king(),
                p.queens(),
                p.rooks(),
                p.bishops(),
                p.knights(),
                p.pawns(),
            ),
            p.king().piece() == Piece::King,
            p.queens().piece() == Piece::Queen,
            p.rooks().piece() == Piece::Rook,
            p.bishops().piece() == Piece::Bishop,
            p.knights().piece() == Piece::Knight,
            p.pawns().piece() == Piece::Pawn,
            p.all() == Self::union_of(
                p.king().board(),
                p.queens().board(),
                p.rooks().board(),
                p.bishops().board(),
                p.knights().board(),
                p.pawns().board(),
            ),
            forall|sq: Square| p.all()@.contains(sq) <==> p.kind_at(sq) is Some,
    {
        let k = p.king.board;
        let q = p.queens.board;
        let r = p.rooks.board;
        let b = p.bishops.board;
        let n = p.knights.board;
        BitBoard::lemma_algebra(k, q);
        BitBoard::lemma_algebra(k.union(&q), r);
        BitBoard::lemma_algebra(k.union(&q).union(&r), b);
        BitBoard::lemma_algebra(k.union(&q).union(&r).union(&b), n);
        BitBoard::lemma_algebra(k.union(&q).union(&r).union(&b).union(&n), p.pawns.board);
    }

    /// The pieces that stand on six boards, one for each kind. Whether a
    /// square is on two of the boards is not asked.
    pub fn new(
        king: BitBoard,
        queens: BitBoard,
        rooks: BitBoard,
        bishops: BitBoard,
        knights: BitBoard,
        pawns: BitBoard,
    ) -> (r: Self)
        ensures
            r == Self::spec_new(king, queens, rooks, bishops, knights, pawns),
            r.wf(),
            r.king().board() == king,
            r.queens().board() == queens,
            r.rooks().board() == rooks,
            r.bishops().board() == bishops,
            r.knights().board() == knights,
            r.pawns().board() == pawns,
            r.all() == Self::union_of(king, queens, rooks, bishops, knights, pawns),
    {
        Self {
            king: PieceBoard::new(Piece::King, king),
            queens: PieceBoard::new(Piece::Queen, queens),
            rooks: PieceBoard::new(Piece::Rook, rooks),
            bishops: PieceBoard::new(Piece::Bishop, bishops),
            knights: PieceBoard::new(Piece::Knight, knights),
            pawns: PieceBoard::new(Piece::Pawn, pawns),
            all: king.union(&queens).union(&rooks).union(&bishops).union(&knights).union(&pawns),
        }
    }

    /// The board of the king.
    #[verifier::when_used_as_spec(spec_king)]
    pub fn king(&self) -> (r: PieceBoard)
        ensures
            r == self.spec_king(),
    {
        self.king
    }

    /// The board of the queens.
    #[verifier::when_used_as_spec(spec_queens)]
    pub fn queens(&self) -> (r: PieceBoard)
        ensures
            r == self.spec_queens(),
    {
        self.queens
    }

    /// The board of the rooks.
    #[verifier::when_used_as_spec(spec_rooks)]
    pub fn rooks(&self) -> (r: PieceBoard)
        ensures
            r == self.spec_rooks(),
    {
        self.rooks
    }

    /// The board of the bishops.
    #[verifier::when_used_as_spec(spec_bishops)]
    pub fn bishops(&self) -> (r: PieceBoard)
        ensures
            r == self.spec_bishops(),
    {
        self.bishops
    }

    /// The board of the knights.
    #[verifier::when_used_as_spec(spec_knights)]
    pub fn knights(&self) -> (r: PieceBoard)
        ensures
            r == self.spec_knights(),
    {
        self.knights
    }

    /// The board of the pawns.
    #[verifier::when_used_as_spec(spec_pawns)]
    pub fn pawns(&self) -> (r: PieceBoard)
        ensures
            r == self.spec_pawns(),
    {
        self.pawns
    }

    /// The squares that hold any piece of this colour.
    #[verifier::when_used_as_spec(spec_all)]
    pub fn all(&self) -> (r: BitBoard)
        ensures
            r == self.spec_all(),
    {
        self.all
    }
}

impl Occupied for Pieces {
    open spec fn spec_occupied(&self, square: Square) -> bool {
        self.all()@.contains(square)
    }

    /// Whether the square holds any piece of this colour.
    fn occupied(&self, square: &Square) -> (r: bool) {
        self.all.occupied(*square)
    }
}

impl Movable for Pieces {
    /// The move is applied to each of the six boards by itself.
    open spec fn spec_apply_move(&self, mv: &Move) -> Self {
        Self::of_boards(
            self.king().spec_apply_move(mv),
            self.queens().spec_apply_move(mv),
            self.rooks().spec_apply_move(mv),
            self.bishops().spec_apply_move(mv),
            self.knights().spec_apply_move(mv),
            self.pawns().spec_apply_move(mv),
        )
    }

    /// The pieces after the move, with the board of all pieces made anew.
    fn apply_move(&self, mv: &Move) -> (r: Self) {
        proof {
            use_type_invariant(self);
        }
        let king = self.king.apply_move(mv);
        let queens = self.queens.apply_move(mv);
        let rooks = self.rooks.apply_move(mv);
        let bishops = self.bishops.apply_move(mv);
        let knights = self.knights.apply_move(mv);
        let pawns = self.pawns.apply_move(mv);
        Self {
            king,
            queens,
            rooks,
            bishops,
            knights,
            pawns,
            all: king.board.union(&queens.board).union(&rooks.board).union(&bishops.board).union(
                &knights.board,
            ).union(&pawns.board),
        }
    }
}

/// A walk over the six boards of one colour in their fixed order.
#[derive(Clone, Copy, Debug)]
pub struct PiecesIter<'a> {
    idx: u8,
    pieces: &'a Pieces,
}

impl<'a> PiecesIter<'a> {
    #[verifier::type_invariant]
    spec fn in_range(self) -> bool {
        self.idx <= 6
    }

    /// How many boards the walk has handed out.
    pub closed spec fn position(&self) -> nat {
        self.idx as nat
    }

    /// The pieces that the walk goes over.
    pub closed spec fn pieces(&self) -> Pieces {
        *self.pieces
    }

    /// A walk that starts before the first board.
    pub fn new(pieces: &'a Pieces) -> (r: Self)
        ensures
            r.position() == 0,
            r.pieces() == *pieces,
    {
        Self { idx: 0, pieces }
    }

    /// The next board, or nothing once all six have been handed out.
    pub fn next(&mut self) -> (r: Option<&'a PieceBoard>)
        ensures
            final(self).pieces() == old(self).pieces(),
            old(self).position() < 6 ==> r == Some(
                &old(self).pieces().boards()[old(self).position() as int],
            ) && final(self).position() == old(self).position() + 1,
            old(self).position() >= 6 ==> r is None && final(self).position() == old(
                self,
            ).position(),
    {
        proof {
            use_type_invariant(&*self);
        }
        let at = self.idx;
        if at < 6 {
            self.idx = at + 1;
        }
        match at {
            0 => Some(&self.pieces.king),
            1 => Some(&self.pieces.queens),
            2 => Some(&self.pieces.rooks),
            3 => Some(&self.pieces.bishops),
            4 => Some(&self.pieces.knights),
            5 => Some(&self.pieces.pawns),
            _ => None,
        }
    }
}

impl Pieces {
    /// A walk over the six boards in their fixed order.
    pub fn iter_pieces(&self) -> (r: PiecesIter<'_>)
        ensures
            r.position() == 0,
            r.pieces() == *self,
    {
        PiecesIter::new(self)
    }
}

/// A walk over the twelve boards of a position: white's six in their fixed
/// order, then black's.
#[derive(Debug)]
pub struct BoardIter<'a> {
    idx: u8,
    board: &'a Board,
}

impl<'a> BoardIter<'a> {
    #[verifier::type_invariant]
    spec fn in_range(self) -> bool {
        self.idx <= 12
    }

    /// How many boards the walk has handed out.
    pub closed spec fn position(&self) -> nat {
        self.idx as nat
    }

    /// The position that the walk goes over.
    pub closed spec fn board(&self) -> Board {
        *self.board
    }

    /// A walk that starts before the first board.
    pub fn new(board: &'a Board) -> (r: Self)
        ensures
            r.position() == 0,
            r.board() == *board,
    {
        Self { idx: 0, board }
    }

    /// The next board, or nothing once all twelve have been handed out.
    pub fn next(&mut self) -> (r: Option<&'a PieceBoard>)
        ensures
            final(self).board() == old(self).board(),
            old(self).position() < 12 ==> r == Some(
                &old(self).board().boards()[old(self).position() as int],
            ) && final(self).position() == old(self).position() + 1,
            old(self).position() >= 12 ==> r is None && final(self).position() == old(
                self,
            ).position(),
    {
        proof {
            use_type_invariant(&*self);
        }
        let at = self.idx;
        if at < 12 {
            self.idx = at + 1;
        }
        match at {
            0 => Some(&self.board.white.king),
            1 => Some(&self.board.white.queens),
            2 => Some(&self.board.white.rooks),
            3 => Some(&self.board.white.bishops),
            4 => Some(&self.board.white.knights),
            5 => Some(&self.board.white.pawns),
            6 => Some(&self.board.black.king),
            7 => Some(&self.board.black.queens),
            8 => Some(&self.board.black.rooks),
            9 => Some(&self.board.black.bishops),
            10 => Some(&self.board.black.knights),
            11 => Some(&self.board.black.pawns),
            _ => None,
        }
    }
}

/// A position: the pieces of white and the pieces of black.
#[derive(Clone, Copy, Debug, PartialEq, Eq)]
pub struct Board {
    white: Pieces,
    black: Pieces,
}

impl Board {
    /// White's pieces.
    pub closed spec fn spec_white(&self) -> &Pieces {
        &self.white
    }

    /// Black's pieces.
    pub closed spec fn spec_black(&self) -> &Pieces {
        &self.black
    }

    /// The position with the given pieces of each colour.
    pub closed spec fn spec_new(white: Pieces, black: Pieces) -> Board {
        Board { white, black }
    }

    /// Both colours are well formed.
    pub open spec fn wf(&self) -> bool {
        self.white().wf() && self.black().wf()
    }

    /// The twelve boards: white's six in their fixed order, then black's.
    pub open spec fn boards(&self) -> Seq<PieceBoard> {
        self.white().boards() + self.black().boards()
    }

    /// No square is held by two of the twelve boards.
    pub open spec fn exclusive(&self) -> bool {
        forall|i: int, j: int|
            0 <= i < j < 12 ==> (#[trigger] self.boards()[i]).board()@.disjoint(
                (#[trigger] self.boards()[j]).board()@,
            )
    }

    /// The kind and colour of the first board that holds the square, going
    /// over white's boards and then black's.
    pub open spec fn spec_occupant(&self, square: &Square) -> Option<(Piece, Color)> {
        match self.white().kind_at(*square) {
            Some(piece) => Some((piece, Color::White)),
            None => match self.black().kind_at(*square) {
                Some(piece) => Some((piece, Color::Black)),
                None => None,
            },
        }
    }

    /// The position at the beginning of a game.
    pub open spec fn spec_fresh_game() -> Board {
        Self::spec_new(
            Pieces::spec_new(
                BitBoard::new(STARTING_WHITE_KING),
                BitBoard::new(STARTING_WHITE_QUEEN),
                BitBoard::new(STARTING_WHITE_ROOKS),
                BitBoard::new(STARTING_WHITE_BISHOPS),
                BitBoard::new(STARTING_WHITE_KNIGHTS),
                BitBoard::new(STARTING_WHITE_PAWNS),
            ),
            Pieces::spec_new(
                BitBoard::new(STARTING_BLACK_KING),
                BitBoard::new(STARTING_BLACK_QUEEN),
                BitBoard::new(STARTING_BLACK_ROOKS),
                BitBoard::new(STARTING_BLACK_BISHOPS),
                BitBoard::new(STARTING_BLACK_KNIGHTS),
                BitBoard::new(STARTING_BLACK_PAWNS),
            ),
        )
    }

    /// The position without any piece.
    pub open spec fn spec_empty() -> Board {
        let none = BitBoard::new(NO_SQUARES);
        Self::spec_new(
            Pieces::spec_new(none, none, none, none, none, none),
            Pieces::spec_new(none, none, none, none, none, none),
        )
    }

    /// A position is its two colours.
    pub proof fn lemma_new(white: Pieces, black: Pieces)
        ensures
            *Self::spec_new(white, black).white() == white,
            *Self::spec_new(white, black).black() == black,
            forall|b: Board| Self::spec_new(*#[trigger] b.white(), *b.black()) == b,
    {
    }

    /// The position with the given pieces of each colour.
    #[verifier::when_used_as_spec(spec_new)]
    pub fn new(white: Pieces, black: Pieces) -> (r: Self)
        ensures
            r == Self::spec_new(white, black),
            *r.white() == white,
            *r.black() == black,
    {
        Self { white, black }
    }

    /// The position without any piece: every square of it is empty.
    #[verifier::when_used_as_spec(spec_empty)]
    pub fn empty() -> (r: Self)
        ensures
            r == Self::spec_empty(),
            forall|square: Square| !r.spec_occupied(square),
            forall|square: Square| (#[trigger] r.occupant(&square)) is None,
    {
        let none = BitBoard::new(NO_SQUARES);
        proof {
            lemma_notable_masks();
            Pieces::lemma_wf(Pieces::spec_new(none, none, none, none, none, none));
        }
        Self::new(
            Pieces::new(none, none, none, none, none, none),
            Pieces::new(none, none, none, none, none, none),
        )
    }

    /// The position at the beginning of a game.
    #[verifier::when_used_as_spec(spec_fresh_game)]
    pub fn fresh_game() -> (r: Self)
        ensures
            r == Self::spec_fresh_game(),
    {
        Self::new(
            Pieces::new(
                BitBoard::new(STARTING_WHITE_KING),
                BitBoard::new(STARTING_WHITE_QUEEN),
                BitBoard::new(STARTING_WHITE_ROOKS),
                BitBoard::new(STARTING_WHITE_BISHOPS),
                BitBoard::new(STARTING_WHITE_KNIGHTS),
                BitBoard::new(STARTING_WHITE_PAWNS),
            ),
            Pieces::new(
                BitBoard::new(STARTING_BLACK_KING),
                BitBoard::new(STARTING_BLACK_QUEEN),
                BitBoard::new(STARTING_BLACK_ROOKS),
                BitBoard::new(STARTING_BLACK_BISHOPS),
                BitBoard::new(STARTING_BLACK_KNIGHTS),
                BitBoard::new(STARTING_BLACK_PAWNS),
            ),
        )
    }

    /// White's pieces.
    #[verifier::when_used_as_spec(spec_white)]
    pub fn white(&self) -> (r: &Pieces)
        ensures
            r == self.spec_white(),
    {
        &self.white
    }

    /// Black's pieces.
    #[verifier::when_used_as_spec(spec_black)]
    pub fn black(&self) -> (r: &Pieces)
        ensures
            r == self.spec_black(),
    {
        &self.black
    }

    /// A walk over the twelve boards: white's, then black's.
    pub fn iter_pieces(&self) -> (r: BoardIter<'_>)
        ensures
            r.position() == 0,
            r.board() == *self,
    {
        BoardIter::new(self)
    }

    /// The kind and colour of the piece on a square, or nothing where the
    /// square is empty. Where several boards hold the square, the first one
    /// counts: white's boards come first, each colour's in their fixed order.
    #[verifier::when_used_as_spec(spec_occupant)]
    pub fn occupant(&self, square: &Square) -> (r: Option<(Piece, Color)>)
        ensures
            r == self.spec_occupant(square),
    {
        let mut whites = self.white.iter_pieces();
        loop
            invariant
                whites.pieces() == self.white,
                whites.position() <= 6,
                forall|k: int|
                    0 <= k < whites.position() ==> !(
                    #[trigger] self.white.boards()[k]).spec_occupied(*square),
            ensures
                whites.position() == 6,
                self.white.kind_at(*square) is None,
            decreases 6 - whites.position(),
        {
            let ghost k = whites.position() as int;
            match whites.next() {
                Some(board) => {
                    if board.occupied(square) {
                        assert(self.white.kind_at(*square) == Some(self.white.boards()[k].piece()));
                        return Some((board.piece, Color::White));
                    }
                },
                None => {
                    assert(!self.white.boards()[0].spec_occupied(*square));
                    assert(!self.white.boards()[1].spec_occupied(*square));
                    assert(!self.white.boards()[2].spec_occupied(*square));
                    assert(!self.white.boards()[3].spec_occupied(*square));
                    assert(!self.white.boards()[4].spec_occupied(*square));
                    assert(!self.white.boards()[5].spec_occupied(*square));
                    break ;
                },
            }
        }
        let mut blacks = self.black.iter_pieces();
        loop
            invariant
                blacks.pieces() == self.black,
                blacks.position() <= 6,
                self.white.kind_at(*square) is None,
                forall|k: int|
                    0 <= k < blacks.position() ==> !(
                    #[trigger] self.black.boards()[k]).spec_occupied(*square),
            ensures
                blacks.position() == 6,
                self.black.kind_at(*square) is None,
            decreases 6 - blacks.position(),
        {
            let ghost k = blacks.position() as int;
            match blacks.next() {
                Some(board) => {
                    if board.occupied(square) {
                        assert(self.black.kind_at(*square) == Some(self.black.boards()[k].piece()));
                        return Some((board.piece, Color::Black));
                    }
                },
                None => {
                    assert(!self.black.boards()[0].spec_occupied(*square));
                    assert(!self.black.boards()[1].spec_occupied(*square));
                    assert(!self.black.boards()[2].spec_occupied(*square));
                    assert(!self.black.boards()[3].spec_occupied(*square));
                    assert(!self.black.boards()[4].spec_occupied(*square));
                    assert(!self.black.boards()[5].spec_occupied(*square));
                    break ;
                },
            }
        }
        None
    }
}

impl Occupied for Board {
    open spec fn spec_occupied(&self, square: Square) -> bool {
        self.white().spec_occupied(square) || self.black().spec_occupied(square)
    }

    /// Whether the square holds a piece of either colour.
    fn occupied(&self, square: &Square) -> (r: bool) {
        self.white.all.occupied(*square) || self.black.all.occupied(*square)
    }
}

impl Movable for Board {
    /// The move is applied to the pieces of each colour by themselves.
    open spec fn spec_apply_move(&self, mv: &Move) -> Self {
        Self::spec_new(self.white().spec_apply_move(mv), self.black().spec_apply_move(mv))
    }

    /// The position after the move. Whether the move is legal is not asked.
    fn apply_move(&self, mv: &Move) -> (r: Self) {
        Self::new(self.white.apply_move(mv), self.black.apply_move(mv))
    }
}

/// Which bits the starting masks hold, by the file `i % 8` and the rank
/// `i / 8` of bit `i`.
proof fn lemma_bit_starting(i: u64)
    by (bit_vector)
    requires
        i < 64,
    ensures
        bit(STARTING_WHITE_PAWNS, i) == (i / 8 == 1),
        bit(STARTING_BLACK_PAWNS, i) == (i / 8 == 6),
        bit(STARTING_WHITE_ROOKS, i) == (i == 0 || i == 7),
        bit(STARTING_BLACK_ROOKS, i) == (i == 56 || i == 63),
        bit(STARTING_WHITE_KNIGHTS, i) == (i == 1 || i == 6),
        bit(STARTING_BLACK_KNIGHTS, i) == (i == 57 || i == 62),
        bit(STARTING_WHITE_BISHOPS, i) == (i == 2 || i == 5),
        bit(STARTING_BLACK_BISHOPS, i) == (i == 58 || i == 61),
        bit(STARTING_WHITE_QUEEN, i) == (i == 3),
        bit(STARTING_BLACK_QUEEN, i) == (i == 59),
        bit(STARTING_WHITE_KING, i) == (i == 4),
        bit(STARTING_BLACK_KING, i) == (i == 60),
{
}

/// The squares of each starting mask: the pawns fill the second and the
/// seventh rank, and the officers stand on their squares of the first and
/// the eighth.
pub proof fn lemma_starting_masks()
    ensures
        BitBoard::new(STARTING_WHITE_PAWNS)@ == Set::new(|sq: Square| sq.rank() == 1),
        BitBoard::new(STARTING_BLACK_PAWNS)@ == Set::new(|sq: Square| sq.rank() == 6),
        BitBoard::new(STARTING_WHITE_ROOKS)@ == set![Square::A1, Square::H1],
        BitBoard::new(STARTING_BLACK_ROOKS)@ == set![Square::A8, Square::H8],
        BitBoard::new(STARTING_WHITE_KNIGHTS)@ == set![Square::B1, Square::G1],
        BitBoard::new(STARTING_BLACK_KNIGHTS)@ == set![Square::B8, Square::G8],
        BitBoard::new(STARTING_WHITE_BISHOPS)@ == set![Square::C1, Square::F1],
        BitBoard::new(STARTING_BLACK_BISHOPS)@ == set![Square::C8, Square::F8],
        BitBoard::new(STARTING_WHITE_QUEEN)@ == set![Square::D1],
        BitBoard::new(STARTING_BLACK_QUEEN)@ == set![Square::D8],
        BitBoard::new(STARTING_WHITE_KING)@ == set![Square::E1],
        BitBoard::new(STARTING_BLACK_KING)@ == set![Square::E8],
{
    assert forall|sq: Square|
        {
            let i = #[trigger] sq.spec_index() as u64;
            &&& bit(STARTING_WHITE_PAWNS, i) == (sq.rank() == 1)
            &&& bit(STARTING_BLACK_PAWNS, i) == (sq.rank() == 6)
            &&& bit(STARTING_WHITE_ROOKS, i) == (sq == Square::A1 || sq == Square::H1)
            &&& bit(STARTING_BLACK_ROOKS, i) == (sq == Square::A8 || sq == Square::H8)
            &&& bit(STARTING_WHITE_KNIGHTS, i) == (sq == Square::B1 || sq == Square::G1)
            &&& bit(STARTING_BLACK_KNIGHTS, i) == (sq == Square::B8 || sq == Square::G8)
            &&& bit(STARTING_WHITE_BISHOPS, i) == (sq == Square::C1 || sq == Square::F1)
            &&& bit(STARTING_BLACK_BISHOPS, i) == (sq == Square::C8 || sq == Square::F8)
            &&& bit(STARTING_WHITE_QUEEN, i) == (sq == Square::D1)
            &&& bit(STARTING_BLACK_QUEEN, i) == (sq == Square::D8)
            &&& bit(STARTING_WHITE_KING, i) == (sq == Square::E1)
            &&& bit(STARTING_BLACK_KING, i) == (sq == Square::E8)
        } by {
        lemma_bit_starting(sq.spec_index() as u64);
    }
    BitBoard::lemma_new(STARTING_WHITE_PAWNS);
    BitBoard::lemma_new(STARTING_BLACK_PAWNS);
    BitBoard::lemma_new(STARTING_WHITE_ROOKS);
    BitBoard::lemma_new(STARTING_BLACK_ROOKS);
    BitBoard::lemma_new(STARTING_WHITE_KNIGHTS);
    BitBoard::lemma_new(STARTING_BLACK_KNIGHTS);
    BitBoard::lemma_new(STARTING_WHITE_BISHOPS);
    BitBoard::lemma_new(STARTING_BLACK_BISHOPS);
    BitBoard::lemma_new(STARTING_WHITE_QUEEN);
    BitBoard::lemma_new(STARTING_BLACK_QUEEN);
    BitBoard::lemma_new(STARTING_WHITE_KING);
    BitBoard::lemma_new(STARTING_BLACK_KING);
    assert(BitBoard::new(STARTING_WHITE_PAWNS)@ =~= Set::new(|sq: Square| sq.rank() == 1));
    assert(BitBoard::new(STARTING_BLACK_PAWNS)@ =~= Set::new(|sq: Square| sq.rank() == 6));
    assert(BitBoard::new(STARTING_WHITE_ROOKS)@ =~= set![Square::A1, Square::H1]);
    assert(BitBoard::new(STARTING_BLACK_ROOKS)@ =~= set![Square::A8, Square::H8]);
    assert(BitBoard::new(STARTING_WHITE_KNIGHTS)@ =~= set![Square::B1, Square::G1]);
    assert(BitBoard::new(STARTING_BLACK_KNIGHTS)@ =~= set![Square::B8, Square::G8]);
    assert(BitBoard::new(STARTING_WHITE_BISHOPS)@ =~= set![Square::C1, Square::F1]);
    assert(BitBoard::new(STARTING_BLACK_BISHOPS)@ =~= set![Square::C8, Square::F8]);
    assert(BitBoard::new(STARTING_WHITE_QUEEN)@ =~= set![Square::D1]);
    assert(BitBoard::new(STARTING_BLACK_QUEEN)@ =~= set![Square::D8]);
    assert(BitBoard::new(STARTING_WHITE_KING)@ =~= set![Square::E1]);
    assert(BitBoard::new(STARTING_BLACK_KING)@ =~= set![Square::E8]);
}

/// The board of a mask is the board of a sequence of squares, where the mask
/// holds exactly the squares of the sequence.
proof fn lemma_mask_of_squares(mask: u64, squares: Seq<Square>)
    requires
        BitBoard::new(mask)@ == squares.to_set(),
    ensures
        BitBoard::new(mask) == BitBoard::spec_from_squares(squares),
{
    BitBoard::lemma_from_squares(squares);
    BitBoard::lemma_extensional(BitBoard::new(mask), BitBoard::spec_from_squares(squares));
}

/// The board of a mask that holds two squares and no other.
proof fn lemma_pair(mask: u64, a: Square, b: Square)
    requires
        BitBoard::new(mask)@ == set![a, b],
    ensures
        BitBoard::new(mask) == BitBoard::spec_from_squares(seq![a, b]),
{
    let squares = seq![a, b];
    assert forall|sq: Square| squares.contains(sq) == (sq == a || sq == b) by {
        if sq == a {
            assert(squares[0] == sq);
        }
        if sq == b {
            assert(squares[1] == sq);
        }
    }
    assert(squares.to_set() =~= set![a, b]);
    lemma_mask_of_squares(mask, squares);
}

/// The board of a mask that holds one square and no other.
proof fn lemma_one(mask: u64, a: Square)
    requires
        BitBoard::new(mask)@ == set![a],
    ensures
        BitBoard::new(mask) == BitBoard::from_square(a),
{
    BitBoard::lemma_from_square(a);
    BitBoard::lemma_extensional(BitBoard::new(mask), BitBoard::from_square(a));
}

/// Each starting mask is the union of the squares on which the pieces of
/// its kind and colour stand when a game begins.
pub proof fn lemma_starting_squares()
    ensures
        BitBoard::new(STARTING_WHITE_PAWNS) == BitBoard::spec_from_squares(
            seq![
                Square::A2,
                Square::B2,
                Square::C2,
                Square::D2,
                Square::E2,
                Square::F2,
                Square::G2,
                Square::H2,
            ],
        ),
        BitBoard::new(STARTING_BLACK_PAWNS) == BitBoard::spec_from_squares(
            seq![
                Square::A7,
                Square::B7,
                Square::C7,
                Square::D7,
                Square::E7,
                Square::F7,
                Square::G7,
                Square::H7,
            ],
        ),
        BitBoard::new(STARTING_WHITE_ROOKS) == BitBoard::spec_from_squares(
            seq![Square::A1, Square::H1],
        ),
        BitBoard::new(STARTING_BLACK_ROOKS) == BitBoard::spec_from_squares(
            seq![Square::A8, Square::H8],
        ),
        BitBoard::new(STARTING_WHITE_KNIGHTS) == BitBoard::spec_from_squares(
            seq![Square::B1, Square::G1],
        ),
        BitBoard::new(STARTING_BLACK_KNIGHTS) == BitBoard::spec_from_squares(
            seq![Square::B8, Square::G8],
        ),
        BitBoard::new(STARTING_WHITE_BISHOPS) == BitBoard::spec_from_squares(
            seq![Square::C1, Square::F1],
        ),
        BitBoard::new(STARTING_BLACK_BISHOPS) == BitBoard::spec_from_squares(
            seq![Square::C8, Square::F8],
        ),
        BitBoard::new(STARTING_WHITE_QUEEN) == BitBoard::from_square(Square::D1),
        BitBoard::new(STARTING_BLACK_QUEEN) == BitBoard::from_square(Square::D8),
        BitBoard::new(STARTING_WHITE_KING) == BitBoard::from_square(Square::E1),
        BitBoard::new(STARTING_BLACK_KING) == BitBoard::from_square(Square::E8),
{
    lemma_starting_masks();
    let white_pawns = seq![
        Square::A2,
        Square::B2,
        Square::C2,
        Square::D2,
        Square::E2,
        Square::F2,
        Square::G2,
        Square::H2,
    ];
    let black_pawns = seq![
        Square::A7,
        Square::B7,
        Square::C7,
        Square::D7,
        Square::E7,
        Square::F7,
        Square::G7,
        Square::H7,
    ];
    assert forall|sq: Square| white_pawns.contains(sq) == (sq.rank() == 1) by {
        if sq.rank() == 1 {
            assert(white_pawns[sq.file()] == sq);
        }
    }
    assert forall|sq: Square| black_pawns.contains(sq) == (sq.rank() == 6) by {
        if sq.rank() == 6 {
            assert(black_pawns[sq.file()] == sq);
        }
    }
    assert(white_pawns.to_set() =~= Set::new(|sq: Square| sq.rank() == 1));
    assert(black_pawns.to_set() =~= Set::new(|sq: Square| sq.rank() == 6));
    lemma_mask_of_squares(STARTING_WHITE_PAWNS, white_pawns);
    lemma_mask_of_squares(STARTING_BLACK_PAWNS, black_pawns);
    lemma_pair(STARTING_WHITE_ROOKS, Square::A1, Square::H1);
    lemma_pair(STARTING_BLACK_ROOKS, Square::A8, Square::H8);
    lemma_pair(STARTING_WHITE_KNIGHTS, Square::B1, Square::G1);
    lemma_pair(STARTING_BLACK_KNIGHTS, Square::B8, Square::G8);
    lemma_pair(STARTING_WHITE_BISHOPS, Square::C1, Square::F1);
    lemma_pair(STARTING_BLACK_BISHOPS, Square::C8, Square::F8);
    lemma_one(STARTING_WHITE_QUEEN, Square::D1);
    lemma_one(STARTING_BLACK_QUEEN, Square::D8);
    lemma_one(STARTING_WHITE_KING, Square::E1);
    lemma_one(STARTING_BLACK_KING, Square::E8);
}

/// What a move does.
impl PieceBoard {
    /// A move keeps the kind of a board. A board that holds the origin loses
    /// it and gains the destination; any other board loses the destination.
    pub proof fn lemma_apply_move(pb: PieceBoard, mv: Move)
        ensures
            pb.spec_apply_move(&mv).piece() == pb.piece(),
            pb.spec_apply_move(&mv).board()@ == if pb.board()@.contains(mv.origin()) {
                pb.board()@.remove(mv.origin()).insert(mv.destination())
            } else {
                pb.board()@.remove(mv.destination())
            },
            !pb.board()@.contains(mv.origin()) && !pb.board()@.contains(mv.destination())
                ==> pb.spec_apply_move(&mv) == pb,
    {
        let after = pb.spec_apply_move(&mv);
        BitBoard::lemma_update(pb.board, mv.origin());
        BitBoard::lemma_update(pb.board.unset(mv.origin()), mv.destination());
        BitBoard::lemma_update(pb.board, mv.destination());
        if !pb.board@.contains(mv.origin()) {
            assert(after.board@ =~= pb.board@.remove(mv.destination()));
        }
    }
}

impl Pieces {
    /// A move keeps well-formed pieces well formed, and is applied to each of
    /// the six boards by itself.
    pub proof fn lemma_apply_move(p: Pieces, mv: Move)
        ensures
            p.wf() ==> p.spec_apply_move(&mv).wf(),
            p.spec_apply_move(&mv).boards() == Seq::new(
                6,
                |k: int| p.boards()[k].spec_apply_move(&mv),
            ),
    {
        PieceBoard::lemma_apply_move(p.king, mv);
        PieceBoard::lemma_apply_move(p.queens, mv);
        PieceBoard::lemma_apply_move(p.rooks, mv);
        PieceBoard::lemma_apply_move(p.bishops, mv);
        PieceBoard::lemma_apply_move(p.knights, mv);
        PieceBoard::lemma_apply_move(p.pawns, mv);
        assert(p.spec_apply_move(&mv).boards() =~= Seq::new(
            6,
            |k: int| p.boards()[k].spec_apply_move(&mv),
        ));
    }

    /// After a move the destination holds the kind that the origin held, and
    /// the origin holds none; every other square holds the kind it held.
    pub proof fn lemma_apply_move_kind_at(p: Pieces, mv: Move, square: Square)
        ensures
            p.spec_apply_move(&mv).kind_at(square) == if square == mv.destination() {
                p.kind_at(mv.origin())
            } else if square == mv.origin() {
                None
            } else {
                p.kind_at(square)
            },
    {
        PieceBoard::lemma_apply_move(p.king, mv);
        PieceBoard::lemma_apply_move(p.queens, mv);
        PieceBoard::lemma_apply_move(p.rooks, mv);
        PieceBoard::lemma_apply_move(p.bishops, mv);
        PieceBoard::lemma_apply_move(p.knights, mv);
        PieceBoard::lemma_apply_move(p.pawns, mv);
    }
}

impl Board {
    /// The place of each board among the twelve.
    pub proof fn lemma_boards(b: Board)
        ensures
            b.boards().len() == 12,
            b.boards()[0] == b.white().king(),
            b.boards()[1] == b.white().queens(),
            b.boards()[2] == b.white().rooks(),
            b.boards()[3] == b.white().bishops(),
            b.boards()[4] == b.white().knights(),
            b.boards()[5] == b.white().pawns(),
            b.boards()[6] == b.black().king(),
            b.boards()[7] == b.black().queens(),
            b.boards()[8] == b.black().rooks(),
            b.boards()[9] == b.black().bishops(),
            b.boards()[10] == b.black().knights(),
            b.boards()[11] == b.black().pawns(),
    {
    }

    /// A square is occupied exactly where it has an occupant.
    pub proof fn lemma_occupied(b: Board, square: Square)
        requires
            b.wf(),
        ensures
            b.spec_occupied(square) <==> b.occupant(&square) is Some,
    {
        Pieces::lemma_wf(b.white);
        Pieces::lemma_wf(b.black);
    }

    /// A move keeps a well-formed position well formed, and is applied to each
    /// of the twelve boards by itself.
    pub proof fn lemma_apply_move(b: Board, mv: Move)
        ensures
            b.wf() ==> b.spec_apply_move(&mv).wf(),
            b.spec_apply_move(&mv).boards() == Seq::new(
                12,
                |k: int| b.boards()[k].spec_apply_move(&mv),
            ),
    {
        Pieces::lemma_apply_move(b.white, mv);
        Pieces::lemma_apply_move(b.black, mv);
        assert(b.spec_apply_move(&mv).boards() =~= Seq::new(
            12,
            |k: int| b.boards()[k].spec_apply_move(&mv),
        ));
    }

    /// A move keeps the boards of a position exclusive: where no square was
    /// held by two boards before the move, none is after it.
    pub proof fn lemma_apply_move_exclusive(b: Board, mv: Move)
        requires
            b.exclusive(),
        ensures
            b.spec_apply_move(&mv).exclusive(),
    {
        let after = b.spec_apply_move(&mv);
        Self::lemma_apply_move(b, mv);
        assert forall|i: int, j: int| 0 <= i < j < 12 implies (
        #[trigger] after.boards()[i]).board()@.disjoint((#[trigger] after.boards()[j]).board()@) by {
            PieceBoard::lemma_apply_move(b.boards()[i], mv);
            PieceBoard::lemma_apply_move(b.boards()[j], mv);
            assert(b.boards()[i].board()@.disjoint(b.boards()[j].board()@));
        }
    }

    /// Between two empty squares a move changes nothing.
    pub proof fn lemma_apply_move_between_empty(b: Board, mv: Move)
        requires
            b.wf(),
            !b.spec_occupied(mv.origin()),
            !b.spec_occupied(mv.destination()),
        ensures
            b.spec_apply_move(&mv) == b,
    {
        Pieces::lemma_wf(b.white);
        Pieces::lemma_wf(b.black);
        PieceBoard::lemma_apply_move(b.white.king, mv);
        PieceBoard::lemma_apply_move(b.white.queens, mv);
        PieceBoard::lemma_apply_move(b.white.rooks, mv);
        PieceBoard::lemma_apply_move(b.white.bishops, mv);
        PieceBoard::lemma_apply_move(b.white.knights, mv);
        PieceBoard::lemma_apply_move(b.white.pawns, mv);
        PieceBoard::lemma_apply_move(b.black.king, mv);
        PieceBoard::lemma_apply_move(b.black.queens, mv);
        PieceBoard::lemma_apply_move(b.black.rooks, mv);
        PieceBoard::lemma_apply_move(b.black.bishops, mv);
        PieceBoard::lemma_apply_move(b.black.knights, mv);
        PieceBoard::lemma_apply_move(b.black.pawns, mv);
    }

    /// Where one board holds the origin and no other board holds the origin
    /// or the destination, the move relocates the piece in that board and
    /// touches no other.
    pub proof fn lemma_apply_move_relocates(b: Board, mv: Move, k: int)
        requires
            0 <= k < 12,
            b.boards()[k].board()@.contains(mv.origin()),
            forall|j: int|
                0 <= j < 12 && j != k ==> !(#[trigger] b.boards()[j]).board()@.contains(mv.origin())
                    && !b.boards()[j].board()@.contains(mv.destination()),
        ensures
            b.spec_apply_move(&mv).boards()[k].board()@ == b.boards()[k].board()@.remove(
                mv.origin(),
            ).insert(mv.destination()),
            forall|j: int|
                0 <= j < 12 && j != k ==> (#[trigger] b.spec_apply_move(&mv).boards()[j])
                    == b.boards()[j],
    {
        Self::lemma_apply_move(b, mv);
        PieceBoard::lemma_apply_move(b.boards()[k], mv);
        assert forall|j: int| 0 <= j < 12 && j != k implies (#[trigger] b.spec_apply_move(
            &mv,
        ).boards()[j]) == b.boards()[j] by {
            PieceBoard::lemma_apply_move(b.boards()[j], mv);
        }
    }

    /// A move carries the occupant of the origin to the destination, whatever
    /// stood there, and leaves the origin empty; every other square keeps its
    /// occupant. Where the origin is empty, so is the destination after the
    /// move.
    pub proof fn lemma_apply_move_occupant(b: Board, mv: Move, square: Square)
        ensures
            b.spec_apply_move(&mv).occupant(&square) == if square == mv.destination() {
                b.occupant(&mv.origin())
            } else if square == mv.origin() {
                None
            } else {
                b.occupant(&square)
            },
    {
        Pieces::lemma_apply_move_kind_at(b.white, mv, square);
        Pieces::lemma_apply_move_kind_at(b.black, mv, square);
    }

    /// After a move the destination is occupied where the origin was, and the
    /// origin is empty; every other square is occupied where it was.
    pub proof fn lemma_apply_move_occupied(b: Board, mv: Move, square: Square)
        requires
            b.wf(),
        ensures
            b.spec_apply_move(&mv).spec_occupied(square) == if square == mv.destination() {
                b.spec_occupied(mv.origin())
            } else if square == mv.origin() {
                false
            } else {
                b.spec_occupied(square)
            },
    {
        Self::lemma_apply_move(b, mv);
        Self::lemma_apply_move_occupant(b, mv, square);
        Self::lemma_occupied(b, square);
        Self::lemma_occupied(b, mv.origin());
        Self::lemma_occupied(b.spec_apply_move(&mv), square);
    }

    /// The kind of the piece that stands on a file of the first or the
    /// eighth rank when a game begins.
    pub open spec fn starting_officer(file: int) -> Piece {
        if file == 0 || file == 7 {
            Piece::Rook
        } else if file == 1 || file == 6 {
            Piece::Knight
        } else if file == 2 || file == 5 {
            Piece::Bishop
        } else if file == 3 {
            Piece::Queen
        } else {
            Piece::King
        }
    }

    /// The piece that stands on a square when a game begins: white's officers
    /// on the first rank and pawns on the second, black's pawns on the seventh
    /// and officers on the eighth, and nothing between.
    pub open spec fn starting_occupant(square: Square) -> Option<(Piece, Color)> {
        if square.rank() == 0 {
            Some((Self::starting_officer(square.file()), Color::White))
        } else if square.rank() == 1 {
            Some((Piece::Pawn, Color::White))
        } else if square.rank() == 6 {
            Some((Piece::Pawn, Color::Black))
        } else if square.rank() == 7 {
            Some((Self::starting_officer(square.file()), Color::Black))
        } else {
            None
        }
    }

    /// The position at the beginning of a game is well formed, no square of
    /// it is held by two boards, and each square holds the piece of the
    /// standard setup.
    pub proof fn lemma_fresh_game()
        ensures
            Self::fresh_game().wf(),
            Self::fresh_game().exclusive(),
            forall|square: Square|
                (#[trigger] Self::fresh_game().occupant(&square)) == Self::starting_occupant(
                    square,
                ),
    {
        let fresh = Self::fresh_game();
        lemma_starting_masks();
        Self::lemma_boards(fresh);
    }
}

/// Diagnostic text.
impl Piece {
    /// The name of the kind.
    pub open spec fn name(&self) -> Seq<char> {
        match self {
            Piece::King => "King"@,
            Piece::Queen => "Queen"@,
            Piece::Rook => "Rook"@,
            Piece::Bishop => "Bishop"@,
            Piece::Knight => "Knight"@,
            Piece::Pawn => "Pawn"@,
        }
    }

    /// The chess symbol of the kind.
    pub open spec fn symbol(&self) -> Seq<char> {
        match self {
            Piece::King => "♚"@,
            Piece::Queen => "♛"@,
            Piece::Rook => "♜"@,
            Piece::Bishop => "♝"@,
            Piece::Knight => "♞"@,
            Piece::Pawn => "♟"@,
        }
    }

    /// The name of the kind.
    fn kind_name(&self) -> (r: &'static str)
        ensures
            r@ == self.name(),
    {
        match self {
            Self::King => "King",
            Self::Queen => "Queen",
            Self::Rook => "Rook",
            Self::Bishop => "Bishop",
            Self::Knight => "Knight",
            Self::Pawn => "Pawn",
        }
    }

    /// The chess symbol of the kind.
    pub fn to_string(&self) -> (r: &'static str)
        ensures
            r@ == self.symbol(),
    {
        match self {
            Self::King => "♚",
            Self::Queen => "♛",
            Self::Rook => "♜",
            Self::Bishop => "♝",
            Self::Knight => "♞",
            Self::Pawn => "♟",
        }
    }
}

impl PieceBoard {
    /// The name of the kind, a colon and a space, and the text of the board.
    pub open spec fn text(&self) -> Seq<char> {
        self.piece().name() + ": "@ + self.board().text()
    }

    /// The piece board as a text, such as `Rook: [A1, H1]`.
    pub fn to_string(&self) -> (r: String)
        ensures
            r@ == self.text(),
    {
        let mut result = String::from_str(self.piece.kind_name());
        result.append(": ");
        result.append(self.board.to_string().as_str());
        result
    }
}

impl Pieces {
    /// The texts of the six boards, each on a line of its own, between two
    /// line ends.
    pub open spec fn text(&self) -> Seq<char> {
        "\n"@ + joined(self.boards().map_values(|pb: PieceBoard| pb.text()), "\n"@) + "\n"@
    }

    /// The texts of the six boards, each after two spaces, on a line of its
    /// own.
    pub open spec fn indented_text(&self) -> Seq<char> {
        joined(self.boards().map_values(|pb: PieceBoard| "  "@ + pb.text()), "\n"@)
    }

    /// The pieces of one colour as a text.
    pub fn to_string(&self) -> (r: String)
        ensures
            r@ == self.text(),
    {
        let mut lines: Vec<String> = Vec::new();
        let mut walk = self.iter_pieces();
        loop
            invariant
                walk.pieces() == *self,
                walk.position() <= 6,
                lines.len() == walk.position(),
                forall|k: int|
                    0 <= k < lines.len() ==> (#[trigger] lines[k])@ == self.boards()[k].text(),
            ensures
                lines.len() == 6,
                forall|k: int|
                    0 <= k < lines.len() ==> (#[trigger] lines[k])@ == self.boards()[k].text(),
            decreases 6 - walk.position(),
        {
            match walk.next() {
                Some(piece_board) => {
                    lines.push(piece_board.to_string());
                },
                None => {
                    break ;
                },
            }
        }
        assert(texts(lines@) =~= self.boards().map_values(|pb: PieceBoard| pb.text()));
        let mut result = String::from_str("\n");
        result.append(join(&lines, "\n").as_str());
        result.append("\n");
        result
    }

    /// The texts of the six boards, each after two spaces, on a line of its
    /// own.
    fn indented_string(&self) -> (r: String)
        ensures
            r@ == self.indented_text(),
    {
        let mut lines: Vec<String> = Vec::new();
        let mut walk = self.iter_pieces();
        loop
            invariant
                walk.pieces() == *self,
                walk.position() <= 6,
                lines.len() == walk.position(),
                forall|k: int|
                    0 <= k < lines.len() ==> (#[trigger] lines[k])@ == "  "@
                        + self.boards()[k].text(),
            ensures
                lines.len() == 6,
                forall|k: int|
                    0 <= k < lines.len() ==> (#[trigger] lines[k])@ == "  "@
                        + self.boards()[k].text(),
            decreases 6 - walk.position(),
        {
            match walk.next() {
                Some(piece_board) => {
                    let mut line = String::from_str("  ");
                    line.append(piece_board.to_string().as_str());
                    lines.push(line);
                },
                None => {
                    break ;
                },
            }
        }
        assert(texts(lines@) =~= self.boards().map_values(|pb: PieceBoard| "  "@ + pb.text()));
        join(&lines, "\n")
    }
}

impl Board {
    /// The boards of white under the heading `White:` and those of black
    /// under the heading `Black:`, each board after two spaces on a line of
    /// its own. The heading of black follows white's last board on its line.
    pub open spec fn text(&self) -> Seq<char> {
        "\nWhite:\n"@ + self.white().indented_text() + "Black:\n"@ + self.black().indented_text()
            + "\n"@
    }

    /// The position as a text.
    pub fn to_string(&self) -> (r: String)
        ensures
            r@ == self.text(),
    {
        let mut result = String::from_str("\nWhite:\n");
        result.append(self.white.indented_string().as_str());
        result.append("Black:\n");
        result.append(self.black.indented_string().as_str());
        result.append("\n");
        result
    }
}

} // verus!
