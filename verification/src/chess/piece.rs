//! A piece: a kind together with a side.

use crate::chess::color::Color;
use crate::chess::piecetype::PieceType;
use vstd::prelude::*;

verus! {

/// A piece, held as one small number: twice the kind's number plus the
/// side's. Twelve stands for "no piece".
#[derive(Clone, Copy, Debug, PartialEq, Eq, Structural)]
pub struct Piece {
    pub id: u8,
}

impl Piece {
    /// A real piece or "no piece": nothing else.
    pub open spec fn valid(self) -> bool {
        self.id <= 12
    }

    /// Whether this is "no piece".
    pub open spec fn is_none(self) -> bool {
        self.id == 12
    }

    /// The kind of this piece.
    pub open spec fn kind(self) -> PieceType {
        PieceType::of_index(self.id as int / 2)
    }

    /// The side of this piece.
    pub open spec fn side(self) -> Color {
        if self.id % 2 == 0 {
            Color::White
        } else {
            Color::Black
        }
    }

    /// The piece of a kind and a side.
    pub open spec fn of(kind: PieceType, side: Color) -> Piece {
        Piece { id: (2 * kind.index() + side.index()) as u8 }
    }

    /// The white pawn.
    pub fn white_pawn() -> (r: Piece)
        ensures
            r == Piece::of(PieceType::Pawn, Color::White),
            r.id == 0,
    {
        Piece { id: 0 }
    }

    /// The black pawn.
    pub fn black_pawn() -> (r: Piece)
        ensures
            r == Piece::of(PieceType::Pawn, Color::Black),
            r.id == 1,
    {
        Piece { id: 1 }
    }

    /// The white knight.
    pub fn white_knight() -> (r: Piece)
        ensures
            r == Piece::of(PieceType::Knight, Color::White),
            r.id == 2,
    {
        Piece { id: 2 }
    }

    /// The black knight.
    pub fn black_knight() -> (r: Piece)
        ensures
            r == Piece::of(PieceType::Knight, Color::Black),
            r.id == 3,
    {
        Piece { id: 3 }
    }

    /// The white bishop.
    pub fn white_bishop() -> (r: Piece)
        ensures
            r == Piece::of(PieceType::Bishop, Color::White),
            r.id == 4,
    {
        Piece { id: 4 }
    }

    /// The black bishop.
    pub fn black_bishop() -> (r: Piece)
        ensures
            r == Piece::of(PieceType::Bishop, Color::Black),
            r.id == 5,
    {
        Piece { id: 5 }
    }

    /// The white rook.
    pub fn white_rook() -> (r: Piece)
        ensures
            r == Piece::of(PieceType::Rook, Color::White),
            r.id == 6,
    {
        Piece { id: 6 }
    }

    /// The black rook.
    pub fn black_rook() -> (r: Piece)
        ensures
            r == Piece::of(PieceType::Rook, Color::Black),
            r.id == 7,
    {
        Piece { id: 7 }
    }

    /// The white queen.
    pub fn white_queen() -> (r: Piece)
        ensures
            r == Piece::of(PieceType::Queen, Color::White),
            r.id == 8,
    {
        Piece { id: 8 }
    }

    /// The black queen.
    pub fn black_queen() -> (r: Piece)
        ensures
            r == Piece::of(PieceType::Queen, Color::Black),
            r.id == 9,
    {
        Piece { id: 9 }
    }

    /// The white king.
    pub fn white_king() -> (r: Piece)
        ensures
            r == Piece::of(PieceType::King, Color::White),
            r.id == 10,
    {
        Piece { id: 10 }
    }

    /// The black king.
    pub fn black_king() -> (r: Piece)
        ensures
            r == Piece::of(PieceType::King, Color::Black),
            r.id == 11,
    {
        Piece { id: 11 }
    }

    /// The piece with the given number.
    pub fn from_id(id: i32) -> (r: Piece)
        requires
            0 <= id < 13,
        ensures
            r.id == id,
            r.valid(),
    {
        Piece { id: id as u8 }
    }

    /// "No piece".
    pub fn none() -> (r: Piece)
        ensures
            r.is_none(),
            r == Piece::of(PieceType::Empty, Color::White),
    {
        Piece::new(PieceType::Empty, Color::White)
    }

    /// The piece of a kind and a side.
    pub fn new(piece_type: PieceType, color: Color) -> (r: Piece)
        ensures
            r == Piece::of(piece_type, color),
            r.kind() == piece_type,
            r.side() == color,
    {
        Piece { id: piece_type.ordinal() * 2 + color.ordinal() }
    }

    /// The kind of the piece.
    pub fn piece_type(&self) -> (r: PieceType)
        requires
            self.id < 14,
        ensures
            r == self.kind(),
    {
        PieceType::from_ordinal(self.id / 2)
    }

    /// The side of the piece.
    pub fn color(&self) -> (r: Color)
        ensures
            r == self.side(),
    {
        Color::from_ordinal(self.id % 2)
    }

    /// The kind and the side of the piece.
    pub fn parts(&self) -> (r: (PieceType, Color))
        requires
            self.id < 14,
        ensures
            r.0 == self.kind(),
            r.1 == self.side(),
    {
        (self.piece_type(), self.color())
    }

    /// The number of the piece.
    pub fn as_int(&self) -> (r: usize)
        ensures
            r == self.id,
    {
        self.id as usize
    }
}

/// A valid piece is the piece of its kind and side, and is "no piece"
/// exactly when its kind is `None`.
pub proof fn lemma_piece_parts(p: Piece)
    requires
        p.valid(),
    ensures
        p == Piece::of(p.kind(), p.side()),
        p.is_none() <==> p.kind() == PieceType::Empty,
        p.kind().index() == p.id / 2,
        p.side().index() == p.id % 2,
{
}

} // verus!
