//! The kinds of chess pieces.

use vstd::prelude::*;

verus! {

/// A kind of piece; `Empty` stands for the absence of one.
#[derive(Clone, Copy, Debug, PartialEq, Eq, Structural)]
pub enum PieceType {
    Pawn,
    Knight,
    Bishop,
    Rook,
    Queen,
    King,
    Empty,
}

impl PieceType {
    /// The number that stands for this kind: Pawn is 0, Empty is 6.
    pub open spec fn index(self) -> int {
        match self {
            PieceType::Pawn => 0,
            PieceType::Knight => 1,
            PieceType::Bishop => 2,
            PieceType::Rook => 3,
            PieceType::Queen => 4,
            PieceType::King => 5,
            PieceType::Empty => 6,
        }
    }

    /// The kind that a number stands for.
    pub open spec fn of_index(value: int) -> PieceType {
        if value == 0 {
            PieceType::Pawn
        } else if value == 1 {
            PieceType::Knight
        } else if value == 2 {
            PieceType::Bishop
        } else if value == 3 {
            PieceType::Rook
        } else if value == 4 {
            PieceType::Queen
        } else if value == 5 {
            PieceType::King
        } else {
            PieceType::Empty
        }
    }

    /// The kind that a number stands for.
    pub fn from_ordinal(value: u8) -> (r: PieceType)
        requires
            value < 7,
        ensures
            r == PieceType::of_index(value as int),
            r.index() == value,
    {
        if value == 0 {
            PieceType::Pawn
        } else if value == 1 {
            PieceType::Knight
        } else if value == 2 {
            PieceType::Bishop
        } else if value == 3 {
            PieceType::Rook
        } else if value == 4 {
            PieceType::Queen
        } else if value == 5 {
            PieceType::King
        } else {
            PieceType::Empty
        }
    }

    /// The number that stands for this kind.
    pub fn ordinal(&self) -> (r: u8)
        ensures
            r == self.index(),
            r < 7,
    {
        match self {
            PieceType::Pawn => 0,
            PieceType::Knight => 1,
            PieceType::Bishop => 2,
            PieceType::Rook => 3,
            PieceType::Queen => 4,
            PieceType::King => 5,
            PieceType::Empty => 6,
        }
    }
}

} // verus!
