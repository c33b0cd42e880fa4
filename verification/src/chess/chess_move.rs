//! A move: where a piece goes from and to, and of what kind the move is.

use crate::chess::castling_rights::CastleType;
use crate::chess::color::Color;
use crate::chess::coords::Square;
use crate::chess::piece::Piece;
use vstd::prelude::*;

verus! {

/// The kind of a move.
#[derive(Clone, Copy, Debug, PartialEq, Eq, Structural)]
pub enum MoveType {
    Normal,
    Promotion,
    Castle,
    EnPassant,
}

impl MoveType {
    /// The number that stands for this kind of move.
    pub open spec fn index(self) -> int {
        match self {
            MoveType::Normal => 0,
            MoveType::Promotion => 1,
            MoveType::Castle => 2,
            MoveType::EnPassant => 3,
        }
    }

    /// The number that stands for this kind of move.
    pub fn ordinal(&self) -> (r: u8)
        ensures
            r == self.index(),
    {
        match self {
            MoveType::Normal => 0,
            MoveType::Promotion => 1,
            MoveType::Castle => 2,
            MoveType::EnPassant => 3,
        }
    }

    /// The kind of move that a number stands for.
    pub fn from_ordinal(value: u8) -> (r: MoveType)
        requires
            value < 4,
        ensures
            r.index() == value,
    {
        if value == 0 {
            MoveType::Normal
        } else if value == 1 {
            MoveType::Promotion
        } else if value == 2 {
            MoveType::Castle
        } else {
            MoveType::EnPassant
        }
    }
}

/// A move. A castling move holds the king's square in `from` and the
/// rook's square in `to`. The null move goes from square 0 to square 0.
#[derive(Clone, Copy, Debug, PartialEq, Eq, Structural)]
pub struct Move {
    pub from: Square,
    pub to: Square,
    pub move_type: MoveType,
    pub promoted_piece: Piece,
}

impl Move {
    /// The wing of a castling move: short when the rook stands on the
    /// `h` file.
    pub open spec fn wing(self) -> CastleType {
        if self.to.index % 8 == 7 {
            CastleType::Short
        } else {
            CastleType::Long
        }
    }

    /// The null move.
    pub open spec fn null_spec() -> Move {
        Move {
            from: Square { index: 0 },
            to: Square { index: 0 },
            move_type: MoveType::Normal,
            promoted_piece: Piece { id: 12 },
        }
    }

    /// The move with the given parts.
    pub fn new(from: Square, to: Square, move_type: MoveType, promoted_piece: Piece) -> (r: Move)
        ensures
            r == (Move { from, to, move_type, promoted_piece }),
    {
        Move { from, to, move_type, promoted_piece }
    }

    /// The null move.
    pub fn null() -> (r: Move)
        ensures
            r == Move::null_spec(),
    {
        Move {
            from: Square::a1(),
            to: Square::a1(),
            move_type: MoveType::Normal,
            promoted_piece: Piece::none(),
        }
    }

    /// The normal move from `from` to `to`.
    pub fn normal(from: Square, to: Square) -> (r: Move)
        ensures
            r == (Move { from, to, move_type: MoveType::Normal, promoted_piece: Piece { id: 12 } }),
    {
        Move { from, to, move_type: MoveType::Normal, promoted_piece: Piece::none() }
    }

    /// The move of a pawn from `from` to `to` that promotes it to `piece`.
    pub fn promotion(from: Square, to: Square, piece: Piece) -> (r: Move)
        ensures
            r == (Move { from, to, move_type: MoveType::Promotion, promoted_piece: piece }),
    {
        Move { from, to, move_type: MoveType::Promotion, promoted_piece: piece }
    }

    /// The capture in passing from `from` onto `to`.
    pub fn en_passant(from: Square, to: Square) -> (r: Move)
        ensures
            r == (Move { from, to, move_type: MoveType::EnPassant, promoted_piece: Piece { id: 12 } }),
    {
        Move { from, to, move_type: MoveType::EnPassant, promoted_piece: Piece::none() }
    }

    /// The castling move of `color` to the wing `castle_type`: from the
    /// king's home square to the rook's.
    pub fn castle(castle_type: CastleType, color: Color) -> (r: Move)
        ensures
            r == Move::castle_spec(castle_type, color),
            r.wing() == castle_type,
    {
        let from: Square = match color {
            Color::White => Square::e1(),
            Color::Black => Square::e8(),
        };
        let to: Square = match (color, castle_type) {
            (Color::White, CastleType::Short) => Square::h1(),
            (Color::White, CastleType::Long) => Square::a1(),
            (Color::Black, CastleType::Short) => Square::h8(),
            (Color::Black, CastleType::Long) => Square::a8(),
        };
        Move { from, to, move_type: MoveType::Castle, promoted_piece: Piece::none() }
    }

    /// What `castle` returns.
    pub open spec fn castle_spec(castle_type: CastleType, color: Color) -> Move {
        Move {
            from: Square { index: if color == Color::White { 4 } else { 60 } },
            to: Square {
                index: match (color, castle_type) {
                    (Color::White, CastleType::Short) => 7,
                    (Color::White, CastleType::Long) => 0,
                    (Color::Black, CastleType::Short) => 63,
                    (Color::Black, CastleType::Long) => 56,
                },
            },
            move_type: MoveType::Castle,
            promoted_piece: Piece { id: 12 },
        }
    }

    /// The square that the move starts on.
    pub fn from(&self) -> (r: Square)
        ensures
            r == self.from,
    {
        self.from
    }

    /// The square that the move ends on; for castling, the rook's square.
    pub fn to(&self) -> (r: Square)
        ensures
            r == self.to,
    {
        self.to
    }

    /// The kind of the move.
    pub fn mtype(&self) -> (r: MoveType)
        ensures
            r == self.move_type,
    {
        self.move_type
    }

    /// The piece that the pawn is promoted to, or "no piece".
    pub fn promoted_piece(&self) -> (r: Piece)
        ensures
            r == self.promoted_piece,
    {
        self.promoted_piece
    }

    /// The wing of a castling move.
    pub fn castle_type(&self) -> (r: CastleType)
        ensures
            r == self.wing(),
    {
        if self.to.index % 8 == 7 {
            CastleType::Short
        } else {
            CastleType::Long
        }
    }

    /// Whether this is the null move.
    pub fn is_null(&self) -> (r: bool)
        ensures
            r == (self.from.index == 0 && self.to.index == 0),
    {
        self.from.index == 0 && self.to.index == 0
    }
}

} // verus!
