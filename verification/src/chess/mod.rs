//! The chess core that the codecs work on.

pub mod attacks;
pub mod bitboard;
pub mod castling_rights;
pub mod chess_move;
pub mod color;
pub mod coords;
pub mod piece;
pub mod piecetype;
pub mod position;
