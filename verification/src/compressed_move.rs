//! A move packed into two bytes.

use crate::chess::chess_move::{Move, MoveType};
use crate::chess::color::Color;
use crate::chess::coords::Square;
use crate::chess::piece::Piece;
use crate::chess::piecetype::PieceType;
use vstd::prelude::*;

verus! {

/// A move in sixteen bits. From the most significant bit: two bits for the
/// kind of move, six for the square it starts on, six for the square it ends
/// on, and two for the piece a pawn is promoted to (knight, bishop, rook,
/// queen as 0 to 3; zero when the move is no promotion). The null move is
/// zero.
#[derive(Clone, Copy, Debug, PartialEq, Eq, Structural)]
pub struct CompressedMove {
    pub packed: u16,
}

/// Whether a move can be packed: it is a null move, or it joins two
/// squares of the board and, if it is a promotion, promotes to a knight, a
/// bishop, a rook or a queen.
pub open spec fn packable_move(m: Move) -> bool {
    m.from == m.to || (m.from.index < 64 && m.to.index < 64 && (m.move_type == MoveType::Promotion
        ==> 1 <= m.promoted_piece.kind().index() <= 4))
}

/// The sixteen bits of a move. A move that starts and ends on the same
/// square packs as the null move.
pub open spec fn pack_move(m: Move) -> int {
    if m.from == m.to {
        0
    } else {
        m.move_type.index() * 0x4000 + m.from.index * 0x100 + m.to.index * 4 + if m.move_type
            == MoveType::Promotion {
            m.promoted_piece.kind().index() - 1
        } else {
            0
        }
    }
}

/// The kind of move that a number stands for.
pub open spec fn move_type_of(value: int) -> MoveType {
    if value == 0 {
        MoveType::Normal
    } else if value == 1 {
        MoveType::Promotion
    } else if value == 2 {
        MoveType::Castle
    } else {
        MoveType::EnPassant
    }
}

/// The piece that the packed move promotes to: none unless it is a
/// promotion; Black's when the move ends on the first rank, else White's.
pub open spec fn promoted_of(packed: int) -> Piece {
    if packed / 0x4000 == 1 {
        Piece::of(
            PieceType::of_index(packed % 4 + 1),
            if ((packed / 4) % 64) / 8 == 0 {
                Color::Black
            } else {
                Color::White
            },
        )
    } else {
        Piece { id: 12 }
    }
}

/// The move that sixteen bits stand for.
pub open spec fn unpack_move(packed: int) -> Move {
    if packed == 0 {
        Move::null_spec()
    } else {
        Move {
            from: Square { index: ((packed / 0x100) % 64) as u32 },
            to: Square { index: ((packed / 4) % 64) as u32 },
            move_type: move_type_of(packed / 0x4000),
            promoted_piece: promoted_of(packed),
        }
    }
}

/// Whether unpacking gives the move back: it joins two different squares of
/// the board; a promotion promotes to a knight, a bishop, a rook or a queen
/// of the side that the target rank tells (Black on the first rank, else
/// White); any other move promotes to nothing.
pub open spec fn round_trip_move(m: Move) -> bool {
    &&& m.from.index < 64 && m.to.index < 64 && m.from != m.to
    &&& m.move_type == MoveType::Promotion ==> 1 <= m.promoted_piece.kind().index() <= 4
        && m.promoted_piece == Piece::of(
        m.promoted_piece.kind(),
        if m.to.index / 8 == 0 {
            Color::Black
        } else {
            Color::White
        },
    )
    &&& m.move_type != MoveType::Promotion ==> m.promoted_piece.is_none()
}

/// Unpacking a packed move gives the move back, and the null move packs as
/// zero.
pub proof fn lemma_move_round_trip(m: Move)
    requires
        round_trip_move(m),
    ensures
        0 < pack_move(m) < 0x1_0000,
        unpack_move(pack_move(m)) == m,
        pack_move(Move::null_spec()) == 0,
        unpack_move(0) == Move::null_spec(),
{
}

/// The fields of a packed word, read by shifting and masking.
proof fn lemma_packed_fields(p: u16)
    by (bit_vector)
    ensures
        (p >> 14) == p / 0x4000,
        (p >> 14) < 4,
        ((p >> 8) & 0x3F) == (p / 0x100) % 64,
        ((p >> 2) & 0x3F) == (p / 4) % 64,
        (p & 3) == p % 4,
        (p >> 8) == p / 0x100,
        (p & 0xFF) == p % 0x100,
{
}

/// The packed word, put together by shifting and joining.
proof fn lemma_packed_join(t: u16, f: u16, d: u16, q: u16)
    by (bit_vector)
    requires
        t < 4,
        f < 64,
        d < 64,
        q < 4,
    ensures
        ((t << 14) | (f << 8) | (d << 2) | q) == t * 0x4000 + f * 0x100 + d * 4 + q,
{
}

/// Two bytes, the first in the high half, as one number.
pub proof fn lemma_u16_be(hi: u8, lo: u8)
    by (bit_vector)
    ensures
        (((hi as u16) << 8) | (lo as u16)) == hi * 0x100 + lo,
{
}

impl Default for CompressedMove {
    fn default() -> (r: Self)
        ensures
            r.packed == 0,
    {
        Self::new()
    }
}

impl CompressedMove {
    /// The packed move in the first two bytes of `data`, the high byte
    /// first.
    pub fn read_from_big_endian(data: &[u8]) -> (r: Self)
        requires
            data@.len() >= 2,
        ensures
            r.packed == data@[0] * 0x100 + data@[1],
    {
        proof {
            lemma_u16_be(data@[0], data@[1]);
        }
        Self { packed: ((data[0] as u16) << 8) | (data[1] as u16) }
    }

    /// The packed null move.
    pub fn new() -> (r: Self)
        ensures
            r.packed == 0,
    {
        Self { packed: 0 }
    }

    /// The packed move with the given bits.
    pub fn from_ordinal(data: u16) -> (r: Self)
        ensures
            r.packed == data,
    {
        Self { packed: data }
    }

    /// Packs a move.
    pub fn from_move(move_: Move) -> (r: Self)
        requires
            packable_move(move_),
        ensures
            r.packed == pack_move(move_),
    {
        let mut packed: u16 = 0;
        if move_.from.index != move_.to.index {
            let t: u16 = move_.mtype().ordinal() as u16;
            let f: u16 = move_.from.index() as u16;
            let d: u16 = move_.to.index() as u16;
            let q: u16 = if move_.mtype() == MoveType::Promotion {
                (move_.promoted_piece().piece_type().ordinal() as u16) -
                    (PieceType::Knight.ordinal() as u16)
            } else {
                0
            };
            proof {
                lemma_packed_join(t, f, d, q);
            }
            packed = (t << 14) | (f << 8) | (d << 2) | q;
        }
        Self { packed }
    }

    /// Writes the packed move into the first two bytes of `data`, the high
    /// byte first.
    pub fn write_to_big_endian(&self, data: &mut [u8])
        requires
            old(data)@.len() >= 2,
        ensures
            final(data)@.len() == old(data)@.len(),
            final(data)@[0] == self.packed / 0x100,
            final(data)@[1] == self.packed % 0x100,
            forall|i: int| 2 <= i < old(data)@.len() ==> final(data)@[i] == old(data)@[i],
    {
        proof {
            lemma_packed_fields(self.packed);
        }
        data[0] = (self.packed >> 8) as u8;
        data[1] = (self.packed & 0xFF) as u8;
    }

    /// The sixteen bits.
    pub fn packed(&self) -> (r: u16)
        ensures
            r == self.packed,
    {
        self.packed
    }

    /// The kind of the packed move.
    pub fn move_type(&self) -> (r: MoveType)
        ensures
            r == move_type_of(self.packed as int / 0x4000),
    {
        proof {
            lemma_packed_fields(self.packed);
        }
        MoveType::from_ordinal((self.packed >> 14) as u8)
    }

    /// The square that the packed move starts on.
    pub fn from(&self) -> (r: Square)
        ensures
            r.index == (self.packed as int / 0x100) % 64,
    {
        proof {
            lemma_packed_fields(self.packed);
        }
        Square::new(((self.packed >> 8) & 0x3F) as u32)
    }

    /// The square that the packed move ends on.
    pub fn to(&self) -> (r: Square)
        ensures
            r.index == (self.packed as int / 4) % 64,
    {
        proof {
            lemma_packed_fields(self.packed);
        }
        Square::new(((self.packed >> 2) & 0x3F) as u32)
    }

    /// The piece that the packed move promotes to, or "no piece".
    pub fn promoted_piece(&self) -> (r: Piece)
        ensures
            r == promoted_of(self.packed as int),
    {
        if self.move_type() == MoveType::Promotion {
            let color: Color = if self.to().rank().index == 0 {
                Color::Black
            } else {
                Color::White
            };
            proof {
                lemma_packed_fields(self.packed);
            }
            let piece_type: PieceType = PieceType::from_ordinal(
                ((self.packed & 3) as u8) + PieceType::Knight.ordinal(),
            );
            Piece::new(piece_type, color)
        } else {
            Piece::none()
        }
    }

    /// The move that the packed word stands for.
    pub fn decompress(&self) -> (r: Move)
        ensures
            r == unpack_move(self.packed as int),
    {
        if self.packed == 0 {
            Move::null()
        } else {
            Move::new(self.from(), self.to(), self.move_type(), self.promoted_piece())
        }
    }
}

} // verus!
