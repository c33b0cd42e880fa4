//! A position packed into 24 bytes.

use crate::arithmetic::{bit_at, count_below, lemma_count_below_bounds, popcount};
use crate::chess::bitboard::Bitboard;
use crate::chess::castling_rights::{lemma_byte_bits, lemma_byte_extensional, CastlingRights};
use crate::chess::color::Color;
use crate::chess::coords::{FlatSquareOffset, Square};
use crate::chess::piece::Piece;
use crate::chess::chess_move::{Move, MoveType};
use crate::chess::piecetype::PieceType;
use crate::chess::position::{
    castle_squares, ep_victim, has_king, lemma_move_keeps_kings, revoked_by, Position, PositionModel,
};
use vstd::prelude::*;

verus! {

/// A position in 24 bytes: the set of occupied squares, and one nibble of
/// four bits for each of them, in the order of the squares. Two nibbles
/// share a byte, the first in its low half. A nibble below 12 is the number
/// of a piece; 12 is a pawn that has just gone two squares, 13 a white rook
/// and 14 a black rook that may still castle, 15 the black king when Black
/// is to move.
#[derive(Clone, Copy, Debug)]
pub struct PackedPosition {
    pub occupied: Bitboard,
    pub packed_state: [u8; 16],
}

/// Eight bytes, the most significant first, as one number.
pub open spec fn be_u64(b: Seq<u8>) -> int {
    b[0] * 0x100_0000_0000_0000 + b[1] * 0x1_0000_0000_0000 + b[2] * 0x100_0000_0000 + b[3]
        * 0x1_0000_0000 + b[4] * 0x100_0000 + b[5] * 0x1_0000 + b[6] * 0x100 + b[7]
}

/// Joining eight bytes by shifts gives the number that they stand for.
proof fn lemma_be_u64(b0: u8, b1: u8, b2: u8, b3: u8, b4: u8, b5: u8, b6: u8, b7: u8)
    by (bit_vector)
    ensures
        (((b0 as u64) << 56) | ((b1 as u64) << 48) | ((b2 as u64) << 40) | ((b3 as u64) << 32) |
            ((b4 as u64)
            << 24) | ((b5 as u64) << 16) | ((b6 as u64) << 8) | (b7 as u64)) == b0 * 0x100_0000_0000_0000
            + b1 * 0x1_0000_0000_0000 + b2 * 0x100_0000_0000 + b3 * 0x1_0000_0000 + b4 * 0x100_0000 + b5
            * 0x1_0000 + b6 * 0x100 + b7,
{
}

/// The nibble with number `k` of the packed bytes.
pub open spec fn nibble(state: Seq<u8>, k: int) -> int {
    if k % 2 == 0 {
        state[k / 2] as int % 16
    } else {
        state[k / 2] as int / 16
    }
}

/// The piece that the nibble `n` stands for on square `s`.
pub open spec fn nibble_piece(n: int, s: int) -> Piece {
    if n < 12 {
        Piece { id: n as u8 }
    } else if n == 12 {
        if s / 8 == 3 {
            Piece { id: 0 }
        } else {
            Piece { id: 1 }
        }
    } else if n == 13 {
        Piece { id: 6 }
    } else if n == 14 {
        Piece { id: 7 }
    } else {
        Piece { id: 11 }
    }
}

/// The castling right that comes with the nibble `n` on square `s`: a rook
/// on its queen-side corner brings the queen-side right, a rook anywhere
/// else the king-side right.
pub open spec fn nibble_rights(n: int, s: int) -> u8 {
    if n == 13 {
        if s == 0 {
            2
        } else {
            1
        }
    } else if n == 14 {
        if s == 56 {
            8
        } else {
            4
        }
    } else {
        0
    }
}

/// The position after the nibble `n` has been read for square `s`.
pub open spec fn apply_nibble(m: PositionModel, s: int, n: int) -> PositionModel {
    PositionModel {
        pieces: m.pieces.update(s, nibble_piece(n, s)),
        stm: if n == 15 {
            Color::Black
        } else {
            m.stm
        },
        castling: if n == 13 || n == 14 {
            CastlingRights(m.castling.0 | nibble_rights(n, s))
        } else {
            m.castling
        },
        ep: if n == 12 {
            Square {
                index: (if s / 8 == 3 {
                    s - 8
                } else {
                    s + 8
                }) as u32,
            }
        } else {
            m.ep
        },
        ..m
    }
}

/// The position that the packed bytes give when the squares below `n` have
/// been read: starting from the empty position, each occupied square takes
/// the next nibble, as long as there are nibbles left.
pub open spec fn unpack_upto(occ: u64, state: Seq<u8>, n: int) -> PositionModel
    decreases n,
{
    if n <= 0 {
        PositionModel::empty()
    } else {
        let prev = unpack_upto(occ, state, n - 1);
        let k = count_below(occ, (n - 1) as nat);
        if bit_at(occ, n - 1) && k < 32 {
            apply_nibble(prev, n - 1, nibble(state, k as int))
        } else {
            prev
        }
    }
}

/// The position that the packed bytes stand for.
pub open spec fn unpack_position(occ: u64, state: Seq<u8>) -> PositionModel {
    unpack_upto(occ, state, 64)
}

/// The nibble that stands for the piece on the occupied square `s`: 12 for
/// the pawn that the en-passant square lies behind, 13 or 14 for a rook on
/// its corner with the castling right to that side, 15 for the black king
/// when Black is to move, else the number of the piece.
pub open spec fn nibble_for(m: PositionModel, s: int) -> int {
    let p = m.pieces[s];
    if p.id == 0 && s / 8 == 3 && m.ep.index == s - 8 {
        12
    } else if p.id == 1 && s / 8 == 4 && m.ep.index == s + 8 {
        12
    } else if p.id == 6 && ((s == 0 && m.castling.has(1)) || (s == 7 && m.castling.has(0))) {
        13
    } else if p.id == 7 && ((s == 56 && m.castling.has(3)) || (s == 63 && m.castling.has(2))) {
        14
    } else if p.id == 11 && m.stm == Color::Black {
        15
    } else {
        p.id as int
    }
}

/// Whether the occupied squares `occ` and the nibbles `state` are the
/// packed form of the position `m`: `occ` holds the occupied squares, each
/// of the first 32 of them has its nibble, and the nibbles that are left
/// over are zero.
pub open spec fn packs(m: PositionModel, occ: u64, state: Seq<u8>) -> bool {
    &&& state.len() == 16
    &&& forall|s: int| 0 <= s < 64 ==> #[trigger] bit_at(occ, s) == !m.pieces[s].is_none()
    &&& forall|s: int|
        0 <= s < 64 && bit_at(occ, s) && count_below(occ, s as nat) < 32 ==> nibble(
            state,
            count_below(occ, s as nat) as int,
        ) == #[trigger] nibble_for(m, s)
    &&& forall|k: int| popcount(occ) <= k < 32 ==> #[trigger] nibble(state, k) == 0
}

/// Splitting a number into eight bytes by shifts, the most significant
/// first, gives the bytes that stand for it.
proof fn lemma_u64_bytes(v: u64)
    by (bit_vector)
    ensures
        ((v >> 56) as u8) * 0x100_0000_0000_0000 + (((v >> 48) & 0xFF) as u8) * 0x1_0000_0000_0000 + (((v
            >> 40) & 0xFF) as u8) * 0x100_0000_0000 + (((v >> 32) & 0xFF) as u8) * 0x1_0000_0000 + (((v
            >> 24) & 0xFF) as u8) * 0x100_0000 + (((v >> 16) & 0xFF) as u8) * 0x1_0000 + (((v >> 8)
            & 0xFF) as u8) * 0x100 + ((v & 0xFF) as u8) == v,
{
}

impl PackedPosition {
    /// The packed position in the first 24 bytes of `data`: the occupied
    /// squares as a number of eight bytes, the most significant first, then
    /// the sixteen bytes of nibbles.
    pub fn read_from_big_endian(data: &[u8]) -> (r: Self)
        requires
            data@.len() >= 24,
        ensures
            r.occupied.bits == be_u64(data@.subrange(0, 8)),
            r.packed_state@ == data@.subrange(8, 24),
    {
        proof {
            lemma_be_u64(data@[0], data@[1], data@[2], data@[3], data@[4], data@[5], data@[6], data@[7]);
        }
        let occupied = Bitboard::new(
            ((data[0] as u64) << 56) | ((data[1] as u64) << 48) | ((data[2] as u64) << 40) |
                ((data[3] as u64)
                << 32) | ((data[4] as u64) << 24) | ((data[5] as u64) << 16) | ((data[6] as u64) << 8) | (
            data[7] as u64),
        );
        let mut packed_state: [u8; 16] = [0u8; 16];
        let mut i: usize = 0;
        while i < 16
            invariant
                i <= 16,
                data@.len() >= 24,
                forall|j: int| 0 <= j < i ==> packed_state@[j] == data@[8 + j],
            decreases 16 - i,
        {
            packed_state[i] = data[8 + i];
            i = i + 1;
        }
        proof {
            assert(packed_state@ =~= data@.subrange(8, 24));
        }
        Self { occupied, packed_state }
    }

    /// Puts on `sq` what the nibble stands for.
    fn decompress_piece(pos: &mut Position, sq: Square, nibble: u8)
        requires
            old(pos).consistent(),
            sq.on_board(),
            old(pos)@.pieces[sq.index as int].is_none(),
            nibble < 16,
        ensures
            final(pos).consistent(),
            final(pos)@ == apply_nibble(old(pos)@, sq.index as int, nibble as int),
    {
        if nibble < 12 {
            pos.place(Piece::from_id(nibble as i32), sq);
        } else if nibble == 12 {
            if sq.rank().index == 3 {
                pos.place(Piece::white_pawn(), sq);
                pos.set_ep_square_unchecked(sq.shifted(FlatSquareOffset::new(0, -1)));
            } else {
                pos.place(Piece::black_pawn(), sq);
                pos.set_ep_square_unchecked(sq.shifted(FlatSquareOffset::new(0, 1)));
            }
        } else if nibble == 13 {
            pos.place(Piece::white_rook(), sq);
            if sq.index == 0 {
                pos.add_castling_rights(CastlingRights::white_queen_side());
            } else {
                pos.add_castling_rights(CastlingRights::white_king_side());
            }
        } else if nibble == 14 {
            pos.place(Piece::black_rook(), sq);
            if sq.index == 56 {
                pos.add_castling_rights(CastlingRights::black_queen_side());
            } else {
                pos.add_castling_rights(CastlingRights::black_king_side());
            }
        } else {
            pos.place(Piece::black_king(), sq);
            pos.set_side_to_move(Color::Black);
        }
    }

    /// The position that the packed bytes stand for, with the counters at
    /// their start.
    pub fn decompress(&self) -> (pos: Position)
        ensures
            pos.consistent(),
            pos@ == unpack_position(self.occupied.bits, self.packed_state@),
    {
        let mut pos: Position = Position::new();
        pos.set_castling_rights(CastlingRights::none());
        let mut k: usize = 0;
        let mut s: u32 = 0;
        while s < 64
            invariant
                s <= 64,
                k == count_below(self.occupied.bits, s as nat),
                k <= s,
                pos.consistent(),
                pos@ == unpack_upto(self.occupied.bits, self.packed_state@, s as int),
                forall|t: int| s <= t < 64 ==> (#[trigger] pos@.pieces[t]).is_none(),
            decreases 64 - s,
        {
            let sq: Square = Square::new(s);
            if self.occupied.sq_set(sq) {
                if k < 32 {
                    let chunk: u8 = self.packed_state[k / 2];
                    let nibble: u8 = if k % 2 == 0 {
                        chunk % 16
                    } else {
                        chunk / 16
                    };
                    Self::decompress_piece(&mut pos, sq, nibble);
                }
                k = k + 1;
            }
            s = s + 1;
        }
        pos
    }

    /// Writes the packed position into the first 24 bytes of `data`: the
    /// occupied squares as a number of eight bytes, the most significant
    /// first, then the sixteen bytes of nibbles.
    pub fn write_to_big_endian(&self, data: &mut [u8])
        requires
            old(data)@.len() >= 24,
        ensures
            final(data)@.len() == old(data)@.len(),
            be_u64(final(data)@.subrange(0, 8)) == self.occupied.bits,
            final(data)@.subrange(8, 24) == self.packed_state@,
            forall|i: int| 24 <= i < old(data)@.len() ==> final(data)@[i] == old(data)@[i],
    {
        let v: u64 = self.occupied.bits;
        proof {
            lemma_u64_bytes(v);
        }
        data[0] = (v >> 56) as u8;
        data[1] = ((v >> 48) & 0xFF) as u8;
        data[2] = ((v >> 40) & 0xFF) as u8;
        data[3] = ((v >> 32) & 0xFF) as u8;
        data[4] = ((v >> 24) & 0xFF) as u8;
        data[5] = ((v >> 16) & 0xFF) as u8;
        data[6] = ((v >> 8) & 0xFF) as u8;
        data[7] = (v & 0xFF) as u8;
        let mut i: usize = 0;
        while i < 16
            invariant
                i <= 16,
                data@.len() == old(data)@.len(),
                data@.len() >= 24,
                be_u64(data@.subrange(0, 8)) == v,
                forall|j: int| 0 <= j < i ==> data@[8 + j] == self.packed_state@[j],
                forall|j: int| 24 <= j < data@.len() ==> data@[j] == old(data)@[j],
            decreases 16 - i,
        {
            data[8 + i] = self.packed_state[i];
            i = i + 1;
        }
        proof {
            assert(data@.subrange(8, 24) =~= self.packed_state@);
        }
    }

    /// The nibble that stands for the piece on `sq`.
    fn compress_piece(pos: &Position, sq: Square) -> (n: u8)
        requires
            pos.consistent(),
            sq.on_board(),
        ensures
            n == nibble_for(pos@, sq.index as int),
            n < 16,
    {
        let piece: Piece = pos.piece_at(sq);
        let s: u32 = sq.index;
        let rights: CastlingRights = pos.castling_rights();
        proof {
            assert(pos.pieces@[s as int].valid());
        }
        if piece.id == 0 && s / 8 == 3 && pos.ep_square().index == s - 8 {
            12
        } else if piece.id == 1 && s / 8 == 4 && pos.ep_square().index == s + 8 {
            12
        } else if piece.id == 6 && ((s == 0 && rights.contains(CastlingRights::white_queen_side())) || (s
            == 7 && rights.contains(CastlingRights::white_king_side()))) {
            13
        } else if piece.id == 7 && ((s == 56 && rights.contains(CastlingRights::black_queen_side()))
            || (s == 63 && rights.contains(CastlingRights::black_king_side()))) {
            14
        } else if piece.id == 11 && pos.side_to_move() == Color::Black {
            15
        } else {
            piece.id
        }
    }

    /// Packs a position. Only the first 32 occupied squares find room in
    /// the packed form; the counters are not part of it.
    pub fn compress(pos: &Position) -> (r: Self)
        requires
            pos.consistent(),
        ensures
            packs(pos@, r.occupied.bits, r.packed_state@),
    {
        let occupied: Bitboard = pos.occupied();
        let ghost occ = occupied.bits;
        let mut packed_state: [u8; 16] = [0u8; 16];
        let mut k: usize = 0;
        let mut s: u32 = 0;
        while s < 64
            invariant
                s <= 64,
                pos.consistent(),
                occ == occupied.bits,
                forall|t: int| 0 <= t < 64 ==> #[trigger] bit_at(occ, t) == !pos@.pieces[t].is_none(),
                k == count_below(occ, s as nat),
                k <= s,
                forall|t: int| 0 <= t < s && bit_at(occ, t) ==> #[trigger] count_below(occ, t as nat) < k,
                forall|t: int|
                    0 <= t < s && bit_at(occ, t) && count_below(occ, t as nat) < 32 ==> nibble(
                        packed_state@,
                        count_below(occ, t as nat) as int,
                    ) == #[trigger] nibble_for(pos@, t),
                forall|j: int| k <= j < 32 ==> #[trigger] nibble(packed_state@, j) == 0,
            decreases 64 - s,
        {
            let sq: Square = Square::new(s);
            if occupied.sq_set(sq) {
                if k < 32 {
                    let n: u8 = Self::compress_piece(pos, sq);
                    let ghost prev = packed_state@;
                    proof {
                        assert(nibble(prev, k as int) == 0);
                        if k % 2 == 0 {
                            assert(nibble(prev, k as int + 1) == 0);
                        }
                    }
                    if k % 2 == 0 {
                        packed_state[k / 2] = n;
                    } else {
                        packed_state[k / 2] = packed_state[k / 2] + n * 16;
                    }
                    proof {
                        assert forall|j: int| 0 <= j < 32 && j != k
                            implies #[trigger] nibble(packed_state@, j) == nibble(prev, j) by {}
                        assert(nibble(packed_state@, k as int) == n);
                    }
                }
                k = k + 1;
            }
            s = s + 1;
        }
        Self { occupied, packed_state }
    }
}

/// Number of occupied squares below `n`.
pub open spec fn pieces_below(pieces: Seq<Piece>, n: int) -> int
    decreases n,
{
    if n <= 0 {
        0
    } else {
        pieces_below(pieces, n - 1) + if pieces[n - 1].is_none() {
            0int
        } else {
            1int
        }
    }
}

/// Whether a black king stands on a square below `n`.
pub open spec fn black_king_below(pieces: Seq<Piece>, n: int) -> bool
    decreases n,
{
    n > 0 && (pieces[n - 1].id == 11 || black_king_below(pieces, n - 1))
}

/// The corner on which the rook of the castling right `k` stands.
pub open spec fn rook_home(k: int) -> int {
    if k == 0 {
        7
    } else if k == 1 {
        0
    } else if k == 2 {
        63
    } else {
        56
    }
}

/// The square of the pawn that the en-passant square `ep` lies behind, or
/// 64 if there is no en-passant square.
pub open spec fn ep_pawn_square(ep: Square) -> int {
    if ep.index == 64 {
        64
    } else if ep.index < 32 {
        ep.index + 8
    } else {
        ep.index - 8
    }
}

/// Whether the packed form can hold the position: it has at most 32
/// pieces; each castling right has its rook on its corner; the en-passant
/// square lies on the third rank behind a white pawn or on the sixth behind
/// a black one; and Black is to move only when Black has a king.
pub open spec fn packable_position(m: PositionModel) -> bool {
    &&& m.pieces.len() == 64
    &&& forall|s: int| 0 <= s < 64 ==> (#[trigger] m.pieces[s]).valid()
    &&& pieces_below(m.pieces, 64) <= 32
    &&& m.castling.0 < 16
    &&& m.castling.has(0) ==> m.pieces[7].id == 6
    &&& m.castling.has(1) ==> m.pieces[0].id == 6
    &&& m.castling.has(2) ==> m.pieces[63].id == 7
    &&& m.castling.has(3) ==> m.pieces[56].id == 7
    &&& m.ep.index == 64 || (16 <= m.ep.index < 24 && m.pieces[m.ep.index + 8].id == 0) || (40
        <= m.ep.index < 48 && m.pieces[m.ep.index - 8].id == 1)
    &&& m.stm == Color::Black ==> black_king_below(m.pieces, 64)
}

/// The occupied squares are counted alike on the board and in the set.
proof fn lemma_pieces_below(m: PositionModel, occ: u64, n: int)
    requires
        0 <= n <= 64,
        forall|s: int| 0 <= s < 64 ==> #[trigger] bit_at(occ, s) == !m.pieces[s].is_none(),
    ensures
        pieces_below(m.pieces, n) == count_below(occ, n as nat),
    decreases n,
{
    if n > 0 {
        lemma_pieces_below(m, occ, n - 1);
        assert(bit_at(occ, n - 1) == !m.pieces[n - 1].is_none());
    }
}

/// What unpacking has rebuilt of a packed position when the squares below
/// `n` have been read.
proof fn lemma_unpack_upto(m: PositionModel, occ: u64, state: Seq<u8>, n: int)
    requires
        0 <= n <= 64,
        packs(m, occ, state),
        packable_position(m),
    ensures
        ({
            let u = unpack_upto(occ, state, n);
            &&& u.pieces.len() == 64
            &&& forall|t: int|
                0 <= t < 64 ==> #[trigger] u.pieces[t] == (if t < n {
                    m.pieces[t]
                } else {
                    Piece { id: 12 }
                })
            &&& u.stm == (if m.stm == Color::Black && black_king_below(m.pieces, n) {
                Color::Black
            } else {
                Color::White
            })
            &&& forall|k: int|
                0 <= k < 8 ==> #[trigger] u.castling.has(k) == (k < 4 && m.castling.has(k) && rook_home(k)
                    < n)
            &&& u.ep == (if ep_pawn_square(m.ep) < n {
                m.ep
            } else {
                Square { index: 64 }
            })
            &&& u.halfm == 0
            &&& u.fullm == 1
        }),
    decreases n,
{
    lemma_byte_bits();
    if n > 0 {
        lemma_unpack_upto(m, occ, state, n - 1);
        let s = n - 1;
        let prev = unpack_upto(occ, state, s);
        let u = unpack_upto(occ, state, n);
        let k = count_below(occ, s as nat);
        assert(m.pieces[s].valid());
        assert(bit_at(occ, s) == !m.pieces[s].is_none());
        if bit_at(occ, s) {
            lemma_pieces_below(m, occ, 64);
            lemma_count_below_bounds(occ, n as nat, 64);
            assert(k < 32);
            let nib = nibble(state, k as int);
            assert(nib == nibble_for(m, s));
            assert(u == apply_nibble(prev, s, nib));
            assert(u.pieces[s] == m.pieces[s]);
            assert forall|j: int| 0 <= j < 8 implies #[trigger] u.castling.has(j) == (j < 4
                && m.castling.has(j)
                && rook_home(j) < n) by {
                assert(prev.castling.has(j) == (j < 4 && m.castling.has(j) && rook_home(j) < s));
            }
        } else {
            assert(u == prev);
            assert forall|j: int| 0 <= j < 8 implies #[trigger] u.castling.has(j) == (j < 4
                && m.castling.has(j)
                && rook_home(j) < n) by {
                assert(prev.castling.has(j) == (j < 4 && m.castling.has(j) && rook_home(j) < s));
            }
        }
    }
}

/// Unpacking the packed form of a position gives the position back, with
/// the counters at their start.
pub proof fn lemma_position_round_trip(m: PositionModel, occ: u64, state: Seq<u8>)
    requires
        packs(m, occ, state),
        packable_position(m),
    ensures
        unpack_position(occ, state) == (PositionModel { halfm: 0, fullm: 1, ..m }),
{
    lemma_unpack_upto(m, occ, state, 64);
    lemma_byte_bits();
    let u = unpack_position(occ, state);
    assert(u.pieces =~= m.pieces);
    assert forall|k: u64| k < 8 implies #[trigger] crate::arithmetic::bit(u.castling.0 as u64, k)
        == crate::arithmetic::bit(m.castling.0 as u64, k) by {
        assert(u.castling.has(k as int) == (k < 4 && m.castling.has(k as int) && rook_home(k as int) < 64));
        if k >= 4 {
            lemma_rights_bits(m.castling.0, k);
        }
    }
    lemma_byte_extensional(u.castling.0, m.castling.0);
}

/// A mask of castling rights has no bit beyond the fourth.
proof fn lemma_rights_bits(c: u8, k: u64)
    by (bit_vector)
    requires
        c < 16,
        4 <= k < 8,
    ensures
        !crate::arithmetic::bit(c as u64, k),
{
}

/// How the count of occupied squares changes when a square gets another
/// piece.
proof fn lemma_pieces_below_update(s: Seq<Piece>, i: int, x: Piece, n: int)
    requires
        0 <= i < s.len(),
        0 <= n <= s.len(),
    ensures
        pieces_below(s.update(i, x), n) == pieces_below(s, n) + (if i < n {
            (if x.is_none() {
                0int
            } else {
                1int
            }) - (if s[i].is_none() {
                0int
            } else {
                1int
            })
        } else {
            0int
        }),
    decreases n,
{
    if n > 0 {
        lemma_pieces_below_update(s, i, x, n - 1);
    }
}

/// A board with a black king has one below the end of the board.
proof fn lemma_black_king_below(pieces: Seq<Piece>, n: int, s: int)
    requires
        0 <= s < n <= 64,
        pieces[s].id == 11,
    ensures
        black_king_below(pieces, n),
    decreases n,
{
    if n - 1 > s {
        lemma_black_king_below(pieces, n - 1, s);
    }
}

/// A move does not add to the pieces on the board.
proof fn lemma_move_adds_no_piece(m: PositionModel, mv: Move)
    requires
        m.pieces.len() == 64,
        forall|s: int| 0 <= s < 64 ==> (#[trigger] m.pieces[s]).valid(),
        m.admits(mv),
    ensures
        pieces_below(m.moved_pieces(mv), 64) <= pieces_below(m.pieces, 64),
{
    let from = mv.from.index as int;
    let to = mv.to.index as int;
    let none = Piece { id: 12 };
    let piece = m.pieces[from];
    let cleared = m.pieces.update(from, none);
    lemma_pieces_below_update(m.pieces, from, none, 64);
    match mv.move_type {
        MoveType::Normal => {
            lemma_pieces_below_update(cleared, to, piece, 64);
        },
        MoveType::Promotion => {
            lemma_pieces_below_update(cleared, to, mv.promoted_piece, 64);
        },
        MoveType::EnPassant => {
            let victim = ep_victim(to);
            let a = cleared.update(to, none);
            let b = a.update(victim, none);
            lemma_pieces_below_update(cleared, to, none, 64);
            lemma_pieces_below_update(a, victim, none, 64);
            lemma_pieces_below_update(b, to, piece, 64);
        },
        MoveType::Castle => {
            let (rook_to, king_to) = castle_squares(m.stm, mv.wing());
            let a = cleared.update(to, none);
            let b = a.update(rook_to, m.pieces[to]);
            lemma_pieces_below_update(cleared, to, none, 64);
            lemma_pieces_below_update(a, rook_to, m.pieces[to], 64);
            lemma_pieces_below_update(b, king_to, piece, 64);
        },
    }
}

/// A position that the packed form can hold stays one after any move that
/// can be made in it: every position that is reached by such moves from
/// one that can be packed can be packed.
pub proof fn lemma_move_keeps_packable(m: PositionModel, mv: Move)
    requires
        packable_position(m),
        m.admits(mv),
    ensures
        packable_position(m.after_move(mv)),
{
    let after = m.after_move(mv);
    let from = mv.from.index as int;
    let to = mv.to.index as int;
    let us = m.stm;
    let piece = m.pieces[from];
    assert(piece.valid());
    assert(m.pieces[to].valid());
    crate::chess::piece::lemma_piece_parts(piece);
    crate::chess::piece::lemma_piece_parts(m.pieces[to]);
    lemma_move_adds_no_piece(m, mv);
    lemma_move_keeps_kings(m, mv);
    lemma_byte_bits();
    assert forall|s: int| 0 <= s < 64 implies (#[trigger] after.pieces[s]).valid() by {
        assert(m.pieces[s].valid());
    }
    // the castling rights
    let c = m.castling.0;
    let a = revoked_by(from);
    let b = revoked_by(to);
    assert(c < 16 ==> (c & !a & !b) < 16) by (bit_vector);
    assert forall|k: int| 0 <= k < 4 implies #[trigger] after.castling.has(k) == (m.castling.has(k)
        && !CastlingRights(a).has(k) && !CastlingRights(b).has(k)) by {
        assert(crate::arithmetic::bit((c & !a & !b) as u64, k as u64) == (crate::arithmetic::bit(
            (c & !a) as u64,
            k as u64,
        ) && crate::arithmetic::bit((!b) as u64, k as u64)));
        assert(crate::arithmetic::bit((c & !a) as u64, k as u64)
            == (crate::arithmetic::bit(c as u64, k as u64)
            && crate::arithmetic::bit((!a) as u64, k as u64)));
    }
    if mv.move_type == MoveType::EnPassant {
        assert(m.pieces[ep_victim(to)].id == 0 || m.pieces[ep_victim(to)].id == 1);
    }
    assert(after.castling.has(0) ==> after.pieces[7].id == 6);
    assert(after.castling.has(1) ==> after.pieces[0].id == 6);
    assert(after.castling.has(2) ==> after.pieces[63].id == 7);
    assert(after.castling.has(3) ==> after.pieces[56].id == 7);
    // the side to move
    if after.stm == Color::Black {
        let s = choose|s: int| 0 <= s < 64 && #[trigger] after.pieces[s]
            == Piece::of(PieceType::King, Color::Black);
        assert(has_king(after.pieces, Color::Black));
        lemma_black_king_below(after.pieces, 64, s);
    }
}

} // verus!
