//! Writing the plies of a game after its first position.

use crate::arithmetic::{lemma_count_below_bounds, signed_to_unsigned, used_bits};
use crate::binpack_error::BinpackError;
use crate::chess::bitboard::Bitboard;
use crate::chess::castling_rights::{CastleType, CastlingRights, CastlingTraits};
use crate::chess::chess_move::{Move, MoveType};
use crate::chess::color::Color;
use crate::chess::coords::Square;
use crate::chess::piece::Piece;
use crate::chess::piecetype::PieceType;
use crate::chess::position::Position;
use crate::move_encoding::{
    before, destinations, encodable, is_dest, lemma_count_masked, lemma_count_where_bits,
    lemma_count_without, lemma_width_le8, move_count, move_index, own, ply_bits,
};
use crate::writer::bitwriter::BitWriter;
use vstd::prelude::*;

verus! {

/// The plies of a game, packed bit by bit: how many there are, the bits,
/// and the score of the ply before, negated, from which the next score's
/// distance is taken.
pub struct PackedMoveScoreList {
    pub num_plies: u16,
    pub writer: BitWriter,
    pub last_score: i16,
}

impl Default for PackedMoveScoreList {
    fn default() -> (r: Self)
        ensures
            r.num_plies == 0,
            r.writer.wf(),
            r.writer@ == Seq::<bool>::empty(),
            r.last_score == 0,
    {
        Self::new()
    }
}

impl PackedMoveScoreList {
    /// The empty list.
    pub fn new() -> (r: Self)
        ensures
            r.num_plies == 0,
            r.writer.wf(),
            r.writer@ == Seq::<bool>::empty(),
            r.last_score == 0,
    {
        Self { num_plies: 0, writer: BitWriter::new(), last_score: 0 }
    }

    /// Empties the list, for a game whose first position has the score
    /// `initial_score`.
    pub fn clear(&mut self, initial_score: i16)
        ensures
            final(self).num_plies == 0,
            final(self).writer.wf(),
            final(self).writer@ == Seq::<bool>::empty(),
            final(self).last_score == 0i16.wrapping_sub(initial_score),
    {
        self.num_plies = 0;
        self.writer.movetext.clear();
        self.writer.bits_left = 0;
        self.last_score = 0i16.wrapping_sub(initial_score);
        proof {
            assert(self.writer@ =~= Seq::<bool>::empty());
        }
    }

    /// The number of the move among the moves of its piece, and the number
    /// of those moves; an error where the move is none that can be
    /// numbered.
    fn calculate_move_encoding(pos: &Position, move_: Move) -> (r: Result<(u32, u32), BinpackError>)
        requires
            pos.consistent(),
        ensures
            match r {
                Ok((move_id, num_moves)) => encodable(pos@, move_) && move_id == move_index(pos@, move_)
                    && num_moves == move_count(pos@, move_.from.index as int) && move_id < num_moves
                    && num_moves < 256,
                Err(e) => !encodable(pos@, move_) && e is InvalidFormat,
            },
    {
        let from: Square = move_.from();
        let to: Square = move_.to();
        let us: Color = pos.side_to_move();
        if from.index >= 64 || pos.ep_square().index > 64 {
            return Err(BinpackError::InvalidFormat("Move cannot be encoded".to_string()));
        }
        let piece: Piece = pos.piece_at(from);
        proof {
            assert(pos.pieces@[from.index as int].valid());
            crate::chess::piece::lemma_piece_parts(piece);
        }
        if piece.id == 12 || piece.color() != us {
            return Err(BinpackError::InvalidFormat("Move cannot be encoded".to_string()));
        }
        let kind: PieceType = piece.piece_type();
        let dests: Bitboard = destinations(pos, from);
        let total: u32 = dests.count();
        let ghost m = pos@;
        let ghost f = from.index as int;
        let ghost dest = |s: int| is_dest(m, f, s);
        proof {
            assert forall|s: int| 0 <= s < 64
                implies #[trigger] crate::arithmetic::bit_at(dests.bits, s) == dest(s) by {}
            lemma_count_where_bits(dests.bits, dest, 64);
            lemma_count_without(dests.bits, f, 64);
        }
        let castle: bool = move_.mtype() == MoveType::Castle;
        if kind == PieceType::King && castle {
            let rights: CastlingRights = pos.castling_rights();
            let long: bool = rights.contains(CastlingTraits::castling_rights(us, CastleType::Long));
            let short: bool = rights.contains(CastlingTraits::castling_rights(us, CastleType::Short));
            let held: u32 = (if long { 1u32 } else { 0u32 }) + (if short { 1u32 } else { 0u32 });
            if long && move_ == Move::castle(CastleType::Long, us) {
                return Ok((total, total + held));
            }
            if short && move_ == Move::castle(CastleType::Short, us) {
                return Ok((total + (if long { 1u32 } else { 0u32 }), total + held));
            }
            return Err(BinpackError::InvalidFormat("Move cannot be encoded".to_string()));
        }
        if to.index >= 64 || !dests.sq_set(to) {
            return Err(BinpackError::InvalidFormat("Move cannot be encoded".to_string()));
        }
        let below: Bitboard = dests.and(before(to));
        let rank: u32 = below.count();
        proof {
            lemma_count_masked(dests.bits, below.bits, to.index as int, 64);
            lemma_count_where_bits(dests.bits, dest, to.index as int);
            lemma_count_below_bounds(dests.bits, (to.index + 1) as nat, 64);
        }
        match kind {
            PieceType::Pawn => {
                let promotion_rank: u32 = match us {
                    Color::White => 6,
                    Color::Black => 1,
                };
                if from.index / 8 == promotion_rank {
                    let promoted: Piece = move_.promoted_piece();
                    if move_.mtype() != MoveType::Promotion || promoted.id >= 12 || promoted.color() != us {
                        return Err(BinpackError::InvalidFormat("Move cannot be encoded".to_string()));
                    }
                    proof {
                        crate::chess::piece::lemma_piece_parts(promoted);
                    }
                    let promoted_kind: u8 = promoted.piece_type().ordinal();
                    if promoted_kind < 1 || promoted_kind > 4 {
                        return Err(BinpackError::InvalidFormat("Move cannot be encoded".to_string()));
                    }
                    Ok((rank * 4 + (promoted_kind - 1) as u32, total * 4))
                } else {
                    let expected: MoveType = if to.index == pos.ep_square().index {
                        MoveType::EnPassant
                    } else {
                        MoveType::Normal
                    };
                    if move_.promoted_piece().id != 12 || move_.mtype() != expected {
                        return Err(BinpackError::InvalidFormat("Move cannot be encoded".to_string()));
                    }
                    Ok((rank, total))
                }
            },
            PieceType::King => {
                if move_.mtype() != MoveType::Normal || move_.promoted_piece().id != 12 {
                    return Err(BinpackError::InvalidFormat("Move cannot be encoded".to_string()));
                }
                let rights: CastlingRights = pos.castling_rights();
                let long: bool = rights.contains(CastlingTraits::castling_rights(us, CastleType::Long));
                let short: bool = rights.contains(CastlingTraits::castling_rights(us, CastleType::Short));
                let held: u32 = (if long { 1u32 } else { 0u32 }) + (if short { 1u32 } else { 0u32 });
                Ok((rank, total + held))
            },
            _ => {
                if move_.mtype() != MoveType::Normal || move_.promoted_piece().id != 12 {
                    return Err(BinpackError::InvalidFormat("Move cannot be encoded".to_string()));
                }
                Ok((rank, total))
            },
        }
    }

    /// Appends a ply: the move `move_` made in the position `pos`, with the
    /// score `score`. Fails, and appends nothing, where the move is none
    /// that can be numbered in the position, or where the list is full.
    pub fn add_move_score(&mut self, pos: &Position, move_: Move, score: i16) -> (r: Result<
        (),
        BinpackError,
    >)
        requires
            old(self).writer.wf(),
            pos.consistent(),
        ensures
            final(self).writer.wf(),
            match r {
                Ok(_) => encodable(pos@, move_) && old(self).num_plies < u16::MAX && final(self).writer@
                    == old(self).writer@ + ply_bits(pos@, move_, score, old(self).last_score)
                    && final(self).last_score == 0i16.wrapping_sub(score) && final(self).num_plies
                    == old(self).num_plies + 1,
                Err(e) => (!encodable(pos@, move_) || old(self).num_plies == u16::MAX) && e
                    is InvalidFormat && *final(self) == *old(self),
            },
    {
        if self.num_plies == u16::MAX {
            return Err(BinpackError::InvalidFormat("Too many plies".to_string()));
        }
        let (move_id, num_moves) = match Self::calculate_move_encoding(pos, move_) {
            Ok(code) => code,
            Err(e) => {
                return Err(e);
            },
        };
        let ours: Bitboard = pos.pieces_bb(pos.side_to_move());
        let below: Bitboard = ours.and(before(move_.from()));
        let piece_id: u32 = below.count();
        let num_pieces: u32 = ours.count();
        let ghost m = pos@;
        let ghost f = move_.from.index as int;
        let ghost mine = |s: int| own(m, s);
        proof {
            assert forall|s: int| 0 <= s < 64
                implies #[trigger] crate::arithmetic::bit_at(ours.bits, s) == mine(s) by {
                assert(pos.pieces@[s].valid());
            }
            lemma_count_where_bits(ours.bits, mine, 64);
            lemma_count_where_bits(ours.bits, mine, f);
            lemma_count_masked(ours.bits, below.bits, f, 64);
            lemma_count_below_bounds(ours.bits, f as nat, 64);
            lemma_width_le8(num_pieces as nat);
            lemma_width_le8(num_moves as nat);
        }
        let ghost start = self.writer@;
        self.writer.add_bits_le8(piece_id as u8, used_bits(num_pieces as u64));
        self.writer.add_bits_le8(move_id as u8, used_bits(num_moves as u64));
        let score_delta: u16 = signed_to_unsigned(score.wrapping_sub(self.last_score));
        self.writer.add_bits_vle16(score_delta, 4);
        self.last_score = 0i16.wrapping_sub(score);
        self.num_plies = self.num_plies + 1;
        proof {
            assert(self.writer@ =~= start + ply_bits(m, move_, score, old(self).last_score));
        }
        Ok(())
    }
}

} // verus!
