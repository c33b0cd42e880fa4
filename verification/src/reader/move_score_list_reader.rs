//! Reading the plies of a game after its first position.

use crate::arithmetic::{bit_at, nth_set_bit_index, unsigned_to_signed, used_bits};
use crate::binpack_error::BinpackError;
use crate::chess::bitboard::Bitboard;
use crate::chess::castling_rights::{CastleType, CastlingRights, CastlingTraits};
use crate::chess::chess_move::Move;
use crate::chess::color::Color;
use crate::chess::coords::Square;
use crate::chess::piece::Piece;
use crate::chess::piecetype::PieceType;
use crate::chess::position::Position;
use crate::move_encoding::{
    destinations, is_dest, lemma_count_where_bits, lemma_count_without, lemma_nth_where_bits,
    lemma_width_le8, own, read_move, read_move_stop, read_ply, read_ply_stop,
};
use crate::reader::bitreader::BitReader;
use crate::training_data_entry::TrainingDataEntry;
use vstd::prelude::*;

verus! {

/// A place in the plies of a game: the record of the ply that was read
/// last, how many plies the game has after its first position and how many
/// of them have been read, the place in the bits, and the score that was
/// read last, negated.
pub struct PackedMoveScoreListReader<'a> {
    pub entry: TrainingDataEntry,
    pub num_plies: u16,
    pub reader: BitReader<'a>,
    pub last_score: i16,
    pub num_read_plies: u16,
}

impl<'a> PackedMoveScoreListReader<'a> {
    /// The place in the bits is one of the stream, and the position of the
    /// record holds its pieces consistently.
    pub open spec fn wf(&self) -> bool {
        self.reader.wf() && self.entry.pos.consistent()
    }

    /// The start of the plies of the game whose first record is `entry`.
    pub fn new(entry: TrainingDataEntry, movetext: &'a [u8], num_plies: u16) -> (r: Self)
        requires
            entry.pos.consistent(),
        ensures
            r.wf(),
            r.entry == entry,
            r.num_plies == num_plies,
            r.num_read_plies == 0,
            r.last_score == 0i16.wrapping_sub(entry.score),
            r.reader.pos() == 0,
            r.reader.movetext@ == movetext@,
    {
        Self {
            entry,
            num_plies,
            reader: BitReader::new(movetext),
            last_score: 0i16.wrapping_sub(entry.score),
            num_read_plies: 0,
        }
    }

    /// Whether a ply is left to read.
    pub fn has_next(&self) -> (r: bool)
        ensures
            r == (self.num_read_plies < self.num_plies),
    {
        self.num_read_plies < self.num_plies
    }

    /// The number of bytes of which at least one bit has been read.
    pub fn num_read_bytes(&self) -> (r: usize)
        requires
            self.reader.wf(),
        ensures
            r == (self.reader.pos() + 7) / 8,
    {
        self.reader.num_read_bytes()
    }

    /// Reads the move that was made in the position `pos`.
    fn next_move(reader: &mut BitReader<'a>, pos: &Position) -> (r: Result<Move, BinpackError>)
        requires
            old(reader).wf(),
            pos.consistent(),
        ensures
            final(reader).wf(),
            final(reader).movetext@ == old(reader).movetext@,
            final(reader).pos() == read_move_stop(pos@, old(reader).movetext@, old(reader).pos()),
            match r {
                Ok(mv) => read_move(pos@, old(reader).movetext@, old(reader).pos()) == Some(
                    (mv, final(reader).pos()),
                ),
                Err(e) => read_move(pos@, old(reader).movetext@, old(reader).pos()) is None && e
                    is InvalidFormat,
            },
    {
        let ghost m = pos@;
        let ghost mine = |s: int| own(m, s);
        if pos.ep_square().index > 64 {
            return Err(BinpackError::InvalidFormat("Invalid en-passant square".to_string()));
        }
        let us: Color = pos.side_to_move();
        let ours: Bitboard = pos.pieces_bb(us);
        let num_pieces: u32 = ours.count();
        proof {
            assert forall|s: int| 0 <= s < 64 implies #[trigger] bit_at(ours.bits, s) == mine(s) by {
                assert(pos.pieces@[s].valid());
            }
            lemma_count_where_bits(ours.bits, mine, 64);
            lemma_width_le8(num_pieces as nat);
        }
        let piece_id: u8 = match reader.extract_bits_le8(used_bits(num_pieces as u64)) {
            Ok(bits) => bits,
            Err(e) => {
                return Err(e);
            },
        };
        if piece_id as u32 >= num_pieces {
            return Err(BinpackError::InvalidFormat("No such piece".to_string()));
        }
        let from: Square = Square::new(nth_set_bit_index(ours.bits, piece_id as u64));
        proof {
            lemma_nth_where_bits(ours.bits, mine, piece_id as int, from.index as int, 64);
            assert(pos.pieces@[from.index as int].valid());
            crate::chess::piece::lemma_piece_parts(pos.pieces@[from.index as int]);
        }
        let kind: PieceType = pos.piece_at(from).piece_type();
        let dests: Bitboard = destinations(pos, from);
        let total: u32 = dests.count();
        let ghost f = from.index as int;
        let ghost dest = |s: int| is_dest(m, f, s);
        proof {
            assert forall|s: int| 0 <= s < 64 implies #[trigger] bit_at(dests.bits, s) == dest(s) by {}
            lemma_count_where_bits(dests.bits, dest, 64);
            assert(bit_at(ours.bits, f));
            assert(own(m, f));
            lemma_count_without(dests.bits, f, 64);
        }
        let promotion_rank: u32 = match us {
            Color::White => 6,
            Color::Black => 1,
        };
        let promotes: bool = kind == PieceType::Pawn && from.index / 8 == promotion_rank;
        let rights: CastlingRights = pos.castling_rights();
        let long: bool = rights.contains(CastlingTraits::castling_rights(us, CastleType::Long));
        let short: bool = rights.contains(CastlingTraits::castling_rights(us, CastleType::Short));
        let num_moves: u32 = if promotes {
            total * 4
        } else if kind == PieceType::King {
            total + (if long { 1u32 } else { 0u32 }) + (if short { 1u32 } else { 0u32 })
        } else {
            total
        };
        proof {
            lemma_width_le8(num_moves as nat);
        }
        let move_id: u8 = match reader.extract_bits_le8(used_bits(num_moves as u64)) {
            Ok(bits) => bits,
            Err(e) => {
                return Err(e);
            },
        };
        if move_id as u32 >= num_moves {
            return Err(BinpackError::InvalidFormat("No such move".to_string()));
        }
        if promotes {
            let to: Square = Square::new(nth_set_bit_index(dests.bits, (move_id / 4) as u64));
            proof {
                lemma_nth_where_bits(dests.bits, dest, move_id as int / 4, to.index as int, 64);
            }
            let promoted: Piece = Piece::new(PieceType::from_ordinal(1 + move_id % 4), us);
            Ok(Move::promotion(from, to, promoted))
        } else if kind == PieceType::King && move_id as u32 >= total {
            let wing: CastleType = if move_id as u32 == total && long {
                CastleType::Long
            } else {
                CastleType::Short
            };
            Ok(Move::castle(wing, us))
        } else {
            let to: Square = Square::new(nth_set_bit_index(dests.bits, move_id as u64));
            proof {
                lemma_nth_where_bits(dests.bits, dest, move_id as int, to.index as int, 64);
            }
            if kind == PieceType::Pawn && to.index == pos.ep_square().index {
                Ok(Move::en_passant(from, to))
            } else {
                Ok(Move::normal(from, to))
            }
        }
    }

    /// Reads the move that was made in the position `pos`, and its score.
    pub fn next_move_score(&mut self, pos: &Position) -> (r: Result<(Move, i16), BinpackError>)
        requires
            old(self).reader.wf(),
            pos.consistent(),
            old(self).num_read_plies < u16::MAX,
        ensures
            final(self).reader.wf(),
            final(self).reader.movetext@ == old(self).reader.movetext@,
            final(self).entry == old(self).entry,
            final(self).num_plies == old(self).num_plies,
            final(self).reader.pos()
                == read_ply_stop(pos@, old(self).reader.movetext@, old(self).reader.pos()),
            match r {
                Ok((mv, score)) => read_ply(
                    pos@,
                    old(self).reader.movetext@,
                    old(self).reader.pos(),
                    old(self).last_score,
                ) == Some((mv, score, final(self).reader.pos())) && final(self).last_score
                    == 0i16.wrapping_sub(score) && final(self).num_read_plies == old(self).num_read_plies
                    + 1,
                Err(e) => read_ply(
                    pos@,
                    old(self).reader.movetext@,
                    old(self).reader.pos(),
                    old(self).last_score,
                ) is None && e is InvalidFormat && final(self).last_score == old(self).last_score
                    && final(self).num_read_plies == old(self).num_read_plies,
            },
    {
        let mv: Move = match Self::next_move(&mut self.reader, pos) {
            Ok(mv) => mv,
            Err(e) => {
                return Err(e);
            },
        };
        let delta: u16 = match self.reader.extract_vle16(4) {
            Ok(delta) => delta,
            Err(e) => {
                return Err(e);
            },
        };
        let score: i16 = self.last_score.wrapping_add(unsigned_to_signed(delta));
        self.last_score = 0i16.wrapping_sub(score);
        self.num_read_plies = self.num_read_plies + 1;
        Ok((mv, score))
    }

    /// Makes the move of the record that was read last, and reads the next
    /// record: the position after that move, the move and the score that
    /// the stream holds for it, the ply one higher, and the same result.
    /// Fails where the move cannot be made, where the ply has no room for
    /// one more, or where the stream does not hold a move and a score.
    pub fn next_entry(&mut self) -> (r: Result<TrainingDataEntry, BinpackError>)
        requires
            old(self).wf(),
            old(self).num_read_plies < old(self).num_plies,
        ensures
            final(self).reader.wf(),
            final(self).reader.movetext@ == old(self).reader.movetext@,
            final(self).num_plies == old(self).num_plies,
            match r {
                Ok(e) => {
                    let after = old(self).entry.pos@.after_move(old(self).entry.mv);
                    &&& final(self).wf()
                    &&& old(self).entry.pos@.admits(old(self).entry.mv)
                    &&& e == final(self).entry
                    &&& e.pos@ == after
                    &&& e.pos@.stm == old(self).entry.pos@.stm.flip()
                    &&& read_ply(after, old(self).reader.movetext@, old(self).reader.pos(),
                        old(self).last_score)
                        == Some((e.mv, e.score, final(self).reader.pos()))
                    &&& e.ply == old(self).entry.ply + 1
                    &&& e.result == old(self).entry.result
                    &&& final(self).last_score == 0i16.wrapping_sub(e.score)
                    &&& final(self).num_read_plies == old(self).num_read_plies + 1
                },
                Err(e) => {
                    let after = old(self).entry.pos@.after_move(old(self).entry.mv);
                    &&& e is InvalidFormat
                    &&& final(self).entry == old(self).entry
                    &&& final(self).last_score == old(self).last_score
                    &&& final(self).num_read_plies == old(self).num_read_plies
                    &&& final(self).reader.pos() == if !old(self).entry.pos@.admits(old(self).entry.mv)
                        || old(self).entry.ply == u16::MAX {
                        old(self).reader.pos()
                    } else {
                        read_ply_stop(after, old(self).reader.movetext@, old(self).reader.pos())
                    }
                    &&& !old(self).entry.pos@.admits(old(self).entry.mv) || old(self).entry.ply == u16::MAX
                        || read_ply(
                        after,
                        old(self).reader.movetext@,
                        old(self).reader.pos(),
                        old(self).last_score,
                    ) is None
                },
            },
    {
        if !self.entry.pos.is_applicable(self.entry.mv) {
            return Err(BinpackError::InvalidFormat("Move cannot be made".to_string()));
        }
        if self.entry.ply == u16::MAX {
            return Err(BinpackError::InvalidFormat("Too many plies".to_string()));
        }
        let mut pos: Position = self.entry.pos;
        pos.do_move(self.entry.mv);
        let (mv, score) = match self.next_move_score(&pos) {
            Ok(pair) => pair,
            Err(e) => {
                return Err(e);
            },
        };
        self.entry.pos = pos;
        self.entry.mv = mv;
        self.entry.score = score;
        self.entry.ply = self.entry.ply + 1;
        Ok(self.entry)
    }
}

} // verus!
