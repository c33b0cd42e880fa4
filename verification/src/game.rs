//! A game as it stands in a chunk: its first record, packed, the number of
//! its plies, and the bits of the plies.

use crate::bitstream::holds_at;
use crate::chess::chess_move::Move;
use crate::chess::position::PositionModel;
use crate::move_encoding::{game_bits, game_playable, lemma_game_read_back, read_game};
use crate::training_data_entry::{
    be_u16, entry_packs, lemma_entry_round_trip, round_trip_entry, unpack_entry_model, EntryModel,
};
use vstd::prelude::*;

verus! {

/// A game: its first record, and the move and the score of each ply after
/// it.
pub struct Game {
    pub first: EntryModel,
    pub plies: Seq<(Move, i16)>,
}

/// The records of the plies that follow the record `prev`: each has the
/// position after the move of the record before, its own move and score,
/// the ply one higher, and the same result.
pub open spec fn ply_records(prev: EntryModel, plies: Seq<(Move, i16)>) -> Seq<EntryModel>
    decreases plies.len(),
{
    if plies.len() == 0 {
        Seq::empty()
    } else {
        let e = EntryModel {
            pos: prev.pos.after_move(prev.mv),
            mv: plies[0].0,
            score: plies[0].1,
            ply: (prev.ply + 1) as u16,
            result: prev.result,
        };
        seq![e] + ply_records(e, plies.subrange(1, plies.len() as int))
    }
}

impl Game {
    /// The position in which the first ply after the first record is made.
    pub open spec fn start(self) -> PositionModel {
        self.first.pos.after_move(self.first.mv)
    }

    /// The bits of the plies.
    pub open spec fn bits(self) -> Seq<bool> {
        game_bits(self.start(), 0i16.wrapping_sub(self.first.score), self.plies)
    }

    /// The number of bytes that the game takes in a chunk: 34 for the first
    /// record and the number of plies, and the bits of the plies in whole
    /// bytes.
    pub open spec fn size(self) -> int {
        34 + (self.bits().len() as int + 7) / 8
    }

    /// The records of the game.
    pub open spec fn records(self) -> Seq<EntryModel> {
        seq![self.first] + ply_records(self.first, self.plies)
    }

    /// Whether the game can be written so that reading gives it back: its
    /// first record unpacks to itself; the number of its plies fits in
    /// sixteen bits, and so does the ply of its last record; and where it
    /// has plies, the move of its first record can be made, and each ply
    /// can be written and, but for the last, made.
    pub open spec fn sound(self) -> bool {
        &&& round_trip_entry(self.first)
        &&& self.first.ply + self.plies.len() <= u16::MAX
        &&& self.plies.len() == 0 || (self.first.pos.admits(self.first.mv) && game_playable(
            self.start(),
            self.plies,
        ))
    }
}

/// Whether the game `g` stands in the chunk from the byte `at` on.
pub open spec fn game_at(chunk: Seq<u8>, at: int, g: Game) -> bool {
    &&& 0 <= at
    &&& at + g.size() <= chunk.len()
    &&& entry_packs(g.first, chunk.subrange(at, at + 32))
    &&& be_u16(chunk, at + 32) == g.plies.len()
    &&& holds_at(chunk.subrange(at + 34, chunk.len() as int), 0, g.bits())
}

/// The records of the game that the chunk holds from the byte `at` on, and
/// the place after the game; or nothing, where the chunk does not hold a
/// game there: the first record as it is unpacked, and as many plies as
/// the two bytes after it say, read in the position after the move of the
/// first record.
pub open spec fn read_game_at(chunk: Seq<u8>, at: int) -> Option<(Seq<EntryModel>, int)> {
    let first = unpack_entry_model(chunk.subrange(at, at + 32));
    let n = be_u16(chunk, at + 32);
    let text = chunk.subrange(at + 34, chunk.len() as int);
    if at < 0 || at + 34 > chunk.len() {
        None
    } else if n == 0 {
        Some((seq![first], at + 34))
    } else if !first.pos.admits(first.mv) || first.ply + n > u16::MAX {
        None
    } else {
        match read_game(
            first.pos.after_move(first.mv),
            text,
            0,
            0i16.wrapping_sub(first.score),
            n as nat,
        ) {
            None => None,
            Some((plies, end)) => Some((seq![first] + ply_records(first, plies), at + 34 + (end + 7) / 8)),
        }
    }
}

/// Reading back a game that was written: where a game that is sound stands
/// in a chunk, reading there gives the records of the game and the place
/// after it.
pub proof fn lemma_game_at_read_back(chunk: Seq<u8>, at: int, g: Game)
    requires
        g.sound(),
        game_at(chunk, at, g),
    ensures
        read_game_at(chunk, at) == Some((g.records(), at + g.size())),
{
    let text = chunk.subrange(at + 34, chunk.len() as int);
    lemma_entry_round_trip(g.first, chunk.subrange(at, at + 32));
    if g.plies.len() > 0 {
        lemma_game_read_back(g.start(), 0i16.wrapping_sub(g.first.score), g.plies, text, 0);
    } else {
        assert(ply_records(g.first, g.plies) =~= Seq::<EntryModel>::empty());
        assert(g.bits() =~= Seq::<bool>::empty());
    }
}

/// The chunk that holds the given games one after the other from the byte
/// `at` on, and has no room for a record after the last.
pub open spec fn games_at(chunk: Seq<u8>, at: int, games: Seq<Game>) -> bool
    decreases games.len(),
{
    if games.len() == 0 {
        0 <= at <= chunk.len() && at + 34 > chunk.len()
    } else {
        game_at(chunk, at, games[0]) && games_at(
            chunk,
            at + games[0].size(),
            games.subrange(1, games.len() as int),
        )
    }
}

/// The records of the given games, one game after the other.
pub open spec fn all_records(games: Seq<Game>) -> Seq<EntryModel>
    decreases games.len(),
{
    if games.len() == 0 {
        Seq::empty()
    } else {
        games[0].records() + all_records(games.subrange(1, games.len() as int))
    }
}

/// The records that the chunk holds from the byte `at` on, game after
/// game, until it has no room for a record; or nothing, where it does not
/// hold games from there on.
pub open spec fn records_from(chunk: Seq<u8>, at: int) -> Option<Seq<EntryModel>>
    decreases chunk.len() - at,
{
    if at < 0 || at + 34 > chunk.len() {
        Some(Seq::empty())
    } else {
        match read_game_at(chunk, at) {
            None => None,
            Some((records, next)) => if next <= at || next > chunk.len() {
                None
            } else {
                match records_from(chunk, next) {
                    None => None,
                    Some(rest) => Some(records + rest),
                }
            },
        }
    }
}

/// Reading back the games of a chunk: where a chunk holds games that are
/// sound, one after the other, reading it gives their records in their
/// order.
pub proof fn lemma_chunk_read_back(chunk: Seq<u8>, at: int, games: Seq<Game>)
    requires
        forall|i: int| 0 <= i < games.len() ==> (#[trigger] games[i]).sound(),
        games_at(chunk, at, games),
    ensures
        records_from(chunk, at) == Some(all_records(games)),
    decreases games.len(),
{
    if games.len() > 0 {
        let g = games[0];
        let rest = games.subrange(1, games.len() as int);
        assert(g.sound());
        lemma_game_at_read_back(chunk, at, g);
        assert forall|i: int| 0 <= i < rest.len() implies (#[trigger] rest[i]).sound() by {
            assert(rest[i] == games[i + 1]);
        }
        lemma_chunk_read_back(chunk, at + g.size(), rest);
    }
}

} // verus!
