//! A chess position and the moves that change it.

use crate::arithmetic::{bit_at, lemma_bit_at_single, lemma_bit_extensional, lemma_bit_ops};
use crate::chess::attacks::{
    bishop_attacks, king_attacks, knight_attacks, pawn_attacks, rook_attacks, Attacks,
};
use crate::chess::bitboard::Bitboard;
use crate::chess::castling_rights::{lemma_byte_bits, CastleType, CastlingRights};
use crate::chess::chess_move::{Move, MoveType};
use crate::chess::color::Color;
use crate::chess::coords::{digit, digit_char, file_char, Square};
use crate::chess::piece::Piece;
use crate::chess::piecetype::PieceType;
use vstd::prelude::*;

verus! {

/// What a position is, apart from how it is stored: the piece on each of
/// the 64 squares, the side to move, the castling rights, the en-passant
/// square and the two move counters.
pub struct PositionModel {
    pub pieces: Seq<Piece>,
    pub stm: Color,
    pub castling: CastlingRights,
    pub ep: Square,
    pub halfm: u16,
    pub fullm: u16,
}

/// The occupied squares of a board.
pub open spec fn occupied_squares(pieces: Seq<Piece>) -> Set<int> {
    Set::new(|s: int| 0 <= s < 64 && !pieces[s].is_none())
}

/// Whether the piece on square `a` is one of side `by` that attacks square
/// `sq`. Pawns, knights and kings are found by looking from `sq`; sliding
/// pieces by looking from `sq` along the lines that the occupied squares
/// leave open.
pub open spec fn attacker(pieces: Seq<Piece>, a: int, sq: int, by: Color) -> bool {
    let p = pieces[a];
    let occ = occupied_squares(pieces);
    0 <= a < 64 && !p.is_none() && p.side() == by && match p.kind() {
        PieceType::Pawn => pawn_attacks(by.flip(), sq, a),
        PieceType::Knight => knight_attacks(sq, a),
        PieceType::Bishop => bishop_attacks(sq, occ, a),
        PieceType::Rook => rook_attacks(sq, occ, a),
        PieceType::Queen => bishop_attacks(sq, occ, a) || rook_attacks(sq, occ, a),
        PieceType::King => king_attacks(sq, a),
        PieceType::Empty => false,
    }
}

/// Whether a piece of side `by` attacks square `sq`.
pub open spec fn attacked(pieces: Seq<Piece>, sq: int, by: Color) -> bool {
    exists|a: int| attacker(pieces, a, sq, by)
}

/// The first square at or after `start` that holds the piece `pc`, or 64 if
/// there is none.
pub open spec fn first_square_of(pieces: Seq<Piece>, pc: Piece, start: int) -> int
    decreases 64 - start,
{
    if start >= 64 {
        64
    } else if pieces[start] == pc {
        start
    } else {
        first_square_of(pieces, pc, start + 1)
    }
}

/// The square of the king of side `c`, or 64 if that side has none.
pub open spec fn king_square(pieces: Seq<Piece>, c: Color) -> int {
    first_square_of(pieces, Piece::of(PieceType::King, c), 0)
}

/// Whether the king of side `c` is on the board.
pub open spec fn has_king(pieces: Seq<Piece>, c: Color) -> bool {
    exists|s: int| 0 <= s < 64 && #[trigger] pieces[s] == Piece::of(PieceType::King, c)
}

/// The first square that holds a piece is the one that holds it and has
/// none before it.
pub proof fn lemma_first_square(pieces: Seq<Piece>, pc: Piece, start: int, r: int)
    requires
        0 <= start <= r < 64,
        pieces[r] == pc,
        forall|t: int| start <= t < r ==> pieces[t] != pc,
    ensures
        first_square_of(pieces, pc, start) == r,
    decreases r - start,
{
    if start < r {
        lemma_first_square(pieces, pc, start + 1, r);
    }
}

/// The square from which an en-passant capture onto `to` takes the pawn:
/// the one whose index differs from `to` in the bit of value 8.
pub open spec fn ep_victim(to: int) -> int {
    if (to / 8) % 2 == 0 {
        to + 8
    } else {
        to - 8
    }
}

/// Flipping the bit of value 8 in a square's index moves one rank up from an
/// even rank and one rank down from an odd one.
pub proof fn lemma_xor8(t: u32)
    by (bit_vector)
    requires
        t < 64,
    ensures
        (t ^ 8) < 64,
        (t / 8) % 2 == 0 ==> (t ^ 8) == t + 8,
        (t / 8) % 2 != 0 ==> (t ^ 8) == t - 8,
{
}

/// Where the rook and the king of side `c` land when castling to `wing`.
pub open spec fn castle_squares(c: Color, wing: CastleType) -> (int, int) {
    match (c, wing) {
        (Color::White, CastleType::Short) => (5, 6),
        (Color::White, CastleType::Long) => (3, 2),
        (Color::Black, CastleType::Short) => (61, 62),
        (Color::Black, CastleType::Long) => (59, 58),
    }
}

/// The castling rights that are lost when a move starts or ends on the
/// square `sq`: a king's home square costs both rights of its side, a
/// rook's home square the right to its wing.
pub open spec fn revoked_by(sq: int) -> u8 {
    if sq == 4 {
        3
    } else if sq == 60 {
        12
    } else if sq == 0 {
        2
    } else if sq == 7 {
        1
    } else if sq == 56 {
        8
    } else if sq == 63 {
        4
    } else {
        0
    }
}

/// The castling rights that are left after a move from `from` to `to`.
pub open spec fn rights_after(castling: CastlingRights, from: int, to: int) -> CastlingRights {
    CastlingRights(castling.0 & !revoked_by(from) & !revoked_by(to))
}

/// The step of a pawn of side `c` in square indices.
pub open spec fn forward(c: Color) -> int {
    if c == Color::White {
        8
    } else {
        -8
    }
}

/// The rank from which a pawn of side `c` may go two squares.
pub open spec fn start_rank(c: Color) -> int {
    if c == Color::White {
        1
    } else {
        6
    }
}

/// The rank from which a pawn of side `c` promotes with its next step.
pub open spec fn promotion_rank(c: Color) -> int {
    if c == Color::White {
        6
    } else {
        1
    }
}

/// Whether the pawn of the side that did not just move, standing on `a`,
/// may capture in passing onto `ep`, where `pieces` is the board after a
/// pawn of side `us` has gone two squares to `to`: the pawn attacks `ep`,
/// and with it on `ep` and the pawn on `to` gone, its own king is not
/// attacked.
pub open spec fn ep_capture_legal(pieces: Seq<Piece>, us: Color, a: int, ep: int, to: int) -> bool {
    let pawn = Piece::of(PieceType::Pawn, us.flip());
    let trial = pieces.update(a, Piece { id: 12 }).update(ep, pawn).update(to, Piece { id: 12 });
    0 <= a < 64 && pawn_attacks(us, ep, a) && pieces[a] == pawn && !attacked(
        trial,
        king_square(trial, us.flip()),
        us,
    )
}

/// The letter of a piece in a position's text: lower case for Black, upper
/// case for White.
pub open spec fn piece_char(p: Piece) -> char {
    match (p.kind(), p.side()) {
        (PieceType::Pawn, Color::White) => 'P',
        (PieceType::Knight, Color::White) => 'N',
        (PieceType::Bishop, Color::White) => 'B',
        (PieceType::Rook, Color::White) => 'R',
        (PieceType::Queen, Color::White) => 'Q',
        (PieceType::King, Color::White) => 'K',
        (PieceType::Pawn, Color::Black) => 'p',
        (PieceType::Knight, Color::Black) => 'n',
        (PieceType::Bishop, Color::Black) => 'b',
        (PieceType::Rook, Color::Black) => 'r',
        (PieceType::Queen, Color::Black) => 'q',
        (PieceType::King, Color::Black) => 'k',
        (PieceType::Empty, _) => ' ',
    }
}

/// The count of empty squares as text: nothing for none, else one digit.
pub open spec fn empties_text(empties: int) -> Seq<char> {
    if empties > 0 {
        seq![digit_char(empties)]
    } else {
        Seq::empty()
    }
}

/// The text of a rank from the file `file` on, with `empties` empty squares
/// seen just before: each piece by its letter, each run of empty squares by
/// its length.
pub open spec fn rank_text(pieces: Seq<Piece>, rank: int, file: int, empties: int) -> Seq<char>
    decreases 8 - file,
{
    if file >= 8 {
        empties_text(empties)
    } else if pieces[rank * 8 + file].is_none() {
        rank_text(pieces, rank, file + 1, empties + 1)
    } else {
        empties_text(empties) + seq![piece_char(pieces[rank * 8 + file])] + rank_text(
            pieces,
            rank,
            file + 1,
            0,
        )
    }
}

/// The text of the lowest `ranks` ranks, the highest of them first, with a
/// stroke between two ranks.
pub open spec fn board_text(pieces: Seq<Piece>, ranks: int) -> Seq<char>
    decreases ranks,
{
    if ranks <= 0 {
        Seq::empty()
    } else if ranks == 1 {
        rank_text(pieces, 0, 0, 0)
    } else {
        rank_text(pieces, ranks - 1, 0, 0) + seq!['/'] + board_text(pieces, ranks - 1)
    }
}

/// A number in decimal digits.
pub open spec fn decimal(n: int) -> Seq<char>
    decreases n,
{
    if n < 10 {
        seq![digit_char(n)]
    } else {
        decimal(n / 10) + seq![digit_char(n % 10)]
    }
}

/// The castling rights as text: a dash for none, else the letters of the
/// rights that are held, in the order `KQkq`.
pub open spec fn castling_text(c: CastlingRights) -> Seq<char> {
    if c.0 == 0 {
        seq!['-']
    } else {
        (if c.has(0) {
            seq!['K']
        } else {
            Seq::empty()
        }) + (if c.has(1) {
            seq!['Q']
        } else {
            Seq::empty()
        }) + (if c.has(2) {
            seq!['k']
        } else {
            Seq::empty()
        }) + (if c.has(3) {
            seq!['q']
        } else {
            Seq::empty()
        })
    }
}

/// The en-passant square as text: a dash for none, else the square's name.
pub open spec fn ep_text(ep: Square) -> Seq<char> {
    if ep.index == 64 {
        seq!['-']
    } else {
        seq![file_char(ep.index as int % 8), digit_char(ep.index as int / 8 + 1)]
    }
}

/// The text of a position: the board from the eighth rank down, the side
/// to move, the castling rights, the en-passant square and the two
/// counters, with one blank between any two of them.
pub open spec fn fen_text(m: PositionModel) -> Seq<char> {
    board_text(m.pieces, 8) + seq![' '] + seq![
        if m.stm == Color::White {
            'w'
        } else {
            'b'
        },
    ] + seq![' '] + castling_text(m.castling) + seq![' '] + ep_text(m.ep) + seq![' '] + decimal(
        m.halfm as int,
    ) + seq![' '] + decimal(m.fullm as int)
}

/// Appends a number in decimal digits to a string.
pub fn push_decimal(s: &mut String, n: u16)
    ensures
        final(s)@ == old(s)@ + decimal(n as int),
    decreases n,
{
    if n >= 10 {
        push_decimal(s, n / 10);
    }
    s.push(digit((n % 10) as u8));
    proof {
        if n >= 10 {
            assert(final(s)@ =~= old(s)@ + (decimal(n as int / 10) + seq![digit_char(n as int % 10)]));
        } else {
            assert(final(s)@ =~= old(s)@ + decimal(n as int));
        }
    }
}

/// The letter of a piece.
pub fn piece_letter(p: Piece) -> (c: char)
    requires
        p.valid(),
        !p.is_none(),
    ensures
        c == piece_char(p),
{
    let white: bool = p.id % 2 == 0;
    match p.piece_type() {
        PieceType::Pawn => if white { 'P' } else { 'p' },
        PieceType::Knight => if white { 'N' } else { 'n' },
        PieceType::Bishop => if white { 'B' } else { 'b' },
        PieceType::Rook => if white { 'R' } else { 'r' },
        PieceType::Queen => if white { 'Q' } else { 'q' },
        _ => if white { 'K' } else { 'k' },
    }
}

impl PositionModel {
    /// The empty board with White to move, no castling rights, no
    /// en-passant square, and the counters at their start.
    pub open spec fn empty() -> PositionModel {
        PositionModel {
            pieces: Seq::new(64, |i: int| Piece { id: 12 }),
            stm: Color::White,
            castling: CastlingRights(0),
            ep: Square { index: 64 },
            halfm: 0,
            fullm: 1,
        }
    }

    /// The position with the piece `pc` on square `sq`.
    pub open spec fn with_piece(self, sq: int, pc: Piece) -> PositionModel {
        PositionModel { pieces: self.pieces.update(sq, pc), ..self }
    }

    /// The position with `c` to move.
    pub open spec fn with_stm(self, c: Color) -> PositionModel {
        PositionModel { stm: c, ..self }
    }

    /// Whether the move takes a piece: the target square is occupied and
    /// the move is no castling move.
    pub open spec fn genuine_capture(self, mv: Move) -> bool {
        !self.pieces[mv.to.index as int].is_none() && mv.move_type != MoveType::Castle
    }

    /// Whether the move takes a pawn two squares along its file.
    pub open spec fn double_push(self, mv: Move) -> bool {
        self.pieces[mv.from.index as int].kind() == PieceType::Pawn && (mv.to.index - mv.from.index
            == 16 || mv.from.index - mv.to.index == 16)
    }

    /// Whether the move can be made in this position: both kings are on
    /// the board; the move takes a piece of the side to move from one
    /// square to another; it captures nothing of its own side and no king;
    /// a promotion is a pawn's to a piece of its side other than a king;
    /// a capture in passing is a pawn's and finds the other side's pawn
    /// beside the target; a castling move finds king and rook and lands on
    /// empty squares; a pawn goes two squares only as a normal move from
    /// its starting rank, forward, and over an empty square; and the
    /// counters have room for one more.
    pub open spec fn admits(self, mv: Move) -> bool {
        let from = mv.from.index as int;
        let to = mv.to.index as int;
        let piece = self.pieces[from];
        let target = self.pieces[to];
        let us = self.stm;
        &&& has_king(self.pieces, Color::White)
        &&& has_king(self.pieces, Color::Black)
        &&& 0 <= from < 64 && 0 <= to < 64 && from != to
        &&& !piece.is_none() && piece.side() == us
        &&& (piece.kind() != PieceType::Pawn && !self.genuine_capture(mv)) ==> self.halfm < u16::MAX
        &&& us == Color::Black ==> self.fullm < u16::MAX
        &&& mv.move_type != MoveType::Castle ==> target.is_none() || (target.side() != us
            && target.kind() != PieceType::King)
        &&& match mv.move_type {
            MoveType::Normal => true,
            MoveType::Promotion => {
                let p = mv.promoted_piece;
                piece.kind() == PieceType::Pawn && p.valid() && !p.is_none() && p.side() == us
                    && p.kind() != PieceType::King
            },
            MoveType::EnPassant => piece.kind() == PieceType::Pawn && self.pieces[ep_victim(to)]
                == Piece::of(PieceType::Pawn, us.flip()),
            MoveType::Castle => {
                let (rook_to, king_to) = castle_squares(us, mv.wing());
                let cleared = self.pieces.update(from, Piece { id: 12 }).update(to, Piece { id: 12 });
                piece == Piece::of(PieceType::King, us) && target == Piece::of(PieceType::Rook, us)
                    && cleared[rook_to].is_none() && cleared[king_to].is_none()
            },
        }
        &&& self.double_push(mv) ==> mv.move_type == MoveType::Normal && self.pieces[(from + to)
            / 2].is_none() && from / 8 == start_rank(us) && to == from + 2 * forward(us)
    }

    /// The board after the move: the moving piece leaves its square; a
    /// normal move puts it on the target, a promotion puts the promoted
    /// piece there, a capture in passing also removes the pawn beside the
    /// target, and castling moves the rook from the target square and the
    /// king to their landing squares.
    pub open spec fn moved_pieces(self, mv: Move) -> Seq<Piece> {
        let from = mv.from.index as int;
        let to = mv.to.index as int;
        let piece = self.pieces[from];
        let none = Piece { id: 12 };
        let cleared = self.pieces.update(from, none);
        match mv.move_type {
            MoveType::Normal => cleared.update(to, piece),
            MoveType::Promotion => cleared.update(to, mv.promoted_piece),
            MoveType::EnPassant => cleared.update(to, none).update(ep_victim(to), none).update(to, piece),
            MoveType::Castle => {
                let (rook_to, king_to) = castle_squares(self.stm, mv.wing());
                cleared.update(to, none).update(rook_to, self.pieces[to]).update(king_to, piece)
            },
        }
    }

    /// The en-passant square after the move: the square that a pawn has
    /// jumped over, if a pawn of the other side may capture there, else
    /// "no square".
    pub open spec fn ep_after(self, mv: Move) -> Square {
        let ep = (mv.from.index + mv.to.index) / 2;
        if self.double_push(mv) && exists|a: int| #[trigger]
            ep_capture_legal(self.moved_pieces(mv), self.stm, a, ep, mv.to.index as int) {
            Square { index: ep as u32 }
        } else {
            Square { index: 64 }
        }
    }

    /// The position after the move.
    pub open spec fn after_move(self, mv: Move) -> PositionModel {
        let piece = self.pieces[mv.from.index as int];
        PositionModel {
            pieces: self.moved_pieces(mv),
            stm: self.stm.flip(),
            castling: rights_after(self.castling, mv.from.index as int, mv.to.index as int),
            ep: self.ep_after(mv),
            halfm: if self.genuine_capture(mv) || piece.kind() == PieceType::Pawn {
                0u16
            } else {
                (self.halfm + 1) as u16
            },
            fullm: if self.stm == Color::Black {
                (self.fullm + 1) as u16
            } else {
                self.fullm
            },
        }
    }
}

/// A position. The pieces are held twice: square by square, and as one set
/// of squares for each kind of piece and for each side.
#[derive(Clone, Copy, Debug)]
pub struct Position {
    /// The squares of the pawns, knights, bishops, rooks, queens and kings.
    pub bb: [u64; 6],
    /// The squares of White's and of Black's pieces.
    pub bb_color: [u64; 2],
    /// The piece on each square.
    pub pieces: [Piece; 64],
    /// The side to move.
    pub stm: Color,
    pub castling_rights: CastlingRights,
    /// Plies since the last pawn move or capture.
    pub halfm: u16,
    /// The number of the full move, starting at one.
    pub fullm: u16,
    /// The square that a pawn may capture on in passing, if any.
    pub enpassant: Square,
}

/// Whether `v` holds exactly the squares whose piece is of the kind with
/// number `k`.
pub open spec fn kind_board(pieces: Seq<Piece>, k: int, v: u64) -> bool {
    forall|s: int| 0 <= s < 64 ==> #[trigger] bit_at(v, s) == (pieces[s].id / 2 == k)
}

/// Whether `v` holds exactly the squares whose piece is of the side with
/// number `c`.
pub open spec fn side_board(pieces: Seq<Piece>, c: int, v: u64) -> bool {
    forall|s: int| 0 <= s < 64 ==> #[trigger] bit_at(v, s) == (pieces[s].id < 12 && pieces[s].id % 2 == c)
}

impl View for Position {
    type V = PositionModel;

    open spec fn view(&self) -> PositionModel {
        PositionModel {
            pieces: self.pieces@,
            stm: self.stm,
            castling: self.castling_rights,
            ep: self.enpassant,
            halfm: self.halfm,
            fullm: self.fullm,
        }
    }
}

/// A move that can be made leaves both kings on the board.
pub proof fn lemma_move_keeps_kings(m: PositionModel, mv: Move)
    requires
        m.pieces.len() == 64,
        forall|s: int| 0 <= s < 64 ==> (#[trigger] m.pieces[s]).valid(),
        m.admits(mv),
    ensures
        has_king(m.moved_pieces(mv), Color::White),
        has_king(m.moved_pieces(mv), Color::Black),
{
    let us = m.stm;
    let them = us.flip();
    let from = mv.from.index as int;
    let to = mv.to.index as int;
    let after = m.moved_pieces(mv);
    let ours = choose|s: int| 0 <= s < 64 && #[trigger] m.pieces[s] == Piece::of(PieceType::King, us);
    let theirs = choose|s: int| 0 <= s < 64 && #[trigger] m.pieces[s] == Piece::of(PieceType::King, them);
    assert(has_king(m.pieces, us) && has_king(m.pieces, them));
    assert(m.pieces[from].valid());
    assert(m.pieces[to].valid());
    crate::chess::piece::lemma_piece_parts(m.pieces[from]);
    crate::chess::piece::lemma_piece_parts(m.pieces[to]);
    assert(after[theirs] == Piece::of(PieceType::King, them));
    let ours_after = if mv.move_type == MoveType::Castle {
        castle_squares(us, mv.wing()).1
    } else if ours == from {
        to
    } else {
        ours
    };
    assert(after[ours_after] == Piece::of(PieceType::King, us));
    assert(has_king(after, us));
    assert(has_king(after, them));
}

/// Whether side `c` has exactly one king.
pub open spec fn one_king(pieces: Seq<Piece>, c: Color) -> bool {
    has_king(pieces, c) && forall|s: int, t: int|
        0 <= s < 64 && 0 <= t < 64 && #[trigger] pieces[s] == Piece::of(PieceType::King, c)
            && #[trigger] pieces[t] == Piece::of(PieceType::King, c) ==> s == t
}

/// Whether the en-passant square of the position is one that a move has
/// left: there is none, or it lies behind a pawn of the side that has just
/// moved, on that side's third rank, and a pawn of the side to move may
/// capture onto it.
pub open spec fn ep_in_order(m: PositionModel) -> bool {
    let mover = m.stm.flip();
    let ep = m.ep.index as int;
    let to = ep + forward(mover);
    ep == 64 || (0 <= ep < 64 && ep / 8 == start_rank(mover) + forward(mover) / 8 && m.pieces[to]
        == Piece::of(PieceType::Pawn, mover) && exists|a: int| #[trigger]
        ep_capture_legal(m.pieces, mover, a, ep, to))
}

/// What a move keeps and sets right: each side that had exactly one king
/// has exactly one after the move; the en-passant square is one that a
/// move has left; the number of the full move stays at least one, and the
/// count of plies goes up by one.
pub proof fn lemma_move_keeps_order(m: PositionModel, mv: Move)
    requires
        m.pieces.len() == 64,
        forall|s: int| 0 <= s < 64 ==> (#[trigger] m.pieces[s]).valid(),
        m.admits(mv),
    ensures
        one_king(m.pieces, Color::White) ==> one_king(m.after_move(mv).pieces, Color::White),
        one_king(m.pieces, Color::Black) ==> one_king(m.after_move(mv).pieces, Color::Black),
        ep_in_order(m.after_move(mv)),
        m.fullm >= 1 ==> m.after_move(mv).fullm >= 1,
        (m.after_move(mv).fullm - 1) * 2 + m.after_move(mv).stm.index() == (m.fullm - 1) * 2
            + m.stm.index() + 1,
{
    let after = m.after_move(mv);
    let from = mv.from.index as int;
    let to = mv.to.index as int;
    let us = m.stm;
    lemma_move_keeps_kings(m, mv);
    assert(m.pieces[from].valid());
    assert(m.pieces[to].valid());
    crate::chess::piece::lemma_piece_parts(m.pieces[from]);
    crate::chess::piece::lemma_piece_parts(m.pieces[to]);
    if mv.move_type == MoveType::Promotion {
        crate::chess::piece::lemma_piece_parts(mv.promoted_piece);
    }
    assert forall|c: Color| one_king(m.pieces, c) implies one_king(after.pieces, c) by {
        let king = Piece::of(PieceType::King, c);
        assert forall|s: int, t: int|
            0 <= s < 64 && 0 <= t < 64 && #[trigger] after.pieces[s] == king
                && #[trigger] after.pieces[t] == king implies s == t by {
            let back = |x: int|
                if after.pieces[x] == m.pieces[x] {
                    x
                } else {
                    from
                };
            assert(m.pieces[back(s)] == king);
            assert(m.pieces[back(t)] == king);
            assert(back(s) == back(t));
        }
    }
    if after.ep.index != 64 {
        let ep = (from + to) / 2;
        let witness = choose|a: int| #[trigger]
            ep_capture_legal(m.moved_pieces(mv), us, a, ep, to);
        assert(ep_capture_legal(after.pieces, after.stm.flip(), witness, ep, ep + forward(us)));
    }
}

impl Default for Position {
    fn default() -> (r: Self)
        ensures
            r.consistent(),
            r@ == PositionModel::empty(),
    {
        Self::new()
    }
}

/// Two positions that hold their pieces consistently and are the same in
/// what they are, are the same in how they are stored.
pub proof fn lemma_position_determined(a: Position, b: Position)
    requires
        a.consistent(),
        b.consistent(),
        a@ == b@,
    ensures
        a == b,
{
    assert forall|k: int| 0 <= k < 6 implies a.bb@[k] == b.bb@[k] by {
        assert forall|i: u64| i < 64 implies crate::arithmetic::bit(a.bb@[k], i) == crate::arithmetic::bit(
            b.bb@[k],
            i,
        ) by {
            assert(bit_at(a.bb@[k], i as int) == (a.pieces@[i as int].id / 2 == k));
            assert(bit_at(b.bb@[k], i as int) == (b.pieces@[i as int].id / 2 == k));
        }
        lemma_bit_extensional(a.bb@[k], b.bb@[k]);
    }
    assert forall|c: int| 0 <= c < 2 implies a.bb_color@[c] == b.bb_color@[c] by {
        assert forall|i: u64| i < 64 implies crate::arithmetic::bit(a.bb_color@[c], i)
            == crate::arithmetic::bit(b.bb_color@[c], i) by {
            assert(bit_at(a.bb_color@[c], i as int) == (a.pieces@[i as int].id < 12
                && a.pieces@[i as int].id
                % 2 == c));
            assert(bit_at(b.bb_color@[c], i as int) == (b.pieces@[i as int].id < 12
                && b.pieces@[i as int].id
                % 2 == c));
        }
        lemma_bit_extensional(a.bb_color@[c], b.bb_color@[c]);
    }
    assert(a.bb@ =~= b.bb@);
    assert(a.bb_color@ =~= b.bb_color@);
    assert(a.pieces@ =~= b.pieces@);
    assert(a.bb =~= b.bb);
    assert(a.bb_color =~= b.bb_color);
    assert(a.pieces =~= b.pieces);
}

impl Position {
    /// The two ways in which the pieces are held agree, and every square
    /// holds a piece or "no piece".
    pub open spec fn consistent(&self) -> bool {
        &&& forall|s: int| 0 <= s < 64 ==> (#[trigger] self.pieces@[s]).valid()
        &&& kind_board(self.pieces@, 0, self.bb[0])
        &&& kind_board(self.pieces@, 1, self.bb[1])
        &&& kind_board(self.pieces@, 2, self.bb[2])
        &&& kind_board(self.pieces@, 3, self.bb[3])
        &&& kind_board(self.pieces@, 4, self.bb[4])
        &&& kind_board(self.pieces@, 5, self.bb[5])
        &&& side_board(self.pieces@, 0, self.bb_color[0])
        &&& side_board(self.pieces@, 1, self.bb_color[1])
    }

    /// The empty board with White to move, no castling rights, no
    /// en-passant square, and the counters at their start.
    pub fn new() -> (r: Self)
        ensures
            r.consistent(),
            r@ == PositionModel::empty(),
    {
        proof {
            lemma_bit_ops();
        }
        let r = Self {
            bb: [0; 6],
            bb_color: [0; 2],
            pieces: [Piece::none(); 64],
            stm: Color::White,
            castling_rights: CastlingRights::none(),
            halfm: 0,
            fullm: 1,
            enpassant: Square::none(),
        };
        proof {
            assert(r@.pieces =~= PositionModel::empty().pieces);
        }
        r
    }

    /// The side to move.
    pub fn side_to_move(&self) -> (r: Color)
        ensures
            r == self@.stm,
    {
        self.stm
    }

    /// Puts the piece `pc` of side `side` on the empty square `sq`.
    fn place_piece(&mut self, side: Color, pc: Piece, sq: Square)
        requires
            old(self).consistent(),
            sq.on_board(),
            old(self)@.pieces[sq.index as int].is_none(),
            pc.valid(),
            !pc.is_none(),
            pc.side() == side,
        ensures
            final(self).consistent(),
            final(self)@ == old(self)@.with_piece(sq.index as int, pc),
    {
        let mask: u64 = 1u64 << (sq.index as u64);
        let c: usize = side.ordinal() as usize;
        let k: usize = pc.piece_type().ordinal() as usize;
        proof {
            lemma_bit_at_single(self.bb_color[c as int], sq.index as u64);
            lemma_bit_at_single(self.bb[k as int], sq.index as u64);
        }
        self.bb_color[c] = self.bb_color[c] | mask;
        self.bb[k] = self.bb[k] | mask;
        self.pieces[sq.index as usize] = pc;
    }

    /// Takes the piece `pc` of side `side` off the square `sq`.
    fn remove_piece(&mut self, side: Color, pc: Piece, sq: Square)
        requires
            old(self).consistent(),
            sq.on_board(),
            old(self)@.pieces[sq.index as int] == pc,
            !pc.is_none(),
            pc.side() == side,
        ensures
            final(self).consistent(),
            final(self)@ == old(self)@.with_piece(sq.index as int, Piece { id: 12 }),
    {
        let mask: u64 = 1u64 << (sq.index as u64);
        let c: usize = side.ordinal() as usize;
        let k: usize = pc.piece_type().ordinal() as usize;
        proof {
            lemma_bit_at_single(self.bb_color[c as int], sq.index as u64);
            lemma_bit_at_single(self.bb[k as int], sq.index as u64);
        }
        self.bb_color[c] = self.bb_color[c] ^ mask;
        self.bb[k] = self.bb[k] ^ mask;
        self.pieces[sq.index as usize] = Piece::none();
    }

    /// Puts the piece `pc` on the empty square `sq`.
    pub fn place(&mut self, pc: Piece, sq: Square)
        requires
            old(self).consistent(),
            sq.on_board(),
            old(self)@.pieces[sq.index as int].is_none(),
            pc.valid(),
            !pc.is_none(),
        ensures
            final(self).consistent(),
            final(self)@ == old(self)@.with_piece(sq.index as int, pc),
    {
        self.place_piece(pc.color(), pc, sq);
    }

    /// The occupied squares.
    pub fn occupied(&self) -> (r: Bitboard)
        requires
            self.consistent(),
        ensures
            r.bits == self.bb_color[0] | self.bb_color[1],
            forall|s: int| 0 <= s < 64 ==> #[trigger] r.has(s) == !self@.pieces[s].is_none(),
            r@ == occupied_squares(self@.pieces),
    {
        let r = Bitboard::new(self.bb_color[0] | self.bb_color[1]);
        proof {
            lemma_bit_ops();
            assert forall|s: int| 0 <= s < 64 implies #[trigger] r.has(s) == !self@.pieces[s].is_none() by {
                assert(bit_at(self.bb_color[0], s) == (self.pieces@[s].id < 12
                    && self.pieces@[s].id % 2 == 0));
                assert(bit_at(self.bb_color[1], s) == (self.pieces@[s].id < 12
                    && self.pieces@[s].id % 2 == 1));
                assert(self.pieces@[s].valid());
            }
            assert(r@ =~= occupied_squares(self@.pieces));
        }
        r
    }

    /// The squares of the pieces of side `color`.
    pub fn pieces_bb(&self, color: Color) -> (r: Bitboard)
        requires
            self.consistent(),
        ensures
            r.bits == self.bb_color[color.index()],
            forall|s: int| 0 <= s < 64 ==> #[trigger] r.has(s) == (!self@.pieces[s].is_none()
                && self@.pieces[s].side() == color),
    {
        let r = Bitboard::new(self.bb_color[color.ordinal() as usize]);
        proof {
            assert forall|s: int| 0 <= s < 64 implies #[trigger] r.has(s)
                == (!self@.pieces[s].is_none() && self@.pieces[s].side() == color) by {
                assert(bit_at(self.bb_color[0], s) == (self.pieces@[s].id < 12
                    && self.pieces@[s].id % 2 == 0));
                assert(bit_at(self.bb_color[1], s) == (self.pieces@[s].id < 12
                    && self.pieces@[s].id % 2 == 1));
                assert(self.pieces@[s].valid());
            }
        }
        r
    }

    /// The squares of the pieces of side `color` and kind `pt`.
    pub fn pieces_bb_color(&self, color: Color, pt: PieceType) -> (r: Bitboard)
        requires
            self.consistent(),
            pt != PieceType::Empty,
        ensures
            r.bits == self.bb_color[color.index()] & self.bb[pt.index()],
            forall|s: int| 0 <= s < 64 ==> #[trigger] r.has(s) == (self@.pieces[s] == Piece::of(pt, color)),
    {
        let r = Bitboard::new(self.bb_color[color.ordinal() as usize] & self.bb[pt.ordinal() as usize]);
        proof {
            lemma_bit_ops();
            assert forall|s: int| 0 <= s < 64 implies #[trigger] r.has(s) == (self@.pieces[s]
                == Piece::of(pt, color)) by {
                let p = self.pieces@[s];
                assert(p.valid());
                assert(bit_at(self.bb_color[color.index()], s) == (p.id < 12 && p.id % 2 == color.index()));
                assert(bit_at(self.bb[pt.index()], s) == (p.id / 2 == pt.index()));
            }
        }
        r
    }

    /// The piece on the square `square`.
    pub fn piece_at(&self, square: Square) -> (r: Piece)
        requires
            square.on_board(),
        ensures
            r == self@.pieces[square.index as int],
    {
        self.pieces[square.index as usize]
    }

    /// The castling rights.
    pub fn castling_rights(&self) -> (r: CastlingRights)
        ensures
            r == self@.castling,
    {
        self.castling_rights
    }

    /// The en-passant square, or "no square".
    pub fn ep_square(&self) -> (r: Square)
        ensures
            r == self@.ep,
    {
        self.enpassant
    }

    /// Sets the castling rights.
    pub fn set_castling_rights(&mut self, rights: CastlingRights)
        ensures
            final(self)@ == (PositionModel { castling: rights, ..old(self)@ }),
            final(self).consistent() == old(self).consistent(),
    {
        self.castling_rights = rights;
    }

    /// Sets the en-passant square, whatever the pieces are.
    pub fn set_ep_square_unchecked(&mut self, sq: Square)
        ensures
            final(self)@ == (PositionModel { ep: sq, ..old(self)@ }),
            final(self).consistent() == old(self).consistent(),
    {
        self.enpassant = sq;
    }

    /// Adds castling rights to those that are held.
    pub fn add_castling_rights(&mut self, rights: CastlingRights)
        ensures
            final(self)@ == (PositionModel {
                castling: CastlingRights(old(self)@.castling.0 | rights.0),
                ..old(self)@
            }),
            forall|k: int| final(self)@.castling.has(k) == (old(self)@.castling.has(k) || rights.has(k)),
            final(self).consistent() == old(self).consistent(),
    {
        proof {
            lemma_byte_bits();
        }
        self.castling_rights.insert(rights);
    }

    /// Sets the side to move.
    pub fn set_side_to_move(&mut self, side: Color)
        ensures
            final(self)@ == (PositionModel { stm: side, ..old(self)@ }),
            final(self).consistent() == old(self).consistent(),
    {
        self.stm = side;
    }

    /// Sets the number of the full move from a count of plies.
    pub fn set_ply(&mut self, ply: u16)
        ensures
            final(self)@ == (PositionModel { fullm: (ply / 2 + 1) as u16, ..old(self)@ }),
            final(self).consistent() == old(self).consistent(),
    {
        self.fullm = (ply / 2) + 1;
    }

    /// The count of plies: two for each full move before this one, and one
    /// more when Black is to move.
    pub fn ply(&self) -> (r: u16)
        requires
            1 <= self@.fullm <= 0x8000,
        ensures
            r == (self@.fullm - 1) * 2 + self@.stm.index(),
    {
        ((self.fullm - 1) * 2) + (self.stm.ordinal() as u16)
    }

    /// Sets the count of plies since the last pawn move or capture.
    pub fn set_rule50_counter(&mut self, counter: u16)
        ensures
            final(self)@ == (PositionModel { halfm: counter, ..old(self)@ }),
            final(self).consistent() == old(self).consistent(),
    {
        self.halfm = counter;
    }

    /// The square of the king of side `c`.
    pub fn king_sq(&self, c: Color) -> (r: Square)
        requires
            self.consistent(),
            has_king(self@.pieces, c),
        ensures
            r.on_board(),
            r.index == king_square(self@.pieces, c),
            self@.pieces[r.index as int] == Piece::of(PieceType::King, c),
    {
        let kings: Bitboard = self.pieces_bb_color(c, PieceType::King);
        proof {
            let s0 = choose|s: int| 0 <= s < 64 && #[trigger] self@.pieces[s]
                == Piece::of(PieceType::King, c);
            assert(kings.has(s0));
            lemma_bit_ops();
        }
        let r: Square = kings.first();
        proof {
            assert forall|t: int| 0 <= t < r.index
                implies self@.pieces[t] != Piece::of(PieceType::King, c) by {
                assert(!kings.has(t));
            }
            lemma_first_square(self@.pieces, Piece::of(PieceType::King, c), 0, r.index as int);
        }
        r
    }

    /// Whether a piece of side `c` attacks the square `sq`.
    pub fn is_attacked(&self, sq: Square, c: Color) -> (r: bool)
        requires
            self.consistent(),
            sq.on_board(),
        ensures
            r == attacked(self@.pieces, sq.index as int, c),
    {
        let occ: Bitboard = self.occupied();
        let ghost pieces = self@.pieces;
        let ghost target = sq.index as int;
        let pawns: Bitboard = Attacks::pawn(c.opposite(), sq).and(self.pieces_bb_color(c, PieceType::Pawn));
        if !pawns.is_empty() {
            proof {
                let a = choose|a: int| pawns.has(a);
                assert(attacker(pieces, a, target, c));
            }
            return true;
        }
        let knights: Bitboard = Attacks::knight(sq).and(self.pieces_bb_color(c, PieceType::Knight));
        if !knights.is_empty() {
            proof {
                let a = choose|a: int| knights.has(a);
                assert(attacker(pieces, a, target, c));
            }
            return true;
        }
        let kings: Bitboard = Attacks::king(sq).and(self.pieces_bb_color(c, PieceType::King));
        if !kings.is_empty() {
            proof {
                let a = choose|a: int| kings.has(a);
                assert(attacker(pieces, a, target, c));
            }
            return true;
        }
        let bishops: Bitboard = self.pieces_bb_color(c, PieceType::Bishop);
        let rooks: Bitboard = self.pieces_bb_color(c, PieceType::Rook);
        let queens: Bitboard = self.pieces_bb_color(c, PieceType::Queen);
        let bishops_queens: Bitboard = bishops.or(queens);
        let rooks_queens: Bitboard = rooks.or(queens);
        let diagonal: Bitboard = Attacks::bishop(sq, occ).and(bishops_queens);
        if !diagonal.is_empty() {
            proof {
                let a = choose|a: int| diagonal.has(a);
                assert(bishops_queens.has(a));
                assert(attacker(pieces, a, target, c));
            }
            return true;
        }
        let straight: Bitboard = Attacks::rook(sq, occ).and(rooks_queens);
        if !straight.is_empty() {
            proof {
                let a = choose|a: int| straight.has(a);
                assert(rooks_queens.has(a));
                assert(attacker(pieces, a, target, c));
            }
            return true;
        }
        proof {
            assert forall|a: int| !attacker(pieces, a, target, c) by {
                if 0 <= a < 64 {
                    let p = pieces[a];
                    assert(p.valid());
                    crate::chess::piece::lemma_piece_parts(p);
                    assert(!pawns.has(a));
                    assert(!knights.has(a));
                    assert(!kings.has(a));
                    assert(!diagonal.has(a));
                    assert(!straight.has(a));
                    assert(bishops_queens.has(a) == (bishops.has(a) || queens.has(a)));
                    assert(rooks_queens.has(a) == (rooks.has(a) || queens.has(a)));
                }
            }
        }
        false
    }

    /// Whether the king of side `c` is attacked.
    pub fn is_checked(&self, c: Color) -> (r: bool)
        requires
            self.consistent(),
            has_king(self@.pieces, c),
        ensures
            r == attacked(self@.pieces, king_square(self@.pieces, c), c.flip()),
    {
        self.is_attacked(self.king_sq(c), c.opposite())
    }

    /// The castling rights that a move from or to `sq` takes away.
    fn revoked(sq: Square) -> (r: u8)
        ensures
            r == revoked_by(sq.index as int),
    {
        if sq.index == 4 {
            3
        } else if sq.index == 60 {
            12
        } else if sq.index == 0 {
            2
        } else if sq.index == 7 {
            1
        } else if sq.index == 56 {
            8
        } else if sq.index == 63 {
            4
        } else {
            0
        }
    }

    /// Takes away the castling rights that a move from `from` to `to`
    /// costs.
    fn update_castling_rights(&mut self, from: Square, to: Square)
        ensures
            final(self)@ == (PositionModel {
                castling: rights_after(old(self)@.castling, from.index as int, to.index as int),
                ..old(self)@
            }),
            final(self).consistent() == old(self).consistent(),
    {
        let keep: u8 = !Self::revoked(from) & !Self::revoked(to);
        proof {
            let c = self.castling_rights.0;
            let a = revoked_by(from.index as int);
            let b = revoked_by(to.index as int);
            assert(c & (!a & !b) == c & !a & !b) by (bit_vector);
        }
        self.castling_rights = CastlingRights(self.castling_rights.0 & keep);
    }

    /// Where the rook and the king of side `us` land when castling to
    /// `wing`.
    fn castle_landing(us: Color, wing: CastleType) -> (r: (Square, Square))
        ensures
            r.0.index == castle_squares(us, wing).0,
            r.1.index == castle_squares(us, wing).1,
    {
        match (us, wing) {
            (Color::White, CastleType::Short) => (Square::f1(), Square::g1()),
            (Color::White, CastleType::Long) => (Square::d1(), Square::c1()),
            (Color::Black, CastleType::Short) => (Square::f8(), Square::g8()),
            (Color::Black, CastleType::Long) => (Square::d8(), Square::c8()),
        }
    }

    /// Whether the square `sq` is empty once the squares `a` and `b` have
    /// been cleared.
    fn empty_without(&self, sq: Square, a: Square, b: Square) -> (r: bool)
        requires
            sq.on_board(),
            a.on_board(),
            b.on_board(),
        ensures
            r == self@.pieces.update(a.index as int, Piece { id: 12 }).update(
                b.index as int,
                Piece { id: 12 },
            )[sq.index as int].is_none(),
    {
        sq.index == a.index || sq.index == b.index || self.pieces[sq.index as usize].id == 12
    }

    /// Whether `do_move` can make the move `mv` in this position.
    pub fn is_applicable(&self, mv: Move) -> (r: bool)
        requires
            self.consistent(),
        ensures
            r == self@.admits(mv),
    {
        let from: Square = mv.from;
        let to: Square = mv.to;
        let white_kings: Bitboard = self.pieces_bb_color(Color::White, PieceType::King);
        let black_kings: Bitboard = self.pieces_bb_color(Color::Black, PieceType::King);
        let no_white_king: bool = white_kings.is_empty();
        let no_black_king: bool = black_kings.is_empty();
        proof {
            if !no_white_king {
                let s0 = choose|s: int| white_kings.has(s);
                assert(self@.pieces[s0] == Piece::of(PieceType::King, Color::White));
            }
            if !no_black_king {
                let s0 = choose|s: int| black_kings.has(s);
                assert(self@.pieces[s0] == Piece::of(PieceType::King, Color::Black));
            }
            if has_king(self@.pieces, Color::White) {
                let s0 = choose|s: int| 0 <= s < 64 && #[trigger] self@.pieces[s]
                    == Piece::of(PieceType::King, Color::White);
                assert(white_kings.has(s0));
            }
            if has_king(self@.pieces, Color::Black) {
                let s0 = choose|s: int| 0 <= s < 64 && #[trigger] self@.pieces[s]
                    == Piece::of(PieceType::King, Color::Black);
                assert(black_kings.has(s0));
            }
        }
        if no_white_king || no_black_king {
            return false;
        }
        if from.index >= 64 || to.index >= 64 || from.index == to.index {
            return false;
        }
        let piece: Piece = self.piece_at(from);
        let target: Piece = self.piece_at(to);
        let us: Color = self.stm;
        proof {
            assert(self.pieces@[from.index as int].valid());
            assert(self.pieces@[to.index as int].valid());
            crate::chess::piece::lemma_piece_parts(piece);
            crate::chess::piece::lemma_piece_parts(target);
        }
        if piece.id == 12 || piece.color() != us {
            return false;
        }
        let castle: bool = mv.move_type == MoveType::Castle;
        let capture: bool = target.id != 12 && !castle;
        let kind: PieceType = piece.piece_type();
        if kind != PieceType::Pawn && !capture && self.halfm == u16::MAX {
            return false;
        }
        if us == Color::Black && self.fullm == u16::MAX {
            return false;
        }
        if !castle && target.id != 12 && (target.color() == us || target.piece_type() == PieceType::King) {
            return false;
        }
        match mv.move_type {
            MoveType::Normal => {},
            MoveType::Promotion => {
                let p: Piece = mv.promoted_piece;
                if kind != PieceType::Pawn || p.id >= 12 || p.color() != us || p.piece_type()
                    == PieceType::King {
                    return false;
                }
            },
            MoveType::EnPassant => {
                proof {
                    lemma_xor8(to.index);
                }
                let victim: Square = Square::new(to.index ^ 8);
                if kind != PieceType::Pawn
                    || self.piece_at(victim) != Piece::new(PieceType::Pawn, us.opposite()) {
                    return false;
                }
            },
            MoveType::Castle => {
                let landing: (Square, Square) = Self::castle_landing(us, mv.castle_type());
                if piece != Piece::new(PieceType::King, us) || target != Piece::new(PieceType::Rook, us)
                    || !self.empty_without(landing.0, from, to)
                        || !self.empty_without(landing.1, from, to) {
                    return false;
                }
            },
        }
        if kind == PieceType::Pawn && (to.index == from.index + 16 || from.index == to.index + 16) {
            let middle: Square = Square::new((from.index + to.index) / 2);
            let regular: bool = match us {
                Color::White => from.index / 8 == 1 && to.index == from.index + 16,
                Color::Black => from.index / 8 == 6 && from.index == to.index + 16,
            };
            if mv.move_type != MoveType::Normal || self.piece_at(middle).id != 12 || !regular {
                return false;
            }
        }
        true
    }

    /// Makes the move `mv` for the side to move.
    pub fn do_move(&mut self, mv: Move)
        requires
            old(self).consistent(),
            old(self)@.admits(mv),
        ensures
            final(self).consistent(),
            final(self)@ == old(self)@.after_move(mv),
            has_king(final(self)@.pieces, Color::White),
            has_king(final(self)@.pieces, Color::Black),
    {
        let from: Square = mv.from();
        let to: Square = mv.to();
        let piece: Piece = self.piece_at(from);
        let captured: Piece = self.piece_at(to);
        let us: Color = self.stm;
        let them: Color = us.opposite();
        let genuine_capture: bool = captured.id != 12 && mv.mtype() != MoveType::Castle;
        let ghost before = self@;
        let ghost their_king = choose|s: int| 0 <= s < 64 && #[trigger] before.pieces[s]
            == Piece::of(PieceType::King, them);
        proof {
            assert(self.pieces@[from.index as int].valid());
            assert(self.pieces@[to.index as int].valid());
            crate::chess::piece::lemma_piece_parts(piece);
            crate::chess::piece::lemma_piece_parts(captured);
            assert(has_king(before.pieces, them));
            lemma_move_keeps_kings(before, mv);
        }

        self.remove_piece(us, piece, from);
        if genuine_capture {
            self.remove_piece(them, captured, to);
        }
        match mv.mtype() {
            MoveType::Promotion => {
                self.place_piece(us, mv.promoted_piece(), to);
            },
            MoveType::EnPassant => {
                proof {
                    lemma_xor8(to.index);
                }
                let captured_sq: Square = Square::new(to.index() ^ 8);
                let victim: Piece = self.piece_at(captured_sq);
                self.remove_piece(them, victim, captured_sq);
                self.place_piece(us, piece, to);
            },
            MoveType::Normal => {
                self.place_piece(us, piece, to);
            },
            MoveType::Castle => {
                let landing: (Square, Square) = Self::castle_landing(us, mv.castle_type());
                let rook: Piece = self.piece_at(to);
                self.remove_piece(us, rook, to);
                self.place_piece(us, rook, landing.0);
                self.place_piece(us, piece, landing.1);
            },
        }
        proof {
            assert(self@.pieces =~= before.moved_pieces(mv));
            assert(self@.pieces[their_king] == Piece::of(PieceType::King, them));
        }

        if genuine_capture || piece.piece_type() == PieceType::Pawn {
            self.halfm = 0;
        } else {
            self.halfm = self.halfm + 1;
        }
        if us == Color::Black {
            self.fullm = self.fullm + 1;
        }
        self.update_castling_rights(from, to);
        self.enpassant = Square::none();

        if piece.piece_type() == PieceType::Pawn && (to.index == from.index + 16 || from.index
            == to.index + 16) {
            let ep: Square = Square::new((from.index + to.index) / 2);
            let all: Bitboard = Attacks::pawn(us, ep).and(self.pieces_bb_color(them, PieceType::Pawn));
            let mut candidates: Bitboard = all;
            let mut found: bool = false;
            let ghost mut lo: int = 0;
            let ghost moved = self@.pieces;
            while !found && !candidates.is_empty()
                invariant
                    self.consistent(),
                    self@.pieces == moved,
                    moved == before.moved_pieces(mv),
                    self@ == (PositionModel { ep: self@.ep, ..old(self)@.after_move(mv) }).with_stm(us),
                    0 <= lo <= 64,
                    ep.index == (from.index + to.index) / 2,
                    ep.on_board(),
                    to.on_board(),
                    us == before.stm,
                    them == us.flip(),
                    moved[ep.index as int].is_none(),
                    moved[to.index as int] == piece,
                    piece == Piece::of(PieceType::Pawn, us),
                    moved[their_king] == Piece::of(PieceType::King, them),
                    0 <= their_king < 64,
                    forall|s: int| #[trigger] all.has(s) == (pawn_attacks(us, ep.index as int, s)
                        && 0 <= s < 64 && moved[s] == Piece::of(PieceType::Pawn, them)),
                    forall|s: int| #[trigger] candidates.has(s) == (all.has(s) && s >= lo),
                    !found ==> forall|a: int| 0 <= a < lo
                        ==> !#[trigger] ep_capture_legal(moved, us, a, ep.index as int,
                        to.index as int),
                    found ==> self@.ep == ep
                        && exists|a: int| #[trigger] ep_capture_legal(moved, us, a,
                        ep.index as int, to.index as int),
                    !found ==> self@.ep.is_none(),
                decreases (if found { 0int } else { 1int }) + 64 - lo,
            {
                let enemy_sq: Square = candidates.first();
                let ghost prev = candidates;
                proof {
                    lemma_bit_at_single(candidates.bits, enemy_sq.index as u64);
                }
                candidates = Bitboard::new(candidates.bits ^ (1u64 << (enemy_sq.index as u64)));
                let mut trial: Position = *self;
                let enemy_pawn: Piece = trial.piece_at(enemy_sq);
                trial.remove_piece(them, enemy_pawn, enemy_sq);
                trial.place_piece(them, enemy_pawn, ep);
                trial.remove_piece(us, piece, to);
                proof {
                    assert(trial@.pieces[their_king] == Piece::of(PieceType::King, them));
                    assert(has_king(trial@.pieces, them));
                }
                let checked: bool = trial.is_checked(them);
                proof {
                    assert(ep_capture_legal(moved, us, enemy_sq.index as int, ep.index as int,
                        to.index as int) == !checked);
                    assert forall|a: int| lo <= a < enemy_sq.index
                        implies !#[trigger] ep_capture_legal(moved, us, a, ep.index as int,
                        to.index as int) by {
                        assert(!prev.has(a));
                    }
                    lo = enemy_sq.index + 1;
                }
                if !checked {
                    self.enpassant = ep;
                    found = true;
                }
            }
            proof {
                if !found {
                    assert forall|a: int| !#[trigger] ep_capture_legal(moved, us, a,
                        ep.index as int, to.index as int) by {
                        if a >= lo {
                            assert(!candidates.has(a));
                            assert(candidates.has(a) == (all.has(a) && a >= lo));
                            assert(!all.has(a));
                        }
                    }
                }
            }
        }
        self.stm = them;
    }

    /// Appends the text of the rank `rank` to a string.
    fn push_rank_text(&self, fen: &mut String, rank: u32)
        requires
            self.consistent(),
            rank < 8,
        ensures
            final(fen)@ == old(fen)@ + rank_text(self@.pieces, rank as int, 0, 0),
    {
        let ghost pieces = self@.pieces;
        let ghost start = fen@;
        let mut empty_squares: u8 = 0;
        let mut file: u32 = 0;
        proof {
            assert(fen@ + rank_text(pieces, rank as int, 0, 0) =~= start
                + rank_text(pieces, rank as int, 0, 0));
        }
        while file < 8
            invariant
                file <= 8,
                rank < 8,
                empty_squares <= file,
                self.consistent(),
                pieces == self@.pieces,
                fen@ + rank_text(pieces, rank as int, file as int, empty_squares as int) == start
                    + rank_text(pieces, rank as int, 0, 0),
            decreases 8 - file,
        {
            let square: Square = Square::new(rank * 8 + file);
            let piece: Piece = self.piece_at(square);
            let ghost before = fen@;
            let ghost rest = rank_text(pieces, rank as int, file as int + 1, 0);
            let ghost run = empty_squares as int;
            proof {
                assert(self.pieces@[square.index as int].valid());
            }
            if piece.id == 12 {
                empty_squares = empty_squares + 1;
            } else {
                if empty_squares > 0 {
                    fen.push(digit(empty_squares));
                    empty_squares = 0;
                }
                fen.push(piece_letter(piece));
                proof {
                    assert(fen@ + rest =~= before + (empties_text(run) + seq![piece_char(piece)] + rest));
                }
            }
            file = file + 1;
        }
        let ghost before = fen@;
        if empty_squares > 0 {
            fen.push(digit(empty_squares));
        }
        proof {
            assert(fen@ =~= before + empties_text(empty_squares as int));
        }
    }

    /// Appends the text of the board to a string.
    fn push_board_text(&self, fen: &mut String)
        requires
            self.consistent(),
        ensures
            final(fen)@ == old(fen)@ + board_text(self@.pieces, 8),
    {
        let ghost pieces = self@.pieces;
        let ghost start = fen@;
        let mut rank: u32 = 8;
        while rank > 0
            invariant
                rank <= 8,
                self.consistent(),
                pieces == self@.pieces,
                fen@ + board_text(pieces, rank as int) == start + board_text(pieces, 8),
            decreases rank,
        {
            rank = rank - 1;
            let ghost before = fen@;
            self.push_rank_text(fen, rank);
            if rank > 0 {
                fen.push('/');
            }
            proof {
                assert(fen@ + board_text(pieces, rank as int) =~= before
                    + board_text(pieces, rank as int + 1));
            }
        }
        proof {
            assert(fen@ =~= fen@ + board_text(pieces, 0));
        }
    }

    /// Appends the text of the castling rights to a string.
    fn push_castling_text(&self, fen: &mut String)
        ensures
            final(fen)@ == old(fen)@ + castling_text(self@.castling),
    {
        let ghost head = fen@;
        let castling: CastlingRights = self.castling_rights();
        if castling.0 == 0 {
            fen.push('-');
        } else {
            proof {
                lemma_byte_bits();
            }
            if castling.contains(CastlingRights::white_king_side()) {
                fen.push('K');
            }
            if castling.contains(CastlingRights::white_queen_side()) {
                fen.push('Q');
            }
            if castling.contains(CastlingRights::black_king_side()) {
                fen.push('k');
            }
            if castling.contains(CastlingRights::black_queen_side()) {
                fen.push('q');
            }
        }
        proof {
            assert(fen@ =~= head + castling_text(castling));
        }
    }

    /// The position as text.
    pub fn fen(&self) -> (r: String)
        requires
            self.consistent(),
            self@.ep.index <= 64,
        ensures
            r@ == fen_text(self@),
    {
        let mut fen: String = String::new();
        self.push_board_text(&mut fen);
        fen.push(' ');
        fen.push(if self.stm == Color::White { 'w' } else { 'b' });
        fen.push(' ');
        self.push_castling_text(&mut fen);
        fen.push(' ');
        let ghost head = fen@;
        if self.enpassant.index == 64 {
            fen.push('-');
        } else {
            fen.push(self.enpassant.file().letter());
            fen.push(digit((self.enpassant.index / 8 + 1) as u8));
        }
        proof {
            assert(fen@ =~= head + ep_text(self@.ep));
        }
        fen.push(' ');
        push_decimal(&mut fen, self.halfm);
        fen.push(' ');
        push_decimal(&mut fen, self.fullm);
        proof {
            assert(fen@ =~= fen_text(self@));
        }
        fen
    }

    /// Whether the two positions are the same: piece by piece, and in the
    /// side to move, the castling rights, the en-passant square and the
    /// counters.
    pub fn same_as(&self, other: &Position) -> (r: bool)
        ensures
            r == (self@ == other@),
    {
        if self.stm != other.stm || self.castling_rights.0 != other.castling_rights.0
            || self.enpassant.index != other.enpassant.index || self.halfm != other.halfm || self.fullm
            != other.fullm {
            return false;
        }
        let mut s: usize = 0;
        while s < 64
            invariant
                s <= 64,
                forall|t: int| 0 <= t < s ==> self.pieces@[t] == other.pieces@[t],
            decreases 64 - s,
        {
            if self.pieces[s].id != other.pieces[s].id {
                return false;
            }
            s = s + 1;
        }
        proof {
            assert(self.pieces@ =~= other.pieces@);
        }
        true
    }
}

} // verus!
