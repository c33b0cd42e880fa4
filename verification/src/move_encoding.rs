//! How a move is numbered within a position: the moving piece by its rank
//! among the pieces of the side to move, the move by its rank among the
//! moves that the piece has.

use crate::arithmetic::{
    bit_at, count_below, lemma_bit_ops, lemma_bit_shifts, pow2, unzigzag, used_bits_spec, zigzag,
};
use crate::bitstream::{
    bits_value, holds_at, lemma_holds_at_split, lemma_read_back, lemma_vle_read_back, value_bits,
    vle_bits, vle_read, vle_stop,
};
use crate::chess::attacks::{pawn_attacks, piece_attacks_spec, Attacks};
use crate::chess::bitboard::Bitboard;
use crate::chess::castling_rights::{CastleType, CastlingRights};
use crate::chess::chess_move::{Move, MoveType};
use crate::chess::color::Color;
use crate::chess::coords::Square;
use crate::chess::piece::Piece;
use crate::chess::piecetype::PieceType;
use crate::chess::position::{
    forward, occupied_squares, promotion_rank, start_rank, Position, PositionModel,
};
use vstd::prelude::*;

verus! {

/// Number of squares below `n` of which `p` holds.
pub open spec fn count_where(p: spec_fn(int) -> bool, n: int) -> int
    decreases n,
{
    if n <= 0 {
        0
    } else {
        count_where(p, n - 1) + if p(n - 1) {
            1int
        } else {
            0int
        }
    }
}

/// The square below `n` of which `p` holds and that has exactly `k` such
/// squares below it, or 64 if there is none.
pub open spec fn nth_where(p: spec_fn(int) -> bool, k: int, n: int) -> int
    decreases n,
{
    if n <= 0 {
        64
    } else if p(n - 1) && count_where(p, n - 1) == k {
        n - 1
    } else {
        nth_where(p, k, n - 1)
    }
}

/// A set of squares has as many members below `n` as there are squares
/// below `n` of which its membership holds.
pub proof fn lemma_count_where_bits(v: u64, p: spec_fn(int) -> bool, n: int)
    requires
        0 <= n <= 64,
        forall|s: int| 0 <= s < n ==> #[trigger] bit_at(v, s) == p(s),
    ensures
        count_below(v, n as nat) == count_where(p, n),
        0 <= count_where(p, n) <= n,
    decreases n,
{
    if n > 0 {
        lemma_count_where_bits(v, p, n - 1);
        assert(bit_at(v, n - 1) == p(n - 1));
    }
}

/// The member of a set that has `k` members below it is the square that
/// `nth_where` finds.
pub proof fn lemma_nth_where_bits(v: u64, p: spec_fn(int) -> bool, k: int, r: int, n: int)
    requires
        0 <= r < n <= 64,
        forall|s: int| 0 <= s < 64 ==> #[trigger] bit_at(v, s) == p(s),
        bit_at(v, r),
        count_below(v, r as nat) == k,
    ensures
        nth_where(p, k, n) == r,
    decreases n,
{
    lemma_count_where_bits(v, p, n - 1);
    lemma_count_where_bits(v, p, r);
    if n - 1 > r {
        crate::arithmetic::lemma_count_below_bounds(v, (r + 1) as nat, (n - 1) as nat);
        assert(bit_at(v, n - 1) == p(n - 1));
        lemma_nth_where_bits(v, p, k, r, n - 1);
    } else {
        assert(bit_at(v, r) == p(r));
    }
}

/// A set that is the part below `k` of another has as many members as the
/// other has below `k`.
pub proof fn lemma_count_masked(v: u64, w: u64, k: int, n: int)
    requires
        0 <= k <= 64,
        0 <= n <= 64,
        forall|s: int| 0 <= s < 64 ==> #[trigger] bit_at(w, s) == (bit_at(v, s) && s < k),
    ensures
        count_below(w, n as nat) == count_below(v, (if n < k { n } else { k }) as nat),
    decreases n,
{
    if n > 0 {
        lemma_count_masked(v, w, k, n - 1);
        assert(bit_at(w, n - 1) == (bit_at(v, n - 1) && n - 1 < k));
    }
}

/// A set that lacks the square `f` has at most 63 members.
pub proof fn lemma_count_without(v: u64, f: int, n: int)
    requires
        0 <= f < 64,
        0 <= n <= 64,
        !bit_at(v, f),
    ensures
        count_below(v, n as nat) <= (if n > f { n - 1 } else { n }),
    decreases n,
{
    if n > 0 {
        lemma_count_without(v, f, n - 1);
    }
}

/// Whether the square `s` holds a piece of the side to move.
pub open spec fn own(m: PositionModel, s: int) -> bool {
    0 <= s < 64 && !m.pieces[s].is_none() && m.pieces[s].side() == m.stm
}

/// Whether the square `s` holds a piece of the side that is not to move.
pub open spec fn enemy(m: PositionModel, s: int) -> bool {
    0 <= s < 64 && !m.pieces[s].is_none() && m.pieces[s].side() != m.stm
}

/// Whether the square `s` is empty.
pub open spec fn vacant(m: PositionModel, s: int) -> bool {
    0 <= s < 64 && m.pieces[s].is_none()
}

/// Whether a pawn of the side to move on `f` may go to `t`: by capturing a
/// piece of the other side or onto the en-passant square, by one step onto
/// an empty square, or from its starting rank by two steps over empty
/// squares.
pub open spec fn pawn_dest(m: PositionModel, f: int, t: int) -> bool {
    let fwd = forward(m.stm);
    0 <= t < 64 && ((pawn_attacks(m.stm, f, t) && (enemy(m, t) || t == m.ep.index)) || (t == f + fwd
        && vacant(m, t)) || (f / 8 == start_rank(m.stm) && t == f + 2 * fwd && vacant(m, f + fwd)
        && vacant(m, t)))
}

/// Whether the piece on `f` has the square `t` among its moves, castling
/// apart: a square that it attacks and that no piece of its own side
/// holds, or for a pawn a square that it may go to. Moves that leave the
/// own king attacked are counted too.
pub open spec fn is_dest(m: PositionModel, f: int, t: int) -> bool {
    match m.pieces[f].kind() {
        PieceType::Pawn => pawn_dest(m, f, t),
        PieceType::Empty => false,
        kind => piece_attacks_spec(kind, f, occupied_squares(m.pieces), t) && !own(m, t),
    }
}

/// Number of castling rights that the side to move holds.
pub open spec fn castle_count(m: PositionModel) -> int {
    let base = if m.stm == Color::White {
        0
    } else {
        2
    };
    (if m.castling.has(base) {
        1int
    } else {
        0int
    }) + (if m.castling.has(base + 1) {
        1int
    } else {
        0int
    })
}

/// Whether the side to move holds the right to castle long.
pub open spec fn long_held(m: PositionModel) -> bool {
    m.castling.has(CastlingRights::right_index(m.stm, CastleType::Long))
}

/// Whether the side to move holds the right to castle short.
pub open spec fn short_held(m: PositionModel) -> bool {
    m.castling.has(CastlingRights::right_index(m.stm, CastleType::Short))
}

/// Number of moves of the piece on `f`: for a pawn that is about to
/// promote four for each square it may go to; for a king one for each
/// square and one for each castling right; else one for each square.
pub open spec fn move_count(m: PositionModel, f: int) -> int {
    let squares = count_where(|t: int| is_dest(m, f, t), 64);
    match m.pieces[f].kind() {
        PieceType::Pawn => if f / 8 == promotion_rank(m.stm) {
            4 * squares
        } else {
            squares
        },
        PieceType::King => squares + castle_count(m),
        _ => squares,
    }
}

/// The number of the piece on `f` among the pieces of the side to move.
pub open spec fn piece_index(m: PositionModel, f: int) -> int {
    count_where(|s: int| own(m, s), f)
}

/// Number of pieces of the side to move.
pub open spec fn piece_count(m: PositionModel) -> int {
    count_where(|s: int| own(m, s), 64)
}

/// Whether the move is one that can be numbered: it is the move of a piece
/// of the side to move to a square among its moves; with a pawn that is
/// about to promote a promotion to knight, bishop, rook or queen of its
/// side, with any other pawn a normal move or, onto the en-passant square,
/// a capture in passing; with a king a normal move or castling to a wing
/// for which the right is held; with any other piece a normal move.
pub open spec fn encodable(m: PositionModel, mv: Move) -> bool {
    let f = mv.from.index as int;
    let t = mv.to.index as int;
    &&& m.ep.index <= 64
    &&& own(m, f)
    &&& match m.pieces[f].kind() {
        PieceType::Pawn => is_dest(m, f, t) && 0 <= t < 64 && if f / 8 == promotion_rank(m.stm) {
            mv.move_type == MoveType::Promotion && 1 <= mv.promoted_piece.kind().index() <= 4
                && mv.promoted_piece == Piece::of(mv.promoted_piece.kind(), m.stm)
        } else {
            mv.promoted_piece.is_none() && mv.move_type == (if t == m.ep.index {
                MoveType::EnPassant
            } else {
                MoveType::Normal
            })
        },
        PieceType::King => if mv.move_type == MoveType::Castle {
            (mv == Move::castle_spec(CastleType::Long, m.stm) && long_held(m)) || (mv
                == Move::castle_spec(CastleType::Short, m.stm) && short_held(m))
        } else {
            mv.move_type == MoveType::Normal && mv.promoted_piece.is_none() && 0 <= t < 64 && is_dest(
                m,
                f,
                t,
            )
        },
        _ => mv.move_type == MoveType::Normal && mv.promoted_piece.is_none() && 0 <= t < 64 && is_dest(
            m,
            f,
            t,
        ),
    }
}

/// The number of the move among the moves of its piece: the rank of its
/// target among the squares the piece may go to; for the pawn that
/// promotes four times that, plus 0 to 3 for knight, bishop, rook, queen;
/// for castling long the number of squares the king may go to, and for
/// castling short one more if the right to castle long is held too.
pub open spec fn move_index(m: PositionModel, mv: Move) -> int {
    let f = mv.from.index as int;
    let t = mv.to.index as int;
    let rank = count_where(|s: int| is_dest(m, f, s), t);
    match m.pieces[f].kind() {
        PieceType::Pawn => if f / 8 == promotion_rank(m.stm) {
            4 * rank + mv.promoted_piece.kind().index() - 1
        } else {
            rank
        },
        PieceType::King => if mv.move_type == MoveType::Castle {
            count_where(|s: int| is_dest(m, f, s), 64) + (if mv.wing() == CastleType::Short
                && long_held(m) {
                1int
            } else {
                0int
            })
        } else {
            rank
        },
        _ => rank,
    }
}

/// The move with the number `move_id` among the moves of the piece on `f`.
pub open spec fn move_at(m: PositionModel, f: int, move_id: int) -> Move {
    let dest = |s: int| is_dest(m, f, s);
    let none = Piece { id: 12 };
    let from = Square { index: f as u32 };
    match m.pieces[f].kind() {
        PieceType::Pawn => if f / 8 == promotion_rank(m.stm) {
            Move {
                from,
                to: Square { index: nth_where(dest, move_id / 4, 64) as u32 },
                move_type: MoveType::Promotion,
                promoted_piece: Piece::of(PieceType::of_index(move_id % 4 + 1), m.stm),
            }
        } else {
            let to = nth_where(dest, move_id, 64);
            Move {
                from,
                to: Square { index: to as u32 },
                move_type: if to == m.ep.index {
                    MoveType::EnPassant
                } else {
                    MoveType::Normal
                },
                promoted_piece: none,
            }
        },
        PieceType::King => {
            let squares = count_where(dest, 64);
            if move_id >= squares {
                Move::castle_spec(
                    if move_id == squares && long_held(m) {
                        CastleType::Long
                    } else {
                        CastleType::Short
                    },
                    m.stm,
                )
            } else {
                Move {
                    from,
                    to: Square { index: nth_where(dest, move_id, 64) as u32 },
                    move_type: MoveType::Normal,
                    promoted_piece: none,
                }
            }
        },
        _ => Move {
            from,
            to: Square { index: nth_where(dest, move_id, 64) as u32 },
            move_type: MoveType::Normal,
            promoted_piece: none,
        },
    }
}

/// The squares with an index below that of `sq`.
pub fn before(sq: Square) -> (r: Bitboard)
    requires
        sq.index <= 64,
    ensures
        forall|s: int| #[trigger] r.has(s) == (0 <= s < sq.index),
{
    proof {
        lemma_bit_ops();
        lemma_bit_shifts();
    }
    if sq.index >= 64 {
        proof {
            assert forall|s: int| #[trigger] bit_at(!0u64, s) == (0 <= s < 64) by {}
        }
        Bitboard::new(!0u64)
    } else {
        let up: u64 = (!0u64) << (sq.index as u64);
        proof {
            assert forall|s: int| #[trigger] bit_at(!up, s) == (0 <= s < sq.index) by {
                if 0 <= s < 64 {
                    assert(bit_at(up, s) == (s >= sq.index && bit_at(!0u64, s - sq.index)));
                }
            }
        }
        Bitboard::new(!up)
    }
}

/// The squares that the piece on `from` may go to, castling apart.
pub fn destinations(pos: &Position, from: Square) -> (r: Bitboard)
    requires
        pos.consistent(),
        from.on_board(),
        pos@.ep.index <= 64,
    ensures
        forall|t: int| #[trigger] r.has(t) == is_dest(pos@, from.index as int, t),
        own(pos@, from.index as int) ==> !r.has(from.index as int),
{
    let us: Color = pos.side_to_move();
    let ours: Bitboard = pos.pieces_bb(us);
    let theirs: Bitboard = pos.pieces_bb(us.opposite());
    let occupied: Bitboard = pos.occupied();
    let piece: Piece = pos.piece_at(from);
    proof {
        assert(pos.pieces@[from.index as int].valid());
        crate::chess::piece::lemma_piece_parts(piece);
    }
    let kind: PieceType = piece.piece_type();
    match kind {
        PieceType::Pawn => {
            let ep: Square = pos.ep_square();
            let mut targets: Bitboard = theirs;
            if ep.index != 64 {
                targets = targets.or(Bitboard::from_square(ep));
            }
            let mut result: Bitboard = Attacks::pawn(us, from).and(targets);
            let step: i32 = match us {
                Color::White => 1,
                Color::Black => -1,
            };
            let start: u32 = match us {
                Color::White => 1,
                Color::Black => 6,
            };
            match from.offset(0, step) {
                Some(one) => {
                    if !occupied.sq_set(one) {
                        result = result.or(Bitboard::from_square(one));
                        if from.index / 8 == start {
                            match one.offset(0, step) {
                                Some(two) => {
                                    if !occupied.sq_set(two) {
                                        result = result.or(Bitboard::from_square(two));
                                    }
                                },
                                None => {},
                            }
                        }
                    }
                },
                None => {},
            }
            proof {
                assert forall|t: int| #[trigger] result.has(t) == is_dest(pos@, from.index as int, t) by {
                    if 0 <= t < 64 {
                        assert(pos.pieces@[t].valid());
                        assert(theirs.has(t) == enemy(pos@, t));
                        assert(occupied.has(t) == !pos@.pieces[t].is_none());
                    }
                }
            }
            result
        },
        PieceType::Empty => Bitboard::empty(),
        _ => {
            let attacks: Bitboard = Attacks::piece_attacks(kind, from, occupied);
            let result: Bitboard = attacks.and(ours.not());
            proof {
                assert forall|t: int| #[trigger] result.has(t) == is_dest(pos@, from.index as int, t) by {
                    assert(attacks.has(t) == piece_attacks_spec(kind, from.index as int, occupied@, t));
                    assert(pos@.pieces[from.index as int].kind() == kind);
                    if 0 <= t < 64 {
                        assert(pos.pieces@[t].valid());
                        assert(ours.has(t) == own(pos@, t));
                        assert(result.has(t) == (attacks.has(t) && !ours.has(t)));
                    }
                }
                if own(pos@, from.index as int) {
                    assert(ours.has(from.index as int));
                }
            }
            result
        },
    }
}

/// The bits that stand for one ply: the number of the moving piece in as
/// many bits as the count of pieces takes, the number of the move in as
/// many bits as the count of the piece's moves takes, and the zig-zag code
/// of the score's distance from `last_score` in variable-length form with
/// blocks of four bits. The distance is taken in 16-bit arithmetic that
/// wraps around.
pub open spec fn ply_bits(m: PositionModel, mv: Move, score: i16, last_score: i16) -> Seq<bool> {
    let f = mv.from.index as int;
    value_bits(piece_index(m, f) as u8, used_bits_spec(piece_count(m) as nat) as int) + value_bits(
        move_index(m, mv) as u8,
        used_bits_spec(move_count(m, f) as nat) as int,
    ) + vle_bits(zigzag(score.wrapping_sub(last_score) as int) as u16, 4)
}

/// The move that the stream holds from bit `p` on, and the place after it;
/// or nothing, where the stream ends too early, or where it names a piece
/// or a move that the position does not have.
pub open spec fn read_move(m: PositionModel, bytes: Seq<u8>, p: int) -> Option<(Move, int)> {
    let pieces = piece_count(m);
    let w1 = used_bits_spec(pieces as nat) as int;
    let piece_id = bits_value(bytes, p, w1);
    let f = nth_where(|s: int| own(m, s), piece_id, 64);
    let moves = move_count(m, f);
    let w2 = used_bits_spec(moves as nat) as int;
    let move_id = bits_value(bytes, p + w1, w2);
    if m.ep.index > 64 || p + w1 > 8 * bytes.len() || piece_id >= pieces || p + w1 + w2 > 8
        * bytes.len() || move_id >= moves {
        None
    } else {
        Some((move_at(m, f, move_id), p + w1 + w2))
    }
}

/// The move and the score that the stream holds from bit `p` on, and the
/// place after them; or nothing, where the stream does not hold them. The
/// score is `last_score` plus the distance that the stream gives, in 16-bit
/// arithmetic that wraps around.
pub open spec fn read_ply(m: PositionModel, bytes: Seq<u8>, p: int, last_score: i16) -> Option<
    (Move, i16, int),
> {
    match read_move(m, bytes, p) {
        None => None,
        Some((mv, then)) => match vle_read(bytes, then, 4, 0, 0) {
            None => None,
            Some((delta, end)) => Some((mv, last_score.wrapping_add(unzigzag(delta as int) as i16), end)),
        },
    }
}

/// The place at which reading a move from bit `p` on stops, whether it
/// gives a move or not: after the fields that the stream holds whole.
pub open spec fn read_move_stop(m: PositionModel, bytes: Seq<u8>, p: int) -> int {
    let pieces = piece_count(m);
    let w1 = used_bits_spec(pieces as nat) as int;
    let piece_id = bits_value(bytes, p, w1);
    let f = nth_where(|s: int| own(m, s), piece_id, 64);
    let w2 = used_bits_spec(move_count(m, f) as nat) as int;
    if m.ep.index > 64 || p + w1 > 8 * bytes.len() {
        p
    } else if piece_id >= pieces || p + w1 + w2 > 8 * bytes.len() {
        p + w1
    } else {
        p + w1 + w2
    }
}

/// The place at which reading a move and its score from bit `p` on stops,
/// whether it gives them or not.
pub open spec fn read_ply_stop(m: PositionModel, bytes: Seq<u8>, p: int) -> int {
    match read_move(m, bytes, p) {
        None => read_move_stop(m, bytes, p),
        Some((mv, then)) => vle_stop(bytes, then, 4, 0),
    }
}

/// A count below 256 takes at most eight bits.
pub proof fn lemma_width_le8(n: nat)
    requires
        n < 256,
    ensures
        used_bits_spec(n) <= 8,
{
    assert(pow2(8) == 256) by {
        reveal_with_fuel(pow2, 9);
    }
    crate::arithmetic::lemma_used_bits_le(n, 8);
}

/// The count of squares of which `p` holds grows with the bound, by at most
/// one for each square.
pub proof fn lemma_count_where_bounds(p: spec_fn(int) -> bool, j: int, k: int)
    requires
        0 <= j <= k,
    ensures
        0 <= count_where(p, j) <= count_where(p, k) <= count_where(p, j) + (k - j),
        count_where(p, j) <= j,
    decreases k,
{
    if k > j {
        lemma_count_where_bounds(p, j, k - 1);
    } else if k > 0 {
        lemma_count_where_bounds(p, j - 1, k - 1);
    }
}

/// A square of which `p` holds is the one that `nth_where` finds for the
/// count of such squares below it.
pub proof fn lemma_nth_where_inverse(p: spec_fn(int) -> bool, f: int, n: int)
    requires
        0 <= f < n,
        p(f),
    ensures
        nth_where(p, count_where(p, f), n) == f,
        count_where(p, f) < count_where(p, n),
    decreases n,
{
    if n - 1 > f {
        lemma_count_where_bounds(p, f + 1, n - 1);
        lemma_nth_where_inverse(p, f, n - 1);
    }
}

/// Where `p` does not hold of the square `f`, it holds of fewer squares
/// below `n` than there are.
pub proof fn lemma_count_where_without(p: spec_fn(int) -> bool, f: int, n: int)
    requires
        0 <= f,
        0 <= n,
        !p(f),
    ensures
        count_where(p, n) <= (if n > f { n - 1 } else { n }),
    decreases n,
{
    if n > 0 {
        lemma_count_where_without(p, f, n - 1);
    }
}

/// A value that fits in `w` bits is its own low `w` bits.
proof fn lemma_fits(x: u8, w: u8)
    by (bit_vector)
    requires
        1 <= w <= 8,
    ensures
        ((x as u16) < (1u16 << w)) ==> (x & (0xFFu8 >> ((8 - w) as u8))) == x,
        w == 1 ==> (1u16 << w) == 2,
        w == 2 ==> (1u16 << w) == 4,
        w == 3 ==> (1u16 << w) == 8,
        w == 4 ==> (1u16 << w) == 16,
        w == 5 ==> (1u16 << w) == 32,
        w == 6 ==> (1u16 << w) == 64,
        w == 7 ==> (1u16 << w) == 128,
        w == 8 ==> (1u16 << w) == 256,
{
}

/// A number that is read in variable-length form starts from nothing.
proof fn lemma_vle_start(z: u16)
    by (bit_vector)
    ensures
        (z << 0u8) >> 0u8 == z,
        (0u16 | (z << 0u8)) == z,
{
}

/// Where the stream holds a number below `count` in as many bits as
/// `count` takes, reading those bits gives the number.
pub proof fn lemma_field_read_back(bytes: Seq<u8>, p: int, x: int, count: int)
    requires
        0 <= x < count < 256,
        holds_at(bytes, p, value_bits(x as u8, used_bits_spec(count as nat) as int)),
    ensures
        1 <= used_bits_spec(count as nat) <= 8,
        bits_value(bytes, p, used_bits_spec(count as nat) as int) == x,
{
    let w = used_bits_spec(count as nat);
    lemma_width_le8(count as nat);
    crate::arithmetic::lemma_used_bits_range(count as nat);
    assert(pow2(8) == 256 && pow2(7) == 128 && pow2(6) == 64 && pow2(5) == 32 && pow2(4) == 16 && pow2(3)
        == 8 && pow2(2) == 4 && pow2(1) == 2) by {
        reveal_with_fuel(pow2, 9);
    }
    lemma_fits(x as u8, w as u8);
    lemma_read_back(bytes, p, x as u8, w as int);
}

/// Reading back a ply that was written: where the stream holds the bits
/// of a move that can be numbered in the position, and of its score,
/// reading gives that move, that score, and the place after the bits.
pub proof fn lemma_ply_read_back(
    m: PositionModel,
    mv: Move,
    score: i16,
    last_score: i16,
    bytes: Seq<u8>,
    p: int,
)
    requires
        encodable(m, mv),
        holds_at(bytes, p, ply_bits(m, mv, score, last_score)),
    ensures
        read_ply(m, bytes, p, last_score) == Some((mv, score, p
            + ply_bits(m, mv, score, last_score).len())),
{
    let f = mv.from.index as int;
    let t = mv.to.index as int;
    let mine = |s: int| own(m, s);
    let dest = |s: int| is_dest(m, f, s);
    let pieces = piece_count(m);
    let moves = move_count(m, f);
    let w1 = used_bits_spec(pieces as nat) as int;
    let w2 = used_bits_spec(moves as nat) as int;
    let a = value_bits(piece_index(m, f) as u8, w1);
    let b = value_bits(move_index(m, mv) as u8, w2);
    let z = zigzag(score.wrapping_sub(last_score) as int) as u16;
    let c = vle_bits(z, 4);
    crate::arithmetic::lemma_zigzag_laws(score.wrapping_sub(last_score) as int, 0);
    lemma_holds_at_split(bytes, p, a + b, c);
    lemma_holds_at_split(bytes, p, a, b);

    // the piece
    assert(mine(f));
    lemma_nth_where_inverse(mine, f, 64);
    lemma_count_where_bounds(mine, 0, 64);
    lemma_count_where_bounds(mine, 0, f);
    lemma_field_read_back(bytes, p, piece_index(m, f), pieces);

    // the move
    assert(!dest(f));
    lemma_count_where_without(dest, f, 64);
    lemma_count_where_bounds(dest, 0, 64);
    let squares = count_where(dest, 64);
    if m.pieces[f].kind() == PieceType::King && mv.move_type == MoveType::Castle {
    } else {
        assert(dest(t));
        lemma_nth_where_inverse(dest, t, 64);
        lemma_count_where_bounds(dest, 0, t);
    }
    assert(0 <= move_index(m, mv) < moves < 256);
    lemma_field_read_back(bytes, p + w1, move_index(m, mv), moves);
    assert(move_at(m, f, move_index(m, mv)) == mv);
    assert(read_move(m, bytes, p) == Some((mv, p + w1 + w2)));

    // the score
    lemma_vle_start(z);
    lemma_vle_read_back(bytes, p + w1 + w2, z, 4, 0, 0);
    assert((a + b + c).len() == w1 + w2 + c.len());
}

/// The bits that stand for the plies of a game from the position `m` on,
/// each ply a move with its score, when the score before, negated, was
/// `last_score`: the bits of the first ply, then those of the others from
/// the position after its move on.
pub open spec fn game_bits(m: PositionModel, last_score: i16, plies: Seq<(Move, i16)>) -> Seq<bool>
    decreases plies.len(),
{
    if plies.len() == 0 {
        Seq::empty()
    } else {
        ply_bits(m, plies[0].0, plies[0].1, last_score) + game_bits(
            m.after_move(plies[0].0),
            0i16.wrapping_sub(plies[0].1),
            plies.subrange(1, plies.len() as int),
        )
    }
}

/// Whether each ply of the game can be written and, but for the last, made:
/// its move can be numbered in its position, and the move of every ply
/// that has another after it can be made.
pub open spec fn game_playable(m: PositionModel, plies: Seq<(Move, i16)>) -> bool
    decreases plies.len(),
{
    plies.len() == 0 || (encodable(m, plies[0].0) && (plies.len() == 1 || (m.admits(plies[0].0)
        && game_playable(m.after_move(plies[0].0), plies.subrange(1, plies.len() as int)))))
}

/// The `n` plies that the stream holds from bit `p` on for a game that
/// goes on from the position `m`, and the place after them: each ply is
/// read in the position after the move of the ply before. Nothing, where
/// the stream does not hold a ply, or where the move of a ply that has
/// another after it cannot be made.
pub open spec fn read_game(m: PositionModel, bytes: Seq<u8>, p: int, last_score: i16, n: nat) -> Option<
    (Seq<(Move, i16)>, int),
>
    decreases n,
{
    if n == 0 {
        Some((Seq::empty(), p))
    } else {
        match read_ply(m, bytes, p, last_score) {
            None => None,
            Some((mv, score, next)) => if n == 1 {
                Some((seq![(mv, score)], next))
            } else if !m.admits(mv) {
                None
            } else {
                match read_game(m.after_move(mv), bytes, next, 0i16.wrapping_sub(score), (n - 1) as nat) {
                    None => None,
                    Some((rest, end)) => Some((seq![(mv, score)] + rest, end)),
                }
            },
        }
    }
}

/// Reading back the plies of a game that were written: where the stream
/// holds the bits of plies that can be written and made, reading as many
/// plies gives these plies, and the place after their bits.
pub proof fn lemma_game_read_back(
    m: PositionModel,
    last_score: i16,
    plies: Seq<(Move, i16)>,
    bytes: Seq<u8>,
    p: int,
)
    requires
        game_playable(m, plies),
        holds_at(bytes, p, game_bits(m, last_score, plies)),
    ensures
        read_game(m, bytes, p, last_score, plies.len()) == Some(
            (plies, p + game_bits(m, last_score, plies).len()),
        ),
    decreases plies.len(),
{
    if plies.len() == 0 {
        assert(plies =~= Seq::<(Move, i16)>::empty());
    } else {
        let (mv, score) = plies[0];
        let rest = plies.subrange(1, plies.len() as int);
        let head = ply_bits(m, mv, score, last_score);
        let after = m.after_move(mv);
        let negated = 0i16.wrapping_sub(score);
        let tail = game_bits(after, negated, rest);
        lemma_holds_at_split(bytes, p, head, tail);
        lemma_ply_read_back(m, mv, score, last_score, bytes, p);
        if plies.len() == 1 {
            assert(rest =~= Seq::<(Move, i16)>::empty());
            assert(tail =~= Seq::<bool>::empty());
            assert(plies =~= seq![(mv, score)]);
        } else {
            lemma_game_read_back(after, negated, rest, bytes, p + head.len());
            assert(plies =~= seq![(mv, score)] + rest);
        }
    }
}

} // verus!
