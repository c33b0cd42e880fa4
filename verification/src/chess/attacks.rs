//! The squares that a piece attacks from a square.

use crate::arithmetic::{bit_at, lemma_bit_ops};
use crate::chess::bitboard::Bitboard;
use crate::chess::color::Color;
use crate::chess::coords::Square;
use crate::chess::piecetype::PieceType;
use vstd::prelude::*;

verus! {

/// Whether file `f` and rank `r` name a square of the board.
pub open spec fn on_board(f: int, r: int) -> bool {
    0 <= f < 8 && 0 <= r < 8
}

/// Whether a pawn of side `c` on square `s` attacks square `t`: one rank
/// ahead, one file to either side.
pub open spec fn pawn_attacks(c: Color, s: int, t: int) -> bool {
    let ahead = if c == Color::White {
        1
    } else {
        -1
    };
    0 <= t < 64 && t / 8 == s / 8 + ahead && (t % 8 == s % 8 + 1 || t % 8 == s % 8 - 1)
}

/// Whether a knight on square `s` attacks square `t`.
pub open spec fn knight_attacks(s: int, t: int) -> bool {
    let df = t % 8 - s % 8;
    let dr = t / 8 - s / 8;
    0 <= t < 64 && (((df == 1 || df == -1) && (dr == 2 || dr == -2)) || ((df == 2 || df == -2) && (dr
        == 1 || dr == -1)))
}

/// Whether a king on square `s` attacks square `t`.
pub open spec fn king_attacks(s: int, t: int) -> bool {
    let df = t % 8 - s % 8;
    let dr = t / 8 - s / 8;
    0 <= t < 64 && t != s && -1 <= df <= 1 && -1 <= dr <= 1
}

/// Whether a piece that slides from file `f`, rank `r` in steps of
/// (`df`, `dr`) reaches square `t` within `steps` steps: it enters every
/// square on its way, and stops on the first one that is in `occ`.
pub open spec fn slides(f: int, r: int, df: int, dr: int, occ: Set<int>, t: int, steps: nat) -> bool
    decreases steps,
{
    let nf = f + df;
    let nr = r + dr;
    steps > 0 && on_board(nf, nr) && (t == nr * 8 + nf || (!occ.contains(nr * 8 + nf) && slides(
        nf,
        nr,
        df,
        dr,
        occ,
        t,
        (steps - 1) as nat,
    )))
}

/// Whether a bishop on square `s` attacks square `t` when the squares in
/// `occ` are occupied.
pub open spec fn bishop_attacks(s: int, occ: Set<int>, t: int) -> bool {
    slides(s % 8, s / 8, 1, 1, occ, t, 7) || slides(s % 8, s / 8, 1, -1, occ, t, 7) || slides(
        s % 8,
        s / 8,
        -1,
        1,
        occ,
        t,
        7,
    ) || slides(s % 8, s / 8, -1, -1, occ, t, 7)
}

/// Whether a rook on square `s` attacks square `t` when the squares in
/// `occ` are occupied.
pub open spec fn rook_attacks(s: int, occ: Set<int>, t: int) -> bool {
    slides(s % 8, s / 8, 1, 0, occ, t, 7) || slides(s % 8, s / 8, -1, 0, occ, t, 7) || slides(
        s % 8,
        s / 8,
        0,
        1,
        occ,
        t,
        7,
    ) || slides(s % 8, s / 8, 0, -1, occ, t, 7)
}

/// Whether a piece of kind `pt` other than a pawn, standing on square `s`,
/// attacks square `t` when the squares in `occ` are occupied.
pub open spec fn piece_attacks_spec(pt: PieceType, s: int, occ: Set<int>, t: int) -> bool {
    match pt {
        PieceType::Knight => knight_attacks(s, t),
        PieceType::Bishop => bishop_attacks(s, occ, t),
        PieceType::Rook => rook_attacks(s, occ, t),
        PieceType::Queen => bishop_attacks(s, occ, t) || rook_attacks(s, occ, t),
        PieceType::King => king_attacks(s, t),
        _ => false,
    }
}

/// Whether `t` is the square on file `f` and rank `r`.
pub open spec fn at(f: int, r: int, t: int) -> bool {
    on_board(f, r) && t == r * 8 + f
}

/// The squares that a pawn attacks, one by one.
proof fn lemma_pawn_squares(c: Color, s: int, t: int)
    requires
        0 <= s < 64,
    ensures
        pawn_attacks(c, s, t) == (at(s % 8 - 1, s / 8 + (if c
            == Color::White { 1int } else { -1int }), t) || at(
            s % 8 + 1,
            s / 8 + (if c == Color::White { 1int } else { -1int }),
            t,
        )),
{
    if 0 <= t < 64 {
        assert(t == (t / 8) * 8 + t % 8);
    }
}

/// The squares that a knight attacks, one by one.
proof fn lemma_knight_squares(s: int, t: int)
    requires
        0 <= s < 64,
    ensures
        knight_attacks(s, t) == (at(s % 8 + 1, s / 8 + 2, t) || at(s % 8 - 1, s / 8 + 2, t) || at(
            s % 8 + 1,
            s / 8 - 2,
            t,
        ) || at(s % 8 - 1, s / 8 - 2, t) || at(s % 8 + 2, s / 8 + 1, t) || at(s % 8 - 2, s / 8 + 1, t)
            || at(s % 8 + 2, s / 8 - 1, t) || at(s % 8 - 2, s / 8 - 1, t)),
{
    if 0 <= t < 64 {
        assert(t == (t / 8) * 8 + t % 8);
    }
}

/// The squares that a king attacks, one by one.
proof fn lemma_king_squares(s: int, t: int)
    requires
        0 <= s < 64,
    ensures
        king_attacks(s, t) == (at(s % 8 - 1, s / 8 - 1, t) || at(s % 8, s / 8 - 1, t) || at(
            s % 8 + 1,
            s / 8 - 1,
            t,
        ) || at(s % 8 - 1, s / 8, t) || at(s % 8 + 1, s / 8, t) || at(s % 8 - 1, s / 8 + 1, t) || at(
            s % 8,
            s / 8 + 1,
            t,
        ) || at(s % 8 + 1, s / 8 + 1, t)),
{
    if 0 <= t < 64 {
        assert(t == (t / 8) * 8 + t % 8);
    }
    assert(s == (s / 8) * 8 + s % 8);
}

/// Adds the square on file `f` and rank `r` to a set, if there is such a
/// square.
fn with_square(acc: u64, f: i32, r: i32) -> (res: u64)
    requires
        -8 <= f < 16,
        -8 <= r < 16,
    ensures
        forall|t: int| #[trigger] bit_at(res, t) == (bit_at(acc, t) || at(f as int, r as int, t)),
{
    proof {
        lemma_bit_ops();
    }
    if f >= 0 && f < 8 && r >= 0 && r < 8 {
        let s: u64 = (r * 8 + f) as u64;
        acc | (1u64 << s)
    } else {
        acc
    }
}

/// The squares that a slider reaches from `sq` in steps of (`df`, `dr`).
fn ray(sq: Square, df: i32, dr: i32, occupied: Bitboard) -> (res: Bitboard)
    requires
        sq.on_board(),
        -1 <= df <= 1,
        -1 <= dr <= 1,
    ensures
        forall|t: int| #[trigger] res.has(t)
            == slides(sq.index as int % 8, sq.index as int / 8, df as int, dr as int, occupied@, t,
            7),
{
    let mut f: i32 = (sq.index % 8) as i32;
    let mut r: i32 = (sq.index / 8) as i32;
    let mut acc: u64 = 0;
    let mut steps: u32 = 7;
    let mut open: bool = true;
    proof {
        lemma_bit_ops();
    }
    while open && steps > 0
        invariant
            sq.on_board(),
            -1 <= df <= 1,
            -1 <= dr <= 1,
            on_board(f as int, r as int),
            steps <= 7,
            forall|t: int| #[trigger]
                slides(sq.index as int % 8, sq.index as int / 8, df as int, dr as int, occupied@,
                    t, 7) == (bit_at(acc, t) || (open && slides(
                    f as int,
                    r as int,
                    df as int,
                    dr as int,
                    occupied@,
                    t,
                    steps as nat,
                ))),
        decreases (if open { 1int } else { 0int }) + steps,
    {
        let nf: i32 = f + df;
        let nr: i32 = r + dr;
        if nf < 0 || nf > 7 || nr < 0 || nr > 7 {
            open = false;
        } else {
            let s: u32 = (nr * 8 + nf) as u32;
            proof {
                lemma_bit_ops();
            }
            acc = acc | (1u64 << (s as u64));
            if occupied.sq_set(Square { index: s }) {
                open = false;
            } else {
                f = nf;
                r = nr;
                steps = steps - 1;
            }
        }
    }
    Bitboard { bits: acc }
}

/// The attack sets of the pieces.
pub struct Attacks;

impl Attacks {
    /// The squares that a pawn of side `color` attacks from `sq`.
    pub fn pawn(color: Color, sq: Square) -> (res: Bitboard)
        requires
            sq.on_board(),
        ensures
            forall|t: int| #[trigger] res.has(t) == pawn_attacks(color, sq.index as int, t),
    {
        let f: i32 = (sq.index % 8) as i32;
        let r: i32 = (sq.index / 8) as i32;
        let nr: i32 = match color {
            Color::White => r + 1,
            Color::Black => r - 1,
        };
        let a: u64 = with_square(0, f - 1, nr);
        let b: u64 = with_square(a, f + 1, nr);
        proof {
            lemma_bit_ops();
            assert forall|t: int| #[trigger] bit_at(b, t) == pawn_attacks(color, sq.index as int, t) by {
                lemma_pawn_squares(color, sq.index as int, t);
                assert(bit_at(a, t) == (bit_at(0, t) || at(f - 1, nr as int, t)));
            }
        }
        Bitboard { bits: b }
    }

    /// The squares that a knight attacks from `sq`.
    pub fn knight(sq: Square) -> (res: Bitboard)
        requires
            sq.on_board(),
        ensures
            forall|t: int| #[trigger] res.has(t) == knight_attacks(sq.index as int, t),
    {
        let f: i32 = (sq.index % 8) as i32;
        let r: i32 = (sq.index / 8) as i32;
        let a: u64 = with_square(0, f + 1, r + 2);
        let b: u64 = with_square(a, f - 1, r + 2);
        let c: u64 = with_square(b, f + 1, r - 2);
        let d: u64 = with_square(c, f - 1, r - 2);
        let e: u64 = with_square(d, f + 2, r + 1);
        let g: u64 = with_square(e, f - 2, r + 1);
        let h: u64 = with_square(g, f + 2, r - 1);
        let i: u64 = with_square(h, f - 2, r - 1);
        proof {
            lemma_bit_ops();
            assert forall|t: int| #[trigger] bit_at(i, t) == knight_attacks(sq.index as int, t) by {
                lemma_knight_squares(sq.index as int, t);
                assert(bit_at(a, t) == (bit_at(0, t) || at(f + 1, r + 2, t)));
                assert(bit_at(b, t) == (bit_at(a, t) || at(f - 1, r + 2, t)));
                assert(bit_at(c, t) == (bit_at(b, t) || at(f + 1, r - 2, t)));
                assert(bit_at(d, t) == (bit_at(c, t) || at(f - 1, r - 2, t)));
                assert(bit_at(e, t) == (bit_at(d, t) || at(f + 2, r + 1, t)));
                assert(bit_at(g, t) == (bit_at(e, t) || at(f - 2, r + 1, t)));
                assert(bit_at(h, t) == (bit_at(g, t) || at(f + 2, r - 1, t)));
                assert(bit_at(i, t) == (bit_at(h, t) || at(f - 2, r - 1, t)));
            }
        }
        Bitboard { bits: i }
    }

    /// The squares that a king attacks from `sq`.
    pub fn king(sq: Square) -> (res: Bitboard)
        requires
            sq.on_board(),
        ensures
            forall|t: int| #[trigger] res.has(t) == king_attacks(sq.index as int, t),
    {
        let f: i32 = (sq.index % 8) as i32;
        let r: i32 = (sq.index / 8) as i32;
        let a: u64 = with_square(0, f - 1, r - 1);
        let b: u64 = with_square(a, f, r - 1);
        let c: u64 = with_square(b, f + 1, r - 1);
        let d: u64 = with_square(c, f - 1, r);
        let e: u64 = with_square(d, f + 1, r);
        let g: u64 = with_square(e, f - 1, r + 1);
        let h: u64 = with_square(g, f, r + 1);
        let i: u64 = with_square(h, f + 1, r + 1);
        proof {
            lemma_bit_ops();
            assert forall|t: int| #[trigger] bit_at(i, t) == king_attacks(sq.index as int, t) by {
                lemma_king_squares(sq.index as int, t);
                assert(bit_at(a, t) == (bit_at(0, t) || at(f - 1, r - 1, t)));
                assert(bit_at(b, t) == (bit_at(a, t) || at(f as int, r - 1, t)));
                assert(bit_at(c, t) == (bit_at(b, t) || at(f + 1, r - 1, t)));
                assert(bit_at(d, t) == (bit_at(c, t) || at(f - 1, r as int, t)));
                assert(bit_at(e, t) == (bit_at(d, t) || at(f + 1, r as int, t)));
                assert(bit_at(g, t) == (bit_at(e, t) || at(f - 1, r + 1, t)));
                assert(bit_at(h, t) == (bit_at(g, t) || at(f as int, r + 1, t)));
                assert(bit_at(i, t) == (bit_at(h, t) || at(f + 1, r + 1, t)));
            }
        }
        Bitboard { bits: i }
    }

    /// The squares that a bishop attacks from `sq` on a board whose
    /// occupied squares are `occupied`.
    pub fn bishop(sq: Square, occupied: Bitboard) -> (res: Bitboard)
        requires
            sq.on_board(),
        ensures
            forall|t: int| #[trigger] res.has(t) == bishop_attacks(sq.index as int, occupied@, t),
    {
        let a: Bitboard = ray(sq, 1, 1, occupied);
        let b: Bitboard = ray(sq, 1, -1, occupied);
        let c: Bitboard = ray(sq, -1, 1, occupied);
        let d: Bitboard = ray(sq, -1, -1, occupied);
        a.or(b).or(c).or(d)
    }

    /// The squares that a rook attacks from `sq` on a board whose occupied
    /// squares are `occupied`.
    pub fn rook(sq: Square, occupied: Bitboard) -> (res: Bitboard)
        requires
            sq.on_board(),
        ensures
            forall|t: int| #[trigger] res.has(t) == rook_attacks(sq.index as int, occupied@, t),
    {
        let a: Bitboard = ray(sq, 1, 0, occupied);
        let b: Bitboard = ray(sq, -1, 0, occupied);
        let c: Bitboard = ray(sq, 0, 1, occupied);
        let d: Bitboard = ray(sq, 0, -1, occupied);
        a.or(b).or(c).or(d)
    }

    /// The squares that a queen attacks from `sq`: those of a bishop and
    /// those of a rook.
    pub fn queen(sq: Square, occupied: Bitboard) -> (res: Bitboard)
        requires
            sq.on_board(),
        ensures
            forall|t: int| #[trigger] res.has(t)
                == (bishop_attacks(sq.index as int, occupied@, t)
                || rook_attacks(sq.index as int, occupied@, t)),
    {
        Attacks::bishop(sq, occupied).or(Attacks::rook(sq, occupied))
    }

    /// The squares that a piece of kind `pt` attacks from `sq`; none for a
    /// pawn, whose attacks depend on its side, and none for no piece.
    pub fn piece_attacks(pt: PieceType, sq: Square, occupied: Bitboard) -> (res: Bitboard)
        requires
            sq.on_board(),
        ensures
            forall|t: int| #[trigger] res.has(t) == piece_attacks_spec(pt, sq.index as int, occupied@, t),
    {
        match pt {
            PieceType::Knight => Attacks::knight(sq),
            PieceType::Bishop => Attacks::bishop(sq, occupied),
            PieceType::Rook => Attacks::rook(sq, occupied),
            PieceType::Queen => Attacks::queen(sq, occupied),
            PieceType::King => Attacks::king(sq),
            _ => Bitboard::empty(),
        }
    }
}

} // verus!
