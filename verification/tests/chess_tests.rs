use binpack_reader::chess::attacks::Attacks;
use binpack_reader::chess::bitboard::Bitboard;
use binpack_reader::chess::castling_rights::{CastleType, CastlingRights, CastlingTraits};
use binpack_reader::chess::chess_move::{Move, MoveType};
use binpack_reader::chess::color::Color;
use binpack_reader::chess::coords::{File, FlatSquareOffset, Rank, Square};
use binpack_reader::chess::piece::Piece;
use binpack_reader::chess::piecetype::PieceType;
use binpack_reader::chess::position::Position;

fn sq(name: &str) -> Square {
    let b = name.as_bytes();
    Square::new((b[0] - b'a') as u32 + 8 * (b[1] - b'1') as u32)
}

fn bb(names: &[&str]) -> u64 {
    let mut v = 0u64;
    for n in names {
        v |= 1u64 << sq(n).index();
    }
    v
}

fn start_position() -> Position {
    let back = [
        PieceType::Rook,
        PieceType::Knight,
        PieceType::Bishop,
        PieceType::Queen,
        PieceType::King,
        PieceType::Bishop,
        PieceType::Knight,
        PieceType::Rook,
    ];
    let mut pos = Position::new();
    for f in 0..8u32 {
        pos.place(Piece::new(back[f as usize], Color::White), Square::new(f));
        pos.place(Piece::new(PieceType::Pawn, Color::White), Square::new(8 + f));
        pos.place(Piece::new(PieceType::Pawn, Color::Black), Square::new(48 + f));
        pos.place(Piece::new(back[f as usize], Color::Black), Square::new(56 + f));
    }
    pos.set_castling_rights(CastlingRights::all());
    pos
}

#[test]
fn color_and_piece_numbers() {
    assert_eq!(Color::White.ordinal(), 0);
    assert_eq!(Color::Black.ordinal(), 1);
    assert_eq!(Color::White.opposite(), Color::Black);
    assert_eq!(!Color::Black, Color::White);
    assert_eq!(Color::from_ordinal(1), Color::Black);
    assert_eq!(PieceType::Pawn.ordinal(), 0);
    assert_eq!(PieceType::King.ordinal(), 5);
    assert_eq!(PieceType::Empty.ordinal(), 6);
    assert_eq!(PieceType::from_ordinal(3), PieceType::Rook);
    assert_eq!(Piece::new(PieceType::Knight, Color::Black).as_int(), 3);
    assert_eq!(Piece::white_pawn().as_int(), 0);
    assert_eq!(Piece::black_king().as_int(), 11);
    assert_eq!(Piece::none().as_int(), 12);
    assert_eq!(Piece::from_id(7), Piece::black_rook());
    assert_eq!(Piece::white_queen().parts(), (PieceType::Queen, Color::White));
    assert_eq!(Piece::none().piece_type(), PieceType::Empty);
}

#[test]
fn square_coordinates() {
    assert_eq!(Square::a1().index(), 0);
    assert_eq!(Square::h1().index(), 7);
    assert_eq!(Square::a8().index(), 56);
    assert_eq!(Square::h8().index(), 63);
    assert_eq!(Square::none().index(), 64);
    let e4 = sq("e4");
    assert_eq!(e4.to_u32(), 28);
    assert_eq!(e4.to_i32(), 28);
    assert_eq!(e4.file(), File::new(4));
    assert_eq!(e4.rank(), Rank::fourth());
    assert_eq!(e4.to_string(), "e4");
    assert_eq!(Square::h8().to_string(), "h8");
    assert_eq!(File::a().to_string(), "a");
    assert_eq!(File::h().to_string(), "h");
    assert_eq!(Rank::first().to_string(), "1");
    assert_eq!(Rank::eighth().to_string(), "8");
    assert_eq!(e4.offset(1, 1), Some(sq("f5")));
    assert_eq!(e4.offset(0, -4), None);
    assert_eq!(Square::h8().offset(1, 0), None);
    assert_eq!(Square::from_rank_file(3, 4), e4);
    assert_eq!(Square::from_rank_file(8, 0), Square::none());
    assert_eq!(Square::from_rank_file(0, -1), Square::none());
    assert!(Square::is_valid(7, 7));
    assert!(!Square::is_valid(7, 8));
    assert_eq!(e4.shifted(FlatSquareOffset::new(0, -1)), sq("e3"));
    assert_eq!(e4.shifted(FlatSquareOffset::new(1, 1)), sq("f5"));
    assert_eq!(FlatSquareOffset::new(1, 1).to_i8(), 9);
    assert_eq!(FlatSquareOffset::new(1, 1).neg().to_i8(), -9);
    assert_eq!(FlatSquareOffset::default().to_i8(), 0);
    assert_eq!(e4 + FlatSquareOffset::new(0, 1), sq("e5"));
    assert_eq!(e4 + -FlatSquareOffset::new(0, 1), sq("e3"));
    assert_eq!(sq("b1") + sq("a2"), sq("b2"));
    assert_eq!(sq("b2") - sq("a2"), sq("b1"));
    assert_eq!(sq("b1").plus(sq("a2")), sq("b2"));
    assert_eq!(sq("b2").minus(sq("a2")), sq("b1"));
    assert_eq!(Square::from_u32(70).to_u32(), 70);
}

#[test]
fn bitboard_sets() {
    let b = Bitboard::new(bb(&["a1", "c3", "h8"]));
    assert_eq!(b.count(), 3);
    assert!(b.sq_set(sq("c3")));
    assert!(!b.sq_set(sq("c4")));
    assert_eq!(b.first(), sq("a1"));
    assert!(!b.is_empty());
    assert!(Bitboard::empty().is_empty());
    assert_eq!(Bitboard::new(u64::MAX).count(), 64);
    assert_eq!(Bitboard::new(0).count(), 0);
    assert_eq!(Bitboard::from_square(sq("h8")).bits(), 1u64 << 63);
    let c = Bitboard::new(bb(&["c3", "d4"]));
    assert_eq!(b.and(c).bits(), bb(&["c3"]));
    assert_eq!(b.or(c).bits(), bb(&["a1", "c3", "d4", "h8"]));
    assert_eq!(b.not().bits(), !bb(&["a1", "c3", "h8"]));
    assert_eq!(b & c, Bitboard::new(bb(&["c3"])));
    assert_eq!(b | c, b.or(c));
    assert_eq!(!b, b.not());
    let mut d = b;
    d |= c;
    assert_eq!(d, b | c);
    assert_eq!(b.squares(), vec![sq("a1"), sq("c3"), sq("h8")]);
    assert_eq!(Bitboard::empty().squares(), vec![]);
    assert_eq!(Bitboard::new(u64::MAX).squares().len(), 64);
}

#[test]
fn castling_rights_masks() {
    assert_eq!(CastlingRights::white_king_side().0, 1);
    assert_eq!(CastlingRights::white_queen_side().0, 2);
    assert_eq!(CastlingRights::black_king_side().0, 4);
    assert_eq!(CastlingRights::black_queen_side().0, 8);
    assert_eq!(CastlingRights::white().0, 3);
    assert_eq!(CastlingRights::black().0, 12);
    assert_eq!(CastlingRights::all().0, 15);
    assert_eq!(CastlingRights::empty(), CastlingRights::none());
    let mut r = CastlingRights::all();
    assert!(r.contains(CastlingRights::white()));
    assert_eq!(r.count_ones(), 4);
    r.remove(CastlingRights::white());
    assert_eq!(r, CastlingRights::black());
    assert!(!r.contains(CastlingRights::white_king_side()));
    assert!(r.contains(CastlingRights::none()));
    assert_eq!(r.count_ones(), 2);
    r.insert(CastlingRights::white_queen_side());
    assert_eq!(r.0, 14);
    assert_eq!(r.intersection(CastlingRights::white()), CastlingRights::white_queen_side());
    assert_eq!(CastlingRights::white().complement().0, 0xFC);
    assert_eq!(!CastlingRights::white(), CastlingRights(0xFC));
    assert_eq!(CastlingRights::all() & CastlingRights::black(), CastlingRights::black());
    let mut s = CastlingRights::all();
    s &= !CastlingRights::white();
    assert_eq!(s, CastlingRights::black());
    s |= CastlingRights::white_king_side();
    assert_eq!(s.0, 13);
    assert_eq!(
        CastlingTraits::castling_rights(Color::Black, CastleType::Long),
        CastlingRights::black_queen_side()
    );
    assert_eq!(
        CastlingTraits::castling_rights(Color::White, CastleType::Short),
        CastlingRights::white_king_side()
    );
}

#[test]
fn moves_and_their_kinds() {
    assert_eq!(MoveType::Normal.ordinal(), 0);
    assert_eq!(MoveType::Promotion.ordinal(), 1);
    assert_eq!(MoveType::Castle.ordinal(), 2);
    assert_eq!(MoveType::EnPassant.ordinal(), 3);
    assert_eq!(MoveType::from_ordinal(2), MoveType::Castle);
    let null = Move::null();
    assert!(null.is_null());
    assert_eq!(null.from(), Square::a1());
    assert_eq!(null.to(), Square::a1());
    assert_eq!(null.promoted_piece(), Piece::none());
    let short = Move::castle(CastleType::Short, Color::White);
    assert_eq!((short.from(), short.to(), short.mtype()), (sq("e1"), sq("h1"), MoveType::Castle));
    assert_eq!(short.castle_type(), CastleType::Short);
    let long = Move::castle(CastleType::Long, Color::Black);
    assert_eq!((long.from(), long.to()), (sq("e8"), sq("a8")));
    assert_eq!(long.castle_type(), CastleType::Long);
    let promo = Move::promotion(sq("b7"), sq("b8"), Piece::white_queen());
    assert_eq!(promo.mtype(), MoveType::Promotion);
    assert_eq!(promo.promoted_piece(), Piece::white_queen());
    assert_eq!(Move::en_passant(sq("e5"), sq("d6")).mtype(), MoveType::EnPassant);
    assert_eq!(
        Move::normal(sq("e2"), sq("e4")),
        Move::new(sq("e2"), sq("e4"), MoveType::Normal, Piece::none())
    );
}

#[test]
fn attacks_of_the_leapers() {
    assert_eq!(Attacks::knight(sq("b1")).bits(), bb(&["a3", "c3", "d2"]));
    assert_eq!(
        Attacks::knight(sq("e4")).bits(),
        bb(&["d2", "f2", "c3", "g3", "c5", "g5", "d6", "f6"])
    );
    assert_eq!(Attacks::knight(sq("h8")).bits(), bb(&["f7", "g6"]));
    assert_eq!(Attacks::king(sq("a1")).bits(), bb(&["a2", "b1", "b2"]));
    assert_eq!(
        Attacks::king(sq("e1")).bits(),
        bb(&["d1", "f1", "d2", "e2", "f2"])
    );
    assert_eq!(Attacks::pawn(Color::White, sq("e4")).bits(), bb(&["d5", "f5"]));
    assert_eq!(Attacks::pawn(Color::Black, sq("e4")).bits(), bb(&["d3", "f3"]));
    assert_eq!(Attacks::pawn(Color::White, sq("a2")).bits(), bb(&["b3"]));
    assert_eq!(Attacks::pawn(Color::White, sq("h8")).bits(), 0);
    assert_eq!(Attacks::pawn(Color::Black, sq("h1")).bits(), 0);
}

#[test]
fn attacks_of_the_sliders() {
    let empty = Bitboard::empty();
    assert_eq!(
        Attacks::rook(sq("a1"), empty).bits(),
        bb(&["a2", "a3", "a4", "a5", "a6", "a7", "a8", "b1", "c1", "d1", "e1", "f1", "g1", "h1"])
    );
    let blockers = Bitboard::new(bb(&["a3", "c1", "h8"]));
    assert_eq!(Attacks::rook(sq("a1"), blockers).bits(), bb(&["a2", "a3", "b1", "c1"]));
    assert_eq!(
        Attacks::bishop(sq("c1"), empty).bits(),
        bb(&["b2", "a3", "d2", "e3", "f4", "g5", "h6"])
    );
    let blockers = Bitboard::new(bb(&["e3", "b2"]));
    assert_eq!(Attacks::bishop(sq("c1"), blockers).bits(), bb(&["b2", "d2", "e3"]));
    assert_eq!(
        Attacks::queen(sq("d4"), empty).bits(),
        Attacks::rook(sq("d4"), empty).bits() | Attacks::bishop(sq("d4"), empty).bits()
    );
    assert_eq!(Attacks::queen(sq("d4"), empty).count(), 27);
    assert_eq!(
        Attacks::piece_attacks(PieceType::Knight, sq("b1"), empty).bits(),
        Attacks::knight(sq("b1")).bits()
    );
    assert_eq!(
        Attacks::piece_attacks(PieceType::Rook, sq("a1"), blockers).bits(),
        Attacks::rook(sq("a1"), blockers).bits()
    );
    assert_eq!(Attacks::piece_attacks(PieceType::Pawn, sq("e4"), empty).bits(), 0);
}

#[test]
fn empty_position_and_setters() {
    let mut pos = Position::new();
    assert_eq!(pos.fen(), "8/8/8/8/8/8/8/8 w - - 0 1");
    assert_eq!(pos.side_to_move(), Color::White);
    assert_eq!(pos.ep_square(), Square::none());
    assert_eq!(pos.castling_rights(), CastlingRights::none());
    assert!(pos.occupied().is_empty());
    pos.set_side_to_move(Color::Black);
    pos.set_ply(7);
    pos.set_rule50_counter(300);
    pos.set_ep_square_unchecked(sq("e3"));
    pos.add_castling_rights(CastlingRights::black_king_side());
    assert_eq!(pos.fen(), "8/8/8/8/8/8/8/8 b k e3 300 4");
    assert_eq!(pos.ply(), 7);
    pos.set_side_to_move(Color::White);
    assert_eq!(pos.ply(), 6);
    assert!(Position::default().same_as(&Position::new()));
}

#[test]
fn starting_position_text_and_sets() {
    let pos = start_position();
    assert_eq!(pos.fen(), "rnbqkbnr/pppppppp/8/8/8/8/PPPPPPPP/RNBQKBNR w KQkq - 0 1");
    assert_eq!(pos.occupied().bits(), 0xFFFF_0000_0000_FFFF);
    assert_eq!(pos.pieces_bb(Color::White).bits(), 0xFFFF);
    assert_eq!(pos.pieces_bb(Color::Black).bits(), 0xFFFF_0000_0000_0000);
    assert_eq!(pos.pieces_bb_color(Color::Black, PieceType::Knight).bits(), bb(&["b8", "g8"]));
    assert_eq!(pos.piece_at(sq("d1")), Piece::white_queen());
    assert_eq!(pos.piece_at(sq("e4")), Piece::none());
    assert_eq!(pos.king_sq(Color::White), sq("e1"));
    assert_eq!(pos.king_sq(Color::Black), sq("e8"));
    assert!(!pos.is_checked(Color::White));
    assert!(pos.is_attacked(sq("e3"), Color::White));
    assert!(pos.is_attacked(sq("f6"), Color::Black));
    assert!(!pos.is_attacked(sq("e4"), Color::White));
    assert_eq!(pos.ply(), 0);
}

#[test]
fn pawn_push_without_a_capturer_sets_no_en_passant_square() {
    let mut pos = start_position();
    let mv = Move::normal(sq("e2"), sq("e4"));
    assert!(pos.is_applicable(mv));
    pos.do_move(mv);
    assert_eq!(pos.fen(), "rnbqkbnr/pppppppp/8/8/4P3/8/PPPP1PPP/RNBQKBNR b KQkq - 0 1");
    pos.do_move(Move::normal(sq("g8"), sq("f6")));
    assert_eq!(pos.fen(), "rnbqkb1r/pppppppp/5n2/8/4P3/8/PPPP1PPP/RNBQKBNR w KQkq - 1 2");
    assert_eq!(pos.ply(), 2);
}

#[test]
fn pawn_push_beside_a_capturer_sets_the_en_passant_square() {
    let mut pos = Position::new();
    pos.place(Piece::white_king(), sq("e1"));
    pos.place(Piece::black_king(), sq("e8"));
    pos.place(Piece::white_pawn(), sq("e2"));
    pos.place(Piece::black_pawn(), sq("d4"));
    pos.do_move(Move::normal(sq("e2"), sq("e4")));
    assert_eq!(pos.ep_square(), sq("e3"));
    assert_eq!(pos.fen(), "4k3/8/8/8/3pP3/8/8/4K3 b - e3 0 1");
    let capture = Move::en_passant(sq("d4"), sq("e3"));
    assert!(pos.is_applicable(capture));
    pos.do_move(capture);
    assert_eq!(pos.fen(), "4k3/8/8/8/8/4p3/8/4K3 w - - 0 2");
}

#[test]
fn en_passant_square_is_left_out_when_the_capture_is_illegal() {
    // The black pawn on c4 shields its king on c1 from the rook on c8.
    let mut pos = Position::new();
    pos.place(Piece::white_king(), sq("h1"));
    pos.place(Piece::white_rook(), sq("c8"));
    pos.place(Piece::black_king(), sq("c1"));
    pos.place(Piece::black_pawn(), sq("c4"));
    pos.place(Piece::white_pawn(), sq("d2"));
    pos.do_move(Move::normal(sq("d2"), sq("d4")));
    assert_eq!(pos.ep_square(), Square::none());
    assert_eq!(pos.fen(), "2R5/8/8/8/2pP4/8/8/2k4K b - - 0 1");
}

#[test]
fn en_passant_square_needs_one_legal_capturer_only() {
    // The pawn on c4 may not capture, the pawn on e4 may.
    let mut pos = Position::new();
    pos.place(Piece::white_king(), sq("h1"));
    pos.place(Piece::white_rook(), sq("c8"));
    pos.place(Piece::black_king(), sq("c1"));
    pos.place(Piece::black_pawn(), sq("c4"));
    pos.place(Piece::black_pawn(), sq("e4"));
    pos.place(Piece::white_pawn(), sq("d2"));
    pos.do_move(Move::normal(sq("d2"), sq("d4")));
    assert_eq!(pos.ep_square(), sq("d3"));
}

#[test]
fn short_castle_moves_king_and_rook_and_takes_the_rights() {
    let mut pos = Position::new();
    pos.place(Piece::white_king(), sq("e1"));
    pos.place(Piece::white_rook(), sq("h1"));
    pos.place(Piece::white_rook(), sq("a1"));
    pos.place(Piece::black_king(), sq("e8"));
    pos.place(Piece::black_rook(), sq("a8"));
    pos.set_castling_rights(CastlingRights::all());
    let mv = Move::castle(CastleType::Short, Color::White);
    assert!(pos.is_applicable(mv));
    pos.do_move(mv);
    assert_eq!(pos.piece_at(sq("g1")), Piece::white_king());
    assert_eq!(pos.piece_at(sq("f1")), Piece::white_rook());
    assert_eq!(pos.piece_at(sq("e1")), Piece::none());
    assert_eq!(pos.piece_at(sq("h1")), Piece::none());
    assert_eq!(pos.castling_rights(), CastlingRights::black());
    assert_eq!(pos.fen(), "r3k3/8/8/8/8/8/8/R4RK1 b kq - 1 1");
    let reply = Move::castle(CastleType::Long, Color::Black);
    assert!(pos.is_applicable(reply));
    pos.do_move(reply);
    assert_eq!(pos.fen(), "2kr4/8/8/8/8/8/8/R4RK1 w - - 2 2");
}

#[test]
fn rook_moves_and_captures_take_single_rights() {
    let mut pos = Position::new();
    pos.place(Piece::white_king(), sq("e1"));
    pos.place(Piece::white_rook(), sq("h1"));
    pos.place(Piece::white_rook(), sq("a1"));
    pos.place(Piece::black_king(), sq("e8"));
    pos.place(Piece::black_rook(), sq("a8"));
    pos.place(Piece::black_rook(), sq("h8"));
    pos.set_castling_rights(CastlingRights::all());
    pos.do_move(Move::normal(sq("h1"), sq("h8")));
    assert_eq!(pos.castling_rights().0, 2 | 8);
    assert_eq!(pos.fen(), "r3k2R/8/8/8/8/8/8/R3K3 b Qq - 0 1");
    pos.do_move(Move::normal(sq("e8"), sq("e7")));
    assert_eq!(pos.castling_rights(), CastlingRights::white_queen_side());
}

#[test]
fn promotion_puts_the_new_piece_on_the_last_rank() {
    let mut pos = Position::new();
    pos.place(Piece::white_king(), sq("e1"));
    pos.place(Piece::black_king(), sq("e8"));
    pos.place(Piece::white_pawn(), sq("b7"));
    pos.set_rule50_counter(9);
    let mv = Move::promotion(sq("b7"), sq("b8"), Piece::white_queen());
    assert!(pos.is_applicable(mv));
    pos.do_move(mv);
    assert_eq!(pos.piece_at(sq("b8")), Piece::white_queen());
    assert_eq!(pos.fen(), "1Q2k3/8/8/8/8/8/8/4K3 b - - 0 1");
    assert!(pos.is_checked(Color::Black));
}

#[test]
fn moves_that_cannot_be_made_are_told_apart() {
    let pos = start_position();
    assert!(!pos.is_applicable(Move::null()));
    assert!(!pos.is_applicable(Move::normal(sq("e7"), sq("e5"))));
    assert!(!pos.is_applicable(Move::normal(sq("e3"), sq("e4"))));
    assert!(!pos.is_applicable(Move::normal(sq("e1"), sq("e2"))));
    assert!(!pos.is_applicable(Move::castle(CastleType::Short, Color::White)));
    assert!(!pos.is_applicable(Move::en_passant(sq("e2"), sq("d3"))));
    assert!(!pos.is_applicable(Move::promotion(sq("e2"), sq("e3"), Piece::white_king())));
    assert!(!pos.is_applicable(Move::normal(sq("e2"), Square::none())));
    assert!(pos.is_applicable(Move::normal(sq("b1"), sq("c3"))));
    let mut kingless = Position::new();
    kingless.place(Piece::white_pawn(), sq("e2"));
    assert!(!kingless.is_applicable(Move::normal(sq("e2"), sq("e3"))));
}

#[test]
fn halfmove_clock_counts_quiet_moves_only() {
    let mut pos = start_position();
    pos.do_move(Move::normal(sq("g1"), sq("f3")));
    pos.do_move(Move::normal(sq("b8"), sq("c6")));
    pos.do_move(Move::normal(sq("f3"), sq("e5")));
    assert_eq!(pos.fen(), "r1bqkbnr/pppppppp/2n5/4N3/8/8/PPPPPPPP/RNBQKB1R b KQkq - 3 2");
    pos.do_move(Move::normal(sq("c6"), sq("e5")));
    assert_eq!(pos.fen(), "r1bqkbnr/pppppppp/8/4n3/8/8/PPPPPPPP/RNBQKB1R w KQkq - 0 3");
}

/// The squares that a slider reaches from `from` in the given directions,
/// found by walking.
fn walk(from: u32, occupied: u64, directions: &[(i32, i32)]) -> u64 {
    let mut v = 0u64;
    for (df, dr) in directions {
        let (mut f, mut r) = ((from % 8) as i32 + df, (from / 8) as i32 + dr);
        while (0..8).contains(&f) && (0..8).contains(&r) {
            let s = (r * 8 + f) as u32;
            v |= 1u64 << s;
            if occupied & (1u64 << s) != 0 {
                break;
            }
            f += df;
            r += dr;
        }
    }
    v
}

#[test]
fn sliders_agree_with_walking_the_board() {
    let mut seed = 0x9E37_79B9u64;
    for _ in 0..300 {
        seed = seed.wrapping_mul(6_364_136_223_846_793_005).wrapping_add(1_442_695_040_888_963_407);
        let occupied = seed & seed.rotate_left(17);
        for from in 0..64u32 {
            let rook = walk(from, occupied, &[(1, 0), (-1, 0), (0, 1), (0, -1)]);
            let bishop = walk(from, occupied, &[(1, 1), (1, -1), (-1, 1), (-1, -1)]);
            assert_eq!(Attacks::rook(Square::new(from), Bitboard::new(occupied)).bits(), rook);
            assert_eq!(Attacks::bishop(Square::new(from), Bitboard::new(occupied)).bits(), bishop);
            assert_eq!(Attacks::queen(Square::new(from), Bitboard::new(occupied)).bits(), rook | bishop);
        }
    }
}

#[test]
fn leapers_agree_with_their_steps() {
    for from in 0..64i32 {
        let (f, r) = (from % 8, from / 8);
        let mut knight = 0u64;
        let mut king = 0u64;
        for to in 0..64i32 {
            let (df, dr) = ((to % 8 - f).abs(), (to / 8 - r).abs());
            if (df, dr) == (1, 2) || (df, dr) == (2, 1) {
                knight |= 1u64 << to;
            }
            if df.max(dr) == 1 {
                king |= 1u64 << to;
            }
        }
        assert_eq!(Attacks::knight(Square::new(from as u32)).bits(), knight);
        assert_eq!(Attacks::king(Square::new(from as u32)).bits(), king);
    }
}
