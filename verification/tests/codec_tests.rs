use binpack_reader::binpack_error::BinpackError;
use binpack_reader::chess::castling_rights::{CastleType, CastlingRights};
use binpack_reader::chess::chess_move::{Move, MoveType};
use binpack_reader::chess::color::Color;
use binpack_reader::chess::coords::Square;
use binpack_reader::chess::piece::Piece;
use binpack_reader::chess::piecetype::PieceType;
use binpack_reader::chess::position::Position;
use binpack_reader::compressed_move::CompressedMove;
use binpack_reader::move_encoding::{before, destinations};
use binpack_reader::packed_position::PackedPosition;
use binpack_reader::reader::bitreader::BitReader;
use binpack_reader::reader::move_score_list_reader::PackedMoveScoreListReader;
use binpack_reader::training_data_entry::{PackedTrainingDataEntry, TrainingDataEntry};
use binpack_reader::writer::bitwriter::BitWriter;
use binpack_reader::writer::move_score_list_writer::PackedMoveScoreList;

fn sq(name: &str) -> Square {
    let b = name.as_bytes();
    Square::new((b[0] - b'a') as u32 + 8 * (b[1] - b'1') as u32)
}

fn start_position() -> Position {
    let back = [
        PieceType::Rook,
        PieceType::Knight,
        PieceType::Bishop,
        PieceType::Queen,
        PieceType::King,
        PieceType::Bishop,
        PieceType::Knight,
        PieceType::Rook,
    ];
    let mut pos = Position::new();
    for f in 0..8u32 {
        pos.place(Piece::new(back[f as usize], Color::White), Square::new(f));
        pos.place(Piece::new(PieceType::Pawn, Color::White), Square::new(8 + f));
        pos.place(Piece::new(PieceType::Pawn, Color::Black), Square::new(48 + f));
        pos.place(Piece::new(back[f as usize], Color::Black), Square::new(56 + f));
    }
    pos.set_castling_rights(CastlingRights::all());
    pos
}

fn same_entry(a: &TrainingDataEntry, b: &TrainingDataEntry) -> bool {
    a.pos.same_as(&b.pos) && a.mv == b.mv && a.score == b.score && a.ply == b.ply && a.result == b.result
}

#[test]
fn null_move_packs_to_zero() {
    assert_eq!(CompressedMove::from_move(Move::null()).packed(), 0x0000);
    assert_eq!(CompressedMove::new().packed(), 0);
    assert_eq!(CompressedMove::from_ordinal(0).decompress(), Move::null());
    assert_eq!(CompressedMove::default().packed(), 0);
}

#[test]
fn packed_move_layout() {
    // kind 0, from e2 = 12, to e4 = 28
    let normal = CompressedMove::from_move(Move::normal(sq("e2"), sq("e4")));
    assert_eq!(normal.packed(), (12 << 8) | (28 << 2));
    // kind 1, from b7 = 49, to b8 = 57, queen = 3
    let promo = CompressedMove::from_move(Move::promotion(sq("b7"), sq("b8"), Piece::white_queen()));
    assert_eq!(promo.packed(), (1 << 14) | (49 << 8) | (57 << 2) | 3);
    // kind 2, from e1 = 4, to h1 = 7
    let castle = CompressedMove::from_move(Move::castle(CastleType::Short, Color::White));
    assert_eq!(castle.packed(), (2 << 14) | (4 << 8) | (7 << 2));
    // kind 3, from e5 = 36, to d6 = 43
    let ep = CompressedMove::from_move(Move::en_passant(sq("e5"), sq("d6")));
    assert_eq!(ep.packed(), (3 << 14) | (36 << 8) | (43 << 2));
    assert_eq!(ep.move_type(), MoveType::EnPassant);
    assert_eq!(ep.from(), sq("e5"));
    assert_eq!(ep.to(), sq("d6"));
    assert_eq!(ep.promoted_piece(), Piece::none());
    let mut bytes = [0u8; 3];
    promo.write_to_big_endian(&mut bytes);
    assert_eq!(bytes, [0x71, 0xE7, 0]);
    assert_eq!(CompressedMove::read_from_big_endian(&bytes), promo);
}

#[test]
fn packed_moves_round_trip() {
    let kinds = [PieceType::Knight, PieceType::Bishop, PieceType::Rook, PieceType::Queen];
    for from in 0..64u32 {
        for to in 0..64u32 {
            if from == to {
                continue;
            }
            let f = Square::new(from);
            let t = Square::new(to);
            for m in [Move::normal(f, t), Move::en_passant(f, t), Move::new(f, t, MoveType::Castle, Piece::none())] {
                assert_eq!(CompressedMove::from_move(m).decompress(), m);
            }
            let color = if to / 8 == 0 { Color::Black } else { Color::White };
            for kind in kinds {
                let m = Move::promotion(f, t, Piece::new(kind, color));
                assert_eq!(CompressedMove::from_move(m).decompress(), m);
            }
        }
    }
}

#[test]
fn starting_position_packs_and_unpacks() {
    let pos = start_position();
    let packed = PackedPosition::compress(&pos);
    assert_eq!(packed.occupied.bits(), 0xFFFF_0000_0000_FFFF);
    // a1 rook with the right to castle (13), knight (2): low nibble first
    assert_eq!(packed.packed_state[0], 13 | (2 << 4));
    // e1 king (10), f1 bishop (4)
    assert_eq!(packed.packed_state[2], 10 | (4 << 4));
    // g1 knight (2), h1 rook with the right to castle (13)
    assert_eq!(packed.packed_state[3], 2 | (13 << 4));
    // black: a8 rook (14), b8 knight (3); e8 king with White to move (11)
    assert_eq!(packed.packed_state[12], 14 | (3 << 4));
    assert_eq!(packed.packed_state[14], 11 | (5 << 4));
    let back = packed.decompress();
    assert!(back.same_as(&pos));
    assert_eq!(back.fen(), "rnbqkbnr/pppppppp/8/8/8/8/PPPPPPPP/RNBQKBNR w KQkq - 0 1");
    let mut bytes = [0u8; 24];
    packed.write_to_big_endian(&mut bytes);
    assert_eq!(&bytes[0..8], &[0xFF, 0xFF, 0, 0, 0, 0, 0xFF, 0xFF]);
    let read = PackedPosition::read_from_big_endian(&bytes);
    assert_eq!(read.occupied, packed.occupied);
    assert_eq!(read.packed_state, packed.packed_state);
}

#[test]
fn position_with_black_to_move_and_en_passant_round_trips() {
    let mut pos = Position::new();
    pos.place(Piece::white_king(), sq("e1"));
    pos.place(Piece::black_king(), sq("e8"));
    pos.place(Piece::white_pawn(), sq("e2"));
    pos.place(Piece::black_pawn(), sq("d4"));
    pos.do_move(Move::normal(sq("e2"), sq("e4")));
    assert_eq!(pos.ep_square(), sq("e3"));
    let packed = PackedPosition::compress(&pos);
    // squares in order: e1, d4, e4, e8
    assert_eq!(packed.packed_state[0], 10 | (1 << 4));
    assert_eq!(packed.packed_state[1], 12 | (15 << 4));
    let back = packed.decompress();
    assert!(back.same_as(&pos));
    assert_eq!(back.side_to_move(), Color::Black);
    assert_eq!(back.ep_square(), sq("e3"));

    pos.do_move(Move::normal(sq("d4"), sq("d3")));
    pos.do_move(Move::normal(sq("e1"), sq("d1")));
    pos.place(Piece::black_pawn(), sq("f7"));
    pos.place(Piece::white_pawn(), sq("e5"));
    pos.set_rule50_counter(0);
    pos.set_ply(1);
    assert_eq!(pos.side_to_move(), Color::Black);
    pos.do_move(Move::normal(sq("f7"), sq("f5")));
    assert_eq!(pos.ep_square(), sq("f6"));
    let mut expected = pos;
    expected.set_ply(0);
    let back = PackedPosition::compress(&pos).decompress();
    assert!(back.same_as(&expected));
    assert_eq!(back.ep_square(), sq("f6"));
}

#[test]
fn empty_castling_rights_round_trip() {
    let mut pos = start_position();
    pos.set_castling_rights(CastlingRights::none());
    let back = PackedPosition::compress(&pos).decompress();
    assert_eq!(back.castling_rights(), CastlingRights::none());
    assert!(back.same_as(&pos));
    for rights in 0..16u8 {
        let mut pos = start_position();
        pos.set_castling_rights(CastlingRights(rights));
        let back = PackedPosition::compress(&pos).decompress();
        assert_eq!(back.castling_rights(), CastlingRights(rights));
    }
}

#[test]
fn pinned_pawn_gives_no_en_passant_square_after_packing() {
    let mut pos = Position::new();
    pos.place(Piece::white_king(), sq("h1"));
    pos.place(Piece::white_rook(), sq("c8"));
    pos.place(Piece::black_king(), sq("c1"));
    pos.place(Piece::black_pawn(), sq("c4"));
    pos.place(Piece::white_pawn(), sq("d2"));
    pos.do_move(Move::normal(sq("d2"), sq("d4")));
    let back = PackedPosition::compress(&pos).decompress();
    assert_eq!(back.ep_square(), Square::none());
    assert!(back.same_as(&pos));
    // the white pawn on d4 is an ordinary pawn in the packed form
    let packed = PackedPosition::compress(&pos);
    let nibbles: Vec<u8> = packed.packed_state.iter().flat_map(|b| [b & 15, b >> 4]).collect();
    // black king with Black to move, white king, black pawn, white pawn, white rook
    assert_eq!(&nibbles[0..5], &[15, 10, 1, 0, 6]);
}

#[test]
fn unpacking_odd_nibbles_follows_the_rules() {
    // one piece on a3 with nibble 12: not on the fourth rank, so a black pawn
    let mut bytes = [0u8; 24];
    bytes[5] = 1; // bit 16
    bytes[8] = 12;
    let pos = PackedPosition::read_from_big_endian(&bytes).decompress();
    assert_eq!(pos.piece_at(sq("a3")), Piece::black_pawn());
    assert_eq!(pos.ep_square(), sq("a4"));
    // a rook with rights away from the queen-side corner brings the king-side right
    bytes[8] = 13;
    let pos = PackedPosition::read_from_big_endian(&bytes).decompress();
    assert_eq!(pos.piece_at(sq("a3")), Piece::white_rook());
    assert_eq!(pos.castling_rights(), CastlingRights::white_king_side());
    bytes[8] = 14;
    let pos = PackedPosition::read_from_big_endian(&bytes).decompress();
    assert_eq!(pos.castling_rights(), CastlingRights::black_king_side());
    bytes[8] = 15;
    let pos = PackedPosition::read_from_big_endian(&bytes).decompress();
    assert_eq!(pos.piece_at(sq("a3")), Piece::black_king());
    assert_eq!(pos.side_to_move(), Color::Black);
}

#[test]
fn more_than_32_occupied_squares_use_the_first_32() {
    let mut bytes = [0xFFu8; 24];
    for b in bytes.iter_mut().skip(8) {
        *b = 0x00; // white pawns
    }
    let pos = PackedPosition::read_from_big_endian(&bytes).decompress();
    assert_eq!(pos.occupied().count(), 32);
    assert_eq!(pos.occupied().bits(), 0xFFFF_FFFF);
}

#[test]
fn packed_entry_layout_and_round_trip() {
    let mut pos = start_position();
    pos.set_ply(6);
    pos.set_rule50_counter(3);
    let entry = TrainingDataEntry { pos, mv: Move::normal(sq("e2"), sq("e4")), score: -3, ply: 6, result: -1 };
    let packed = PackedTrainingDataEntry::pack_entry(&entry);
    assert_eq!(&packed.data[0..8], &[0xFF, 0xFF, 0, 0, 0, 0, 0xFF, 0xFF]);
    assert_eq!(&packed.data[24..26], &[12, 28 << 2]);
    // score -3 has the code 5
    assert_eq!(&packed.data[26..28], &[0, 5]);
    // result -1 has the code 1; ply 6
    assert_eq!(&packed.data[28..30], &[0x40, 6]);
    assert_eq!(&packed.data[30..32], &[0, 3]);
    assert_eq!(packed.read_u16_be(28), 0x4006);
    let back = packed.unpack_entry();
    assert!(same_entry(&back, &entry));
    assert_eq!(back.pos.fen(), "rnbqkbnr/pppppppp/8/8/8/8/PPPPPPPP/RNBQKBNR w KQkq - 3 4");
    let mut copy = PackedTrainingDataEntry::default();
    copy.copy_from_slice(&packed.data);
    assert_eq!(copy.data, packed.data);
}

#[test]
fn packed_entries_round_trip_for_all_results_and_many_scores() {
    for result in [-1i16, 0, 1] {
        for score in [i16::MIN, -1000, -1, 0, 1, 25, 1000, i16::MAX] {
            for ply in [0u16, 1, 2, 99, 0x3FFF] {
                let mut pos = start_position();
                pos.set_ply(ply);
                pos.set_rule50_counter(ply % 100);
                let entry = TrainingDataEntry { pos, mv: Move::null(), score, ply, result };
                let back = PackedTrainingDataEntry::pack_entry(&entry).unpack_entry();
                assert!(same_entry(&back, &entry));
            }
        }
    }
}

#[test]
fn bits_are_packed_from_the_top_of_each_byte() {
    let mut w = BitWriter::new();
    w.add_bits_le8(1, 1);
    assert_eq!(w.movetext, vec![0x80]);
    w.add_bits_le8(0b101, 3);
    assert_eq!(w.movetext, vec![0xD0]);
    w.add_bits_le8(0xFF, 0);
    assert_eq!(w.movetext, vec![0xD0]);
    w.add_bits_le8(0b11_0011, 6);
    assert_eq!(w.movetext, vec![0xDC, 0xC0]);
    w.add_bits_le8(0xA5, 8);
    assert_eq!(w.movetext, vec![0xDC, 0xE9, 0x40]);
    // only the low bits of a value are written
    let mut w = BitWriter::new();
    w.add_bits_le8(0xFE, 2);
    w.add_bits_le8(0xFF, 1);
    assert_eq!(w.movetext, vec![0b1010_0000]);
}

#[test]
fn bits_are_read_as_they_were_written() {
    let text = [0xDCu8, 0xE9, 0x40];
    let mut r = BitReader::new(&text);
    assert_eq!(r.num_read_bytes(), 0);
    assert_eq!(r.extract_bits_le8(1).unwrap(), 1);
    assert_eq!(r.num_read_bytes(), 1);
    assert_eq!(r.extract_bits_le8(3).unwrap(), 0b101);
    assert_eq!(r.extract_bits_le8(0).unwrap(), 0);
    assert_eq!(r.extract_bits_le8(6).unwrap(), 0b11_0011);
    assert_eq!(r.num_read_bytes(), 2);
    assert_eq!(r.extract_bits_le8(8).unwrap(), 0xA5);
    assert_eq!(r.num_read_bytes(), 3);
    assert_eq!(r.extract_bits_le8(6).unwrap(), 0);
    assert_eq!(r.num_read_bytes(), 3);
    assert!(matches!(r.extract_bits_le8(1), Err(BinpackError::InvalidFormat(_))));
    assert_eq!(r.extract_bits_le8(0).unwrap(), 0);
}

#[test]
fn reading_past_the_end_fails_without_reading() {
    let text = [0xABu8];
    let mut r = BitReader::new(&text);
    assert_eq!(r.extract_bits_le8(5).unwrap(), 0b10101);
    assert!(matches!(r.extract_bits_le8(4), Err(BinpackError::InvalidFormat(_))));
    assert_eq!(r.extract_bits_le8(3).unwrap(), 0b011);
    let mut empty = BitReader::new(&[]);
    assert!(matches!(empty.extract_bits_le8(1), Err(BinpackError::InvalidFormat(_))));
    assert!(matches!(empty.extract_vle16(4), Err(BinpackError::InvalidFormat(_))));
}

#[test]
fn variable_length_numbers_have_the_stated_blocks() {
    let mut w = BitWriter::new();
    w.add_bits_vle16(0, 4);
    assert_eq!(w.movetext, vec![0b0000_0000]);
    let mut w = BitWriter::new();
    w.add_bits_vle16(5, 4);
    assert_eq!(w.movetext, vec![0b0010_1000]);
    let mut w = BitWriter::new();
    // 0x123: blocks 3 (more), 2 (more), 1 (last)
    w.add_bits_vle16(0x123, 4);
    assert_eq!(w.movetext, vec![0b1001_1100, 0b1000_0010]);
    let mut r = BitReader::new(&w.movetext);
    assert_eq!(r.extract_vle16(4).unwrap(), 0x123);
    assert_eq!(r.num_read_bytes(), 2);
    let mut w = BitWriter::new();
    w.add_bits_vle16(0xFFFF, 4);
    assert_eq!(w.movetext, vec![0xFF, 0xFE, 0b1111_0000]);
}

#[test]
fn bit_stream_round_trip_over_a_long_schedule() {
    let mut w = BitWriter::new();
    let mut schedule: Vec<(u16, usize, bool)> = Vec::new();
    let mut seed = 0x1234_5678u32;
    let mut total_bits = 0usize;
    while total_bits < 200_000 {
        seed = seed.wrapping_mul(1_664_525).wrapping_add(1_013_904_223);
        let v = (seed >> 8) as u16;
        let vle = seed & 1 == 1;
        if vle {
            let block = 1 + (seed >> 4) as usize % 7;
            w.add_bits_vle16(v, block);
            schedule.push((v, block, true));
            total_bits += block + 1;
        } else {
            let n = (seed >> 4) as usize % 9;
            w.add_bits_le8(v as u8, n);
            schedule.push((v, n, false));
            total_bits += n;
        }
    }
    let mut r = BitReader::new(&w.movetext);
    for (v, n, vle) in schedule {
        if vle {
            assert_eq!(r.extract_vle16(n).unwrap(), v);
        } else {
            let mask = if n == 8 { 0xFF } else { (1u16 << n) - 1 };
            assert_eq!(r.extract_bits_le8(n).unwrap() as u16, v & mask);
        }
    }
    assert_eq!(r.num_read_bytes(), w.movetext.len());
}

#[test]
fn a_number_that_never_ends_is_an_error() {
    let text = [0xFFu8; 8];
    let mut r = BitReader::new(&text);
    assert!(matches!(r.extract_vle16(4), Err(BinpackError::InvalidFormat(_))));
}

#[test]
fn squares_before_and_destinations() {
    assert_eq!(before(sq("a1")).bits(), 0);
    assert_eq!(before(sq("e1")).bits(), 0b1111);
    assert_eq!(before(sq("h8")).bits(), u64::MAX >> 1);
    assert_eq!(before(Square::none()).bits(), u64::MAX);
    let pos = start_position();
    assert_eq!(destinations(&pos, sq("e2")).bits(), (1 << 20) | (1 << 28));
    assert_eq!(destinations(&pos, sq("b1")).bits(), (1 << 16) | (1 << 18));
    assert_eq!(destinations(&pos, sq("a1")).bits(), 0);
    assert_eq!(destinations(&pos, sq("e4")).bits(), 0);
}

#[test]
fn short_castle_gets_the_number_after_long_castle() {
    let mut pos = Position::new();
    pos.place(Piece::white_king(), sq("e1"));
    pos.place(Piece::white_rook(), sq("h1"));
    pos.place(Piece::white_rook(), sq("a1"));
    pos.place(Piece::black_king(), sq("e8"));
    pos.set_castling_rights(CastlingRights::white());
    let castle = Move::new(sq("e1"), sq("h1"), MoveType::Castle, Piece::none());
    let mut list = PackedMoveScoreList::new();
    list.clear(0);
    list.add_move_score(&pos, castle, 0).unwrap();
    assert_eq!(list.num_plies, 1);
    // three pieces: two bits for the piece; the king is the second of them.
    // five squares and two castling rights: three bits for the move.
    let mut r = BitReader::new(&list.writer.movetext);
    assert_eq!(r.extract_bits_le8(2).unwrap(), 1);
    assert_eq!(r.extract_bits_le8(3).unwrap(), 5 + 1);
    assert_eq!(r.extract_vle16(4).unwrap(), 0);

    let mut long_list = PackedMoveScoreList::new();
    long_list.add_move_score(&pos, Move::castle(CastleType::Long, Color::White), 0).unwrap();
    let mut r = BitReader::new(&long_list.writer.movetext);
    assert_eq!(r.extract_bits_le8(2).unwrap(), 1);
    assert_eq!(r.extract_bits_le8(3).unwrap(), 5);

    pos.set_castling_rights(CastlingRights::white_king_side());
    let mut only_short = PackedMoveScoreList::new();
    only_short.add_move_score(&pos, castle, 0).unwrap();
    let mut r = BitReader::new(&only_short.writer.movetext);
    assert_eq!(r.extract_bits_le8(2).unwrap(), 1);
    assert_eq!(r.extract_bits_le8(3).unwrap(), 5);
    assert!(matches!(
        only_short.add_move_score(&pos, Move::castle(CastleType::Long, Color::White), 0),
        Err(BinpackError::InvalidFormat(_))
    ));
    assert_eq!(only_short.num_plies, 1);
}

#[test]
fn castle_is_decoded_and_applied() {
    let mut pos = Position::new();
    pos.place(Piece::white_king(), sq("e1"));
    pos.place(Piece::white_rook(), sq("h1"));
    pos.place(Piece::white_rook(), sq("a1"));
    pos.place(Piece::black_king(), sq("e8"));
    pos.place(Piece::black_pawn(), sq("a7"));
    pos.set_castling_rights(CastlingRights::white());
    pos.set_side_to_move(Color::Black);
    let first = TrainingDataEntry { pos, mv: Move::normal(sq("a7"), sq("a6")), score: 10, ply: 1, result: 0 };
    let mut after = pos;
    after.do_move(first.mv);
    let castle = Move::new(sq("e1"), sq("h1"), MoveType::Castle, Piece::none());
    let mut list = PackedMoveScoreList::new();
    list.clear(first.score);
    list.add_move_score(&after, castle, -12).unwrap();

    let mut reader = PackedMoveScoreListReader::new(first, &list.writer.movetext, list.num_plies);
    assert!(reader.has_next());
    let second = reader.next_entry().unwrap();
    assert!(!reader.has_next());
    assert_eq!(reader.num_read_bytes(), list.writer.movetext.len());
    assert_eq!(second.mv, castle);
    assert_eq!(second.score, -12);
    assert_eq!(second.ply, 2);
    assert_eq!(second.result, 0);
    assert!(second.pos.same_as(&after));
    let mut castled = second.pos;
    castled.do_move(second.mv);
    assert_eq!(castled.piece_at(sq("g1")), Piece::white_king());
    assert_eq!(castled.piece_at(sq("f1")), Piece::white_rook());
    assert_eq!(castled.castling_rights(), CastlingRights::none());
}

#[test]
fn promotion_takes_four_numbers_for_each_square() {
    let mut pos = Position::new();
    pos.place(Piece::white_king(), sq("e1"));
    pos.place(Piece::black_king(), sq("e8"));
    pos.place(Piece::white_pawn(), sq("b7"));
    let promo = Move::promotion(sq("b7"), sq("b8"), Piece::white_queen());
    let mut list = PackedMoveScoreList::new();
    list.add_move_score(&pos, promo, 0).unwrap();
    // two pieces: two bits; the pawn is the second. One square, four moves: three bits.
    let mut r = BitReader::new(&list.writer.movetext);
    assert_eq!(r.extract_bits_le8(2).unwrap(), 1);
    assert_eq!(r.extract_bits_le8(3).unwrap(), 3);

    pos.set_side_to_move(Color::Black);
    let first = TrainingDataEntry { pos, mv: Move::normal(sq("e8"), sq("e7")), score: 0, ply: 0, result: 1 };
    let mut after = pos;
    after.do_move(first.mv);
    for (kind, id) in [(PieceType::Knight, 0u8), (PieceType::Bishop, 1), (PieceType::Rook, 2), (PieceType::Queen, 3)] {
        let promo = Move::promotion(sq("b7"), sq("b8"), Piece::new(kind, Color::White));
        let mut list = PackedMoveScoreList::new();
        list.clear(0);
        list.add_move_score(&after, promo, 900).unwrap();
        let mut r = BitReader::new(&list.writer.movetext);
        assert_eq!(r.extract_bits_le8(2).unwrap(), 1);
        assert_eq!(r.extract_bits_le8(3).unwrap(), id);
        let mut reader = PackedMoveScoreListReader::new(first, &list.writer.movetext, 1);
        let second = reader.next_entry().unwrap();
        assert_eq!(second.mv, promo);
        assert_eq!(second.score, 900);
    }
    // a promotion must name its piece
    let mut list = PackedMoveScoreList::new();
    assert!(list.add_move_score(&after, Move::normal(sq("b7"), sq("b8")), 0).is_err());
    assert_eq!(list.writer.movetext.len(), 0);
}

#[test]
fn pawns_on_their_starting_rank_do_not_count_as_promoting() {
    // a black pawn on the seventh rank and a white pawn on the second
    let mut pos = Position::new();
    pos.place(Piece::white_king(), sq("e1"));
    pos.place(Piece::black_king(), sq("e8"));
    pos.place(Piece::white_pawn(), sq("a2"));
    pos.place(Piece::black_pawn(), sq("h7"));
    let mut list = PackedMoveScoreList::new();
    list.add_move_score(&pos, Move::normal(sq("a2"), sq("a4")), 0).unwrap();
    let mut r = BitReader::new(&list.writer.movetext);
    // two pieces: two bits; the king on e1 comes first, the pawn on a2 second
    assert_eq!(r.extract_bits_le8(2).unwrap(), 1);
    // two squares: two bits, the double step is the second
    assert_eq!(r.extract_bits_le8(2).unwrap(), 1);
    pos.set_side_to_move(Color::Black);
    let mut list = PackedMoveScoreList::new();
    list.add_move_score(&pos, Move::normal(sq("h7"), sq("h5")), 0).unwrap();
    let mut r = BitReader::new(&list.writer.movetext);
    // the pawn on h7 comes before the king on e8
    assert_eq!(r.extract_bits_le8(2).unwrap(), 0);
    // the double step to h5 comes before the single step to h6
    assert_eq!(r.extract_bits_le8(2).unwrap(), 0);
}

#[test]
fn scores_are_written_as_distances_from_the_negated_score_before() {
    let pos = start_position();
    let mut list = PackedMoveScoreList::new();
    list.clear(25);
    assert_eq!(list.last_score, -25);
    list.add_move_score(&pos, Move::normal(sq("e2"), sq("e4")), -20).unwrap();
    assert_eq!(list.last_score, 20);
    let mut r = BitReader::new(&list.writer.movetext);
    // sixteen pieces: five bits; the pawn on e2 is the thirteenth
    assert_eq!(r.extract_bits_le8(5).unwrap(), 12);
    // two squares: two bits
    assert_eq!(r.extract_bits_le8(2).unwrap(), 1);
    // -20 - (-25) = 5, with the code 10
    assert_eq!(r.extract_vle16(4).unwrap(), 10);
    // distances wrap around
    let mut list = PackedMoveScoreList::new();
    list.clear(i16::MIN);
    assert_eq!(list.last_score, i16::MIN);
    list.add_move_score(&pos, Move::normal(sq("e2"), sq("e4")), i16::MAX).unwrap();
    let first = TrainingDataEntry { pos: Position::new(), mv: Move::null(), score: i16::MIN, ply: 0, result: 0 };
    let mut reader = PackedMoveScoreListReader::new(first, &list.writer.movetext, 1);
    assert_eq!(reader.next_move_score(&pos).unwrap(), (Move::normal(sq("e2"), sq("e4")), i16::MAX));
}

#[test]
fn moves_that_cannot_be_numbered_are_refused() {
    let pos = start_position();
    let mut list = PackedMoveScoreList::new();
    for mv in [
        Move::null(),
        Move::normal(sq("e2"), sq("e5")),
        Move::normal(sq("e7"), sq("e5")),
        Move::normal(sq("a1"), sq("a2")),
        Move::en_passant(sq("e2"), sq("e3")),
        Move::promotion(sq("e2"), sq("e3"), Piece::white_queen()),
        Move::castle(CastleType::Short, Color::Black),
        Move::normal(sq("e2"), Square::none()),
        Move::normal(Square::none(), sq("e2")),
    ] {
        assert!(matches!(list.add_move_score(&pos, mv, 0), Err(BinpackError::InvalidFormat(_))));
    }
    assert_eq!(list.num_plies, 0);
    assert_eq!(list.writer.movetext.len(), 0);
    // castling with both squares between free is a numbered move, whether or not it can be made
    list.add_move_score(&pos, Move::castle(CastleType::Short, Color::White), 0).unwrap();
    assert_eq!(list.num_plies, 1);
}

#[test]
fn garbage_after_a_record_is_an_error() {
    let pos = start_position();
    let first = TrainingDataEntry { pos, mv: Move::normal(sq("e2"), sq("e4")), score: 0, ply: 0, result: 0 };
    // piece number 31 of 16
    let text = [0xFFu8; 4];
    let mut reader = PackedMoveScoreListReader::new(first, &text, 1);
    assert!(matches!(reader.next_entry(), Err(BinpackError::InvalidFormat(_))));
    // no bits at all
    let mut reader = PackedMoveScoreListReader::new(first, &[], 1);
    assert!(matches!(reader.next_entry(), Err(BinpackError::InvalidFormat(_))));
    // a first record whose move cannot be made
    let null_first = TrainingDataEntry { mv: Move::null(), ..first };
    let mut reader = PackedMoveScoreListReader::new(null_first, &[0u8; 4], 1);
    assert!(matches!(reader.next_entry(), Err(BinpackError::InvalidFormat(_))));
    // the ply has no room
    let last_ply = TrainingDataEntry { ply: u16::MAX, ..first };
    let mut reader = PackedMoveScoreListReader::new(last_ply, &[0u8; 4], 1);
    assert!(matches!(reader.next_entry(), Err(BinpackError::InvalidFormat(_))));
}
