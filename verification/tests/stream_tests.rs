use binpack_reader::binpack_error::BinpackError;
use binpack_reader::chess::castling_rights::CastlingRights;
use binpack_reader::chess::chess_move::Move;
use binpack_reader::chess::color::Color;
use binpack_reader::chess::coords::Square;
use binpack_reader::chess::piece::Piece;
use binpack_reader::chess::piecetype::PieceType;
use binpack_reader::chess::position::Position;
use binpack_reader::move_encoding::destinations;
use binpack_reader::reader::training_data_reader::{
    CompressedReaderError, CompressedTrainingDataEntryReader,
};
use binpack_reader::training_data_entry::{PackedTrainingDataEntry, TrainingDataEntry};
use binpack_reader::training_data_file::CompressedTrainingDataFile;
use binpack_reader::writer::training_data_writer::{
    is_continuation, CompressedTrainingDataEntryWriter,
};

fn sq(name: &str) -> Square {
    let b = name.as_bytes();
    Square::new((b[0] - b'a') as u32 + 8 * (b[1] - b'1') as u32)
}

fn start_position() -> Position {
    let back = [
        PieceType::Rook,
        PieceType::Knight,
        PieceType::Bishop,
        PieceType::Queen,
        PieceType::King,
        PieceType::Bishop,
        PieceType::Knight,
        PieceType::Rook,
    ];
    let mut pos = Position::new();
    for f in 0..8u32 {
        pos.place(Piece::new(back[f as usize], Color::White), Square::new(f));
        pos.place(Piece::new(PieceType::Pawn, Color::White), Square::new(8 + f));
        pos.place(Piece::new(PieceType::Pawn, Color::Black), Square::new(48 + f));
        pos.place(Piece::new(back[f as usize], Color::Black), Square::new(56 + f));
    }
    pos.set_castling_rights(CastlingRights::all());
    pos
}

fn same_entry(a: &TrainingDataEntry, b: &TrainingDataEntry) -> bool {
    a.pos.same_as(&b.pos) && a.mv == b.mv && a.score == b.score && a.ply == b.ply && a.result == b.result
}

/// The records of a game that starts in `pos` and goes on with `moves`.
fn game(pos: Position, ply: u16, result: i16, moves: &[(Move, i16)]) -> Vec<TrainingDataEntry> {
    let mut entries = Vec::new();
    let mut pos = pos;
    pos.set_ply(ply);
    let mut ply = ply;
    for (mv, score) in moves {
        entries.push(TrainingDataEntry { pos, mv: *mv, score: *score, ply, result });
        assert!(pos.is_applicable(*mv));
        pos.do_move(*mv);
        ply += 1;
    }
    entries
}

fn write_all(entries: &[TrainingDataEntry], chunk_size: usize) -> Vec<u8> {
    let mut writer = CompressedTrainingDataEntryWriter::new(Vec::new());
    writer.chunk_size = chunk_size;
    for e in entries {
        writer.write_entry(e).unwrap();
    }
    writer.close().unwrap();
    writer.into_bytes()
}

fn read_all(bytes: Vec<u8>) -> Vec<TrainingDataEntry> {
    let mut reader = CompressedTrainingDataEntryReader::new(bytes).unwrap();
    let mut entries = Vec::new();
    while reader.has_next() {
        entries.push(reader.next().unwrap());
    }
    assert_eq!(reader.read_bytes(), reader.file_size());
    entries
}

#[test]
fn starting_position_with_the_null_move_round_trips() {
    let entry = TrainingDataEntry { pos: start_position(), mv: Move::null(), score: 0, ply: 0, result: 0 };
    let packed = PackedTrainingDataEntry::pack_entry(&entry);
    let mut expected = vec![0xFF, 0xFF, 0, 0, 0, 0, 0xFF, 0xFF];
    expected.extend_from_slice(&[0x2D, 0x84, 0x4A, 0xD2, 0, 0, 0, 0, 0x11, 0x11, 0x11, 0x11, 0x3E, 0x95, 0x5B, 0xE3]);
    expected.extend_from_slice(&[0, 0, 0, 0, 0, 0, 0, 0]);
    assert_eq!(packed.data.to_vec(), expected);

    let bytes = write_all(&[entry], 8192);
    let mut file = Vec::new();
    file.extend_from_slice(b"BINP");
    file.extend_from_slice(&34u32.to_le_bytes());
    file.extend_from_slice(&expected);
    file.extend_from_slice(&[0, 0]);
    assert_eq!(bytes, file);

    let entries = read_all(bytes);
    assert_eq!(entries.len(), 1);
    assert!(same_entry(&entries[0], &entry));
    assert_eq!(PackedTrainingDataEntry::pack_entry(&entries[0]).data, packed.data);
}

#[test]
fn after_e4_two_records_come_back() {
    let entries = game(
        start_position(),
        0,
        1,
        &[(Move::normal(sq("e2"), sq("e4")), 25), (Move::normal(sq("e7"), sq("e5")), -20)],
    );
    assert!(is_continuation(&entries[0], &entries[1]));
    let bytes = write_all(&entries, 8192);
    // one chunk: the first record, the count of plies, and the plies in two bytes
    assert_eq!(bytes.len(), 8 + 32 + 2 + 2);
    assert_eq!(&bytes[40..42], &[0, 1]);
    let back = read_all(bytes);
    assert_eq!(back.len(), 2);
    assert!(same_entry(&back[0], &entries[0]));
    assert!(same_entry(&back[1], &entries[1]));
    assert_eq!(back[0].score, 25);
    assert_eq!(back[0].result, 1);
    assert_eq!(back[1].pos.side_to_move(), Color::Black);
    assert_eq!(back[1].ply, 1);
    assert_eq!(back[1].result, 1);
    let mut after = back[1].pos;
    after.do_move(back[1].mv);
    assert_eq!(after.side_to_move(), Color::White);
    assert_eq!(after.fen(), "rnbqkbnr/pppp1ppp/8/4p3/4P3/8/PPPP1PPP/RNBQKBNR w KQkq - 0 2");
}

#[test]
fn a_game_is_replayed_move_by_move() {
    let moves = [
        (Move::normal(sq("e2"), sq("e4")), 30),
        (Move::normal(sq("d7"), sq("d5")), -25),
        (Move::normal(sq("e4"), sq("e5")), 40),
        (Move::normal(sq("f7"), sq("f5")), -35),
        (Move::en_passant(sq("e5"), sq("f6")), 50),
        (Move::normal(sq("g8"), sq("f6")), -10),
        (Move::normal(sq("g1"), sq("f3")), 15),
        (Move::normal(sq("e7"), sq("e5")), -300),
        (Move::normal(sq("f1"), sq("b5")), 3000),
        (Move::normal(sq("c7"), sq("c6")), -3000),
        (Move::new(sq("e1"), sq("h1"), binpack_reader::chess::chess_move::MoveType::Castle, Piece::none()), 1),
        (Move::normal(sq("c6"), sq("b5")), 0),
    ];
    let entries = game(start_position(), 0, -1, &moves);
    let bytes = write_all(&entries, 8192);
    let back = read_all(bytes);
    assert_eq!(back.len(), entries.len());
    for (a, b) in back.iter().zip(entries.iter()) {
        assert!(same_entry(a, b));
        assert_eq!(a.pos.fen(), b.pos.fen());
    }
    for pair in back.windows(2) {
        let mut replayed = pair[0].pos;
        replayed.do_move(pair[0].mv);
        assert!(replayed.same_as(&pair[1].pos));
        assert_eq!(pair[1].ply, pair[0].ply + 1);
        assert_eq!(pair[1].result, pair[0].result);
        assert_ne!(pair[1].pos.side_to_move(), pair[0].pos.side_to_move());
    }
    assert_eq!(back[4].pos.ep_square(), sq("f6"));
    assert_eq!(back[11].pos.fen(), "rnbqkb1r/pp4pp/2p2n2/1B1pp3/8/5N2/PPPP1PPP/RNBQ1RK1 b kq - 1 6");
}

#[test]
fn two_chunk_stream() {
    let mut entries = Vec::new();
    for i in 0..10_000u32 {
        let mut pos = start_position();
        let ply = (i % 0x4000) as u16;
        pos.set_ply(ply);
        pos.set_rule50_counter((i % 100) as u16);
        if i % 2 == 1 {
            pos.set_castling_rights(CastlingRights((i % 16) as u8));
        }
        entries.push(TrainingDataEntry {
            pos,
            mv: Move::normal(sq("e2"), sq("e4")),
            score: (i as i32 - 5000) as i16,
            ply,
            result: (i % 3) as i16 - 1,
        });
    }
    let bytes = write_all(&entries, 5_000 * 34);
    assert_eq!(bytes.len(), 2 * 8 + 10_000 * 34);
    let mut file = CompressedTrainingDataFile::new(bytes.clone());
    assert_eq!(file.read_next_chunk().unwrap().len(), 5_000 * 34);
    assert_eq!(file.read_next_chunk().unwrap().len(), 5_000 * 34);
    assert!(!file.has_next_chunk());
    let back = read_all(bytes);
    assert_eq!(back.len(), 10_000);
    assert!(same_entry(&back[9_999], &entries[9_999]));
    for (a, b) in back.iter().zip(entries.iter()) {
        assert!(same_entry(a, b));
    }
}

#[test]
fn test_reader_simple() {
    let mut entries = Vec::new();
    for g in 0..50i16 {
        entries.extend(game(
            start_position(),
            0,
            g % 3 - 1,
            &[
                (Move::normal(sq("d2"), sq("d4")), 10 + g),
                (Move::normal(sq("d7"), sq("d5")), -g),
                (Move::normal(sq("c2"), sq("c4")), 20),
                (Move::normal(sq("d5"), sq("c4")), -15 - g),
            ],
        ));
    }
    let mut reader = CompressedTrainingDataEntryReader::new(write_all(&entries, 256)).unwrap();

    let mut count: u64 = 0;
    let mut score: i64 = 0;

    while reader.has_next() {
        let entry = reader.next().unwrap();

        count += 1;

        score += entry.score as i64;

        if count == 100000 {
            println!("count: {}", count);
            println!("score: {}", score);
            break;
        }
    }
    assert_eq!(count, 200);
    assert_eq!(score, entries.iter().map(|e| e.score as i64).sum::<i64>());
}

#[test]
fn games_are_told_apart_by_ply_result_and_position() {
    let entries = game(
        start_position(),
        0,
        0,
        &[(Move::normal(sq("e2"), sq("e4")), 1), (Move::normal(sq("e7"), sq("e5")), 2)],
    );
    assert!(is_continuation(&entries[0], &entries[1]));
    assert!(!is_continuation(&entries[1], &entries[0]));
    let other_result = TrainingDataEntry { result: 1, ..entries[1] };
    assert!(!is_continuation(&entries[0], &other_result));
    let other_ply = TrainingDataEntry { ply: 2, ..entries[1] };
    assert!(!is_continuation(&entries[0], &other_ply));
    let null_first = TrainingDataEntry { mv: Move::null(), ..entries[0] };
    assert!(!is_continuation(&null_first, &entries[1]));
    // records that do not go on a game are written one by one
    let bytes = write_all(&[entries[0], other_ply, entries[1]], 8192);
    assert_eq!(bytes.len(), 8 + 3 * 34);
    let back = read_all(bytes);
    assert_eq!(back.len(), 3);
    assert!(same_entry(&back[2], &entries[1]));
}

#[test]
fn empty_file_is_end_of_file() {
    assert!(matches!(
        CompressedTrainingDataEntryReader::new(Vec::new()),
        Err(CompressedReaderError::EndOfFile)
    ));
    let writer = CompressedTrainingDataEntryWriter::new(Vec::new());
    assert_eq!(writer.into_bytes().len(), 0);
    let mut writer = CompressedTrainingDataEntryWriter::new(Vec::new());
    writer.close().unwrap();
    assert_eq!(writer.into_bytes().len(), 0);
}

#[test]
fn bad_first_chunk_is_reported_by_the_constructor() {
    assert!(matches!(
        CompressedTrainingDataEntryReader::new(b"INVALID!".to_vec()),
        Err(CompressedReaderError::BinpackError(BinpackError::InvalidMagic))
    ));
    assert!(matches!(
        CompressedTrainingDataEntryReader::new(b"BINP\xFF\xFF\xFF\xFF".to_vec()),
        Err(CompressedReaderError::BinpackError(BinpackError::InvalidFormat(_)))
    ));
    assert!(matches!(
        CompressedTrainingDataEntryReader::new(b"BINP\x05\x00\x00\x00abc".to_vec()),
        Err(CompressedReaderError::BinpackError(BinpackError::InvalidFormat(_)))
    ));
}

#[test]
fn short_chunk_ends_the_reading_with_an_error() {
    let mut file = CompressedTrainingDataFile::new(Vec::new());
    file.append(&[0u8; 33]).unwrap();
    let mut reader = CompressedTrainingDataEntryReader::new(file.data).unwrap();
    assert!(reader.has_next());
    assert!(matches!(reader.next(), Err(CompressedReaderError::InvalidFormat(_))));
    assert!(!reader.has_next());
}

#[test]
fn broken_plies_end_the_reading_with_an_error() {
    let entries = game(
        start_position(),
        0,
        1,
        &[(Move::normal(sq("e2"), sq("e4")), 25), (Move::normal(sq("e7"), sq("e5")), -20)],
    );
    let mut bytes = write_all(&entries, 8192);
    // claim three plies where the chunk holds one
    bytes[41] = 3;
    let mut reader = CompressedTrainingDataEntryReader::new(bytes).unwrap();
    assert!(same_entry(&reader.next().unwrap(), &entries[0]));
    assert!(same_entry(&reader.next().unwrap(), &entries[1]));
    assert!(reader.has_next());
    assert!(matches!(
        reader.next(),
        Err(CompressedReaderError::BinpackError(BinpackError::InvalidFormat(_)))
    ));
    assert!(!reader.has_next());
}

#[test]
fn broken_second_chunk_ends_the_reading_with_an_error() {
    let entry = TrainingDataEntry { pos: start_position(), mv: Move::null(), score: 0, ply: 0, result: 0 };
    let mut bytes = write_all(&[entry], 8192);
    bytes.extend_from_slice(b"JUNK");
    let mut reader = CompressedTrainingDataEntryReader::new(bytes).unwrap();
    assert!(matches!(
        reader.next(),
        Err(CompressedReaderError::BinpackError(BinpackError::InvalidMagic))
    ));
    assert!(!reader.has_next());
}

#[test]
fn writer_appends_to_what_the_file_holds() {
    let entry = TrainingDataEntry { pos: start_position(), mv: Move::null(), score: 7, ply: 0, result: 0 };
    let first = write_all(&[entry], 8192);
    let mut writer = CompressedTrainingDataEntryWriter::new(first.clone());
    writer.write_entry(&TrainingDataEntry { score: 8, ..entry }).unwrap();
    writer.close().unwrap();
    let bytes = writer.into_bytes();
    assert_eq!(&bytes[..first.len()], &first[..]);
    let back = read_all(bytes);
    assert_eq!(back.len(), 2);
    assert_eq!((back[0].score, back[1].score), (7, 8));
}

#[test]
fn records_with_moves_that_cannot_be_packed_are_refused() {
    let entry = TrainingDataEntry {
        pos: start_position(),
        mv: Move::normal(sq("e2"), Square::none()),
        score: 0,
        ply: 0,
        result: 0,
    };
    let mut writer = CompressedTrainingDataEntryWriter::new(Vec::new());
    assert!(matches!(writer.write_entry(&entry), Err(BinpackError::InvalidFormat(_))));
    writer.close().unwrap();
    assert_eq!(writer.into_bytes().len(), 0);
}

/// The moves of the side to move that can be made, by the squares that its
/// pieces may go to.
fn candidate_moves(pos: &Position) -> Vec<Move> {
    let us = pos.side_to_move();
    let mut moves = Vec::new();
    for from in pos.pieces_bb(us).squares() {
        let kind = pos.piece_at(from).piece_type();
        let promotes = kind == PieceType::Pawn && from.index() / 8 == if us == Color::White { 6 } else { 1 };
        for to in destinations(pos, from).squares() {
            if promotes {
                for k in [PieceType::Knight, PieceType::Bishop, PieceType::Rook, PieceType::Queen] {
                    moves.push(Move::promotion(from, to, Piece::new(k, us)));
                }
            } else if kind == PieceType::Pawn && to == pos.ep_square() {
                moves.push(Move::en_passant(from, to));
            } else {
                moves.push(Move::normal(from, to));
            }
        }
    }
    for wing in [
        binpack_reader::chess::castling_rights::CastleType::Short,
        binpack_reader::chess::castling_rights::CastleType::Long,
    ] {
        let right = binpack_reader::chess::castling_rights::CastlingTraits::castling_rights(us, wing);
        if pos.castling_rights().contains(right) {
            moves.push(Move::castle(wing, us));
        }
    }
    moves.retain(|mv| pos.is_applicable(*mv));
    moves
}

#[test]
fn random_games_round_trip() {
    let mut seed = 0x2545_F491_4F6C_DD1Du64;
    let mut all = Vec::new();
    let mut kinds = [0usize; 4];
    for g in 0..40u32 {
        let mut pos = start_position();
        let result = (g % 3) as i16 - 1;
        let mut ply = 0u16;
        for _ in 0..150 {
            let moves = candidate_moves(&pos);
            if moves.is_empty() {
                break;
            }
            seed ^= seed << 13;
            seed ^= seed >> 7;
            seed ^= seed << 17;
            let mv = moves[(seed % moves.len() as u64) as usize];
            kinds[mv.mtype().ordinal() as usize] += 1;
            let score = (seed >> 20) as i16;
            all.push(TrainingDataEntry { pos, mv, score, ply, result });
            pos.do_move(mv);
            ply += 1;
            assert_eq!(pos.ply(), ply);
            assert_eq!(pos.occupied().bits(), pos.pieces_bb(Color::White).bits() | pos.pieces_bb(Color::Black).bits());
        }
    }
    assert!(all.len() > 3000);
    assert!(kinds.iter().all(|k| *k > 0));
    let bytes = write_all(&all, 1024);
    // every game takes one packed record, the rest are plies
    assert!(bytes.len() < all.len() * 6);
    let back = read_all(bytes);
    assert_eq!(back.len(), all.len());
    for (a, b) in back.iter().zip(all.iter()) {
        assert!(same_entry(a, b));
    }
}
