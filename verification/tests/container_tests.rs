use binpack_reader::binpack_error::BinpackError;
use binpack_reader::training_data_file::{
    CompressedTrainingDataFile, HEADER_SIZE, MAX_CHUNK_SIZE,
};

fn create_test_file(data: &[u8]) -> Vec<u8> {
    let mut file = Vec::new();
    let mut header = [0u8; HEADER_SIZE];
    header[0] = b'B';
    header[1] = b'I';
    header[2] = b'N';
    header[3] = b'P';
    header[4..8].copy_from_slice(&(data.len() as u32).to_le_bytes());
    file.extend_from_slice(&header);
    file.extend_from_slice(data);
    file
}

#[test]
fn test_new_file_creation() {
    let file = CompressedTrainingDataFile::new(Vec::new());
    assert_eq!(file.read_bytes(), 0);
    assert!(!file.has_next_chunk());
}

#[test]
fn test_read_valid_chunk() {
    let test_data = b"Hello, World!";
    let bytes = create_test_file(test_data);

    let mut file = CompressedTrainingDataFile::new(bytes);
    assert!(file.has_next_chunk());

    let chunk = file.read_next_chunk().unwrap();
    assert_eq!(chunk, test_data);
    assert_eq!(file.read_bytes(), (HEADER_SIZE + test_data.len()) as u64);
}

#[test]
fn test_has_next_chunk() {
    let test_data = b"Test Data";
    let bytes = create_test_file(test_data);

    let mut file = CompressedTrainingDataFile::new(bytes);
    assert!(file.has_next_chunk());

    let _ = file.read_next_chunk().unwrap();
    assert!(!file.has_next_chunk());
}

#[test]
fn test_invalid_magic_number() {
    let mut file = CompressedTrainingDataFile::new(b"INVALID".to_vec());
    match file.read_next_chunk() {
        Err(BinpackError::InvalidMagic) => (),
        _ => panic!("Expected InvalidMagic error"),
    }
}

#[test]
fn test_chunk_size_too_large() {
    let mut header = [0u8; HEADER_SIZE];
    header[0..4].copy_from_slice(b"BINP");
    header[4..8].copy_from_slice(&(MAX_CHUNK_SIZE + 1).to_le_bytes());

    let mut file = CompressedTrainingDataFile::new(header.to_vec());
    match file.read_next_chunk() {
        Err(BinpackError::InvalidFormat(_)) => (),
        _ => panic!("Expected InvalidFormat error"),
    }
}

#[test]
fn test_multiple_chunks() {
    let chunks = vec![b"Chunk1", b"Chunk2", b"Chunk3"];
    let mut bytes = Vec::new();

    for chunk in &chunks {
        let mut header = [0u8; HEADER_SIZE];
        header[0..4].copy_from_slice(b"BINP");
        header[4..8].copy_from_slice(&(chunk.len() as u32).to_le_bytes());
        bytes.extend_from_slice(&header);
        bytes.extend_from_slice(*chunk);
    }

    let mut file = CompressedTrainingDataFile::new(bytes);

    for expected_chunk in chunks {
        assert!(file.has_next_chunk());
        let chunk = file.read_next_chunk().unwrap();
        assert_eq!(chunk, expected_chunk);
    }

    assert!(!file.has_next_chunk());
}

#[test]
fn chunk_header_layout_is_magic_then_little_endian_size() {
    let mut file = CompressedTrainingDataFile::new(Vec::new());
    file.append(&[7u8; 0x0102]).unwrap();
    assert_eq!(&file.data[0..8], &[b'B', b'I', b'N', b'P', 0x02, 0x01, 0x00, 0x00]);
    assert_eq!(file.data.len(), 8 + 0x0102);
    assert_eq!(file.read_bytes(), 0);
}

#[test]
fn written_chunks_are_read_back_in_order() {
    let payloads: Vec<Vec<u8>> = vec![vec![], vec![1], vec![2, 3, 4], (0..=255).collect(), vec![9; 1000]];
    let mut file = CompressedTrainingDataFile::new(Vec::new());
    for p in &payloads {
        file.append(p).unwrap();
    }
    let mut read = 0u64;
    for p in &payloads {
        assert!(file.has_next_chunk());
        assert_eq!(&file.read_next_chunk().unwrap(), p);
        read += 8 + p.len() as u64;
        assert_eq!(file.read_bytes(), read);
    }
    assert!(!file.has_next_chunk());
}

#[test]
fn reading_at_the_end_of_the_file_is_end_of_file() {
    let mut file = CompressedTrainingDataFile::new(create_test_file(b"x"));
    file.read_next_chunk().unwrap();
    assert!(matches!(file.read_next_chunk(), Err(BinpackError::EndOfFile)));
    let mut empty = CompressedTrainingDataFile::new(Vec::new());
    assert!(matches!(empty.read_next_chunk(), Err(BinpackError::EndOfFile)));
}

#[test]
fn truncated_header_and_payload_are_invalid_format() {
    let mut header_only = CompressedTrainingDataFile::new(b"BINP\x01\x00".to_vec());
    assert!(matches!(header_only.read_next_chunk(), Err(BinpackError::InvalidFormat(_))));
    assert_eq!(header_only.read_bytes(), 0);

    let mut bytes = create_test_file(b"abcdef");
    bytes.truncate(8 + 3);
    let mut short_payload = CompressedTrainingDataFile::new(bytes);
    assert!(matches!(short_payload.read_next_chunk(), Err(BinpackError::InvalidFormat(_))));
    assert!(short_payload.has_next_chunk());
}

#[test]
fn short_or_wrong_magic_is_invalid_magic() {
    let mut three = CompressedTrainingDataFile::new(b"BIN".to_vec());
    assert!(matches!(three.read_next_chunk(), Err(BinpackError::InvalidMagic)));
    let mut wrong = CompressedTrainingDataFile::new(b"BINQ\x00\x00\x00\x00".to_vec());
    assert!(matches!(wrong.read_next_chunk(), Err(BinpackError::InvalidMagic)));
}

#[test]
fn chunk_of_the_largest_size_is_accepted_by_its_header() {
    let mut bytes = Vec::new();
    bytes.extend_from_slice(b"BINP");
    bytes.extend_from_slice(&MAX_CHUNK_SIZE.to_le_bytes());
    let mut file = CompressedTrainingDataFile::new(bytes);
    // The header is fine; the payload is missing.
    assert!(matches!(file.read_next_chunk(), Err(BinpackError::InvalidFormat(_))));
    assert_eq!(MAX_CHUNK_SIZE, 104_857_600);
}
