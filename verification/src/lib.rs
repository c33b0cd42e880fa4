//! Reader and writer for a compact binary format that stores chess training
//! data as streams of `(position, move, score, ply, result)` tuples.

pub mod arithmetic;
pub mod binpack_error;
pub mod bitstream;
pub mod chess;
pub mod compressed_move;
pub mod game;
pub mod move_encoding;
pub mod packed_position;
pub mod reader;
pub mod training_data_entry;
pub mod training_data_file;
pub mod writer;
