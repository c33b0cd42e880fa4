//! The errors of the codec and of the container.

use vstd::prelude::*;

verus! {

/// What can go wrong while packed data is read.
#[derive(Debug)]
pub enum BinpackError {
    /// The source of the bytes failed; the message says how.
    Io(String),
    /// A chunk does not start with the letters `BINP`.
    InvalidMagic,
    /// The data is not what the format allows; the message says where.
    InvalidFormat(String),
    /// There is no chunk at all.
    EndOfFile,
}

} // verus!
