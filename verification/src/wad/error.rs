//! What can go wrong with a WAD archive.

use vstd::prelude::*;

verus! {

#[verifier::external_type_specification]
#[verifier::external_body]
pub struct ExIoError(std::io::Error);

/// std's `io::Error::from(ErrorKind::UnexpectedEof)`: the error a read that
/// ran out of bytes reports.
///
/// Claims nothing of the value: it is only carried.
#[verifier::external_body]
pub(crate) fn unexpected_eof() -> (r: std::io::Error) {
    std::io::Error::from(std::io::ErrorKind::UnexpectedEof)
}

/// What can go wrong with a WAD archive.
#[derive(Debug)]
#[non_exhaustive]
pub enum WadError {
    /// The file does not start with the WAD magic.
    InvalidHeader { expected: String, actual: String },
    /// The file is a WAD of a version this crate does not read.
    InvalidVersion { major: u8, minor: u8 },
    /// A chunk names a compression this crate does not know.
    InvalidChunkCompression { compression: u8 },
    /// Two chunks share one path hash.
    DuplicateChunk { path_hash: u64 },
    /// A chunk's bytes do not decompress.
    DecompressionFailure { reason: String },
    /// The source or the output could not be read or written.
    IoError(std::io::Error),
    /// A failure of one chunk, with the chunk it was.
    Chunk { path_hash: u64, path: String, source: Box<WadError> },
    /// Anything else.
    Other(String),
}

impl WadError {
    /// `source`, as the failure of the chunk at `path`.
    pub fn chunk(path_hash: u64, path: &str, source: WadError) -> (r: Self)
        ensures
            r matches WadError::Chunk { path_hash: h, path: p, source: s } && h == path_hash
                && p@ == path@ && *s == source,
    {
        WadError::Chunk { path_hash, path: path.to_owned(), source: Box::new(source) }
    }
}

} // verus!
