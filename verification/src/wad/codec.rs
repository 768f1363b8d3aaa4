//! The compression codecs a WAD stores chunks with, as flate2 and ruzstd
//! implement them, and the hashes its records carry, as xxhash-rust and sha2
//! compute them.
//!
//! Every function here is trusted: its contract names what the outside crate
//! returns rather than proving it.

use std::io::{Cursor, Read};

use vstd::prelude::*;

verus! {

/// Why a zstd stream did not decode.
#[derive(Debug)]
pub enum ZstdFailure {
    /// The frame header did not open: ruzstd's reason.
    Open(String),
    /// The frames opened and then failed to yield the bytes asked for.
    Read(std::io::Error),
}

/// The `len` bytes gzip decoding of `raw` starts with, or `None` when the
/// stream does not yield that many.
pub uninterp spec fn gzip_exact(raw: Seq<u8>, len: nat) -> Option<Seq<u8>>;

/// At most `max_len` bytes from the start of the gzip decoding of `raw`, or
/// `None` when reading them fails.
pub uninterp spec fn gzip_prefix(raw: Seq<u8>, max_len: nat) -> Option<Seq<u8>>;

/// The gzip encoding of `data` at flate2's default level.
pub uninterp spec fn gzip_encoding(data: Seq<u8>) -> Seq<u8>;

/// Whether ruzstd opens a frame at the start of `raw`.
pub uninterp spec fn zstd_opens(raw: Seq<u8>) -> bool;

/// The `len` bytes zstd decoding of `raw` starts with, or `None` when the
/// frames do not yield that many.
pub uninterp spec fn zstd_exact(raw: Seq<u8>, len: nat) -> Option<Seq<u8>>;

/// What one read of at most `len` bytes from the zstd decoding of `raw`
/// yields, or `None` when the read fails.
pub uninterp spec fn zstd_once(raw: Seq<u8>, len: nat) -> Option<Seq<u8>>;

/// At most `max_len` bytes from the start of the zstd decoding of `raw`, or
/// `None` when reading them fails.
pub uninterp spec fn zstd_prefix(raw: Seq<u8>, max_len: nat) -> Option<Seq<u8>>;

/// The zstd encoding of `data` at ruzstd's fastest level.
pub uninterp spec fn zstd_encoding(data: Seq<u8>) -> Seq<u8>;

/// XXH3 (64 bit) of `data`.
pub uninterp spec fn xxh3_64_of(data: Seq<u8>) -> u64;

/// XXH64 of `data` with seed `seed`.
pub uninterp spec fn xxh64_of(data: Seq<u8>, seed: u64) -> u64;

/// SHA-256 of `data`.
pub uninterp spec fn sha256_of(data: Seq<u8>) -> Seq<u8>;

/// flate2's `GzDecoder` over `raw`, read with `read_exact` into `len` bytes.
///
/// Claims: the result is the named decoding, `len` bytes long, and it is an
/// error exactly when the name has no decoding. Which `io::Error` comes back
/// is left unsaid.
#[verifier::external_body]
pub(crate) fn gzip_read_exact(raw: &[u8], len: usize) -> (r: Result<Vec<u8>, std::io::Error>)
    ensures
        r is Ok <==> gzip_exact(raw@, len as nat) is Some,
        r matches Ok(v) ==> gzip_exact(raw@, len as nat) == Some(v@) && v@.len() == len,
{
    let mut data = vec![0u8; len];
    flate2::read::GzDecoder::new(Cursor::new(raw)).read_exact(&mut data).map(|_| data)
}

/// flate2's `GzDecoder` over `raw`, limited with `take(max_len)` and read to
/// the end.
///
/// Claims: the result is the named prefix, at most `max_len` bytes long.
#[verifier::external_body]
pub(crate) fn gzip_read_prefix(raw: &[u8], max_len: usize) -> (r: Result<Vec<u8>, std::io::Error>)
    ensures
        r is Ok <==> gzip_prefix(raw@, max_len as nat) is Some,
        r matches Ok(v) ==> gzip_prefix(raw@, max_len as nat) == Some(v@) && v@.len() <= max_len,
{
    let mut data = Vec::new();
    flate2::read::GzDecoder::new(Cursor::new(raw)).take(max_len as u64).read_to_end(
        &mut data,
    ).map(|_| data)
}

/// flate2's `GzEncoder` at the default level over `data`, read to the end.
///
/// Claims: the result is the named encoding, and the read succeeds: it
/// reads from memory, and the encoder reports no error of its own while
/// compressing.
#[verifier::external_body]
pub(crate) fn gzip_encode(data: &[u8]) -> (r: Result<Vec<u8>, std::io::Error>)
    ensures
        r is Ok,
        r matches Ok(v) ==> v@ == gzip_encoding(data@),
{
    let mut out = Vec::new();
    flate2::read::GzEncoder::new(data, flate2::Compression::default()).read_to_end(
        &mut out,
    ).map(|_| out)
}

/// ruzstd's `StreamingDecoder::new` over `raw`, only to see whether it opens.
///
/// Claims: the answer is the named one.
#[verifier::external_body]
pub(crate) fn zstd_frame_opens(raw: &[u8]) -> (r: bool)
    ensures
        r == zstd_opens(raw@),
{
    ruzstd::decoding::StreamingDecoder::new(Cursor::new(raw)).is_ok()
}

/// ruzstd's `StreamingDecoder` over `raw`, read with `read_exact` into `len`
/// bytes.
///
/// Claims: opening fails exactly when the named test says so, the result is
/// the named decoding, `len` bytes long, and a read error comes exactly when
/// the name has no decoding.
#[verifier::external_body]
pub(crate) fn zstd_read_exact(raw: &[u8], len: usize) -> (r: Result<Vec<u8>, ZstdFailure>)
    ensures
        r matches Err(ZstdFailure::Open(_)) <==> !zstd_opens(raw@),
        zstd_opens(raw@) ==> (r is Ok <==> zstd_exact(raw@, len as nat) is Some),
        r matches Ok(v) ==> zstd_exact(raw@, len as nat) == Some(v@) && v@.len() == len,
{
    let mut decoder = ruzstd::decoding::StreamingDecoder::new(Cursor::new(raw)).map_err(
        |error| ZstdFailure::Open(error.to_string()),
    )?;
    let mut data = vec![0u8; len];
    decoder.read_exact(&mut data).map_err(ZstdFailure::Read)?;
    Ok(data)
}

/// ruzstd's `StreamingDecoder` over `raw`, read once with `read` into a
/// buffer of `len` bytes.
///
/// Claims: opening fails exactly when the named test says so, and the bytes
/// the read yields are the named ones, at most `len` of them.
#[verifier::external_body]
pub(crate) fn zstd_read_once(raw: &[u8], len: usize) -> (r: Result<Vec<u8>, ZstdFailure>)
    ensures
        r matches Err(ZstdFailure::Open(_)) <==> !zstd_opens(raw@),
        zstd_opens(raw@) ==> (r is Ok <==> zstd_once(raw@, len as nat) is Some),
        r matches Ok(v) ==> zstd_once(raw@, len as nat) == Some(v@) && v@.len() <= len,
{
    let mut decoder = ruzstd::decoding::StreamingDecoder::new(Cursor::new(raw)).map_err(
        |error| ZstdFailure::Open(error.to_string()),
    )?;
    let mut data = vec![0u8; len];
    let read = decoder.read(&mut data).map_err(ZstdFailure::Read)?;
    data.truncate(read);
    Ok(data)
}

/// ruzstd's `StreamingDecoder` over `raw`, limited with `take(max_len)` and
/// read to the end.
///
/// Claims: opening fails exactly when the named test says so, and the result
/// is the named prefix, at most `max_len` bytes long.
#[verifier::external_body]
pub(crate) fn zstd_read_prefix(raw: &[u8], max_len: usize) -> (r: Result<Vec<u8>, ZstdFailure>)
    ensures
        r matches Err(ZstdFailure::Open(_)) <==> !zstd_opens(raw@),
        zstd_opens(raw@) ==> (r is Ok <==> zstd_prefix(raw@, max_len as nat) is Some),
        r matches Ok(v) ==> zstd_prefix(raw@, max_len as nat) == Some(v@) && v@.len() <= max_len,
{
    let decoder = ruzstd::decoding::StreamingDecoder::new(Cursor::new(raw)).map_err(
        |error| ZstdFailure::Open(error.to_string()),
    )?;
    let mut data = Vec::new();
    decoder.take(max_len as u64).read_to_end(&mut data).map_err(ZstdFailure::Read)?;
    Ok(data)
}

/// ruzstd's `encoding::compress` of `data` at the fastest level.
///
/// Claims: the result is the named encoding.
#[verifier::external_body]
pub(crate) fn zstd_encode(data: &[u8]) -> (r: Vec<u8>)
    ensures
        r@ == zstd_encoding(data@),
{
    let mut out = Vec::new();
    ruzstd::encoding::compress(data, &mut out, ruzstd::encoding::CompressionLevel::Fastest);
    out
}

/// xxhash-rust's `xxh3::xxh3_64`.
///
/// Claims: the result is the named hash of the bytes.
#[verifier::external_body]
pub(crate) fn xxh3_64(data: &[u8]) -> (r: u64)
    ensures
        r == xxh3_64_of(data@),
{
    xxhash_rust::xxh3::xxh3_64(data)
}

/// xxhash-rust's `xxh64::xxh64`.
///
/// Claims: the result is the named hash of the bytes and the seed.
#[verifier::external_body]
pub(crate) fn xxh64(data: &[u8], seed: u64) -> (r: u64)
    ensures
        r == xxh64_of(data@, seed),
{
    xxhash_rust::xxh64::xxh64(data, seed)
}

/// sha2's `Sha256::digest`.
///
/// Claims: the result is the named digest of the bytes, 32 bytes long.
#[verifier::external_body]
pub(crate) fn sha256(data: &[u8]) -> (r: [u8; 32])
    ensures
        r@ == sha256_of(data@),
        r@.len() == 32,
{
    <sha2::Sha256 as sha2::Digest>::digest(data).into()
}

} // verus!
