//! Decompressing a chunk's raw bytes.

use vstd::prelude::*;

use super::chunk::{WadChunk, WadChunkCompression};
use super::codec::{
    gzip_exact, gzip_prefix, gzip_read_exact, gzip_read_prefix, zstd_exact, zstd_frame_opens,
    zstd_once, zstd_opens, zstd_prefix, zstd_read_exact, zstd_read_once, zstd_read_prefix,
    ZstdFailure,
};
use super::error::WadError;
use super::subchunk::{spec_subchunks_of, SubchunkToc, WadSubchunk};

verus! {

/// The four bytes a zstd frame starts with.
pub open spec fn zstd_magic() -> Seq<u8> {
    seq![0x28u8, 0xB5u8, 0x2Fu8, 0xFDu8]
}

/// Whether the zstd magic starts at `i` in `raw`.
pub open spec fn magic_at(raw: Seq<u8>, i: int) -> bool {
    0 <= i && i + 4 <= raw.len() && raw.subrange(i, i + 4) == zstd_magic()
}

/// The first offset at or after `start` where the zstd magic starts.
pub open spec fn magic_from(raw: Seq<u8>, start: nat) -> Option<nat>
    decreases raw.len() - start,
{
    if start + 4 > raw.len() {
        None
    } else if magic_at(raw, start as int) {
        Some(start)
    } else {
        magic_from(raw, start + 1)
    }
}

proof fn lemma_magic_from(raw: Seq<u8>, start: nat)
    ensures
        magic_from(raw, start) matches Some(o) ==> start <= o && o + 4 <= raw.len() && magic_at(
            raw,
            o as int,
        ),
    decreases raw.len() - start,
{
    if start + 4 <= raw.len() && !magic_at(raw, start as int) {
        lemma_magic_from(raw, start + 1);
    }
}

/// The first offset where the zstd magic starts.
pub open spec fn magic_offset(raw: Seq<u8>) -> Option<nat> {
    magic_from(raw, 0)
}

/// `n` zero bytes.
pub open spec fn zeros(n: nat) -> Seq<u8> {
    Seq::new(n, |i: int| 0u8)
}

/// What `decompress_raw` gives back, or `None` when it fails.
pub open spec fn raw_decompression(
    raw: Seq<u8>,
    compression: WadChunkCompression,
    size: nat,
) -> Option<Seq<u8>> {
    match compression {
        WadChunkCompression::Uncompressed => Some(raw),
        WadChunkCompression::GZip => gzip_exact(raw, size),
        WadChunkCompression::Satellite => None,
        WadChunkCompression::Zstd => zstd_exact(raw, size),
        WadChunkCompression::ZstdMulti => match magic_offset(raw) {
            None => None,
            Some(off) => match zstd_once(raw.skip(off as int), (size - off) as nat) {
                Some(d) => Some(raw.take(off as int) + d + zeros((size - off - d.len()) as nat)),
                None => None,
            },
        },
    }
}

/// Whether `decompress_raw` runs on the input without stopping the program:
/// a zstd frame header it expects must open, and the raw bytes in front of a
/// `ZstdMulti` chunk's first frame must fit its uncompressed size.
pub open spec fn raw_decompression_runs(
    raw: Seq<u8>,
    compression: WadChunkCompression,
    size: nat,
) -> bool {
    match compression {
        WadChunkCompression::Zstd => zstd_opens(raw),
        WadChunkCompression::ZstdMulti => match magic_offset(raw) {
            None => true,
            Some(off) => off <= size && zstd_opens(raw.skip(off as int)),
        },
        _ => true,
    }
}

/// The first offset where the zstd magic starts in `raw`.
pub fn find_zstd_magic(raw: &[u8]) -> (r: Option<usize>)
    ensures
        r is None <==> magic_offset(raw@) is None,
        r matches Some(off) ==> magic_offset(raw@) == Some(off as nat) && off + 4 <= raw@.len(),
{
    proof {
        lemma_magic_from(raw@, 0);
    }
    let n = raw.len();
    let mut i: usize = 0;
    while n >= 4 && i <= n - 4
        invariant
            n == raw@.len(),
            magic_from(raw@, 0) == magic_from(raw@, i as nat),
        decreases n - i,
    {
        if raw[i] == 0x28 && raw[i + 1] == 0xB5 && raw[i + 2] == 0x2F && raw[i + 3] == 0xFD {
            assert(raw@.subrange(i as int, i + 4) =~= zstd_magic());
            return Some(i);
        }
        assert(!magic_at(raw@, i as int)) by {
            if magic_at(raw@, i as int) {
                assert(raw@.subrange(i as int, i + 4)[0] == raw@[i as int]);
                assert(raw@.subrange(i as int, i + 4)[1] == raw@[i + 1]);
                assert(raw@.subrange(i as int, i + 4)[2] == raw@[i + 2]);
                assert(raw@.subrange(i as int, i + 4)[3] == raw@[i + 3]);
            }
        }
        i = i + 1;
    }
    proof {
        lemma_magic_from(raw@, 0);
        assert(!(i + 4 <= n));
    }
    None
}

/// Bytes `from..to` of `raw`, copied.
pub fn copy_range(raw: &[u8], from: usize, to: usize) -> (r: Vec<u8>)
    requires
        from <= to <= raw@.len(),
    ensures
        r@ == raw@.subrange(from as int, to as int),
{
    let mut out: Vec<u8> = Vec::with_capacity(to - from);
    let mut i = from;
    while i < to
        invariant
            from <= i <= to <= raw@.len(),
            out@ == raw@.subrange(from as int, i as int),
        decreases to - i,
    {
        out.push(raw[i]);
        proof {
            assert(out@ =~= raw@.subrange(from as int, i + 1));
        }
        i = i + 1;
    }
    out
}

/// Appends `extra` to `out`.
pub fn append_bytes(out: &mut Vec<u8>, extra: &[u8])
    ensures
        final(out)@ == old(out)@ + extra@,
{
    let mut i: usize = 0;
    while i < extra.len()
        invariant
            i <= extra@.len(),
            out@ == old(out)@ + extra@.subrange(0, i as int),
        decreases extra@.len() - i,
    {
        out.push(extra[i]);
        proof {
            assert(out@ =~= old(out)@ + extra@.subrange(0, i + 1));
        }
        i = i + 1;
    }
    proof {
        assert(extra@.subrange(0, i as int) =~= extra@);
    }
}

/// A `DecompressionFailure` with `reason`.
fn failure(reason: &str) -> (r: WadError)
    ensures
        r is DecompressionFailure,
{
    WadError::DecompressionFailure { reason: String::from_str(reason) }
}

/// The zstd failure as the error the decompressors report.
fn zstd_error(failure: ZstdFailure) -> (r: WadError)
    ensures
        failure is Open ==> r is DecompressionFailure,
        failure is Read ==> r is IoError,
{
    match failure {
        ZstdFailure::Open(reason) => WadError::DecompressionFailure { reason },
        ZstdFailure::Read(error) => WadError::IoError(error),
    }
}

/// Decompresses raw chunk data that has already been read from a WAD source.
///
/// For `Uncompressed`, the input data is returned as-is. A `ZstdMulti` chunk
/// is read as the raw bytes in front of its first zstd frame, then one read
/// of the frames, zero-filled to `uncompressed_size`.
pub fn decompress_raw(
    raw_data: &[u8],
    compression: WadChunkCompression,
    uncompressed_size: usize,
) -> (r: Result<Vec<u8>, WadError>)
    requires
        raw_decompression_runs(raw_data@, compression, uncompressed_size as nat),
    ensures
        r is Ok <==> raw_decompression(raw_data@, compression, uncompressed_size as nat) is Some,
        r matches Ok(v) ==> raw_decompression(raw_data@, compression, uncompressed_size as nat)
            == Some(v@),
        r matches Ok(v) ==> (compression == WadChunkCompression::Uncompressed ==> v@ == raw_data@),
        r matches Ok(v) ==> (compression != WadChunkCompression::Uncompressed ==> v@.len()
            == uncompressed_size),
        compression == WadChunkCompression::Satellite ==> r matches Err(WadError::Other(_)),
        compression == WadChunkCompression::ZstdMulti && magic_offset(raw_data@) is None ==> r
            is Err && r->Err_0 is DecompressionFailure,
        r matches Err(e) ==> (compression != WadChunkCompression::Satellite && !(compression
            == WadChunkCompression::ZstdMulti && magic_offset(raw_data@) is None) ==> e is IoError),
{
    match compression {
        WadChunkCompression::Uncompressed => Ok(copy_range(raw_data, 0, raw_data.len())),
        WadChunkCompression::GZip => match gzip_read_exact(raw_data, uncompressed_size) {
            Ok(v) => Ok(v),
            Err(e) => Err(WadError::IoError(e)),
        },
        WadChunkCompression::Satellite => Err(
            WadError::Other(String::from_str("satellite chunks are not supported")),
        ),
        WadChunkCompression::Zstd => match zstd_read_exact(raw_data, uncompressed_size) {
            Ok(v) => Ok(v),
            Err(e) => Err(zstd_error(e)),
        },
        WadChunkCompression::ZstdMulti => decompress_zstd_multi(raw_data, uncompressed_size),
    }
}

fn decompress_zstd_multi(raw_data: &[u8], uncompressed_size: usize) -> (r: Result<
    Vec<u8>,
    WadError,
>)
    requires
        raw_decompression_runs(
            raw_data@,
            WadChunkCompression::ZstdMulti,
            uncompressed_size as nat,
        ),
    ensures
        r is Ok <==> raw_decompression(
            raw_data@,
            WadChunkCompression::ZstdMulti,
            uncompressed_size as nat,
        ) is Some,
        r matches Ok(v) ==> raw_decompression(
            raw_data@,
            WadChunkCompression::ZstdMulti,
            uncompressed_size as nat,
        ) == Some(v@),
        r matches Ok(v) ==> v@.len() == uncompressed_size,
        magic_offset(raw_data@) is None ==> r is Err && r->Err_0 is DecompressionFailure,
        r matches Err(e) ==> (magic_offset(raw_data@) is Some ==> e is IoError),
{
    let off = match find_zstd_magic(raw_data) {
        Some(off) => off,
        None => {
            return Err(failure("failed to find zstd magic"));
        },
    };
    let mut data = copy_range(raw_data, 0, off);
    let zstd_data = &raw_data[off..raw_data.len()];
    proof {
        assert(zstd_data@ =~= raw_data@.skip(off as int));
        assert(data@ =~= raw_data@.take(off as int));
    }
    let decoded = match zstd_read_once(zstd_data, uncompressed_size - off) {
        Ok(v) => v,
        Err(e) => {
            return Err(zstd_error(e));
        },
    };
    append_bytes(&mut data, decoded.as_slice());
    let fill = uncompressed_size - off - decoded.len();
    let mut k: usize = 0;
    let ghost before = data@;
    while k < fill
        invariant
            k <= fill,
            data@ == before + zeros(k as nat),
        decreases fill - k,
    {
        data.push(0);
        proof {
            assert(data@ =~= before + zeros((k + 1) as nat));
        }
        k = k + 1;
    }
    Ok(data)
}

/// `decompress_raw`, where it runs: `None` when a zstd frame header does not
/// open, or when the raw bytes in front of a `ZstdMulti` chunk's first frame
/// outgrow `uncompressed_size`.
pub fn try_decompress_raw(
    raw_data: &[u8],
    compression: WadChunkCompression,
    uncompressed_size: usize,
) -> (r: Option<Result<Vec<u8>, WadError>>)
    ensures
        r is None <==> !raw_decompression_runs(raw_data@, compression, uncompressed_size as nat),
        r matches Some(res) ==> (res is Ok <==> raw_decompression(
            raw_data@,
            compression,
            uncompressed_size as nat,
        ) is Some),
        r matches Some(Ok(v)) ==> raw_decompression(
            raw_data@,
            compression,
            uncompressed_size as nat,
        ) == Some(v@),
        r matches Some(Ok(v)) ==> (compression != WadChunkCompression::Uncompressed ==> v@.len()
            == uncompressed_size),
{
    let mut runs = true;
    if compression == WadChunkCompression::Zstd {
        runs = zstd_frame_opens(raw_data);
    } else if compression == WadChunkCompression::ZstdMulti {
        match find_zstd_magic(raw_data) {
            None => {},
            Some(off) => {
                if off > uncompressed_size {
                    runs = false;
                } else {
                    let rest = &raw_data[off..raw_data.len()];
                    proof {
                        assert(rest@ =~= raw_data@.skip(off as int));
                    }
                    runs = zstd_frame_opens(rest);
                }
            },
        }
    }
    if runs {
        Some(decompress_raw(raw_data, compression, uncompressed_size))
    } else {
        None
    }
}

/// Why a subchunked decode failed, in the order the checks run.
#[derive(Debug, Clone, Copy, PartialEq, Eq, Structural)]
pub enum SubchunkFailure {
    /// A record reaches past the chunk's compressed bytes.
    CompressedOverrun,
    /// A record reaches past the chunk's uncompressed size.
    UncompressedOverrun,
    /// A compressed subchunk did not decode to its size.
    Frame,
    /// The records' uncompressed sizes do not sum to the chunk's.
    SizeMismatch,
}

/// The decoded runs of `subs`, the first starting at `read` in `raw` and at
/// `written` in an output of `size` bytes.
pub open spec fn subchunk_runs(
    raw: Seq<u8>,
    subs: Seq<WadSubchunk>,
    size: nat,
    read: nat,
    written: nat,
) -> Result<Seq<u8>, SubchunkFailure>
    decreases subs.len(),
{
    if subs.len() == 0 {
        Ok(Seq::empty())
    } else {
        let s = subs[0];
        let cs = s.compressed_size as nat;
        let us = s.uncompressed_size as nat;
        if read + cs > raw.len() {
            Err(SubchunkFailure::CompressedOverrun)
        } else if written + us > size {
            Err(SubchunkFailure::UncompressedOverrun)
        } else {
            let input = raw.subrange(read as int, (read + cs) as int);
            let piece = if cs == us {
                Some(input)
            } else if zstd_opens(input) {
                zstd_exact(input, us)
            } else {
                None
            };
            match piece {
                None => Err(SubchunkFailure::Frame),
                Some(p) if p.len() != us => Err(SubchunkFailure::Frame),
                Some(p) => match subchunk_runs(raw, subs.drop_first(), size, read + cs, written + us) {
                    Ok(rest) => Ok(p + rest),
                    Err(e) => Err(e),
                },
            }
        }
    }
}

/// What `decompress_subchunked` gives back.
pub open spec fn subchunked_decompression(
    raw: Seq<u8>,
    subs: Seq<WadSubchunk>,
    size: nat,
) -> Result<Seq<u8>, SubchunkFailure> {
    match subchunk_runs(raw, subs, size, 0, 0) {
        Ok(d) => if d.len() == size {
            Ok(d)
        } else {
            Err(SubchunkFailure::SizeMismatch)
        },
        Err(e) => Err(e),
    }
}

/// Decompresses a `ZstdMulti` chunk by its subchunk records.
///
/// Each record's compressed bytes are the next run of `raw_data`: a raw copy
/// when its sizes are equal, one zstd frame otherwise.
///
/// Fails when the records do not fit `raw_data`, when their uncompressed
/// sizes do not sum to `uncompressed_size`, or when a subchunk does not
/// decode.
pub fn decompress_subchunked(
    raw_data: &[u8],
    subchunks: &[WadSubchunk],
    uncompressed_size: usize,
) -> (r: Result<Vec<u8>, WadError>)
    ensures
        r is Ok <==> subchunked_decompression(
            raw_data@,
            subchunks@,
            uncompressed_size as nat,
        ) is Ok,
        r matches Ok(v) ==> subchunked_decompression(
            raw_data@,
            subchunks@,
            uncompressed_size as nat,
        ) == Ok::<Seq<u8>, SubchunkFailure>(v@),
        r matches Err(e) ==> e is DecompressionFailure || e is IoError,
{
    let ghost whole = subchunk_runs(raw_data@, subchunks@, uncompressed_size as nat, 0, 0);
    let mut data: Vec<u8> = Vec::new();
    let mut read: usize = 0;
    let mut written: usize = 0;
    let mut i: usize = 0;
    proof {
        assert(subchunks@.skip(0) =~= subchunks@);
        match whole {
            Ok(x) => {
                assert(data@ + x =~= x);
            },
            Err(_) => {},
        }
    }
    while i < subchunks.len()
        invariant
            i <= subchunks@.len(),
            read <= raw_data@.len(),
            written <= uncompressed_size,
            data@.len() == written,
            whole == subchunk_runs(raw_data@, subchunks@, uncompressed_size as nat, 0, 0),
            whole == match subchunk_runs(
                raw_data@,
                subchunks@.skip(i as int),
                uncompressed_size as nat,
                read as nat,
                written as nat,
            ) {
                Ok(rest) => Ok(data@ + rest),
                Err(e) => Err(e),
            },
        decreases subchunks@.len() - i,
    {
        let ghost subs = subchunks@.skip(i as int);
        proof {
            assert(subs[0] == subchunks@[i as int]);
            assert(subs.drop_first() =~= subchunks@.skip(i + 1));
        }
        let sub = subchunks[i];
        let cs = sub.compressed_size as usize;
        let us = sub.uncompressed_size as usize;
        if cs > raw_data.len() - read {
            return Err(failure("subchunk records overrun the chunk's compressed data"));
        }
        if us > uncompressed_size - written {
            return Err(failure("subchunk records overrun the chunk's uncompressed size"));
        }
        let input = &raw_data[read..read + cs];
        let ghost old_data = data@;
        let ghost piece: Seq<u8>;
        if sub.is_raw() {
            append_bytes(&mut data, input);
            proof {
                piece = input@;
            }
        } else {
            match zstd_read_exact(input, us) {
                Ok(decoded) => {
                    append_bytes(&mut data, decoded.as_slice());
                    proof {
                        piece = decoded@;
                    }
                },
                Err(e) => {
                    return Err(zstd_error(e));
                },
            }
        }
        proof {
            let rest = subchunk_runs(
                raw_data@,
                subchunks@.skip(i + 1),
                uncompressed_size as nat,
                (read + cs) as nat,
                (written + us) as nat,
            );
            assert(subchunk_runs(
                raw_data@,
                subs,
                uncompressed_size as nat,
                read as nat,
                written as nat,
            ) == match rest {
                Ok(x) => Ok(piece + x),
                Err(e) => Err(e),
            });
            match rest {
                Ok(x) => {
                    assert(old_data + (piece + x) =~= data@ + x);
                },
                Err(_) => {},
            }
        }
        read = read + cs;
        written = written + us;
        i = i + 1;
    }
    proof {
        assert(subchunks@.skip(i as int) =~= Seq::<WadSubchunk>::empty());
        assert(data@ + Seq::<u8>::empty() =~= data@);
    }
    if written != uncompressed_size {
        return Err(failure("subchunks decompressed to fewer bytes than the chunk holds"));
    }
    Ok(data)
}

/// What `decompress_prefix` gives back, or `None` when it fails.
pub open spec fn prefix_decompression(
    raw: Seq<u8>,
    compression: WadChunkCompression,
    max_len: nat,
) -> Option<Seq<u8>> {
    match compression {
        WadChunkCompression::Uncompressed => Some(
            raw.take(if raw.len() < max_len {
                raw.len() as int
            } else {
                max_len as int
            }),
        ),
        WadChunkCompression::GZip => gzip_prefix(raw, max_len),
        WadChunkCompression::Satellite => None,
        WadChunkCompression::Zstd => if zstd_opens(raw) {
            zstd_prefix(raw, max_len)
        } else {
            None
        },
        WadChunkCompression::ZstdMulti => {
            let frame_at = match magic_offset(raw) {
                Some(off) => off,
                None => raw.len(),
            };
            let head = raw.take(if frame_at < max_len {
                frame_at as int
            } else {
                max_len as int
            });
            if head.len() < max_len && frame_at < raw.len() {
                let rest = raw.skip(frame_at as int);
                if zstd_opens(rest) {
                    match zstd_prefix(rest, (max_len - head.len()) as nat) {
                        Some(d) => Some(head + d),
                        None => None,
                    }
                } else {
                    None
                }
            } else {
                Some(head)
            }
        },
    }
}

/// Decompresses at most `max_len` bytes from the start of a chunk's raw data.
///
/// `raw_data` may be a prefix of the chunk's raw bytes. As long as it holds
/// the first compressed block, the first bytes decode.
///
/// For `Uncompressed`, the prefix of the input comes back as is.
pub fn decompress_prefix(
    raw_data: &[u8],
    compression: WadChunkCompression,
    max_len: usize,
) -> (r: Result<Vec<u8>, WadError>)
    ensures
        r is Ok <==> prefix_decompression(raw_data@, compression, max_len as nat) is Some,
        r matches Ok(v) ==> prefix_decompression(raw_data@, compression, max_len as nat) == Some(
            v@,
        ),
        compression == WadChunkCompression::Satellite ==> r matches Err(WadError::Other(_)),
        r matches Err(e) ==> (compression != WadChunkCompression::Satellite ==> e
            is DecompressionFailure || e is IoError),
{
    match compression {
        WadChunkCompression::Uncompressed => {
            let end = if raw_data.len() < max_len {
                raw_data.len()
            } else {
                max_len
            };
            let v = copy_range(raw_data, 0, end);
            proof {
                assert(v@ =~= raw_data@.take(end as int));
            }
            Ok(v)
        },
        WadChunkCompression::GZip => match gzip_read_prefix(raw_data, max_len) {
            Ok(v) => Ok(v),
            Err(e) => Err(WadError::IoError(e)),
        },
        WadChunkCompression::Satellite => Err(
            WadError::Other(String::from_str("satellite chunks are not supported")),
        ),
        WadChunkCompression::Zstd => match zstd_read_prefix(raw_data, max_len) {
            Ok(v) => Ok(v),
            Err(e) => Err(zstd_error(e)),
        },
        WadChunkCompression::ZstdMulti => decompress_zstd_multi_prefix(raw_data, max_len),
    }
}

fn decompress_zstd_multi_prefix(raw_data: &[u8], max_len: usize) -> (r: Result<Vec<u8>, WadError>)
    ensures
        r is Ok <==> prefix_decompression(
            raw_data@,
            WadChunkCompression::ZstdMulti,
            max_len as nat,
        ) is Some,
        r matches Ok(v) ==> prefix_decompression(
            raw_data@,
            WadChunkCompression::ZstdMulti,
            max_len as nat,
        ) == Some(v@),
        r matches Err(e) ==> e is DecompressionFailure || e is IoError,
{
    let frame_at = match find_zstd_magic(raw_data) {
        Some(off) => off,
        None => raw_data.len(),
    };
    let ghost spec_frame_at: nat = match magic_offset(raw_data@) {
        Some(off) => off,
        None => raw_data@.len(),
    };
    assert(frame_at == spec_frame_at);
    let head_end = if frame_at < max_len {
        frame_at
    } else {
        max_len
    };
    let mut data = copy_range(raw_data, 0, head_end);
    proof {
        assert(data@ =~= raw_data@.take(head_end as int));
    }
    if data.len() < max_len && frame_at < raw_data.len() {
        let rest_raw = &raw_data[frame_at..raw_data.len()];
        proof {
            assert(rest_raw@ =~= raw_data@.skip(frame_at as int));
        }
        match zstd_read_prefix(rest_raw, max_len - data.len()) {
            Ok(rest) => {
                append_bytes(&mut data, rest.as_slice());
            },
            Err(e) => {
                return Err(zstd_error(e));
            },
        }
    }
    Ok(data)
}

/// The smaller of two naturals.
pub open spec fn min_nat(a: nat, b: nat) -> nat {
    if a < b {
        a
    } else {
        b
    }
}

/// What `decompress_subchunked_prefix` appends for `subs`, the first starting
/// at `read` in `raw`, with `have` bytes already decoded; `None` on failure.
pub open spec fn subchunked_prefix_runs(
    raw: Seq<u8>,
    subs: Seq<WadSubchunk>,
    max_len: nat,
    read: nat,
    have: nat,
) -> Option<Seq<u8>>
    decreases subs.len(),
{
    if subs.len() == 0 || have >= max_len || read >= raw.len() {
        Some(Seq::empty())
    } else {
        let s = subs[0];
        let end = read + s.compressed_size as nat;
        let input = raw.subrange(read as int, min_nat(end, raw.len()) as int);
        let want = min_nat((max_len - have) as nat, s.uncompressed_size as nat);
        if s.compressed_size == s.uncompressed_size {
            let piece = input.take(min_nat(want, input.len()) as int);
            if end > raw.len() {
                Some(piece)
            } else {
                match subchunked_prefix_runs(
                    raw,
                    subs.drop_first(),
                    max_len,
                    end,
                    have + piece.len(),
                ) {
                    Some(rest) => Some(piece + rest),
                    None => None,
                }
            }
        } else if !zstd_opens(input) {
            None
        } else {
            match zstd_prefix(input, want) {
                None => None,
                Some(d) => if d.len() < want || end > raw.len() {
                    Some(d)
                } else {
                    match subchunked_prefix_runs(
                        raw,
                        subs.drop_first(),
                        max_len,
                        end,
                        have + d.len(),
                    ) {
                        Some(rest) => Some(d + rest),
                        None => None,
                    }
                },
            }
        }
    }
}

/// A chunk decompressor.
///
/// This build decodes zstd with ruzstd, which keeps no context between
/// chunks, so its methods are the free functions.
#[derive(Debug, Default)]
pub struct ChunkDecoder {}

impl ChunkDecoder {
    /// A decoder with nothing built yet.
    pub fn new() -> (r: Self) {
        ChunkDecoder {  }
    }

    /// Decompress a whole chunk. The same as [`decompress_raw`].
    pub fn decompress(
        &mut self,
        raw_data: &[u8],
        compression: WadChunkCompression,
        uncompressed_size: usize,
    ) -> (r: Result<Vec<u8>, WadError>)
        requires
            raw_decompression_runs(raw_data@, compression, uncompressed_size as nat),
        ensures
            r is Ok <==> raw_decompression(raw_data@, compression, uncompressed_size as nat) is Some,
            r matches Ok(v) ==> raw_decompression(raw_data@, compression, uncompressed_size as nat)
                == Some(v@),
    {
        decompress_raw(raw_data, compression, uncompressed_size)
    }

    /// Decompress a whole chunk, by its subchunk records when `toc` holds them.
    pub fn decompress_chunk(
        &mut self,
        raw_data: &[u8],
        chunk: &WadChunk,
        toc: Option<&SubchunkToc>,
    ) -> (r: Result<Vec<u8>, WadError>)
        requires
            (match toc {
                Some(t) => spec_subchunks_of(t@, *chunk) is None,
                None => true,
            }) ==> raw_decompression_runs(
                raw_data@,
                chunk.compression_type,
                chunk.uncompressed_size as nat,
            ),
        ensures
            match toc {
                Some(t) => match spec_subchunks_of(t@, *chunk) {
                    Some(subs) => (r is Ok <==> subchunked_decompression(
                        raw_data@,
                        subs,
                        chunk.uncompressed_size as nat,
                    ) is Ok) && (r matches Ok(v) ==> subchunked_decompression(
                        raw_data@,
                        subs,
                        chunk.uncompressed_size as nat,
                    ) == Ok::<Seq<u8>, SubchunkFailure>(v@)),
                    None => (r is Ok <==> raw_decompression(
                        raw_data@,
                        chunk.compression_type,
                        chunk.uncompressed_size as nat,
                    ) is Some) && (r matches Ok(v) ==> raw_decompression(
                        raw_data@,
                        chunk.compression_type,
                        chunk.uncompressed_size as nat,
                    ) == Some(v@)),
                },
                None => (r is Ok <==> raw_decompression(
                    raw_data@,
                    chunk.compression_type,
                    chunk.uncompressed_size as nat,
                ) is Some) && (r matches Ok(v) ==> raw_decompression(
                    raw_data@,
                    chunk.compression_type,
                    chunk.uncompressed_size as nat,
                ) == Some(v@)),
            },
    {
        let subchunks = match toc {
            Some(t) => t.subchunks_of(chunk),
            None => None,
        };
        match subchunks {
            Some(subs) => decompress_subchunked(raw_data, subs, chunk.uncompressed_size),
            None => self.decompress(raw_data, chunk.compression_type, chunk.uncompressed_size),
        }
    }

    /// Decompress a `ZstdMulti` chunk by its subchunk records. The same as
    /// [`decompress_subchunked`].
    pub fn decompress_subchunked(
        &mut self,
        raw_data: &[u8],
        subchunks: &[WadSubchunk],
        uncompressed_size: usize,
    ) -> (r: Result<Vec<u8>, WadError>)
        ensures
            r is Ok <==> subchunked_decompression(
                raw_data@,
                subchunks@,
                uncompressed_size as nat,
            ) is Ok,
            r matches Ok(v) ==> subchunked_decompression(
                raw_data@,
                subchunks@,
                uncompressed_size as nat,
            ) == Ok::<Seq<u8>, SubchunkFailure>(v@),
    {
        decompress_subchunked(raw_data, subchunks, uncompressed_size)
    }

    /// Decompress at most `max_len` bytes from the start of a chunk, by its
    /// subchunk records when `toc` holds them.
    pub fn decompress_chunk_prefix(
        &mut self,
        raw_data: &[u8],
        chunk: &WadChunk,
        toc: Option<&SubchunkToc>,
        max_len: usize,
    ) -> (r: Result<Vec<u8>, WadError>)
        ensures
            match toc {
                Some(t) => match spec_subchunks_of(t@, *chunk) {
                    Some(subs) => (r is Ok <==> subchunked_prefix_runs(
                        raw_data@,
                        subs,
                        max_len as nat,
                        0,
                        0,
                    ) is Some) && (r matches Ok(v) ==> subchunked_prefix_runs(
                        raw_data@,
                        subs,
                        max_len as nat,
                        0,
                        0,
                    ) == Some(v@)),
                    None => (r is Ok <==> prefix_decompression(
                        raw_data@,
                        chunk.compression_type,
                        max_len as nat,
                    ) is Some) && (r matches Ok(v) ==> prefix_decompression(
                        raw_data@,
                        chunk.compression_type,
                        max_len as nat,
                    ) == Some(v@)),
                },
                None => (r is Ok <==> prefix_decompression(
                    raw_data@,
                    chunk.compression_type,
                    max_len as nat,
                ) is Some) && (r matches Ok(v) ==> prefix_decompression(
                    raw_data@,
                    chunk.compression_type,
                    max_len as nat,
                ) == Some(v@)),
            },
    {
        let subchunks = match toc {
            Some(t) => t.subchunks_of(chunk),
            None => None,
        };
        match subchunks {
            Some(subs) => self.decompress_subchunked_prefix(raw_data, subs, max_len),
            None => self.decompress_prefix(raw_data, chunk.compression_type, max_len),
        }
    }

    /// Decompress at most `max_len` bytes from the start of a `ZstdMulti`
    /// chunk, by its subchunk records.
    ///
    /// `raw_data` may be a prefix of the chunk's raw bytes; input that ends
    /// mid-subchunk comes back as a shorter result rather than an error.
    pub fn decompress_subchunked_prefix(
        &mut self,
        raw_data: &[u8],
        subchunks: &[WadSubchunk],
        max_len: usize,
    ) -> (r: Result<Vec<u8>, WadError>)
        ensures
            r is Ok <==> subchunked_prefix_runs(raw_data@, subchunks@, max_len as nat, 0, 0) is Some,
            r matches Ok(v) ==> subchunked_prefix_runs(
                raw_data@,
                subchunks@,
                max_len as nat,
                0,
                0,
            ) == Some(v@),
            r matches Err(e) ==> e is DecompressionFailure || e is IoError,
    {
        let ghost whole = subchunked_prefix_runs(raw_data@, subchunks@, max_len as nat, 0, 0);
        let mut data: Vec<u8> = Vec::new();
        let mut read: usize = 0;
        let mut i: usize = 0;
        proof {
            assert(subchunks@.skip(0) =~= subchunks@);
            match whole {
                Some(x) => {
                    assert(data@ + x =~= x);
                },
                None => {},
            }
        }
        while i < subchunks.len()
            invariant_except_break
                i <= subchunks@.len(),
                read <= raw_data@.len(),
                whole == subchunked_prefix_runs(raw_data@, subchunks@, max_len as nat, 0, 0),
                whole == match subchunked_prefix_runs(
                    raw_data@,
                    subchunks@.skip(i as int),
                    max_len as nat,
                    read as nat,
                    data@.len(),
                ) {
                    Some(rest) => Some(data@ + rest),
                    None => None,
                },
            ensures
                whole == Some(data@),
            decreases subchunks@.len() - i,
        {
            let ghost subs = subchunks@.skip(i as int);
            proof {
                assert(subs[0] == subchunks@[i as int]);
                assert(subs.drop_first() =~= subchunks@.skip(i + 1));
            }
            if data.len() >= max_len || read >= raw_data.len() {
                proof {
                    assert(data@ + Seq::<u8>::empty() =~= data@);
                }
                break;
            }
            let sub = subchunks[i];
            let cs = sub.compressed_size as usize;
            let end_in = if cs > raw_data.len() - read {
                raw_data.len()
            } else {
                read + cs
            };
            let overruns = cs > raw_data.len() - read;
            let input = &raw_data[read..end_in];
            let room = max_len - data.len();
            let want = if room < sub.uncompressed_size as usize {
                room
            } else {
                sub.uncompressed_size as usize
            };
            let ghost before = data@;
            if sub.is_raw() {
                let take = if want < input.len() {
                    want
                } else {
                    input.len()
                };
                let piece = &input[0..take];
                proof {
                    assert(piece@ =~= input@.take(take as int));
                }
                append_bytes(&mut data, piece);
                if overruns {
                    proof {
                        assert(before + piece@ + Seq::<u8>::empty() =~= data@);
                    }
                    break;
                }
                proof {
                    match subchunked_prefix_runs(
                        raw_data@,
                        subchunks@.skip(i + 1),
                        max_len as nat,
                        (read + cs) as nat,
                        data@.len(),
                    ) {
                        Some(rest) => {
                            assert(before + (piece@ + rest) =~= data@ + rest);
                        },
                        None => {},
                    }
                }
            } else {
                let decoded = match zstd_read_prefix(input, want) {
                    Ok(v) => v,
                    Err(e) => {
                        return Err(zstd_error(e));
                    },
                };
                let cut_short = decoded.len() < want;
                append_bytes(&mut data, decoded.as_slice());
                if cut_short || overruns {
                    break;
                }
                proof {
                    match subchunked_prefix_runs(
                        raw_data@,
                        subchunks@.skip(i + 1),
                        max_len as nat,
                        (read + cs) as nat,
                        data@.len(),
                    ) {
                        Some(rest) => {
                            assert(before + (decoded@ + rest) =~= data@ + rest);
                        },
                        None => {},
                    }
                }
            }
            read = read + cs;
            i = i + 1;
        }
        proof {
            if i == subchunks@.len() {
                assert(subchunks@.skip(i as int) =~= Seq::<WadSubchunk>::empty());
                assert(data@ + Seq::<u8>::empty() =~= data@);
            }
        }
        Ok(data)
    }

    /// Decompress at most `max_len` bytes from the start of a chunk. The same
    /// as [`decompress_prefix`].
    pub fn decompress_prefix(
        &mut self,
        raw_data: &[u8],
        compression: WadChunkCompression,
        max_len: usize,
    ) -> (r: Result<Vec<u8>, WadError>)
        ensures
            r is Ok <==> prefix_decompression(raw_data@, compression, max_len as nat) is Some,
            r matches Ok(v) ==> prefix_decompression(raw_data@, compression, max_len as nat)
                == Some(v@),
    {
        decompress_prefix(raw_data, compression, max_len)
    }
}

} // verus!
