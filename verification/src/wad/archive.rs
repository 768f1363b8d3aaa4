//! A mounted WAD: its header and table of contents, read out of the bytes the
//! archive starts with.

use vstd::prelude::*;

use crate::bytes::{le_value, read_u16_le, read_u32_le, read_u64_le};
use super::chunk::{v3_1_entry_of, v3_4_entry_of, v3_4_entry_bytes, WadChunk};
use super::chunks::WadChunks;
use super::codec::{sha256, sha256_of};
use super::decoder::{raw_decompression, raw_decompression_runs, try_decompress_raw};
use super::error::{unexpected_eof, WadError};
use super::recovery::hex_digit;

verus! {

/// `0x5752`, the bytes `RW` read as a little-endian `u16`.
pub const WAD_MAGIC: u16 = 0x5752;

/// Where the chunk count sits for a WAD of major version `major`.
pub open spec fn count_offset(major: u8) -> nat {
    if major == 2 {
        4 + 84 + 8 + 4
    } else if major == 3 {
        4 + 256 + 8
    } else if major == 1 {
        4 + 4
    } else {
        4
    }
}

/// The signature a header holds: 84 bytes for v2, 256 for v3, none before.
pub open spec fn header_signature(bytes: Seq<u8>, major: u8) -> Seq<u8> {
    if major == 2 {
        bytes.subrange(4, 88) + Seq::new(172, |i: int| 0u8)
    } else if major == 3 {
        bytes.subrange(4, 260)
    } else {
        Seq::new(256, |i: int| 0u8)
    }
}

/// The checksum a header holds, zero before v2.
pub open spec fn header_checksum(bytes: Seq<u8>, major: u8) -> u64 {
    if major == 2 {
        le_value(bytes.subrange(88, 96)) as u64
    } else if major == 3 {
        le_value(bytes.subrange(260, 268)) as u64
    } else {
        0
    }
}

/// The chunk count a header holds, as the signed number it is stored as.
pub open spec fn header_count(bytes: Seq<u8>, major: u8) -> i32 {
    le_value(bytes.subrange(count_offset(major) as int, count_offset(major) + 4int)) as u32 as i32
}

/// Why mounting failed, in the order the checks run.
#[derive(Debug, Clone, Copy, PartialEq, Eq, Structural)]
pub enum MountFailure {
    /// The bytes end before the mount has read what it needs.
    Truncated,
    /// The magic is not `RW`.
    Magic,
    /// The major version is past 3, or before 3 with chunks to read.
    Version,
    /// A TOC entry names no compression.
    Compression(u8),
}

/// The TOC entries a mount reads, the first `n` of them.
pub open spec fn toc_entries(bytes: Seq<u8>, major: u8, minor: u8, n: nat) -> Result<
    Seq<WadChunk>,
    MountFailure,
>
    decreases n,
{
    if n == 0 {
        Ok(Seq::empty())
    } else {
        match toc_entries(bytes, major, minor, (n - 1) as nat) {
            Err(e) => Err(e),
            Ok(prev) => {
                let at = count_offset(major) + 4 + 32 * (n - 1);
                if major != 3 {
                    Err(MountFailure::Version)
                } else if at + 32 > bytes.len() {
                    Err(MountFailure::Truncated)
                } else {
                    let entry = bytes.subrange(at as int, at + 32int);
                    let read = if minor <= 3 {
                        v3_1_entry_of(entry)
                    } else {
                        v3_4_entry_of(entry)
                    };
                    match read {
                        Ok(c) => Ok(prev.push(c)),
                        Err(code) => Err(MountFailure::Compression(code)),
                    }
                }
            },
        }
    }
}

/// What mounting the bytes an archive starts with reads: its version, its
/// signature, its checksum and its chunks in TOC order.
pub open spec fn mount_of(bytes: Seq<u8>) -> Result<(u8, u8, Seq<u8>, u64, Seq<WadChunk>), MountFailure> {
    if bytes.len() < 2 {
        Err(MountFailure::Truncated)
    } else if le_value(bytes.subrange(0, 2)) != WAD_MAGIC {
        Err(MountFailure::Magic)
    } else if bytes.len() < 4 {
        Err(MountFailure::Truncated)
    } else if bytes[2] > 3 {
        Err(MountFailure::Version)
    } else if bytes.len() < count_offset(bytes[2]) + 4 {
        Err(MountFailure::Truncated)
    } else {
        let major = bytes[2];
        let minor = bytes[3];
        match toc_entries(bytes, major, minor, header_count(bytes, major) as nat) {
            Ok(chunks) => Ok(
                (
                    major,
                    minor,
                    header_signature(bytes, major),
                    header_checksum(bytes, major),
                    chunks,
                ),
            ),
            Err(e) => Err(e),
        }
    }
}

/// How many bytes from the start a mount reads, as far as `prefix` tells.
pub open spec fn mount_len(prefix: Seq<u8>) -> nat {
    if prefix.len() < 4 {
        4
    } else if prefix[2] > 3 {
        4
    } else if prefix.len() < count_offset(prefix[2]) + 4 {
        count_offset(prefix[2]) + 4
    } else if prefix[2] == 3 && header_count(prefix, 3) >= 0 {
        count_offset(3) + 4 + 32 * header_count(prefix, 3) as nat
    } else {
        count_offset(prefix[2]) + 4
    }
}

/// A wad file
#[derive(Debug)]
pub struct Wad<TSource> {
    chunks: WadChunks,
    signature: [u8; 256],
    checksum: u64,
    source: TSource,
}

impl<TSource> Wad<TSource> {
    pub closed spec fn spec_chunks(&self) -> WadChunks {
        self.chunks
    }

    pub closed spec fn spec_signature(&self) -> Seq<u8> {
        self.signature@
    }

    pub closed spec fn spec_checksum(&self) -> u64 {
        self.checksum
    }

    pub closed spec fn spec_source(&self) -> TSource {
        self.source
    }

    /// Whether the chunks are in path-hash order, which a mounted `Wad`'s are.
    pub closed spec fn wf(&self) -> bool {
        self.chunks.wf()
    }

    /// How many bytes from the start of the archive mounting reads, as far as
    /// the bytes read so far tell: read that many and ask again until the
    /// answer stops growing, or the source ends.
    pub fn mount_len(prefix: &[u8]) -> (r: u64)
        ensures
            r == mount_len(prefix@),
    {
        if prefix.len() < 4 || prefix[2] > 3 {
            return 4;
        }
        let major = prefix[2];
        let count_at = count_offset_of(major);
        if prefix.len() < count_at + 4 {
            return count_at as u64 + 4;
        }
        let count = #[verifier::truncate] (read_u32_le(prefix, count_at) as i32);
        if major == 3 && count >= 0 {
            count_at as u64 + 4 + 32 * (count as u64)
        } else {
            count_at as u64 + 4
        }
    }

    /// Mounts the archive whose first bytes are `bytes`: the header and the
    /// TOC. The chunks come out sorted by path hash.
    ///
    /// Fails with an I/O error when the bytes end first, as reading a source
    /// that short would.
    pub fn mount(bytes: &[u8], source: TSource) -> (r: Result<Wad<TSource>, WadError>)
        requires
            bytes@.len() >= 4 && bytes[2] <= 3 && bytes@.len() >= count_offset(bytes[2]) + 4
                && le_value(bytes@.subrange(0, 2)) == WAD_MAGIC ==> header_count(bytes@, bytes[2])
                >= 0,
        ensures
            match mount_of(bytes@) {
                Ok((major, minor, signature, checksum, chunks)) => r matches Ok(wad) && wad.wf()
                    && wad.spec_signature() == signature && wad.spec_checksum() == checksum
                    && wad.spec_chunks()@.to_multiset() == chunks.to_multiset()
                    && wad.spec_source() == source,
                Err(MountFailure::Truncated) => r matches Err(e) && e is IoError,
                Err(MountFailure::Magic) => r matches Err(WadError::InvalidHeader { expected, actual })
                    && expected@ == seq!['R', 'W'] && actual@ == seq!['0', 'x'] + hex_digits_of(
                    le_value(bytes@.subrange(0, 2)),
                ),
                Err(MountFailure::Version) => r matches Err(WadError::InvalidVersion { major, minor })
                    && major == bytes[2] && minor == bytes[3],
                Err(MountFailure::Compression(code)) => r matches Err(
                    WadError::InvalidChunkCompression { compression },
                ) && compression == code,
            },
    {
        if bytes.len() < 2 {
            return Err(WadError::IoError(unexpected_eof()));
        }
        let magic = read_u16_le(bytes, 0);
        if magic != WAD_MAGIC {
            let mut actual = String::from_str("0x");
            actual.append(hex_digits(magic as u64).as_str());
            proof {
                reveal_strlit("0x");
                reveal_strlit("RW");
            }
            return Err(WadError::InvalidHeader { expected: String::from_str("RW"), actual });
        }
        if bytes.len() < 4 {
            return Err(WadError::IoError(unexpected_eof()));
        }
        let major = bytes[2];
        let minor = bytes[3];
        if major > 3 {
            return Err(WadError::InvalidVersion { major, minor });
        }
        let count_at = count_offset_of(major);
        if bytes.len() < count_at + 4 {
            return Err(WadError::IoError(unexpected_eof()));
        }
        let mut signature = [0u8; 256];
        let mut checksum: u64 = 0;
        if major == 2 {
            let mut k: usize = 0;
            while k < 84
                invariant
                    k <= 84,
                    bytes@.len() >= 100,
                    forall|j: int| 0 <= j < k ==> signature@[j] == bytes@[4 + j],
                    forall|j: int| k <= j < 256 ==> signature@[j] == 0,
                decreases 84 - k,
            {
                signature[k] = bytes[4 + k];
                k = k + 1;
            }
            checksum = read_u64_le(bytes, 88);
            proof {
                assert(signature@ =~= header_signature(bytes@, major));
            }
        } else if major == 3 {
            let mut k: usize = 0;
            while k < 256
                invariant
                    k <= 256,
                    bytes@.len() >= 272,
                    forall|j: int| 0 <= j < k ==> signature@[j] == bytes@[4 + j],
                decreases 256 - k,
            {
                signature[k] = bytes[4 + k];
                k = k + 1;
            }
            checksum = read_u64_le(bytes, 260);
            proof {
                assert(signature@ =~= header_signature(bytes@, major));
            }
        } else {
            proof {
                assert(signature@ =~= header_signature(bytes@, major));
            }
        }
        let count = #[verifier::truncate] (read_u32_le(bytes, count_at) as i32);
        let count = count as usize;
        let mut raw_chunks: Vec<WadChunk> = Vec::new();
        let mut i: usize = 0;
        while i < count
            invariant
                i <= count,
                count < 0x8000_0000,
                count == header_count(bytes@, major) as nat,
                count_at == count_offset(major),
                bytes@.len() >= count_at + 4,
                major == bytes[2],
                minor == bytes[3],
                major <= 3,
                bytes@.len() >= 4,
                le_value(bytes@.subrange(0, 2)) == WAD_MAGIC,
                toc_entries(bytes@, major, minor, i as nat) == Ok::<Seq<WadChunk>, MountFailure>(
                    raw_chunks@,
                ),
            decreases count - i,
        {
            if major != 3 {
                proof {
                    assert(toc_entries(bytes@, major, minor, (i + 1) as nat)
                        == Err::<Seq<WadChunk>, MountFailure>(MountFailure::Version));
                    lemma_toc_entries_fail_later(bytes@, major, minor, (i + 1) as nat, count as nat);
                }
                return Err(WadError::InvalidVersion { major, minor });
            }
            let at = count_at + 4;
            if at as u64 + 32 * (i as u64) + 32 > bytes.len() as u64 {
                proof {
                    assert(toc_entries(bytes@, major, minor, (i + 1) as nat)
                        == Err::<Seq<WadChunk>, MountFailure>(MountFailure::Truncated));
                    lemma_toc_entries_fail_later(bytes@, major, minor, (i + 1) as nat, count as nat);
                }
                return Err(WadError::IoError(unexpected_eof()));
            }
            let start = at + 32 * i;
            let entry = &bytes[start..start + 32];
            let read = if minor <= 3 {
                WadChunk::read_v3_1(entry)
            } else {
                WadChunk::read_v3_4(entry)
            };
            match read {
                Ok(c) => {
                    raw_chunks.push(c);
                },
                Err(e) => {
                    proof {
                        lemma_toc_entries_fail_later(bytes@, major, minor, (i + 1) as nat, count as nat);
                    }
                    return Err(e);
                },
            }
            i = i + 1;
        }
        let chunks = WadChunks::from_iter(raw_chunks);
        Ok(Wad { chunks, signature, checksum, source })
    }

    pub fn chunks(&self) -> (r: &WadChunks)
        ensures
            *r == self.spec_chunks(),
    {
        &self.chunks
    }

    /// Consumes the `Wad`, returning the underlying source and chunks.
    pub fn into_parts(self) -> (r: (TSource, WadChunks))
        ensures
            r.0 == self.spec_source(),
            r.1 == self.spec_chunks(),
    {
        (self.source, self.chunks)
    }

    /// Decompresses a chunk from `raw`, its bytes as the source holds them.
    ///
    /// `None` where decoding would stop the program: a zstd frame that does
    /// not open, or raw bytes in front of a `ZstdMulti` chunk's first frame
    /// that outgrow its uncompressed size.
    pub fn load_chunk_decompressed(&self, chunk: &WadChunk, raw: &[u8]) -> (r: Option<
        Result<Vec<u8>, WadError>,
    >)
        ensures
            r is None <==> !raw_decompression_runs(
                raw@,
                chunk.compression_type,
                chunk.uncompressed_size as nat,
            ),
            r matches Some(res) ==> (res is Ok <==> raw_decompression(
                raw@,
                chunk.compression_type,
                chunk.uncompressed_size as nat,
            ) is Some),
            r matches Some(Ok(v)) ==> raw_decompression(
                raw@,
                chunk.compression_type,
                chunk.uncompressed_size as nat,
            ) == Some(v@),
    {
        try_decompress_raw(raw, chunk.compression_type, chunk.uncompressed_size)
    }

    /// Returns embedded checksum verbatim.
    pub fn checksum(&self) -> (r: u64)
        ensures
            r == self.spec_checksum(),
    {
        self.checksum
    }

    /// Returns embedded signature.
    pub fn signature(&self) -> (r: &[u8; 256])
        ensures
            r@ == self.spec_signature(),
    {
        &self.signature
    }

    /// The TOC as a v3.4 file holds it: the chunks' v3.4 entries in path-hash
    /// order.
    pub fn toc_bytes(&self) -> (r: Vec<u8>)
        ensures
            r@ == toc_bytes_of(self.spec_chunks()@),
    {
        toc_bytes(self.chunks.as_slice())
    }

    /// Computes SHA-256 of the TOC, reconstructed from the parsed chunks in
    /// v3.4 format in path-hash order.
    pub fn toc_sha256(&self) -> (r: Result<[u8; 32], WadError>)
        ensures
            r matches Ok(digest) && digest@ == sha256_of(toc_bytes_of(self.spec_chunks()@)),
    {
        let toc = self.toc_bytes();
        Ok(sha256(toc.as_slice()))
    }
}

/// The v3.4 entries of `chunks`, laid end to end.
pub open spec fn toc_bytes_of(chunks: Seq<WadChunk>) -> Seq<u8>
    decreases chunks.len(),
{
    if chunks.len() == 0 {
        Seq::empty()
    } else {
        toc_bytes_of(chunks.drop_last()) + v3_4_entry_bytes(chunks.last())
    }
}

/// The v3.4 entries of `chunks`, laid end to end.
pub fn toc_bytes(chunks: &[WadChunk]) -> (r: Vec<u8>)
    ensures
        r@ == toc_bytes_of(chunks@),
{
    let mut out: Vec<u8> = Vec::new();
    let mut i: usize = 0;
    while i < chunks.len()
        invariant
            i <= chunks@.len(),
            out@ == toc_bytes_of(chunks@.subrange(0, i as int)),
        decreases chunks@.len() - i,
    {
        let entry = chunks[i].write_v3_4();
        let ghost before = out@;
        let mut k: usize = 0;
        while k < entry.len()
            invariant
                k <= entry@.len(),
                out@ == before + entry@.subrange(0, k as int),
            decreases entry@.len() - k,
        {
            out.push(entry[k]);
            proof {
                assert(out@ =~= before + entry@.subrange(0, k + 1));
            }
            k = k + 1;
        }
        proof {
            assert(entry@.subrange(0, k as int) =~= entry@);
            assert(chunks@.subrange(0, i + 1).drop_last() =~= chunks@.subrange(0, i as int));
        }
        i = i + 1;
    }
    proof {
        assert(chunks@.subrange(0, i as int) =~= chunks@);
    }
    out
}

fn count_offset_of(major: u8) -> (r: usize)
    ensures
        r == count_offset(major),
{
    if major == 2 {
        100
    } else if major == 3 {
        268
    } else if major == 1 {
        8
    } else {
        4
    }
}

/// A failed entry read fails every longer read of the TOC.
proof fn lemma_toc_entries_fail_later(bytes: Seq<u8>, major: u8, minor: u8, k: nat, n: nat)
    requires
        k <= n,
        toc_entries(bytes, major, minor, k) is Err,
    ensures
        toc_entries(bytes, major, minor, n) == toc_entries(bytes, major, minor, k),
    decreases n - k,
{
    if k < n {
        lemma_toc_entries_fail_later(bytes, major, minor, k, (n - 1) as nat);
    }
}

/// `v` in lower-case hex digits, most significant first, with no leading
/// zeros (a single `0` for zero).
pub open spec fn hex_digits_of(v: nat) -> Seq<char>
    decreases v,
{
    if v < 16 {
        seq![hex_digit(v)]
    } else {
        hex_digits_of(v / 16) + seq![hex_digit(v % 16)]
    }
}

/// `v` in lower-case hex, with no leading zeros.
fn hex_digits(v: u64) -> (r: String)
    ensures
        r@ == hex_digits_of(v as nat),
    decreases v,
{
    let digits = "0123456789abcdef";
    proof {
        reveal_strlit("0123456789abcdef");
        assert(digits@.len() == 16);
        assert forall|k: int| 0 <= k < 16 implies #[trigger] digits@[k] == hex_digit(k as nat) by {}
    }
    let d = (v % 16) as usize;
    let last = digits.substring_char(d, d + 1);
    proof {
        assert(last@ =~= seq![hex_digit(d as nat)]);
    }
    if v < 16 {
        String::from_str(last)
    } else {
        let mut out = hex_digits(v / 16);
        out.append(last);
        out
    }
}

} // verus!
