//! The subchunk table that describes `ZstdMulti` chunks.

use vstd::prelude::*;

use crate::bytes::{le_value, read_u32_le, read_u64_le};
use super::chunk::{WadChunk, WadChunkCompression};
use super::chunks::WadChunks;
use super::decoder::{raw_decompression, raw_decompression_runs, try_decompress_raw};
use super::error::WadError;

verus! {

/// One record of a WAD's subchunk table.
///
/// A `ZstdMulti` chunk is a run of subchunks laid end to end. A record holds
/// one subchunk's sizes; equal sizes mean the subchunk is stored raw, anything
/// else is one zstd frame.
#[derive(Debug, Clone, Copy, PartialEq, Eq, Hash, Structural)]
pub struct WadSubchunk {
    pub compressed_size: u32,
    pub uncompressed_size: u32,
    /// XXH3 of the subchunk's compressed bytes.
    pub checksum: u64,
}

impl WadSubchunk {
    /// Whether the subchunk is stored raw rather than as a zstd frame.
    pub fn is_raw(&self) -> (r: bool)
        ensures
            r == (self.compressed_size == self.uncompressed_size),
    {
        self.compressed_size == self.uncompressed_size
    }
}

/// The size of one table record on disk.
pub const RECORD_SIZE: usize = 16;

/// The record stored in the 16 bytes at record index `i` of `data`.
pub open spec fn record_at(data: Seq<u8>, i: int) -> WadSubchunk {
    WadSubchunk {
        compressed_size: le_value(data.subrange(16 * i, 16 * i + 4)) as u32,
        uncompressed_size: le_value(data.subrange(16 * i + 4, 16 * i + 8)) as u32,
        checksum: le_value(data.subrange(16 * i + 8, 16 * i + 16)) as u64,
    }
}

/// Sum of the compressed sizes of `s`.
pub open spec fn compressed_total(s: Seq<WadSubchunk>) -> nat
    decreases s.len(),
{
    if s.len() == 0 {
        0
    } else {
        compressed_total(s.drop_last()) + s.last().compressed_size as nat
    }
}

/// Sum of the uncompressed sizes of `s`.
pub open spec fn uncompressed_total(s: Seq<WadSubchunk>) -> nat
    decreases s.len(),
{
    if s.len() == 0 {
        0
    } else {
        uncompressed_total(s.drop_last()) + s.last().uncompressed_size as nat
    }
}

/// A WAD's subchunk table, read out of its `*.SubChunkTOC` chunk.
///
/// A [`WadChunk`] names its subchunks by index: `frame_count` records
/// starting at `start_frame`.
#[derive(Debug, Clone, Default, PartialEq, Eq)]
pub struct SubchunkToc {
    records: Vec<WadSubchunk>,
}

impl View for SubchunkToc {
    type V = Seq<WadSubchunk>;

    closed spec fn view(&self) -> Seq<WadSubchunk> {
        self.records@
    }
}

/// The records of `chunk` in a table, if the chunk is `ZstdMulti` and the
/// table holds all of its frames.
pub open spec fn spec_subchunks_of(toc: Seq<WadSubchunk>, chunk: WadChunk) -> Option<
    Seq<WadSubchunk>,
> {
    if chunk.compression_type != WadChunkCompression::ZstdMulti {
        None
    } else if chunk.start_frame as int + chunk.frame_count as int <= toc.len() {
        Some(
            toc.subrange(
                chunk.start_frame as int,
                chunk.start_frame as int + chunk.frame_count as int,
            ),
        )
    } else {
        None
    }
}

/// Whether a table's records describe `chunk` exactly: it is not `ZstdMulti`,
/// or its records exist and their sizes sum to its own.
pub open spec fn describes(toc: Seq<WadSubchunk>, chunk: WadChunk) -> bool {
    chunk.compression_type == WadChunkCompression::ZstdMulti ==> match spec_subchunks_of(
        toc,
        chunk,
    ) {
        Some(s) => compressed_total(s) == chunk.compressed_size as nat && uncompressed_total(s)
            == chunk.uncompressed_size as nat,
        None => false,
    }
}

impl SubchunkToc {
    /// Parses a table from the decompressed bytes of a `SubChunkTOC` chunk.
    ///
    /// Fails when the length is not a multiple of the 16-byte record size.
    pub fn from_bytes(data: &[u8]) -> (r: Result<Self, WadError>)
        ensures
            data@.len() % 16 != 0 <==> r is Err,
            r matches Err(e) ==> e is Other,
            r matches Ok(toc) ==> toc@.len() == data@.len() / 16 && forall|i: int|
                0 <= i < toc@.len() ==> #[trigger] toc@[i] == record_at(data@, i),
    {
        let len = data.len();
        if len % RECORD_SIZE != 0 {
            let mut message = String::from_str("subchunk toc length ");
            message.append(len.to_string().as_str());
            message.append(" is not a multiple of 16");
            return Err(WadError::Other(message));
        }
        let count = len / RECORD_SIZE;
        let mut records: Vec<WadSubchunk> = Vec::with_capacity(count);
        let mut i: usize = 0;
        while i < count
            invariant
                count == data@.len() / 16,
                count * 16 == data@.len(),
                len == data@.len(),
                i <= count,
                records@.len() == i,
                forall|j: int| 0 <= j < i ==> #[trigger] records@[j] == record_at(data@, j),
            decreases count - i,
        {
            let at = i * RECORD_SIZE;
            let record = WadSubchunk {
                compressed_size: read_u32_le(data, at),
                uncompressed_size: read_u32_le(data, at + 4),
                checksum: read_u64_le(data, at + 8),
            };
            records.push(record);
            i = i + 1;
        }
        Ok(SubchunkToc { records })
    }

    /// All records, in frame order.
    pub fn records(&self) -> (r: &[WadSubchunk])
        ensures
            r@ == self@,
    {
        self.records.as_slice()
    }

    /// The records of `chunk`'s subchunks, in the order they are laid out.
    ///
    /// `None` for a chunk that is not `ZstdMulti`, or whose frames the table
    /// does not hold.
    pub fn subchunks_of(&self, chunk: &WadChunk) -> (r: Option<&[WadSubchunk]>)
        ensures
            match spec_subchunks_of(self@, *chunk) {
                Some(s) => r matches Some(v) && v@ == s,
                None => r is None,
            },
    {
        if chunk.compression_type != WadChunkCompression::ZstdMulti {
            return None;
        }
        let len = self.records.len();
        let start = chunk.start_frame as usize;
        let count = chunk.frame_count as usize;
        if start > len || count > len - start {
            return None;
        }
        let all = self.records.as_slice();
        Some(&all[start..start + count])
    }

    /// Whether the table describes every `ZstdMulti` chunk of `chunks`.
    ///
    /// True only when each such chunk's records exist and their sizes sum to
    /// the chunk's, which no unrelated chunk's bytes pass by accident.
    pub fn covers(&self, chunks: &WadChunks) -> (r: bool)
        ensures
            r == forall|i: int| 0 <= i < chunks@.len() ==> describes(self@, #[trigger] chunks@[i]),
    {
        let all = chunks.as_slice();
        let mut i: usize = 0;
        while i < all.len()
            invariant
                all@ == chunks@,
                i <= all@.len(),
                forall|j: int| 0 <= j < i ==> describes(self@, #[trigger] all@[j]),
            decreases all@.len() - i,
        {
            let chunk = &all[i];
            if chunk.compression_type == WadChunkCompression::ZstdMulti {
                match self.subchunks_of(chunk) {
                    None => {
                        return false;
                    },
                    Some(subchunks) => {
                        let (compressed, uncompressed) = size_totals(subchunks);
                        if compressed != chunk.compressed_size as u64 || uncompressed
                            != chunk.uncompressed_size as u64 {
                            return false;
                        }
                    },
                }
            }
            i = i + 1;
        }
        true
    }
}

/// The compressed and uncompressed sizes of `subchunks`, summed.
pub fn size_totals(subchunks: &[WadSubchunk]) -> (r: (u64, u64))
    requires
        subchunks@.len() <= 0xffff_ffff,
    ensures
        r.0 == compressed_total(subchunks@),
        r.1 == uncompressed_total(subchunks@),
{
    let mut compressed: u64 = 0;
    let mut uncompressed: u64 = 0;
    let mut i: usize = 0;
    while i < subchunks.len()
        invariant
            i <= subchunks@.len(),
            subchunks@.len() <= 0xffff_ffff,
            compressed == compressed_total(subchunks@.subrange(0, i as int)),
            uncompressed == uncompressed_total(subchunks@.subrange(0, i as int)),
            compressed <= i * 0xffff_ffff,
            uncompressed <= i * 0xffff_ffff,
        decreases subchunks@.len() - i,
    {
        proof {
            let s = subchunks@.subrange(0, i + 1);
            assert(s.drop_last() =~= subchunks@.subrange(0, i as int));
            assert((i + 1) * 0xffff_ffff <= 0xffff_ffff * 0xffff_ffff) by (nonlinear_arith)
                requires
                    i + 1 <= 0xffff_ffff,
            ;
        }
        compressed = compressed + subchunks[i].compressed_size as u64;
        uncompressed = uncompressed + subchunks[i].uncompressed_size as u64;
        i = i + 1;
    }
    proof {
        assert(subchunks@.subrange(0, i as int) =~= subchunks@);
    }
    (compressed, uncompressed)
}

/// How many frames the `ZstdMulti` chunks of `chunks` reach: the largest
/// start frame plus frame count among them, or `None` when none is
/// `ZstdMulti`.
pub open spec fn frames_reached(chunks: Seq<WadChunk>) -> Option<nat>
    decreases chunks.len(),
{
    if chunks.len() == 0 {
        None
    } else {
        let before = frames_reached(chunks.drop_last());
        let c = chunks.last();
        if c.compression_type == WadChunkCompression::ZstdMulti {
            let f = c.start_frame as nat + c.frame_count as nat;
            match before {
                Some(b) => Some(if b >= f {
                    b
                } else {
                    f
                }),
                None => Some(f),
            }
        } else {
            before
        }
    }
}

/// The indices of the chunks of `chunks` whose decompressed size is `size`,
/// in order.
pub open spec fn sized_indices(chunks: Seq<WadChunk>, size: nat) -> Seq<int>
    decreases chunks.len(),
{
    if chunks.len() == 0 {
        Seq::empty()
    } else {
        let before = sized_indices(chunks.drop_last(), size);
        if chunks.last().uncompressed_size == size {
            before.push(chunks.len() - 1)
        } else {
            before
        }
    }
}

/// The chunks that can hold the subchunk table, by index in order: those
/// whose decompressed size is sixteen bytes for each frame the `ZstdMulti`
/// chunks reach. None when no chunk is `ZstdMulti`.
///
/// The table is found by shape because its chunk's name hashes the
/// archive's install path, which a mounted stream does not know.
pub fn subchunk_toc_candidates(chunks: &WadChunks) -> (r: Vec<usize>)
    ensures
        frames_reached(chunks@) is None ==> r@.len() == 0,
        frames_reached(chunks@) matches Some(f) ==> r@.map_values(|i: usize| i as int)
            == sized_indices(chunks@, 16 * f),
{
    let all = chunks.as_slice();
    let mut frames: Option<u64> = None;
    let mut i: usize = 0;
    while i < all.len()
        invariant
            all@ == chunks@,
            i <= all@.len(),
            match frames_reached(all@.subrange(0, i as int)) {
                Some(f) => frames matches Some(x) && x == f,
                None => frames is None,
            },
        decreases all@.len() - i,
    {
        proof {
            assert(all@.subrange(0, i + 1).drop_last() =~= all@.subrange(0, i as int));
        }
        let c = &all[i];
        if c.compression_type == WadChunkCompression::ZstdMulti {
            let f = c.start_frame as u64 + c.frame_count as u64;
            frames = match frames {
                Some(b) => Some(if b >= f { b } else { f }),
                None => Some(f),
            };
        }
        i = i + 1;
    }
    proof {
        assert(all@.subrange(0, i as int) =~= all@);
    }
    let mut out: Vec<usize> = Vec::new();
    match frames {
        None => out,
        Some(f) => {
            if f > (usize::MAX / 16) as u64 {
                proof {
                    assert forall|k: int| 0 <= k < all@.len() implies all@[k].uncompressed_size != 16 * f by {}
                    lemma_no_sized_indices(all@, (16 * f) as nat);
                }
                return out;
            }
            let size = (f as usize) * RECORD_SIZE;
            let mut j: usize = 0;
            while j < all.len()
                invariant
                    all@ == chunks@,
                    j <= all@.len(),
                    size == 16 * f,
                    out@.map_values(|i: usize| i as int) == sized_indices(all@.subrange(0, j as int), size as nat),
                decreases all@.len() - j,
            {
                proof {
                    assert(all@.subrange(0, j + 1).drop_last() =~= all@.subrange(0, j as int));
                    assert(all@.subrange(0, j + 1).len() - 1 == j);
                }
                if all[j].uncompressed_size == size {
                    out.push(j);
                    proof {
                        assert(out@.map_values(|i: usize| i as int) =~= sized_indices(all@.subrange(0, j as int), size as nat).push(j as int));
                    }
                }
                j = j + 1;
            }
            proof {
                assert(all@.subrange(0, j as int) =~= all@);
            }
            out
        },
    }
}

/// No index has a size no chunk has.
proof fn lemma_no_sized_indices(chunks: Seq<WadChunk>, size: nat)
    requires
        forall|k: int| 0 <= k < chunks.len() ==> chunks[k].uncompressed_size != size,
    ensures
        sized_indices(chunks, size) == Seq::<int>::empty(),
    decreases chunks.len(),
{
    if chunks.len() > 0 {
        lemma_no_sized_indices(chunks.drop_last(), size);
    }
}

/// The records of a table's decompressed bytes.
pub open spec fn records_of(data: Seq<u8>) -> Seq<WadSubchunk> {
    Seq::new(data.len() / 16, |i: int| record_at(data, i))
}

/// Whether a table describes every chunk of `chunks`.
pub open spec fn covers_all(toc: Seq<WadSubchunk>, chunks: Seq<WadChunk>) -> bool {
    forall|i: int| 0 <= i < chunks.len() ==> describes(toc, #[trigger] chunks[i])
}

/// The table a candidate chunk's raw bytes hold, when they decompress to
/// whole records that describe every `ZstdMulti` chunk of `chunks`.
pub open spec fn table_of_candidate(candidate: WadChunk, raw: Seq<u8>, chunks: Seq<WadChunk>) -> Option<
    Seq<WadSubchunk>,
> {
    if !raw_decompression_runs(raw, candidate.compression_type, candidate.uncompressed_size as nat) {
        None
    } else {
        match raw_decompression(raw, candidate.compression_type, candidate.uncompressed_size as nat) {
            Some(data) => if data.len() % 16 == 0 && covers_all(records_of(data), chunks) {
                Some(records_of(data))
            } else {
                None
            },
            None => None,
        }
    }
}

/// The subchunk table in a candidate chunk's raw bytes, if they hold one
/// that describes every `ZstdMulti` chunk of `chunks`.
pub fn subchunk_toc_of_candidate(candidate: &WadChunk, raw: &[u8], chunks: &WadChunks) -> (r: Option<SubchunkToc>)
    ensures
        match table_of_candidate(*candidate, raw@, chunks@) {
            Some(t) => r matches Some(toc) && toc@ == t,
            None => r is None,
        },
{
    let data = match try_decompress_raw(raw, candidate.compression_type, candidate.uncompressed_size) {
        Some(Ok(data)) => data,
        _ => {
            return None;
        },
    };
    let toc = match SubchunkToc::from_bytes(data.as_slice()) {
        Ok(toc) => toc,
        Err(_) => {
            return None;
        },
    };
    proof {
        assert(toc@ =~= records_of(data@));
    }
    if toc.covers(chunks) {
        Some(toc)
    } else {
        None
    }
}

} // verus!
