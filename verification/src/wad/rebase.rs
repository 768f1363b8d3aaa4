//! Rewriting a WAD in place, keeping the bytes that did not change.
//!
//! A tail rebase keeps a WAD's data region where it is, appends the chunks
//! that changed past it, and rewrites the TOC in front of it. Every check that
//! does not need the file is made when the plan is built.

use std::collections::BTreeMap;

use vstd::prelude::*;

use crate::bytes::{le_bytes, le_value, lemma_byte_ranges, lemma_le_bytes_len, lemma_le_value_of_bytes, push_le};
use super::archive::{header_checksum, header_count, header_signature, mount_of, toc_bytes_of, MountFailure, WAD_MAGIC};
use super::builder::{lemma_mount_reads_toc, lemma_toc_bytes_len};
use super::chunk::{fits_v3_4, WadChunk, WadChunkCompression};
use super::codec::{xxh3_64, xxh3_64_of};
use super::error::WadError;
use super::ordered::{entries_in_order, in_key_order};

verus! {

/// Size of a single v3.4 WAD TOC entry.
pub const TOC_ENTRY_SIZE: u64 = 32;

/// Size of the v3.4 WAD header, which every other offset in the file follows:
/// 2 bytes of `RW` magic, 2 of version, 256 of RSA signature and 8 of checksum.
pub const WAD_HEADER_SIZE: u64 = 268;

/// TOC entries reserved beyond a rebasable WAD's current entry count. Zero:
/// the game has not been observed tolerating a gap between the last TOC entry
/// and the first data byte.
pub const TOC_SLACK_ENTRIES: u32 = 0;

/// Highest byte offset the WAD v3.4 format's `u32` offset fields can address.
pub const MAX_WAD_OFFSET: u64 = 0xffff_ffff;

/// Why a WAD could not be rebased.
#[derive(Debug)]
#[non_exhaustive]
pub enum WadRebaseError {
    /// The recorded layout does not place its regions past a header, a chunk
    /// count and a TOC of the recorded capacity.
    IncoherentLayout { toc_capacity: u32, data_region_offset: u64, tail_offset: u64 },
    /// The rewritten TOC no longer fits the capacity the file reserved.
    TocCapacity { needed: usize, reserved: u32 },
    /// The tail would reach past what the format's `u32` offsets can address.
    TailTooLarge { offset: u64 },
    /// A kept chunk's shifted range falls outside the addressable file.
    ChunkUnaddressable { path_hash: u64, offset: i64 },
    /// A TOC entry could not be encoded.
    Wad(WadError),
    /// The target refused a write or a seek.
    Io(std::io::Error),
}

/// What a rebase wrote.
#[derive(Debug, Clone, Copy, PartialEq, Eq, Structural)]
pub struct WadRebaseReport {
    /// Entries in the rewritten TOC.
    pub entry_count: usize,
    /// Bytes the rewritten tail occupies.
    pub tail_len: u64,
}

/// A chunk's encoded bytes plus the TOC fields that describe them.
///
/// Building one hashes the bytes, so the checksum a TOC entry carries can
/// never disagree with the bytes it points at.
#[derive(Debug, Clone, PartialEq, Eq)]
pub struct EncodedChunk {
    compressed: Vec<u8>,
    uncompressed_size: u32,
    compression: WadChunkCompression,
    /// xxh3_64 of `compressed`, the chunk's TOC checksum field.
    checksum: u64,
}

impl EncodedChunk {
    /// The encoded bytes.
    pub closed spec fn spec_compressed(&self) -> Seq<u8> {
        self.compressed@
    }

    pub closed spec fn spec_uncompressed_size(&self) -> u32 {
        self.uncompressed_size
    }

    pub closed spec fn spec_compression(&self) -> WadChunkCompression {
        self.compression
    }

    pub closed spec fn spec_checksum(&self) -> u64 {
        self.checksum
    }

    /// Take `compressed` as a chunk body already encoded with `compression`.
    ///
    /// The checksum is computed here rather than accepted.
    pub fn new(compressed: Vec<u8>, uncompressed_size: u32, compression: WadChunkCompression) -> (r:
        Self)
        ensures
            r.spec_compressed() == compressed@,
            r.spec_uncompressed_size() == uncompressed_size,
            r.spec_compression() == compression,
            r.spec_checksum() == xxh3_64_of(compressed@),
    {
        let checksum = xxh3_64(compressed.as_slice());
        EncodedChunk { compressed, uncompressed_size, compression, checksum }
    }

    /// The encoded bytes, written into the WAD verbatim.
    pub fn compressed(&self) -> (r: &[u8])
        ensures
            r@ == self.spec_compressed(),
    {
        self.compressed.as_slice()
    }

    /// Size of the chunk once decoded.
    pub fn uncompressed_size(&self) -> (r: u32)
        ensures
            r == self.spec_uncompressed_size(),
    {
        self.uncompressed_size
    }

    /// Codec the bytes are encoded with.
    pub fn compression(&self) -> (r: WadChunkCompression)
        ensures
            r == self.spec_compression(),
    {
        self.compression
    }

    /// xxh3_64 of the encoded bytes - the chunk's TOC checksum.
    pub fn checksum(&self) -> (r: u64)
        ensures
            r == self.spec_checksum(),
    {
        self.checksum
    }
}

/// Where a tail-rebasable WAD's regions sit, and how source offsets map into it.
#[derive(Debug, Clone, Copy, PartialEq, Eq, Structural)]
pub struct WadTailLayout {
    /// Absolute offset where the kept data region starts.
    pub data_region_offset: u64,
    /// Added to a source chunk's `data_offset` to get its offset in this file.
    pub offset_delta: i64,
    /// Absolute offset where the tail starts (the region's end).
    pub tail_offset: u64,
    /// TOC entries the file has room for without moving any data.
    pub toc_capacity: u32,
}

/// The bytes a layout reserves below its region: the chunk count and a TOC
/// of its capacity.
pub open spec fn below_region(layout: WadTailLayout) -> int {
    layout.toc_capacity as int * 32 + 4
}

/// Whether the region starts past a header, a chunk count and a TOC of the
/// recorded capacity.
pub open spec fn region_clears_header(layout: WadTailLayout) -> bool {
    layout.data_region_offset as int - below_region(layout) >= WAD_HEADER_SIZE as int
}

/// Whether a layout hangs together: its region clears the header and its
/// tail does not start before its region.
pub open spec fn coherent(layout: WadTailLayout) -> bool {
    region_clears_header(layout) && layout.tail_offset >= layout.data_region_offset
}

/// Where a shift puts a chunk's bytes.
pub open spec fn shifted_offset(layout: WadTailLayout, orig: WadChunk) -> int {
    orig.data_offset as int + layout.offset_delta as int
}

/// Whether an entry count fits the layout's TOC without an unreserved gap.
pub open spec fn admits(layout: WadTailLayout, entry_count: int) -> bool {
    entry_count <= u32::MAX && layout.toc_capacity as int - TOC_SLACK_ENTRIES as int <= entry_count
        <= layout.toc_capacity as int
}

impl WadTailLayout {
    fn incoherent(&self) -> (r: WadRebaseError)
        ensures
            r == (WadRebaseError::IncoherentLayout {
                toc_capacity: self.toc_capacity,
                data_region_offset: self.data_region_offset,
                tail_offset: self.tail_offset,
            }),
    {
        WadRebaseError::IncoherentLayout {
            toc_capacity: self.toc_capacity,
            data_region_offset: self.data_region_offset,
            tail_offset: self.tail_offset,
        }
    }

    /// Absolute offset of the first TOC entry.
    ///
    /// Fails when the layout does not place its region past a header, a chunk
    /// count and a TOC of the recorded capacity.
    pub fn toc_offset(&self) -> (r: Result<u64, WadRebaseError>)
        ensures
            region_clears_header(*self) ==> r == Ok::<u64, WadRebaseError>(
                (self.data_region_offset - below_region(*self) + 4) as u64,
            ),
            !region_clears_header(*self) ==> (r matches Err(WadRebaseError::IncoherentLayout {
                toc_capacity,
                data_region_offset,
                tail_offset,
            }) && toc_capacity == self.toc_capacity && data_region_offset
                == self.data_region_offset && tail_offset == self.tail_offset),
    {
        match self.chunk_count_offset() {
            Ok(offset) => Ok(offset + 4),
            Err(e) => Err(e),
        }
    }

    /// Absolute offset of the `u32` chunk count, which precedes the TOC.
    ///
    /// Fails on the same layouts as [`toc_offset`](Self::toc_offset).
    pub fn chunk_count_offset(&self) -> (r: Result<u64, WadRebaseError>)
        ensures
            region_clears_header(*self) ==> r == Ok::<u64, WadRebaseError>(
                (self.data_region_offset - below_region(*self)) as u64,
            ),
            !region_clears_header(*self) ==> (r matches Err(WadRebaseError::IncoherentLayout {
                toc_capacity,
                data_region_offset,
                tail_offset,
            }) && toc_capacity == self.toc_capacity && data_region_offset
                == self.data_region_offset && tail_offset == self.tail_offset),
    {
        let below_region = self.toc_capacity as u64 * TOC_ENTRY_SIZE + 4;
        if self.data_region_offset < below_region {
            return Err(self.incoherent());
        }
        let offset = self.data_region_offset - below_region;
        if offset < WAD_HEADER_SIZE {
            return Err(self.incoherent());
        }
        Ok(offset)
    }

    /// A source chunk's TOC entry with its offset moved into the kept region.
    ///
    /// Every other field carries over untouched. Fails when the shifted range
    /// falls outside what the format's `u32` offset fields can address.
    pub fn shifted(&self, orig: &WadChunk) -> (r: Result<WadChunk, WadRebaseError>)
        requires
            orig.data_offset <= i64::MAX,
            orig.compressed_size <= i64::MAX,
            i64::MIN <= shifted_offset(*self, *orig) <= i64::MAX,
            i64::MIN <= shifted_offset(*self, *orig) + orig.compressed_size <= i64::MAX,
        ensures
            0 <= shifted_offset(*self, *orig) && shifted_offset(*self, *orig)
                + orig.compressed_size <= MAX_WAD_OFFSET ==> r == Ok::<WadChunk, WadRebaseError>(
                WadChunk { data_offset: shifted_offset(*self, *orig) as usize, ..*orig },
            ),
            !(0 <= shifted_offset(*self, *orig) && shifted_offset(*self, *orig)
                + orig.compressed_size <= MAX_WAD_OFFSET) ==> (r matches Err(
                WadRebaseError::ChunkUnaddressable { path_hash, offset },
            ) && path_hash == orig.path_hash && offset == shifted_offset(*self, *orig)),
    {
        let shifted = orig.data_offset as i64 + self.offset_delta;
        let end = shifted + orig.compressed_size as i64;
        if shifted < 0 || end > MAX_WAD_OFFSET as i64 {
            return Err(WadRebaseError::ChunkUnaddressable { path_hash: orig.path_hash, offset: shifted });
        }
        Ok(WadChunk { data_offset: shifted as usize, ..*orig })
    }

    /// Whether `entry_count` entries fit this TOC without an unreserved gap.
    ///
    /// The count may not exceed the capacity, nor fall short of it by more than
    /// the slack the crate reserves, which is zero.
    pub fn admits_entry_count(&self, entry_count: usize) -> (r: bool)
        ensures
            r == admits(*self, entry_count as int),
    {
        let fewest = if self.toc_capacity >= TOC_SLACK_ENTRIES {
            self.toc_capacity - TOC_SLACK_ENTRIES
        } else {
            0
        };
        if entry_count > u32::MAX as usize {
            return false;
        }
        let count = entry_count as u32;
        fewest <= count && count <= self.toc_capacity
    }

    /// Check the layout's own numbers hang together before its offsets are used.
    ///
    /// Fails when the region does not start past a header, a chunk count and a
    /// TOC of the recorded capacity, or when the tail starts before the region
    /// does.
    pub fn validate(&self) -> (r: Result<(), WadRebaseError>)
        ensures
            r is Ok <==> coherent(*self),
            r matches Err(e) ==> e == (WadRebaseError::IncoherentLayout {
                toc_capacity: self.toc_capacity,
                data_region_offset: self.data_region_offset,
                tail_offset: self.tail_offset,
            }),
    {
        match self.chunk_count_offset() {
            Ok(_) => {},
            Err(e) => {
                return Err(e);
            },
        }
        if self.tail_offset < self.data_region_offset {
            return Err(self.incoherent());
        }
        Ok(())
    }
}

/// How many TOC entries a base entry set plus the tail hashes from `i` on
/// comes to: a tail hash the base already holds replaces its entry.
pub open spec fn added_by(base: Map<u64, WadChunk>, hashes: Seq<u64>) -> nat
    decreases hashes.len(),
{
    if hashes.len() == 0 {
        0
    } else {
        added_by(base, hashes.drop_last()) + if base.contains_key(hashes.last()) {
            0nat
        } else {
            1nat
        }
    }
}

/// Where a tail of chunks ends when it starts at `start`, the sum saturating
/// at `u64::MAX`.
pub open spec fn tail_end_of(start: nat, tail: Seq<(u64, EncodedChunk)>) -> nat
    decreases tail.len(),
{
    if tail.len() == 0 {
        start
    } else {
        let end = tail_end_of(start, tail.drop_last()) + tail.last().1.spec_compressed().len();
        if end > u64::MAX {
            u64::MAX as nat
        } else {
            end
        }
    }
}

/// The hashes of a tail, in order.
pub open spec fn tail_hashes(tail: Seq<(u64, EncodedChunk)>) -> Seq<u64> {
    tail.map_values(|entry: (u64, EncodedChunk)| entry.0)
}

/// The encoded bytes of a tail, one chunk after another.
pub open spec fn tail_bytes_of(tail: Seq<(u64, EncodedChunk)>) -> Seq<u8>
    decreases tail.len(),
{
    if tail.len() == 0 {
        Seq::empty()
    } else {
        tail_bytes_of(tail.drop_last()) + tail.last().1.spec_compressed()
    }
}

/// Where a tail ends, when it ends short of the saturation point, is where
/// it starts plus its bytes; and no prefix of it ends later.
proof fn lemma_tail_end(start: nat, tail: Seq<(u64, EncodedChunk)>)
    requires
        start <= u64::MAX,
    ensures
        tail_end_of(start, tail) >= start,
        tail_end_of(start, tail) < u64::MAX ==> tail_end_of(start, tail) == start + tail_bytes_of(
            tail,
        ).len(),
        forall|i: int|
            0 <= i <= tail.len() ==> tail_end_of(start, #[trigger] tail.subrange(0, i))
                <= tail_end_of(start, tail),
    decreases tail.len(),
{
    if tail.len() > 0 {
        lemma_tail_end(start, tail.drop_last());
        assert forall|i: int| 0 <= i <= tail.len() implies tail_end_of(
            start,
            #[trigger] tail.subrange(0, i),
        ) <= tail_end_of(start, tail) by {
            if i == tail.len() {
                assert(tail.subrange(0, i) =~= tail);
            } else {
                assert(tail.subrange(0, i) =~= tail.drop_last().subrange(0, i));
            }
        }
    } else {
        assert forall|i: int| 0 <= i <= tail.len() implies tail_end_of(
            start,
            #[trigger] tail.subrange(0, i),
        ) <= tail_end_of(start, tail) by {
            assert(tail.subrange(0, i) =~= tail);
        }
    }
}

/// The TOC entry of a chunk a rebase lays down at `offset`: one run of its
/// encoded bytes, not duplicated, with no subchunk records.
pub open spec fn tail_entry_of(path_hash: u64, encoded: EncodedChunk, offset: nat) -> WadChunk {
    WadChunk {
        path_hash,
        data_offset: offset as usize,
        compressed_size: encoded.spec_compressed().len() as usize,
        uncompressed_size: encoded.spec_uncompressed_size() as usize,
        compression_type: encoded.spec_compression(),
        is_duplicated: false,
        frame_count: 0,
        start_frame: 0,
        checksum: encoded.spec_checksum(),
    }
}

/// `entries` with each chunk of `tail`, laid down one after another from
/// `start`, entered under its hash: a tail chunk replaces a base entry of
/// its hash, and a later tail chunk an earlier one.
pub open spec fn entries_after(
    entries: Map<u64, WadChunk>,
    start: nat,
    tail: Seq<(u64, EncodedChunk)>,
) -> Map<u64, WadChunk>
    decreases tail.len(),
{
    if tail.len() == 0 {
        entries
    } else {
        let before = tail.drop_last();
        entries_after(entries, start, before).insert(
            tail.last().0,
            tail_entry_of(tail.last().0, tail.last().1, start + tail_bytes_of(before).len()),
        )
    }
}

/// Entering a tail adds at most one entry for each of its hashes the base
/// does not hold.
proof fn lemma_entries_after_len(entries: Map<u64, WadChunk>, start: nat, tail: Seq<(u64, EncodedChunk)>)
    requires
        entries.dom().finite(),
    ensures
        entries_after(entries, start, tail).dom().finite(),
        entries_after(entries, start, tail).len() <= entries.len() + added_by(
            entries,
            tail_hashes(tail),
        ),
        forall|k: u64| entries.contains_key(k) ==> #[trigger] entries_after(entries, start, tail).contains_key(k),
    decreases tail.len(),
{
    if tail.len() > 0 {
        let before = tail.drop_last();
        lemma_entries_after_len(entries, start, before);
        assert(tail_hashes(tail).drop_last() =~= tail_hashes(before));
        assert(tail_hashes(tail).last() == tail.last().0);
    }
}

/// `n` zero bytes.
pub open spec fn zeros(n: nat) -> Seq<u8> {
    Seq::new(n, |i: int| 0u8)
}

/// The bytes a rebase writes over the chunk count and the TOC: the count of
/// `entries`, their v3.4 entries by ascending hash, and zeros over the
/// reserved slots the entries do not fill.
pub open spec fn toc_region_of(
    listed: Seq<(u64, WadChunk)>,
    entries: Map<u64, WadChunk>,
    capacity: nat,
) -> Seq<u8> {
    le_bytes(entries.len(), 4) + toc_bytes_of(listed.map_values(|e: (u64, WadChunk)| e.1)) + zeros(
        ((capacity - entries.len()) * 32) as nat,
    )
}

/// Every entry a rebase enters fits a v3.4 TOC entry, when every base entry
/// does and the tail ends within the format's reach.
proof fn lemma_entries_after_fit(entries: Map<u64, WadChunk>, start: nat, tail: Seq<(u64, EncodedChunk)>)
    requires
        start <= u64::MAX,
        tail_end_of(start, tail) <= MAX_WAD_OFFSET,
        forall|k: u64| #[trigger] entries.contains_key(k) ==> fits_v3_4(entries[k]),
    ensures
        forall|k: u64|
            #[trigger] entries_after(entries, start, tail).contains_key(k) ==> fits_v3_4(
                entries_after(entries, start, tail)[k],
            ),
    decreases tail.len(),
{
    if tail.len() > 0 {
        let before = tail.drop_last();
        lemma_tail_end(start, tail);
        assert(tail.subrange(0, tail.len() - 1) =~= before);
        lemma_tail_end(start, before);
        lemma_entries_after_fit(entries, start, before);
        let offset = start + tail_bytes_of(before).len();
        let size = tail.last().1.spec_compressed().len();
        assert(offset + size <= MAX_WAD_OFFSET);
        let c = tail_entry_of(tail.last().0, tail.last().1, offset);
        assert(c.data_offset == offset);
        assert(c.compressed_size == size);
        assert(fits_v3_4(c));
        let after = entries_after(entries, start, tail);
        assert(after == entries_after(entries, start, before).insert(tail.last().0, c));
        assert forall|k: u64| #[trigger] after.contains_key(k) implies fits_v3_4(after[k]) by {
            if k != tail.last().0 {
                assert(entries_after(entries, start, before).contains_key(k));
            }
        }
    } else {
        assert(entries_after(entries, start, tail) == entries);
    }
}

/// A listing by ascending key holds each entry of the map once.
proof fn lemma_listing_len(listed: Seq<(u64, WadChunk)>, m: Map<u64, WadChunk>)
    requires
        m.dom().finite(),
        in_key_order(listed, m),
    ensures
        listed.len() == m.len(),
{
    let keys = listed.map_values(|e: (u64, WadChunk)| e.0);
    assert(keys.no_duplicates()) by {
        assert forall|i: int, j: int| 0 <= i < keys.len() && 0 <= j < keys.len() && i != j implies keys[i]
            != keys[j] by {
            if i < j {
                assert(listed[i].0 < listed[j].0);
            } else {
                assert(listed[j].0 < listed[i].0);
            }
        }
    }
    assert(keys.to_set() =~= m.dom()) by {
        assert forall|k: u64| keys.to_set().contains(k) implies m.dom().contains(k) by {
            let i = choose|i: int| 0 <= i < keys.len() && keys[i] == k;
            assert(m.contains_key(listed[i].0));
        }
        assert forall|k: u64| m.dom().contains(k) implies keys.to_set().contains(k) by {
            assert(m.contains_key(k));
            let i = choose|i: int| 0 <= i < listed.len() && listed[i].0 == k;
            assert(keys[i] == k);
        }
    }
    keys.unique_seq_to_set();
}

/// The bytes of the WAD `w` once a rebase writes `toc` at
/// `chunk_count_offset` and appends `tail`.
pub open spec fn rebased_bytes(w: Seq<u8>, chunk_count_offset: nat, toc: Seq<u8>, tail: Seq<u8>) -> Seq<u8> {
    w.subrange(0, chunk_count_offset as int) + toc + w.subrange(
        (chunk_count_offset + toc.len()) as int,
        w.len() as int,
    ) + tail
}

/// A rebased WAD reads back as a WAD in its own right: the header it had,
/// and a TOC listing by ascending hash every base entry the tail did not
/// replace and every tail chunk where the rebase laid it down.
///
/// This holds of a v3.4 WAD whose TOC sits right past its header, cut back
/// to its tail offset, whose base entries fit v3.4 entries, for a plan that
/// checked out and fewer than 2^31 reserved entries.
pub proof fn lemma_rebased_wad_mounts(
    w: Seq<u8>,
    layout: WadTailLayout,
    base: Map<u64, WadChunk>,
    tail: Seq<(u64, EncodedChunk)>,
    listed: Seq<(u64, WadChunk)>,
)
    requires
        w.len() == layout.tail_offset,
        le_value(w.subrange(0, 2)) == WAD_MAGIC,
        w[2] == 3,
        w[3] == 4,
        layout.data_region_offset - below_region(layout) == WAD_HEADER_SIZE,
        coherent(layout),
        layout.toc_capacity < 0x8000_0000,
        base.dom().finite(),
        admits(layout, (base.len() + added_by(base, tail_hashes(tail))) as int),
        tail_end_of(layout.tail_offset as nat, tail) <= MAX_WAD_OFFSET,
        forall|k: u64| #[trigger] base.contains_key(k) ==> fits_v3_4(base[k]),
        in_key_order(listed, entries_after(base, layout.tail_offset as nat, tail)),
    ensures
        mount_of(
            rebased_bytes(
                w,
                WAD_HEADER_SIZE as nat,
                toc_region_of(
                    listed,
                    entries_after(base, layout.tail_offset as nat, tail),
                    layout.toc_capacity as nat,
                ),
                tail_bytes_of(tail),
            ),
        ) == Ok::<(u8, u8, Seq<u8>, u64, Seq<WadChunk>), MountFailure>(
            (
                3,
                4,
                header_signature(w, 3),
                header_checksum(w, 3),
                listed.map_values(|e: (u64, WadChunk)| e.1),
            ),
        ),
{
    let start = layout.tail_offset as nat;
    let entries = entries_after(base, start, tail);
    let cap = layout.toc_capacity as nat;
    let values = listed.map_values(|e: (u64, WadChunk)| e.1);
    lemma_entries_after_len(base, start, tail);
    lemma_entries_after_fit(base, start, tail);
    lemma_listing_len(listed, entries);
    let n = entries.len();
    assert(n <= cap);
    let toc = toc_region_of(listed, entries, cap);
    lemma_le_bytes_len(n, 4);
    lemma_toc_bytes_len(values);
    assert(toc.len() == 4 + 32 * cap);
    let bytes = rebased_bytes(w, 268, toc, tail_bytes_of(tail));
    assert(bytes.subrange(0, 2) =~= w.subrange(0, 2));
    assert(bytes[2] == w[2]);
    assert(bytes[3] == w[3]);
    assert(bytes.subrange(4, 260) =~= w.subrange(4, 260));
    assert(bytes.subrange(260, 268) =~= w.subrange(260, 268));
    assert(bytes.subrange(268, 272) =~= le_bytes(n, 4));
    lemma_byte_ranges();
    lemma_le_value_of_bytes(n, 4);
    assert(header_count(bytes, 3) == n);
    assert(bytes.subrange(272, 272 + 32 * values.len() as int) =~= toc_bytes_of(values));
    assert forall|i: int| 0 <= i < values.len() implies fits_v3_4(#[trigger] values[i]) by {
        assert(entries.contains_key(listed[i].0));
    }
    lemma_mount_reads_toc(bytes, values, n);
    assert(values.take(n as int) =~= values);
    assert(header_signature(bytes, 3) == header_signature(w, 3));
    assert(header_checksum(bytes, 3) == header_checksum(w, 3));
}

/// What a rebase writes: the tail at the layout's tail offset, the TOC
/// region at its chunk count offset, both counted from the WAD's first
/// byte; and the report of it.
#[derive(Debug)]
pub struct RebaseImage {
    /// Where the tail goes.
    pub tail_offset: u64,
    /// The tail's bytes, written at the layout's tail offset.
    pub tail: Vec<u8>,
    /// The chunk count, the TOC and its zeroed slack, written at the
    /// layout's chunk count offset.
    pub toc: Vec<u8>,
    /// Where the TOC region goes.
    pub chunk_count_offset: u64,
    pub report: WadRebaseReport,
}

/// A checked plan to rebase a WAD: rewrite some of its chunks and its TOC.
#[derive(Debug)]
pub struct WadRebasePlan<'a> {
    layout: WadTailLayout,
    /// The TOC the write emits, keyed by path hash.
    entries: BTreeMap<u64, WadChunk>,
    tail: &'a [(u64, EncodedChunk)],
    entry_count: usize,
    tail_end: u64,
}

impl<'a> WadRebasePlan<'a> {
    pub closed spec fn spec_layout(&self) -> WadTailLayout {
        self.layout
    }

    pub closed spec fn spec_entries(&self) -> Map<u64, WadChunk> {
        self.entries@
    }

    pub closed spec fn spec_tail(&self) -> Seq<(u64, EncodedChunk)> {
        self.tail@
    }

    pub closed spec fn spec_entry_count(&self) -> usize {
        self.entry_count
    }

    pub closed spec fn spec_tail_end(&self) -> u64 {
        self.tail_end
    }

    /// What building the plan checked: a coherent layout, an entry count that
    /// fits it, and a tail that ends within the format's reach.
    #[verifier::type_invariant]
    closed spec fn checked(self) -> bool {
        &&& coherent(self.layout)
        &&& self.entry_count == self.entries@.len() + added_by(self.entries@, tail_hashes(self.tail@))
        &&& admits(self.layout, self.entry_count as int)
        &&& self.tail_end == tail_end_of(self.layout.tail_offset as nat, self.tail@)
        &&& self.tail_end <= MAX_WAD_OFFSET
    }

    /// Check that `tail` can be appended to the WAD `layout` describes.
    ///
    /// Fails when the recorded layout is incoherent, when the resulting entry
    /// count no longer fits the reserved TOC capacity, or when the tail would
    /// push the WAD past the format's 4 GiB limit.
    pub fn tail(
        layout: &WadTailLayout,
        base_entries: BTreeMap<u64, WadChunk>,
        tail: &'a [(u64, EncodedChunk)],
    ) -> (r: Result<Self, WadRebaseError>)
        requires
            base_entries@.len() + tail@.len() <= usize::MAX,
        ensures
            !coherent(*layout) ==> (r matches Err(e) && e is IncoherentLayout),
            coherent(*layout) && !admits(
                *layout,
                (base_entries@.len() + added_by(base_entries@, tail_hashes(tail@))) as int,
            ) ==> (r matches Err(WadRebaseError::TocCapacity { needed, reserved }) && needed
                == base_entries@.len() + added_by(base_entries@, tail_hashes(tail@)) && reserved
                == layout.toc_capacity),
            coherent(*layout) && admits(
                *layout,
                (base_entries@.len() + added_by(base_entries@, tail_hashes(tail@))) as int,
            ) && tail_end_of(layout.tail_offset as nat, tail@) > MAX_WAD_OFFSET ==> (r matches Err(
                WadRebaseError::TailTooLarge { offset },
            ) && offset == tail_end_of(layout.tail_offset as nat, tail@)),
            r matches Ok(plan) ==> {
                &&& coherent(*layout)
                &&& admits(*layout, plan.spec_entry_count() as int)
                &&& tail_end_of(layout.tail_offset as nat, tail@) <= MAX_WAD_OFFSET
                &&& plan.spec_layout() == *layout
                &&& plan.spec_entries() == base_entries@
                &&& plan.spec_tail() == tail@
                &&& plan.spec_entry_count() == base_entries@.len() + added_by(
                    base_entries@,
                    tail_hashes(tail@),
                )
                &&& plan.spec_tail_end() == tail_end_of(layout.tail_offset as nat, tail@)
            },
    {
        match layout.validate() {
            Ok(()) => {},
            Err(e) => {
                return Err(e);
            },
        }
        let hashes = tail_hash_list(tail);
        let _ = base_entries.len();
        let entry_count = Self::merged_entry_count(&base_entries, hashes.as_slice());
        if !layout.admits_entry_count(entry_count) {
            return Err(WadRebaseError::TocCapacity { needed: entry_count, reserved: layout.toc_capacity });
        }
        let mut tail_end = layout.tail_offset;
        let mut i: usize = 0;
        while i < tail.len()
            invariant
                i <= tail@.len(),
                tail_end == tail_end_of(layout.tail_offset as nat, tail@.subrange(0, i as int)),
            decreases tail@.len() - i,
        {
            proof {
                assert(tail@.subrange(0, i + 1).drop_last() =~= tail@.subrange(0, i as int));
            }
            let len = tail[i].1.compressed().len() as u64;
            tail_end = if tail_end > u64::MAX - len {
                u64::MAX
            } else {
                tail_end + len
            };
            i = i + 1;
        }
        proof {
            assert(tail@.subrange(0, i as int) =~= tail@);
        }
        if tail_end > MAX_WAD_OFFSET {
            return Err(WadRebaseError::TailTooLarge { offset: tail_end });
        }
        Ok(WadRebasePlan { layout: *layout, entries: base_entries, tail, entry_count, tail_end })
    }

    /// How many TOC entries a base entry set plus a set of tail hashes comes to.
    ///
    /// A tail hash that is already a base entry replaces it rather than adding
    /// one.
    pub fn merged_entry_count(base_entries: &BTreeMap<u64, WadChunk>, tail_hashes: &[u64]) -> (r:
        usize)
        requires
            base_entries@.len() + tail_hashes@.len() <= usize::MAX,
        ensures
            r == base_entries@.len() + added_by(base_entries@, tail_hashes@),
    {
        let mut added: usize = 0;
        let mut i: usize = 0;
        let base_len = base_entries.len();
        while i < tail_hashes.len()
            invariant
                i <= tail_hashes@.len(),
                base_len == base_entries@.len(),
                added == added_by(base_entries@, tail_hashes@.subrange(0, i as int)),
                added <= i,
                base_len + tail_hashes@.len() <= usize::MAX,
            decreases tail_hashes@.len() - i,
        {
            proof {
                assert(tail_hashes@.subrange(0, i + 1).drop_last() =~= tail_hashes@.subrange(
                    0,
                    i as int,
                ));
            }
            if !base_entries.contains_key(&tail_hashes[i]) {
                added = added + 1;
            }
            i = i + 1;
        }
        proof {
            assert(tail_hashes@.subrange(0, i as int) =~= tail_hashes@);
        }
        base_len + added
    }

    /// Bytes the rewritten tail will occupy.
    pub fn tail_len(&self) -> (r: u64)
        ensures
            r == self.spec_tail_end() - self.spec_layout().tail_offset,
            r == tail_bytes_of(self.spec_tail()).len(),
    {
        proof {
            use_type_invariant(self);
            lemma_tail_end(self.layout.tail_offset as nat, self.tail@);
        }
        self.tail_end - self.layout.tail_offset
    }

    /// Entries the rewritten TOC will hold.
    pub fn entry_count(&self) -> (r: usize)
        ensures
            r == self.spec_entry_count(),
    {
        self.entry_count
    }

    /// The bytes the rebase writes, and where.
    ///
    /// The tail chunks land one after another from the layout's tail offset,
    /// each entered in the TOC under its hash. The TOC lists every entry by
    /// ascending hash behind their count (the one such listing, by
    /// [`lemma_key_order_unique`](super::ordered::lemma_key_order_unique)),
    /// and zeroes the reserved slots it does not fill. Offsets count from the WAD's first byte; a caller
    /// writing into a container adds where the WAD begins.
    #[verifier::spinoff_prover]
    pub fn image(self) -> (r: RebaseImage)
        ensures
            r.tail@ == tail_bytes_of(self.spec_tail()),
            r.tail_offset == self.spec_layout().tail_offset,
            r.chunk_count_offset == self.spec_layout().data_region_offset - below_region(
                self.spec_layout(),
            ),
            ({
                let entries = entries_after(
                    self.spec_entries(),
                    self.spec_layout().tail_offset as nat,
                    self.spec_tail(),
                );
                &&& exists|listed: Seq<(u64, WadChunk)>|
                    in_key_order(listed, entries) && r.toc@ == toc_region_of(
                        listed,
                        entries,
                        self.spec_layout().toc_capacity as nat,
                    )
                &&& r.report == WadRebaseReport {
                    entry_count: entries.len() as usize,
                    tail_len: tail_bytes_of(self.spec_tail()).len() as u64,
                }
            }),
    {
        broadcast use vstd::std_specs::btree::group_btree_axioms;

        proof {
            use_type_invariant(&self);
            lemma_tail_end(self.layout.tail_offset as nat, self.tail@);
            lemma_entries_after_len(self.entries@, self.layout.tail_offset as nat, self.tail@);
        }
        let ghost base = self.entries@;
        let ghost start = self.layout.tail_offset as nat;
        let ghost tail = self.tail@;
        let layout = self.layout;
        let plan_tail = self.tail;
        let mut entries = self.entries;
        let mut bytes: Vec<u8> = Vec::new();
        let mut cursor: u64 = layout.tail_offset;
        let mut i: usize = 0;
        while i < plan_tail.len()
            invariant
                i <= plan_tail@.len(),
                tail == plan_tail@,
                start == layout.tail_offset,
                start <= u64::MAX,
                tail_end_of(start, tail) <= MAX_WAD_OFFSET,
                forall|j: int|
                    0 <= j <= tail.len() ==> tail_end_of(start, #[trigger] tail.subrange(0, j))
                        <= tail_end_of(start, tail),
                bytes@ == tail_bytes_of(tail.subrange(0, i as int)),
                cursor == start + bytes@.len(),
                entries@ == entries_after(base, start, tail.subrange(0, i as int)),
            decreases plan_tail@.len() - i,
        {
            let ghost prefix = tail.subrange(0, i as int);
            let (hash, encoded) = &plan_tail[i];
            let data = encoded.compressed();
            proof {
                assert(tail.subrange(0, i + 1).drop_last() =~= prefix);
                assert(tail.subrange(0, i + 1).last() == (*hash, *encoded));
                lemma_tail_end(start, tail.subrange(0, i + 1));
                assert(tail_end_of(start, tail.subrange(0, i + 1)) <= MAX_WAD_OFFSET);
            }
            let chunk = WadChunk {
                path_hash: *hash,
                data_offset: cursor as usize,
                compressed_size: data.len(),
                uncompressed_size: encoded.uncompressed_size() as usize,
                compression_type: encoded.compression(),
                is_duplicated: false,
                frame_count: 0,
                start_frame: 0,
                checksum: encoded.checksum(),
            };
            let mut k: usize = 0;
            let ghost before = bytes@;
            while k < data.len()
                invariant
                    k <= data@.len(),
                    bytes@ == before + data@.subrange(0, k as int),
                decreases data@.len() - k,
            {
                bytes.push(data[k]);
                proof {
                    assert(bytes@ =~= before + data@.subrange(0, k + 1));
                }
                k = k + 1;
            }
            proof {
                assert(data@.subrange(0, k as int) =~= data@);
            }
            cursor = cursor + data.len() as u64;
            entries.insert(*hash, chunk);
            i = i + 1;
        }
        proof {
            assert(tail.subrange(0, i as int) =~= tail);
        }
        let listed = entries_in_order(&entries);
        let ghost values = listed@.map_values(|e: (u64, WadChunk)| e.1);
        let count = entries.len();
        let mut toc: Vec<u8> = Vec::new();
        push_le(&mut toc, count as u64, 4);
        let mut j: usize = 0;
        proof {
            assert(values.subrange(0, 0) =~= Seq::<WadChunk>::empty());
            assert(toc@ =~= le_bytes(count as nat, 4) + toc_bytes_of(values.subrange(0, 0)));
        }
        while j < listed.len()
            invariant
                j <= listed@.len(),
                values == listed@.map_values(|e: (u64, WadChunk)| e.1),
                toc@ == le_bytes(count as nat, 4) + toc_bytes_of(values.subrange(0, j as int)),
            decreases listed@.len() - j,
        {
            let entry = listed[j].1.write_v3_4();
            let ghost before = toc@;
            let mut k: usize = 0;
            while k < entry.len()
                invariant
                    k <= entry@.len(),
                    toc@ == before + entry@.subrange(0, k as int),
                decreases entry@.len() - k,
            {
                toc.push(entry[k]);
                proof {
                    assert(toc@ =~= before + entry@.subrange(0, k + 1));
                }
                k = k + 1;
            }
            proof {
                assert(entry@.subrange(0, k as int) =~= entry@);
                assert(values.subrange(0, j + 1).drop_last() =~= values.subrange(0, j as int));
                assert(values.subrange(0, j + 1).last() == listed@[j as int].1);
                assert(toc@ =~= le_bytes(count as nat, 4) + toc_bytes_of(values.subrange(0, j + 1)));
            }
            j = j + 1;
        }
        proof {
            assert(values.subrange(0, j as int) =~= values);
        }
        let ghost filled = toc@;
        let capacity = layout.toc_capacity as usize;
        let mut slot: usize = count;
        while slot < capacity
            invariant
                count <= slot <= capacity,
                toc@ == filled + zeros(((slot - count) * 32) as nat),
            decreases capacity - slot,
        {
            let ghost before = toc@;
            let mut k: usize = 0;
            while k < 32
                invariant
                    k <= 32,
                    toc@ == before + zeros(k as nat),
                decreases 32 - k,
            {
                toc.push(0u8);
                proof {
                    assert(toc@ =~= before + zeros((k + 1) as nat));
                }
                k = k + 1;
            }
            proof {
                assert(toc@ =~= filled + zeros(((slot + 1 - count) * 32) as nat));
            }
            slot = slot + 1;
        }
        proof {
            assert(in_key_order(listed@, entries@));
            assert(toc@ == toc_region_of(listed@, entries@, layout.toc_capacity as nat));
        }
        let chunk_count_offset = layout.data_region_offset - (layout.toc_capacity as u64 * TOC_ENTRY_SIZE
            + 4);
        RebaseImage {
            tail_offset: layout.tail_offset,
            tail: bytes,
            toc,
            chunk_count_offset,
            report: WadRebaseReport { entry_count: count, tail_len: cursor - layout.tail_offset },
        }
    }
}

/// The hashes of a tail, in order.
fn tail_hash_list(tail: &[(u64, EncodedChunk)]) -> (r: Vec<u64>)
    ensures
        r@ == tail_hashes(tail@),
{
    let mut out: Vec<u64> = Vec::new();
    let mut i: usize = 0;
    while i < tail.len()
        invariant
            i <= tail@.len(),
            out@ == tail_hashes(tail@.subrange(0, i as int)),
        decreases tail@.len() - i,
    {
        out.push(tail[i].0);
        proof {
            assert(tail_hashes(tail@.subrange(0, i + 1)) =~= tail_hashes(tail@.subrange(0, i as int)).push(
                tail@[i as int].0,
            ));
        }
        i = i + 1;
    }
    proof {
        assert(tail@.subrange(0, i as int) =~= tail@);
    }
    out
}

} // verus!
