//! TOC entries by WAD version, and the accessors every version shares.

use vstd::prelude::*;

use super::codec::{gzip_exact, gzip_read_exact, zstd_exact, zstd_opens, zstd_read_exact, ZstdFailure};
use super::decoder::{append_bytes, copy_range, find_zstd_magic, magic_offset};
use super::error::unexpected_eof;

verus! {

/// How an entry's data is stored.
#[derive(Debug, Clone, Copy, PartialEq, Eq, Structural)]
pub enum EntryKind {
    /// Uncompressed
    Uncompressed,
    /// GZip compressed data
    GZip,
    /// Satellite compressed
    Satellite,
    /// zstd compressed
    Zstd,
    /// zstd compressed data, with some uncompressed data before it
    ZstdMulti,
}

/// The number an entry stores for `k`.
pub open spec fn entry_kind_code(k: EntryKind) -> u8 {
    match k {
        EntryKind::Uncompressed => 0,
        EntryKind::GZip => 1,
        EntryKind::Satellite => 2,
        EntryKind::Zstd => 3,
        EntryKind::ZstdMulti => 4,
    }
}

/// The kind a number names.
pub open spec fn entry_kind_of_code(v: u8) -> Option<EntryKind> {
    if v == 0 {
        Some(EntryKind::Uncompressed)
    } else if v == 1 {
        Some(EntryKind::GZip)
    } else if v == 2 {
        Some(EntryKind::Satellite)
    } else if v == 3 {
        Some(EntryKind::Zstd)
    } else if v == 4 {
        Some(EntryKind::ZstdMulti)
    } else {
        None
    }
}

/// What decoding an entry of `kind` from the bytes `data` a reader yields
/// gives: `size` bytes, or `None` when the read fails. A `ZstdMulti` entry
/// reads its `compressed_size` bytes first and keeps what stands before the
/// first zstd frame as it is.
pub open spec fn entry_decoding(kind: EntryKind, data: Seq<u8>, compressed_size: nat, size: nat) -> Option<
    Seq<u8>,
> {
    match kind {
        EntryKind::Uncompressed => if data.len() >= size {
            Some(data.take(size as int))
        } else {
            None
        },
        EntryKind::GZip => gzip_exact(data, size),
        EntryKind::Satellite => None,
        EntryKind::Zstd => zstd_exact(data, size),
        EntryKind::ZstdMulti => if data.len() < compressed_size {
            None
        } else {
            let search = data.take(compressed_size as int);
            match magic_offset(search) {
                Some(off) => match zstd_exact(search.skip(off as int), (size - off) as nat) {
                    Some(rest) => Some(search.take(off as int) + rest),
                    None => None,
                },
                None => None,
            }
        },
    }
}

/// Whether decoding an entry of `kind` from `data` runs without stopping the
/// program: a satellite entry has no decoder, a zstd frame must open, and a
/// `ZstdMulti` entry that reads in full must hold a frame no later than its
/// decoded size.
pub open spec fn entry_decoding_runs(kind: EntryKind, data: Seq<u8>, compressed_size: nat, size: nat) -> bool {
    match kind {
        EntryKind::Satellite => false,
        EntryKind::Zstd => zstd_opens(data),
        EntryKind::ZstdMulti => data.len() < compressed_size || {
            let search = data.take(compressed_size as int);
            match magic_offset(search) {
                Some(off) => off <= size && zstd_opens(search.skip(off as int)),
                None => false,
            }
        },
        _ => true,
    }
}

impl EntryKind {
    /// Decode an entry's data from the bytes a reader positioned at it
    /// yields, into `uncompressed_size` bytes.
    ///
    /// A `ZstdMulti` entry reads its `compressed_size` bytes, keeps what
    /// stands before the first zstd frame, and decodes the rest.
    pub fn decode(&self, data: &[u8], compressed_size: usize, uncompressed_size: usize) -> (r: Result<
        Vec<u8>,
        std::io::Error,
    >)
        requires
            entry_decoding_runs(*self, data@, compressed_size as nat, uncompressed_size as nat),
        ensures
            r is Ok <==> entry_decoding(*self, data@, compressed_size as nat, uncompressed_size as nat)
                is Some,
            r matches Ok(v) ==> entry_decoding(
                *self,
                data@,
                compressed_size as nat,
                uncompressed_size as nat,
            ) == Some(v@),
    {
        match self {
            EntryKind::Uncompressed => {
                if data.len() < uncompressed_size {
                    return Err(unexpected_eof());
                }
                let out = copy_range(data, 0, uncompressed_size);
                proof {
                    assert(out@ =~= data@.take(uncompressed_size as int));
                }
                Ok(out)
            },
            EntryKind::GZip => gzip_read_exact(data, uncompressed_size),
            EntryKind::Satellite => {
                proof {
                    assert(false);
                }
                Err(unexpected_eof())
            },
            EntryKind::Zstd => match zstd_read_exact(data, uncompressed_size) {
                Ok(out) => Ok(out),
                Err(ZstdFailure::Read(e)) => Err(e),
                Err(ZstdFailure::Open(_)) => {
                    proof {
                        assert(false);
                    }
                    Err(unexpected_eof())
                },
            },
            EntryKind::ZstdMulti => {
                if data.len() < compressed_size {
                    return Err(unexpected_eof());
                }
                let search = copy_range(data, 0, compressed_size);
                proof {
                    assert(search@ =~= data@.take(compressed_size as int));
                }
                let off = match find_zstd_magic(search.as_slice()) {
                    Some(off) => off,
                    None => {
                        proof {
                            assert(false);
                        }
                        return Err(unexpected_eof());
                    },
                };
                let frames = copy_range(search.as_slice(), off, search.len());
                proof {
                    assert(frames@ =~= search@.skip(off as int));
                }
                match zstd_read_exact(frames.as_slice(), uncompressed_size - off) {
                    Ok(rest) => {
                        let mut out = copy_range(search.as_slice(), 0, off);
                        proof {
                            assert(out@ =~= search@.take(off as int));
                        }
                        append_bytes(&mut out, rest.as_slice());
                        Ok(out)
                    },
                    Err(ZstdFailure::Read(e)) => Err(e),
                    Err(ZstdFailure::Open(_)) => {
                        proof {
                            assert(false);
                        }
                        Err(unexpected_eof())
                    },
                }
            },
        }
    }
}

impl EntryKind {
    /// The kind numbered `v`.
    pub fn try_from_u8(v: u8) -> (r: Option<Self>)
        ensures
            r == entry_kind_of_code(v),
    {
        match v {
            0 => Some(EntryKind::Uncompressed),
            1 => Some(EntryKind::GZip),
            2 => Some(EntryKind::Satellite),
            3 => Some(EntryKind::Zstd),
            4 => Some(EntryKind::ZstdMulti),
            _ => None,
        }
    }

    /// The number of the kind.
    pub fn to_u8(self) -> (r: u8)
        ensures
            r == entry_kind_code(self),
    {
        match self {
            EntryKind::Uncompressed => 0,
            EntryKind::GZip => 1,
            EntryKind::Satellite => 2,
            EntryKind::Zstd => 3,
            EntryKind::ZstdMulti => 4,
        }
    }
}

/// What every version of a TOC entry tells of its chunk.
pub trait EntryExt {
    spec fn spec_path_hash(&self) -> u64;

    spec fn spec_data_offset(&self) -> u32;

    spec fn spec_compressed_size(&self) -> u32;

    spec fn spec_uncompressed_size(&self) -> u32;

    spec fn spec_kind(&self) -> EntryKind;

    spec fn spec_subchunk_count(&self) -> Option<u8>;

    spec fn spec_is_duplicate(&self) -> Option<bool>;

    spec fn spec_subchunk_index(&self) -> Option<u32>;

    spec fn spec_checksum(&self) -> Option<u64>;

    fn path_hash(&self) -> (r: u64)
        ensures
            r == self.spec_path_hash(),
    ;

    fn data_offset(&self) -> (r: u32)
        ensures
            r == self.spec_data_offset(),
    ;

    fn compressed_size(&self) -> (r: u32)
        ensures
            r == self.spec_compressed_size(),
    ;

    fn uncompressed_size(&self) -> (r: u32)
        ensures
            r == self.spec_uncompressed_size(),
    ;

    fn kind(&self) -> (r: EntryKind)
        ensures
            r == self.spec_kind(),
    ;

    /// The entry's subchunk count, where its version stores one.
    fn subchunk_count(&self) -> (r: Option<u8>)
        ensures
            r == self.spec_subchunk_count(),
    ;

    /// Whether the entry's data duplicates another's, where its version
    /// says.
    fn is_duplicate(&self) -> (r: Option<bool>)
        ensures
            r == self.spec_is_duplicate(),
    ;

    /// The entry's first subchunk, where its version stores one.
    fn subchunk_index(&self) -> (r: Option<u32>)
        ensures
            r == self.spec_subchunk_index(),
    ;

    /// The checksum of the entry's data, where its version stores one.
    fn checksum(&self) -> (r: Option<u64>)
        ensures
            r == self.spec_checksum(),
    ;
}

/// A v1 (and v2) TOC entry: 24 bytes, no checksum.
#[derive(Debug, Clone, Copy, PartialEq, Eq, Structural)]
pub struct V1 {
    pub path_hash: u64,
    pub data_offset: u32,
    pub compressed_size: u32,
    pub uncompressed_size: u32,
    pub compression: EntryKind,
}

impl EntryExt for V1 {
    open spec fn spec_path_hash(&self) -> u64 {
        self.path_hash
    }

    open spec fn spec_data_offset(&self) -> u32 {
        self.data_offset
    }

    open spec fn spec_compressed_size(&self) -> u32 {
        self.compressed_size
    }

    open spec fn spec_uncompressed_size(&self) -> u32 {
        self.uncompressed_size
    }

    open spec fn spec_kind(&self) -> EntryKind {
        self.compression
    }

    open spec fn spec_subchunk_count(&self) -> Option<u8> {
        None
    }

    open spec fn spec_is_duplicate(&self) -> Option<bool> {
        None
    }

    open spec fn spec_subchunk_index(&self) -> Option<u32> {
        None
    }

    open spec fn spec_checksum(&self) -> Option<u64> {
        None
    }

    fn path_hash(&self) -> (r: u64) {
        self.path_hash
    }

    fn data_offset(&self) -> (r: u32) {
        self.data_offset
    }

    fn compressed_size(&self) -> (r: u32) {
        self.compressed_size
    }

    fn uncompressed_size(&self) -> (r: u32) {
        self.uncompressed_size
    }

    fn kind(&self) -> (r: EntryKind) {
        self.compression
    }

    fn subchunk_count(&self) -> (r: Option<u8>) {
        None
    }

    fn is_duplicate(&self) -> (r: Option<bool>) {
        None
    }

    fn subchunk_index(&self) -> (r: Option<u32>) {
        None
    }

    fn checksum(&self) -> (r: Option<u64>) {
        None
    }
}

/// A v3.0 to v3.3 TOC entry: 32 bytes, with a checksum, a duplicate flag
/// and a 16-bit subchunk index.
#[derive(Debug, Clone, Copy, PartialEq, Eq, Structural)]
pub struct V3 {
    pub path_hash: u64,
    pub data_offset: u32,
    pub compressed_size: u32,
    pub uncompressed_size: u32,
    pub kind: EntryKind,
    pub subchunk_count: u8,
    pub is_duplicate: bool,
    pub subchunk_index: u16,
    pub checksum: u64,
}

impl EntryExt for V3 {
    open spec fn spec_path_hash(&self) -> u64 {
        self.path_hash
    }

    open spec fn spec_data_offset(&self) -> u32 {
        self.data_offset
    }

    open spec fn spec_compressed_size(&self) -> u32 {
        self.compressed_size
    }

    open spec fn spec_uncompressed_size(&self) -> u32 {
        self.uncompressed_size
    }

    open spec fn spec_kind(&self) -> EntryKind {
        self.kind
    }

    open spec fn spec_subchunk_count(&self) -> Option<u8> {
        Some(self.subchunk_count)
    }

    open spec fn spec_is_duplicate(&self) -> Option<bool> {
        None
    }

    open spec fn spec_subchunk_index(&self) -> Option<u32> {
        Some(self.subchunk_index as u32)
    }

    open spec fn spec_checksum(&self) -> Option<u64> {
        Some(self.checksum)
    }

    fn path_hash(&self) -> (r: u64) {
        self.path_hash
    }

    fn data_offset(&self) -> (r: u32) {
        self.data_offset
    }

    fn compressed_size(&self) -> (r: u32) {
        self.compressed_size
    }

    fn uncompressed_size(&self) -> (r: u32) {
        self.uncompressed_size
    }

    fn kind(&self) -> (r: EntryKind) {
        self.kind
    }

    fn subchunk_count(&self) -> (r: Option<u8>) {
        Some(self.subchunk_count)
    }

    fn is_duplicate(&self) -> (r: Option<bool>) {
        None
    }

    fn subchunk_index(&self) -> (r: Option<u32>) {
        Some(self.subchunk_index as u32)
    }

    fn checksum(&self) -> (r: Option<u64>) {
        Some(self.checksum)
    }
}

/// A v3.4 (and later) TOC entry: 32 bytes, with a checksum and a 24-bit
/// subchunk index.
#[derive(Debug, Clone, Copy, PartialEq, Eq, Structural)]
pub struct V3_4 {
    pub path_hash: u64,
    pub data_offset: u32,
    pub compressed_size: u32,
    pub uncompressed_size: u32,
    pub kind: EntryKind,
    pub subchunk_count: u8,
    pub subchunk_index: u32,
    pub checksum: u64,
}

/// The minor version of the latest entry layout.
pub const LATEST_MINOR: u8 = 4;

impl V3_4 {
    /// The v3.4 entry that tells what `value` tells, each field the entry's
    /// version does not store taken as zero.
    pub fn from_generic_or_default<E: EntryExt>(value: &E) -> (r: Self)
        ensures
            r.path_hash == value.spec_path_hash(),
            r.data_offset == value.spec_data_offset(),
            r.compressed_size == value.spec_compressed_size(),
            r.uncompressed_size == value.spec_uncompressed_size(),
            r.kind == value.spec_kind(),
            r.subchunk_count == (match value.spec_subchunk_count() {
                Some(v) => v,
                None => 0,
            }),
            r.subchunk_index == (match value.spec_subchunk_index() {
                Some(v) => v,
                None => 0,
            }),
            r.checksum == (match value.spec_checksum() {
                Some(v) => v,
                None => 0,
            }),
    {
        V3_4 {
            path_hash: value.path_hash(),
            data_offset: value.data_offset(),
            compressed_size: value.compressed_size(),
            uncompressed_size: value.uncompressed_size(),
            kind: value.kind(),
            subchunk_count: match value.subchunk_count() {
                Some(v) => v,
                None => 0,
            },
            subchunk_index: match value.subchunk_index() {
                Some(v) => v,
                None => 0,
            },
            checksum: match value.checksum() {
                Some(v) => v,
                None => 0,
            },
        }
    }
}

impl EntryExt for V3_4 {
    open spec fn spec_path_hash(&self) -> u64 {
        self.path_hash
    }

    open spec fn spec_data_offset(&self) -> u32 {
        self.data_offset
    }

    open spec fn spec_compressed_size(&self) -> u32 {
        self.compressed_size
    }

    open spec fn spec_uncompressed_size(&self) -> u32 {
        self.uncompressed_size
    }

    open spec fn spec_kind(&self) -> EntryKind {
        self.kind
    }

    open spec fn spec_subchunk_count(&self) -> Option<u8> {
        Some(self.subchunk_count)
    }

    open spec fn spec_is_duplicate(&self) -> Option<bool> {
        None
    }

    open spec fn spec_subchunk_index(&self) -> Option<u32> {
        Some(self.subchunk_index)
    }

    open spec fn spec_checksum(&self) -> Option<u64> {
        Some(self.checksum)
    }

    fn path_hash(&self) -> (r: u64) {
        self.path_hash
    }

    fn data_offset(&self) -> (r: u32) {
        self.data_offset
    }

    fn compressed_size(&self) -> (r: u32) {
        self.compressed_size
    }

    fn uncompressed_size(&self) -> (r: u32) {
        self.uncompressed_size
    }

    fn kind(&self) -> (r: EntryKind) {
        self.kind
    }

    fn subchunk_count(&self) -> (r: Option<u8>) {
        Some(self.subchunk_count)
    }

    fn is_duplicate(&self) -> (r: Option<bool>) {
        None
    }

    fn subchunk_index(&self) -> (r: Option<u32>) {
        Some(self.subchunk_index)
    }

    fn checksum(&self) -> (r: Option<u64>) {
        Some(self.checksum)
    }
}

/// A TOC entry of any version.
#[derive(Debug, Clone, Copy, PartialEq, Eq, Structural)]
pub enum Entry {
    V3_4(V3_4),
    V3(V3),
    V1(V1),
}

impl Entry {
    /// The minor version the entry's layout was last changed in.
    pub fn latest_minor(&self) -> (r: u8)
        ensures
            r == (match self {
                Entry::V3_4(_) => 4u8,
                Entry::V3(_) => 3u8,
                Entry::V1(_) => 0u8,
            }),
    {
        match self {
            Entry::V3_4(_) => 4,
            Entry::V3(_) => 3,
            Entry::V1(_) => 0,
        }
    }
}

impl EntryExt for Entry {
    open spec fn spec_path_hash(&self) -> u64 {
        match self {
            Entry::V3_4(inner) => inner.spec_path_hash(),
            Entry::V3(inner) => inner.spec_path_hash(),
            Entry::V1(inner) => inner.spec_path_hash(),
        }
    }

    open spec fn spec_data_offset(&self) -> u32 {
        match self {
            Entry::V3_4(inner) => inner.spec_data_offset(),
            Entry::V3(inner) => inner.spec_data_offset(),
            Entry::V1(inner) => inner.spec_data_offset(),
        }
    }

    open spec fn spec_compressed_size(&self) -> u32 {
        match self {
            Entry::V3_4(inner) => inner.spec_compressed_size(),
            Entry::V3(inner) => inner.spec_compressed_size(),
            Entry::V1(inner) => inner.spec_compressed_size(),
        }
    }

    open spec fn spec_uncompressed_size(&self) -> u32 {
        match self {
            Entry::V3_4(inner) => inner.spec_uncompressed_size(),
            Entry::V3(inner) => inner.spec_uncompressed_size(),
            Entry::V1(inner) => inner.spec_uncompressed_size(),
        }
    }

    open spec fn spec_kind(&self) -> EntryKind {
        match self {
            Entry::V3_4(inner) => inner.spec_kind(),
            Entry::V3(inner) => inner.spec_kind(),
            Entry::V1(inner) => inner.spec_kind(),
        }
    }

    open spec fn spec_subchunk_count(&self) -> Option<u8> {
        match self {
            Entry::V3_4(inner) => inner.spec_subchunk_count(),
            Entry::V3(inner) => inner.spec_subchunk_count(),
            Entry::V1(inner) => inner.spec_subchunk_count(),
        }
    }

    open spec fn spec_is_duplicate(&self) -> Option<bool> {
        match self {
            Entry::V3_4(inner) => inner.spec_is_duplicate(),
            Entry::V3(inner) => inner.spec_is_duplicate(),
            Entry::V1(inner) => inner.spec_is_duplicate(),
        }
    }

    open spec fn spec_subchunk_index(&self) -> Option<u32> {
        match self {
            Entry::V3_4(inner) => inner.spec_subchunk_index(),
            Entry::V3(inner) => inner.spec_subchunk_index(),
            Entry::V1(inner) => inner.spec_subchunk_index(),
        }
    }

    open spec fn spec_checksum(&self) -> Option<u64> {
        match self {
            Entry::V3_4(inner) => inner.spec_checksum(),
            Entry::V3(inner) => inner.spec_checksum(),
            Entry::V1(inner) => inner.spec_checksum(),
        }
    }

    fn path_hash(&self) -> (r: u64) {
        match self {
            Entry::V3_4(inner) => inner.path_hash(),
            Entry::V3(inner) => inner.path_hash(),
            Entry::V1(inner) => inner.path_hash(),
        }
    }

    fn data_offset(&self) -> (r: u32) {
        match self {
            Entry::V3_4(inner) => inner.data_offset(),
            Entry::V3(inner) => inner.data_offset(),
            Entry::V1(inner) => inner.data_offset(),
        }
    }

    fn compressed_size(&self) -> (r: u32) {
        match self {
            Entry::V3_4(inner) => inner.compressed_size(),
            Entry::V3(inner) => inner.compressed_size(),
            Entry::V1(inner) => inner.compressed_size(),
        }
    }

    fn uncompressed_size(&self) -> (r: u32) {
        match self {
            Entry::V3_4(inner) => inner.uncompressed_size(),
            Entry::V3(inner) => inner.uncompressed_size(),
            Entry::V1(inner) => inner.uncompressed_size(),
        }
    }

    fn kind(&self) -> (r: EntryKind) {
        match self {
            Entry::V3_4(inner) => inner.kind(),
            Entry::V3(inner) => inner.kind(),
            Entry::V1(inner) => inner.kind(),
        }
    }

    fn subchunk_count(&self) -> (r: Option<u8>) {
        match self {
            Entry::V3_4(inner) => inner.subchunk_count(),
            Entry::V3(inner) => inner.subchunk_count(),
            Entry::V1(inner) => inner.subchunk_count(),
        }
    }

    fn is_duplicate(&self) -> (r: Option<bool>) {
        match self {
            Entry::V3_4(inner) => inner.is_duplicate(),
            Entry::V3(inner) => inner.is_duplicate(),
            Entry::V1(inner) => inner.is_duplicate(),
        }
    }

    fn subchunk_index(&self) -> (r: Option<u32>) {
        match self {
            Entry::V3_4(inner) => inner.subchunk_index(),
            Entry::V3(inner) => inner.subchunk_index(),
            Entry::V1(inner) => inner.subchunk_index(),
        }
    }

    fn checksum(&self) -> (r: Option<u64>) {
        match self {
            Entry::V3_4(inner) => inner.checksum(),
            Entry::V3(inner) => inner.checksum(),
            Entry::V1(inner) => inner.checksum(),
        }
    }
}

/// Builds an entry: its path hash, checksum, kind and data.
#[derive(Debug, Clone)]
pub struct Builder<D> {
    pub path_hash: u64,
    pub checksum: Option<u64>,
    pub kind: EntryKind,
    pub data: D,
}

impl Builder<()> {
    /// A builder with what `value` tells: its path hash, checksum and kind,
    /// and no data.
    pub fn from_entry<T: EntryExt>(value: &T) -> (r: Builder<()>)
        ensures
            r.path_hash == value.spec_path_hash(),
            r.checksum == value.spec_checksum(),
            r.kind == value.spec_kind(),
    {
        Builder {
            path_hash: value.path_hash(),
            checksum: value.checksum(),
            kind: value.kind(),
            data: (),
        }
    }
}

impl<D> Builder<D> {
    pub fn with_checksum(self, checksum: u64) -> (r: Self)
        ensures
            r.path_hash == self.path_hash,
            r.checksum == Some(checksum),
            r.kind == self.kind,
            r.data == self.data,
    {
        Builder { checksum: Some(checksum), ..self }
    }

    pub fn with_data<NewData>(self, data: NewData) -> (r: Builder<NewData>)
        ensures
            r.path_hash == self.path_hash,
            r.checksum == self.checksum,
            r.kind == self.kind,
            r.data == data,
    {
        Builder { path_hash: self.path_hash, checksum: self.checksum, kind: self.kind, data }
    }
}

/// The region of `data` an entry's bytes occupy.
#[derive(Clone, Debug)]
pub struct DataRegion<T> {
    pub data: T,
    pub off: u32,
    pub length: u32,
}

/// An entry together with the data its region lies in.
pub struct OwnedEntry<D, E: EntryExt> {
    inner: E,
    data: DataRegion<D>,
}

impl<E: EntryExt, D> OwnedEntry<D, E> {
    pub closed spec fn spec_inner(&self) -> E {
        self.inner
    }

    pub closed spec fn spec_region(&self) -> DataRegion<D> {
        self.data
    }

    /// The entry, its region where the entry says its data lies in `data`.
    pub fn new(entry: E, data: D) -> (r: Self)
        ensures
            r.spec_inner() == entry,
            r.spec_region().data == data,
            r.spec_region().off == entry.spec_data_offset(),
            r.spec_region().length == entry.spec_compressed_size(),
    {
        let length = entry.compressed_size();
        let off = entry.data_offset();
        OwnedEntry { data: DataRegion { data, length, off }, inner: entry }
    }

    /// The entry.
    pub fn entry(&self) -> (r: &E)
        ensures
            *r == self.spec_inner(),
    {
        &self.inner
    }

    /// The region the entry's data occupies.
    pub fn region(&self) -> (r: &DataRegion<D>)
        ensures
            *r == self.spec_region(),
    {
        &self.data
    }
}

} // verus!
