//! A chunk's record in a WAD's table of contents, and its on-disk encodings.

use vstd::prelude::*;

use crate::bytes::{
    le_bytes, le_value, lemma_byte_ranges, lemma_le_bytes_len, lemma_le_bytes_of_value,
    lemma_le_value_of_bytes, push_le, read_u16_le, read_u32_le, read_u64_le,
};
use super::error::WadError;

verus! {

/// How a chunk's bytes are stored.
#[derive(Debug, Clone, Copy, PartialEq, Eq, Structural)]
pub enum WadChunkCompression {
    /// Uncompressed (stored as `0`)
    Uncompressed,
    /// GZip compressed data
    GZip,
    /// Satellite compressed
    Satellite,
    /// zstd compressed
    Zstd,
    /// zstd compressed data, with some uncompressed data before it
    ZstdMulti,
}

/// The number a compression is stored as.
pub open spec fn compression_code(c: WadChunkCompression) -> u8 {
    match c {
        WadChunkCompression::Uncompressed => 0,
        WadChunkCompression::GZip => 1,
        WadChunkCompression::Satellite => 2,
        WadChunkCompression::Zstd => 3,
        WadChunkCompression::ZstdMulti => 4,
    }
}

/// The compression a stored number names, if it names one.
pub open spec fn compression_of_code(v: u8) -> Option<WadChunkCompression> {
    if v == 0 {
        Some(WadChunkCompression::Uncompressed)
    } else if v == 1 {
        Some(WadChunkCompression::GZip)
    } else if v == 2 {
        Some(WadChunkCompression::Satellite)
    } else if v == 3 {
        Some(WadChunkCompression::Zstd)
    } else if v == 4 {
        Some(WadChunkCompression::ZstdMulti)
    } else {
        None
    }
}

impl WadChunkCompression {
    /// The compression stored as `v`, or `None` for a number no compression has.
    pub fn try_from_u8(v: u8) -> (r: Option<WadChunkCompression>)
        ensures
            r == compression_of_code(v),
    {
        match v {
            0 => Some(WadChunkCompression::Uncompressed),
            1 => Some(WadChunkCompression::GZip),
            2 => Some(WadChunkCompression::Satellite),
            3 => Some(WadChunkCompression::Zstd),
            4 => Some(WadChunkCompression::ZstdMulti),
            _ => None,
        }
    }

    /// The number the compression is stored as.
    pub fn to_u8(self) -> (r: u8)
        ensures
            r == compression_code(self),
    {
        match self {
            WadChunkCompression::Uncompressed => 0,
            WadChunkCompression::GZip => 1,
            WadChunkCompression::Satellite => 2,
            WadChunkCompression::Zstd => 3,
            WadChunkCompression::ZstdMulti => 4,
        }
    }

    /// The compression's name, as it is displayed.
    pub fn name(self) -> (r: &'static str)
        ensures
            r@ == compression_name(self)@,
    {
        match self {
            WadChunkCompression::Uncompressed => "None",
            WadChunkCompression::GZip => "GZip",
            WadChunkCompression::Satellite => "Satellite",
            WadChunkCompression::Zstd => "Zstd",
            WadChunkCompression::ZstdMulti => "ZstdMulti",
        }
    }
}

/// The displayed name of a compression.
pub open spec fn compression_name(c: WadChunkCompression) -> &'static str {
    match c {
        WadChunkCompression::Uncompressed => "None",
        WadChunkCompression::GZip => "GZip",
        WadChunkCompression::Satellite => "Satellite",
        WadChunkCompression::Zstd => "Zstd",
        WadChunkCompression::ZstdMulti => "ZstdMulti",
    }
}

pub proof fn lemma_compression_code_round_trip(c: WadChunkCompression)
    ensures
        compression_of_code(compression_code(c)) == Some(c),
        compression_code(c) < 16,
{
}

/// A single wad chunk
#[derive(Clone, Copy, Debug, PartialEq, Eq, Structural)]
pub struct WadChunk {
    pub path_hash: u64,
    pub data_offset: usize,
    pub compressed_size: usize,
    pub uncompressed_size: usize,
    pub compression_type: WadChunkCompression,
    pub is_duplicated: bool,
    pub frame_count: u8,
    pub start_frame: u32,
    pub checksum: u64,
}

/// Size of one v3.x TOC entry.
pub const TOC_ENTRY_SIZE: usize = 32;

/// The three bytes a start frame is stored as: high, low, then middle byte.
pub open spec fn frame24_bytes(start_frame: u32) -> Seq<u8> {
    seq![
        ((start_frame / 0x1_0000) % 256) as u8,
        (start_frame % 256) as u8,
        ((start_frame / 256) % 256) as u8,
    ]
}

/// The start frame three stored bytes spell.
pub open spec fn frame24_value(b: Seq<u8>) -> u32 {
    (b[0] as int * 0x1_0000 + b[2] as int * 256 + b[1] as int) as u32
}

/// The byte holding a chunk's frame count over its compression.
pub open spec fn type_frame_byte(c: WadChunk) -> u8 {
    ((c.frame_count as int % 16) * 16 + compression_code(c.compression_type)) as u8
}

/// The 32 bytes of a v3.4 TOC entry.
pub open spec fn v3_4_entry_bytes(c: WadChunk) -> Seq<u8> {
    le_bytes(c.path_hash as nat, 8) + le_bytes(c.data_offset as nat, 4) + le_bytes(
        c.compressed_size as nat,
        4,
    ) + le_bytes(c.uncompressed_size as nat, 4) + seq![type_frame_byte(c)] + frame24_bytes(
        c.start_frame,
    ) + le_bytes(c.checksum as nat, 8)
}

/// The chunk a v3.4 TOC entry describes, or the compression number it holds
/// when that names no compression.
pub open spec fn v3_4_entry_of(b: Seq<u8>) -> Result<WadChunk, u8> {
    let tfc = b[20];
    match compression_of_code(tfc % 16) {
        Some(compression) => Ok(
            WadChunk {
                path_hash: le_value(b.subrange(0, 8)) as u64,
                data_offset: le_value(b.subrange(8, 12)) as usize,
                compressed_size: le_value(b.subrange(12, 16)) as usize,
                uncompressed_size: le_value(b.subrange(16, 20)) as usize,
                compression_type: compression,
                is_duplicated: false,
                frame_count: tfc / 16,
                start_frame: frame24_value(b.subrange(21, 24)),
                checksum: le_value(b.subrange(24, 32)) as u64,
            },
        ),
        None => Err(tfc % 16),
    }
}

/// The chunk a v3.1 TOC entry describes, or the compression number it holds
/// when that names no compression.
///
/// The two sizes are stored signed and widen to `usize` with their sign.
pub open spec fn v3_1_entry_of(b: Seq<u8>) -> Result<WadChunk, u8> {
    let tfc = b[20];
    match compression_of_code(tfc % 16) {
        Some(compression) => Ok(
            WadChunk {
                path_hash: le_value(b.subrange(0, 8)) as u64,
                data_offset: le_value(b.subrange(8, 12)) as usize,
                compressed_size: (le_value(b.subrange(12, 16)) as u32 as i32) as usize,
                uncompressed_size: (le_value(b.subrange(16, 20)) as u32 as i32) as usize,
                compression_type: compression,
                is_duplicated: b[21] == 1,
                frame_count: tfc / 16,
                start_frame: le_value(b.subrange(22, 24)) as u32,
                checksum: le_value(b.subrange(24, 32)) as u64,
            },
        ),
        None => Err(tfc % 16),
    }
}

/// What a v3.4 entry can hold: offsets and sizes in `u32`, four bits of frame
/// count, a 24-bit start frame, and no duplicate flag.
pub open spec fn fits_v3_4(c: WadChunk) -> bool {
    &&& c.data_offset < 0x1_0000_0000
    &&& c.compressed_size < 0x1_0000_0000
    &&& c.uncompressed_size < 0x1_0000_0000
    &&& c.frame_count < 16
    &&& c.start_frame < 0x100_0000
    &&& !c.is_duplicated
}

/// Reads the 24-bit start frame stored as high, low, then middle byte.
pub fn read_24_bit_subchunk_start_frame(bytes: &[u8]) -> (r: u32)
    requires
        bytes@.len() >= 3,
    ensures
        r == frame24_value(bytes@.subrange(0, 3)),
{
    let hi = bytes[0] as u32;
    let lo = bytes[1] as u32;
    let mi = bytes[2] as u32;
    hi * 0x1_0000 + mi * 0x100 + lo
}

/// Writes the 24-bit start frame as high, low, then middle byte.
pub fn write_24_bit_subchunk_start_frame(start_frame: u32) -> (r: Vec<u8>)
    ensures
        r@ == frame24_bytes(start_frame),
{
    let mut out = Vec::new();
    out.push(((start_frame / 0x1_0000) % 256) as u8);
    out.push((start_frame % 256) as u8);
    out.push(((start_frame / 256) % 256) as u8);
    proof {
        assert(out@ =~= frame24_bytes(start_frame));
    }
    out
}

impl WadChunk {
    /// Reads a chunk from the 32 bytes of a v3.0 to v3.3 TOC entry.
    pub fn read_v3_1(entry: &[u8]) -> (r: Result<WadChunk, WadError>)
        requires
            entry@.len() == TOC_ENTRY_SIZE,
        ensures
            match v3_1_entry_of(entry@) {
                Ok(c) => r == Ok::<WadChunk, WadError>(c),
                Err(code) => r matches Err(WadError::InvalidChunkCompression { compression })
                    && compression == code,
            },
    {
        let path_hash = read_u64_le(entry, 0);
        let data_offset = read_u32_le(entry, 8) as usize;
        let compressed_size = (read_u32_le(entry, 12) as i32) as usize;
        let uncompressed_size = (read_u32_le(entry, 16) as i32) as usize;
        let type_frame_count = entry[20];
        let frame_count = type_frame_count / 16;
        let compression_type = match WadChunkCompression::try_from_u8(type_frame_count % 16) {
            Some(c) => c,
            None => {
                return Err(WadError::InvalidChunkCompression { compression: type_frame_count % 16 });
            },
        };
        let is_duplicated = entry[21] == 1;
        let start_frame = read_u16_le(entry, 22);
        let checksum = read_u64_le(entry, 24);
        Ok(
            WadChunk {
                path_hash,
                data_offset,
                compressed_size,
                uncompressed_size,
                compression_type,
                is_duplicated,
                frame_count,
                start_frame: start_frame as u32,
                checksum,
            },
        )
    }

    /// Reads a chunk from the 32 bytes of a v3.4 TOC entry.
    pub fn read_v3_4(entry: &[u8]) -> (r: Result<WadChunk, WadError>)
        requires
            entry@.len() == TOC_ENTRY_SIZE,
        ensures
            match v3_4_entry_of(entry@) {
                Ok(c) => r == Ok::<WadChunk, WadError>(c),
                Err(code) => r matches Err(WadError::InvalidChunkCompression { compression })
                    && compression == code,
            },
    {
        let path_hash = read_u64_le(entry, 0);
        let data_offset = read_u32_le(entry, 8) as usize;
        let compressed_size = read_u32_le(entry, 12) as usize;
        let uncompressed_size = read_u32_le(entry, 16) as usize;
        let type_frame_count = entry[20];
        let frame_count = type_frame_count / 16;
        let compression_type = match WadChunkCompression::try_from_u8(type_frame_count % 16) {
            Some(c) => c,
            None => {
                return Err(WadError::InvalidChunkCompression { compression: type_frame_count % 16 });
            },
        };
        let start_frame = read_24_bit_subchunk_start_frame(&entry[21..24]);
        let checksum = read_u64_le(entry, 24);
        Ok(
            WadChunk {
                path_hash,
                data_offset,
                compressed_size,
                uncompressed_size,
                compression_type,
                is_duplicated: false,
                frame_count,
                start_frame,
                checksum,
            },
        )
    }

    /// The 32 bytes of the chunk's v3.4 TOC entry.
    ///
    /// Offsets and sizes keep their low 32 bits, the frame count its low four.
    pub fn write_v3_4(&self) -> (r: Vec<u8>)
        ensures
            r@ == v3_4_entry_bytes(*self),
            r@.len() == TOC_ENTRY_SIZE,
    {
        let mut out = Vec::new();
        push_le(&mut out, self.path_hash, 8);
        push_le(&mut out, self.data_offset as u64, 4);
        push_le(&mut out, self.compressed_size as u64, 4);
        push_le(&mut out, self.uncompressed_size as u64, 4);
        let type_frame_count = (self.frame_count % 16) * 16 + self.compression_type.to_u8();
        out.push(type_frame_count);
        let frame = write_24_bit_subchunk_start_frame(self.start_frame);
        out.push(frame[0]);
        out.push(frame[1]);
        out.push(frame[2]);
        push_le(&mut out, self.checksum, 8);
        proof {
            lemma_v3_4_entry_len(*self);
            assert(out@ =~= v3_4_entry_bytes(*self));
        }
        out
    }

    pub fn path_hash(&self) -> (r: u64)
        ensures
            r == self.path_hash,
    {
        self.path_hash
    }

    pub fn data_offset(&self) -> (r: usize)
        ensures
            r == self.data_offset,
    {
        self.data_offset
    }

    pub fn compressed_size(&self) -> (r: usize)
        ensures
            r == self.compressed_size,
    {
        self.compressed_size
    }

    pub fn uncompressed_size(&self) -> (r: usize)
        ensures
            r == self.uncompressed_size,
    {
        self.uncompressed_size
    }

    pub fn compression_type(&self) -> (r: WadChunkCompression)
        ensures
            r == self.compression_type,
    {
        self.compression_type
    }

    pub fn checksum(&self) -> (r: u64)
        ensures
            r == self.checksum,
    {
        self.checksum
    }
}

pub proof fn lemma_v3_4_entry_len(c: WadChunk)
    ensures
        v3_4_entry_bytes(c).len() == 32,
{
    lemma_le_bytes_len(c.path_hash as nat, 8);
    lemma_le_bytes_len(c.data_offset as nat, 4);
    lemma_le_bytes_len(c.compressed_size as nat, 4);
    lemma_le_bytes_len(c.uncompressed_size as nat, 4);
    lemma_le_bytes_len(c.checksum as nat, 8);
}

/// A chunk a v3.4 entry can hold reads back from its entry unchanged.
pub proof fn lemma_v3_4_entry_round_trip(c: WadChunk)
    requires
        fits_v3_4(c),
    ensures
        v3_4_entry_of(v3_4_entry_bytes(c)) == Ok::<WadChunk, u8>(c),
{
    let b = v3_4_entry_bytes(c);
    lemma_v3_4_entry_len(c);
    lemma_byte_ranges();
    lemma_le_bytes_len(c.path_hash as nat, 8);
    lemma_le_bytes_len(c.data_offset as nat, 4);
    lemma_le_bytes_len(c.compressed_size as nat, 4);
    lemma_le_bytes_len(c.uncompressed_size as nat, 4);
    lemma_le_bytes_len(c.checksum as nat, 8);
    assert(b.subrange(0, 8) =~= le_bytes(c.path_hash as nat, 8));
    assert(b.subrange(8, 12) =~= le_bytes(c.data_offset as nat, 4));
    assert(b.subrange(12, 16) =~= le_bytes(c.compressed_size as nat, 4));
    assert(b.subrange(16, 20) =~= le_bytes(c.uncompressed_size as nat, 4));
    assert(b.subrange(24, 32) =~= le_bytes(c.checksum as nat, 8));
    assert(b.subrange(21, 24) =~= frame24_bytes(c.start_frame));
    lemma_le_value_of_bytes(c.path_hash as nat, 8);
    lemma_le_value_of_bytes(c.data_offset as nat, 4);
    lemma_le_value_of_bytes(c.compressed_size as nat, 4);
    lemma_le_value_of_bytes(c.uncompressed_size as nat, 4);
    lemma_le_value_of_bytes(c.checksum as nat, 8);
    lemma_compression_code_round_trip(c.compression_type);
    assert(b[20] == type_frame_byte(c));
    let r = v3_4_entry_of(b).unwrap();
    assert(r.start_frame == c.start_frame);
    assert(r == c);
}

/// The compression numbers are the WAD format's: 0 uncompressed, 1 gzip,
/// 2 satellite, 3 zstd, 4 zstd behind an uncompressed prefix, and no other
/// number names one. A v3.4 entry reads as gzip exactly when the low nibble
/// of its type byte is 1 and as zstd exactly when it is 3, and a chunk is
/// written with those numbers.
pub proof fn lemma_wad_compression_numbers(v: u8, c: WadChunk, b: Seq<u8>)
    requires
        b.len() == 32,
    ensures
        (compression_of_code(v) == Some(WadChunkCompression::Uncompressed)) <==> v == 0,
        (compression_of_code(v) == Some(WadChunkCompression::GZip)) <==> v == 1,
        (compression_of_code(v) == Some(WadChunkCompression::Satellite)) <==> v == 2,
        (compression_of_code(v) == Some(WadChunkCompression::Zstd)) <==> v == 3,
        (compression_of_code(v) == Some(WadChunkCompression::ZstdMulti)) <==> v == 4,
        compression_of_code(v) is None <==> v > 4,
        (compression_code(c.compression_type) == 1) <==> c.compression_type is GZip,
        (compression_code(c.compression_type) == 3) <==> c.compression_type is Zstd,
        (compression_code(c.compression_type) == 0) <==> c.compression_type is Uncompressed,
        (compression_code(c.compression_type) == 2) <==> c.compression_type is Satellite,
        (compression_code(c.compression_type) == 4) <==> c.compression_type is ZstdMulti,
        v3_4_entry_bytes(c)[20] % 16 == compression_code(c.compression_type),
        (v3_4_entry_of(b) matches Ok(e) && e.compression_type is GZip) <==> b[20] % 16 == 1,
        (v3_4_entry_of(b) matches Ok(e) && e.compression_type is Zstd) <==> b[20] % 16 == 3,
        (v3_4_entry_of(b) matches Ok(e) && e.compression_type is Uncompressed) <==> b[20] % 16 == 0,
{
    lemma_le_bytes_len(c.path_hash as nat, 8);
    lemma_le_bytes_len(c.data_offset as nat, 4);
    lemma_le_bytes_len(c.compressed_size as nat, 4);
    lemma_le_bytes_len(c.uncompressed_size as nat, 4);
    lemma_le_bytes_len(c.checksum as nat, 8);
    assert(v3_4_entry_bytes(c)[20] == type_frame_byte(c));
    let code = compression_code(c.compression_type);
    let fc = c.frame_count as int % 16;
    assert(((fc * 16 + code) as u8) % 16 == code) by (nonlinear_arith)
        requires
            0 <= fc < 16,
            0 <= code <= 4,
    ;
}

/// An entry whose compression number names a compression is the entry of the
/// chunk it reads as.
pub proof fn lemma_v3_4_bytes_round_trip(b: Seq<u8>)
    requires
        b.len() == 32,
        v3_4_entry_of(b) is Ok,
    ensures
        fits_v3_4(v3_4_entry_of(b).unwrap()),
        v3_4_entry_bytes(v3_4_entry_of(b).unwrap()) =~= b,
{
    let c = v3_4_entry_of(b).unwrap();
    lemma_byte_ranges();
    lemma_le_bytes_of_value(b.subrange(0, 8));
    lemma_le_bytes_of_value(b.subrange(8, 12));
    lemma_le_bytes_of_value(b.subrange(12, 16));
    lemma_le_bytes_of_value(b.subrange(16, 20));
    lemma_le_bytes_of_value(b.subrange(24, 32));
    lemma_v3_4_entry_len(c);
    let e = v3_4_entry_bytes(c);
    assert(e.subrange(0, 8) =~= b.subrange(0, 8));
    assert(e.subrange(8, 12) =~= b.subrange(8, 12));
    assert(e.subrange(12, 16) =~= b.subrange(12, 16));
    assert(e.subrange(16, 20) =~= b.subrange(16, 20));
    assert(e.subrange(24, 32) =~= b.subrange(24, 32));
    assert(e[20] == b[20]);
    assert(e.subrange(21, 24) =~= b.subrange(21, 24));
    assert forall|i: int| 0 <= i < 32 implies e[i] == b[i] by {
        if i < 8 {
            assert(e[i] == e.subrange(0, 8)[i]);
        } else if i < 12 {
            assert(e[i] == e.subrange(8, 12)[i - 8]);
        } else if i < 16 {
            assert(e[i] == e.subrange(12, 16)[i - 12]);
        } else if i < 20 {
            assert(e[i] == e.subrange(16, 20)[i - 16]);
        } else if i == 20 {
        } else if i < 24 {
            assert(e[i] == e.subrange(21, 24)[i - 21]);
        } else {
            assert(e[i] == e.subrange(24, 32)[i - 24]);
        }
    }
}

} // verus!
