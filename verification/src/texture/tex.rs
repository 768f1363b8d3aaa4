//! The TEX file: header, mip chain and the texels of each mip.

use vstd::prelude::*;
use vstd::arithmetic::power2::pow2;

use crate::bytes::{le_bytes, le_value, lemma_le_bytes_len, push_le, read_u16_le, read_u32_le};
use crate::wad::decoder::copy_range;
use crate::wad::error::unexpected_eof;
use super::bc5_snorm::{blocks_for, bc5_snorm_data, decode_bc5_snorm};
use super::codec::{
    blocks_of, decode_etc1, decode_etc2_rgba8, decode_image_dds, etc1_bgra8, etc2_rgba8_bgra8,
    image_dds_rgba8,
};
use super::format::{
    block_bytes, format_code, format_of_code, resource_type_code,
    resource_type_of_code, Format, ResourceType, TextureFlags, HAS_MIP_MAPS,
};
use super::surface::{PixelFormat, TexSurface};
use super::encode::{
    encodable, encode_result, encode_rgba, encode_rgba_with_mipmaps, format_of_encode,
    mip_chain_of, EncodeError, EncodeOptions,
};

verus! {

/// What can go wrong reading or using a TEX file.
#[derive(Debug)]
pub enum Error {
    UnknownTextureFormat(u8),
    UnsupportedTextureFormat(Format),
    UnknownResourceType(u8),
    InvalidTextureFlags(u8),
    IOError(std::io::Error),
    InvalidDimensions,
    DDSError(image_dds::error::SurfaceError),
    TexError(DecodeErr),
}

/// Why a mip could not be decoded.
#[derive(Debug)]
pub enum DecodeErr {
    Decode(Format, &'static str),
    ImageDds(image_dds::error::SurfaceError),
    MipOutOfBounds { level: u32, start: usize, end: usize, len: usize },
    SliceOutOfBounds { slice: u32, depth: usize },
}

/// Why a texture file could not be read.
#[derive(Debug)]
pub enum ReadError {
    /// The file does not start with the magic of its kind.
    UnexpectedMagic { expected: u32, got: u32 },
    /// The file ends before its header does.
    Io(std::io::Error),
    /// The TEX header holds a value no TEX has.
    Tex(Error),
}

/// `TEX\0` read as a little-endian `u32`.
pub const TEX_MAGIC: u32 = 0x0058_4554;

/// `floor(log2(n))` for `n >= 1`, and 0 for 0.
pub open spec fn floor_log2(n: nat) -> nat
    decreases n,
{
    if n < 2 {
        0
    } else {
        1 + floor_log2(n / 2)
    }
}

/// How many mips a texture of these dimensions has: one past the base-2
/// logarithm of its largest dimension when the mipmaps flag is set (none for
/// a texture with no texels), else one.
pub open spec fn mip_count_for(width: u16, height: u16, depth: u8, flags: u8) -> u32 {
    let m = if width >= height && width >= depth {
        width as nat
    } else if height >= depth {
        height as nat
    } else {
        depth as nat
    };
    if flags & HAS_MIP_MAPS != HAS_MIP_MAPS {
        1
    } else if m == 0 {
        0
    } else {
        (floor_log2(m) + 1) as u32
    }
}

/// The header fields and data a TEX file holds.
#[verifier::ext_equal]
pub struct TexFields {
    pub width: u16,
    pub height: u16,
    pub depth: u8,
    pub format: Format,
    pub resource_type: ResourceType,
    pub flags: u8,
    pub data: Seq<u8>,
}

/// Why the bytes are no TEX file, in the order the checks run.
pub enum TexFailure {
    /// The bytes end before the magic does.
    ShortMagic,
    /// The magic is the other number.
    Magic(u32),
    /// The bytes end before the header does.
    ShortHeader,
    Format(u8),
    ResourceType(u8),
    Flags(u8),
}

/// What the bytes of a TEX file hold.
pub open spec fn tex_of(bytes: Seq<u8>) -> Result<TexFields, TexFailure> {
    if bytes.len() < 4 {
        Err(TexFailure::ShortMagic)
    } else if le_value(bytes.subrange(0, 4)) != TEX_MAGIC {
        Err(TexFailure::Magic(le_value(bytes.subrange(0, 4)) as u32))
    } else if bytes.len() < 12 {
        Err(TexFailure::ShortHeader)
    } else if format_of_code(bytes[9]) is None {
        Err(TexFailure::Format(bytes[9]))
    } else if resource_type_of_code(bytes[10]) is None {
        Err(TexFailure::ResourceType(bytes[10]))
    } else if bytes[11] >= 4 {
        Err(TexFailure::Flags(bytes[11]))
    } else {
        Ok(
            TexFields {
                width: le_value(bytes.subrange(4, 6)) as u16,
                height: le_value(bytes.subrange(6, 8)) as u16,
                depth: bytes[8],
                format: format_of_code(bytes[9]).unwrap(),
                resource_type: resource_type_of_code(bytes[10]).unwrap(),
                flags: bytes[11],
                data: bytes.subrange(12, bytes.len() as int),
            },
        )
    }
}

/// The bytes of a TEX file with these fields.
pub open spec fn tex_bytes(t: TexFields) -> Seq<u8> {
    seq![0x54u8, 0x45u8, 0x58u8, 0u8] + le_bytes(t.width as nat, 2) + le_bytes(t.height as nat, 2)
        + seq![t.depth, format_code(t.format), resource_type_code(t.resource_type), t.flags]
        + t.data
}

/// `m` halved `level` times, but at least 1: a dimension of mip `level`.
pub open spec fn mip_dim(m: nat, level: nat) -> nat {
    if m / pow2(level) == 0 {
        1
    } else {
        m / pow2(level)
    }
}

/// Bytes one z-slice of a `w` by `h` mip of format `f` takes.
pub open spec fn slice_bytes_of(f: Format, w: nat, h: nat) -> nat {
    match f {
        Format::Bgra8 => w * h * 4,
        _ => blocks_for(w) * blocks_for(h) * block_bytes(f),
    }
}

/// Bytes mip `level` takes, all its z-slices.
pub open spec fn mip_bytes_of(f: Format, w: nat, h: nat, d: nat, level: nat) -> nat {
    slice_bytes_of(f, mip_dim(w, level), mip_dim(h, level)) * mip_dim(d, level)
}

/// Bytes the mips after `level` up to `count` take: the mips a file stores
/// before mip `level`, smallest first.
pub open spec fn mips_before(f: Format, w: nat, h: nat, d: nat, level: nat, count: nat) -> nat
    decreases count - level,
{
    if level + 1 >= count {
        0
    } else {
        mip_bytes_of(f, w, h, d, level + 1) + mips_before(f, w, h, d, level + 1, count)
    }
}

/// League extended texture file (.tex)
#[derive(Debug)]
pub struct Tex {
    pub width: u16,
    pub height: u16,
    /// Number of z-slices; `1` for everything but volume textures.
    pub depth: u8,
    pub format: Format,
    pub resource_type: ResourceType,
    pub flags: TextureFlags,
    pub mip_count: u32,
    data: Vec<u8>,
}

/// The largest of three dimensions.
fn largest_dim(width: u16, height: u16, depth: u8) -> (r: u16)
    ensures
        r == (if width >= height && width >= depth {
            width as nat
        } else if height >= depth {
            height as nat
        } else {
            depth as nat
        }),
{
    if width >= height && width as u16 >= depth as u16 {
        width
    } else if height >= depth as u16 {
        height
    } else {
        depth as u16
    }
}

/// The mip count of a texture of these dimensions.
fn mip_count_of(width: u16, height: u16, depth: u8, flags: u8) -> (r: u32)
    ensures
        r == mip_count_for(width, height, depth, flags),
        r <= 16,
{
    if flags & HAS_MIP_MAPS != HAS_MIP_MAPS {
        return 1;
    }
    let m = largest_dim(width, height, depth);
    if m == 0 {
        return 0;
    }
    proof {
        lemma_floor_log2_u16(m as nat);
    }
    let mut rest = m;
    let mut k: u32 = 0;
    while rest > 1
        invariant
            rest >= 1,
            floor_log2(m as nat) == k + floor_log2(rest as nat),
            k + floor_log2(rest as nat) <= 15,
        decreases rest,
    {
        rest = rest / 2;
        k = k + 1;
    }
    k + 1
}

proof fn lemma_floor_log2_u16(m: nat)
    requires
        m < 0x1_0000,
    ensures
        floor_log2(m) <= 15,
    decreases m,
{
    vstd::arithmetic::power2::lemma2_to64();
    lemma_floor_log2_small(m, 16);
}

pub(crate) proof fn lemma_floor_log2_small(m: nat, k: nat)
    requires
        m < pow2(k),
        k >= 1,
    ensures
        floor_log2(m) < k,
    decreases m,
{
    vstd::arithmetic::power2::lemma_pow2_unfold(k);
    if m >= 2 {
        if k == 1 {
            assert(pow2(1) == 2) by {
                vstd::arithmetic::power2::lemma2_to64();
            }
        } else {
            lemma_floor_log2_small(m / 2, (k - 1) as nat);
        }
    }
}


/// What mip `level` of format `f` decodes to, as the layout and bytes of
/// the surface, or `None` when the outside decoder refuses it.
pub open spec fn decoded_mip(f: Format, w: nat, h: nat, mip: Seq<u8>) -> Option<
    (PixelFormat, Seq<u8>),
> {
    match f {
        Format::Bgra8 => Some((PixelFormat::Bgra8Unorm, mip)),
        Format::Bc5Snorm => Some((PixelFormat::Rg8Snorm, bc5_snorm_data(mip, w, h))),
        Format::Etc1 => Some((PixelFormat::Bgra8Unorm, etc1_bgra8(w, h, mip))),
        Format::Etc2Eac => Some((PixelFormat::Bgra8Unorm, etc2_rgba8_bgra8(w, h, mip))),
        _ => match image_dds_rgba8(format_code(f), w, h, mip) {
            Some(v) => Some((PixelFormat::Rgba8Unorm, v)),
            None => None,
        },
    }
}

/// A dimension of mip `level`, computed as the file layout does.
fn mip_dim_of(m: u64, level: u32) -> (r: u64)
    requires
        level < 64,
        m < 0x1_0000,
    ensures
        r == mip_dim(m as nat, level as nat),
        1 <= r <= 0xFFFF,
        m >= 1 ==> r <= m,
        m == 0 ==> r == 1,
{
    proof {
        vstd::bits::lemma_u64_shr_is_div(m, level as u64);
        vstd::arithmetic::power2::lemma_pow2_pos(level as nat);
        vstd::arithmetic::div_mod::lemma_div_is_ordered_by_denominator(m as int, 1, pow2(level as nat) as int);
    }
    let v = m >> (level as u64);
    if v == 0 {
        1
    } else {
        v
    }
}

/// Bytes one z-slice of a `w` by `h` mip of format `f` takes.
fn slice_bytes(f: Format, w: u64, h: u64) -> (r: u64)
    requires
        1 <= w <= 0xFFFF,
        1 <= h <= 0xFFFF,
    ensures
        r == slice_bytes_of(f, w as nat, h as nat),
        r < 0x4_0000_0000,
{
    match f {
        Format::Bgra8 => {
            assert(w * h * 4 < 0x4_0000_0000) by (nonlinear_arith)
                requires
                    1 <= w <= 0xFFFF,
                    1 <= h <= 0xFFFF,
            ;
            w * h * 4
        },
        _ => {
            let bw = (w + 3) / 4;
            let bh = (h + 3) / 4;
            let per = f.bytes_per_block() as u64;
            assert(bw * bh * per < 0x4_0000_0000) by (nonlinear_arith)
                requires
                    1 <= bw <= 0x4000,
                    1 <= bh <= 0x4000,
                    per <= 16,
            ;
            bw * bh * per
        },
    }
}

/// Bytes mip `level` takes, all its z-slices.
fn mip_bytes(f: Format, w: u64, h: u64, d: u64, level: u32) -> (r: u64)
    requires
        level < 64,
        w < 0x1_0000,
        h < 0x1_0000,
        d < 0x100,
    ensures
        r == mip_bytes_of(f, w as nat, h as nat, d as nat, level as nat),
        r < 0x400_0000_0000,
{
    let sw = mip_dim_of(w, level);
    let sh = mip_dim_of(h, level);
    let sd = mip_dim_of(d, level);
    proof {
        vstd::bits::lemma_u64_shr_is_div(d, level as u64);
        vstd::arithmetic::power2::lemma_pow2_pos(level as nat);
        vstd::arithmetic::div_mod::lemma_div_is_ordered_by_denominator(d as int, 1, pow2(level as nat) as int);
        assert(sd <= 0xFF);
    }
    let sb = slice_bytes(f, sw, sh);
    assert(sb * sd < 0x400_0000_0000) by (nonlinear_arith)
        requires
            sb < 0x4_0000_0000,
            1 <= sd <= 0xFF,
    ;
    sb * sd
}

impl Tex {
    pub closed spec fn spec_data(&self) -> Seq<u8> {
        self.data@
    }

    pub closed spec fn spec_mip_count(&self) -> u32 {
        self.mip_count
    }

    /// The header fields and data of the texture.
    pub closed spec fn spec_fields(&self) -> TexFields {
        TexFields {
            width: self.width,
            height: self.height,
            depth: self.depth,
            format: self.format,
            resource_type: self.resource_type,
            flags: self.flags.spec_bits(),
            data: self.spec_data(),
        }
    }

    /// Checks the texture flags for whether the texture contains mipmaps
    pub fn has_mipmaps(&self) -> (r: bool)
        ensures
            r == (self.spec_fields().flags & HAS_MIP_MAPS == HAS_MIP_MAPS),
    {
        self.flags.contains(HAS_MIP_MAPS)
    }

    /// The mip chain, smallest mip first.
    pub fn data(&self) -> (r: &[u8])
        ensures
            r@ == self.spec_data(),
    {
        self.data.as_slice()
    }

    /// Reads a TEX file: magic, header, then the mip chain to the end.
    pub fn from_bytes(bytes: &[u8]) -> (r: Result<Tex, ReadError>)
        ensures
            match tex_of(bytes@) {
                Ok(f) => r matches Ok(t) && t.spec_fields() == f && t.spec_mip_count() == mip_count_for(
                    f.width,
                    f.height,
                    f.depth,
                    f.flags,
                ),
                Err(TexFailure::ShortMagic) => r matches Err(ReadError::Io(_)),
                Err(TexFailure::Magic(got)) => r matches Err(
                    ReadError::UnexpectedMagic { expected: e, got: g },
                ) && e == TEX_MAGIC && g == got,
                Err(TexFailure::ShortHeader) => r matches Err(ReadError::Tex(Error::IOError(_))),
                Err(TexFailure::Format(v)) => r matches Err(
                    ReadError::Tex(Error::UnknownTextureFormat(x)),
                ) && x == v,
                Err(TexFailure::ResourceType(v)) => r matches Err(
                    ReadError::Tex(Error::UnknownResourceType(x)),
                ) && x == v,
                Err(TexFailure::Flags(v)) => r matches Err(
                    ReadError::Tex(Error::InvalidTextureFlags(x)),
                ) && x == v,
            },
    {
        if bytes.len() < 4 {
            return Err(ReadError::Io(unexpected_eof()));
        }
        let magic = read_u32_le(bytes, 0);
        if magic != TEX_MAGIC {
            return Err(ReadError::UnexpectedMagic { expected: TEX_MAGIC, got: magic });
        }
        if bytes.len() < 12 {
            return Err(ReadError::Tex(Error::IOError(unexpected_eof())));
        }
        let width = read_u16_le(bytes, 4);
        let height = read_u16_le(bytes, 6);
        let depth = bytes[8];
        let format = match Format::from_u8(bytes[9]) {
            Ok(f) => f,
            Err(e) => {
                return Err(ReadError::Tex(e));
            },
        };
        let resource_type = match ResourceType::from_u8(bytes[10]) {
            Ok(t) => t,
            Err(e) => {
                return Err(ReadError::Tex(e));
            },
        };
        let flag_bits = bytes[11];
        let flags = match TextureFlags::from_bits(flag_bits) {
            Some(f) => f,
            None => {
                return Err(ReadError::Tex(Error::InvalidTextureFlags(flag_bits)));
            },
        };
        let data = copy_range(bytes, 12, bytes.len());
        let mip_count = mip_count_of(width, height, depth, flag_bits);
        let t = Tex { width, height, depth, format, resource_type, flags, mip_count, data };
        proof {
            assert(t.spec_fields() =~= tex_of(bytes@)->Ok_0);
        }
        Ok(t)
    }

    /// The bytes of the TEX file: magic, header, then the mip chain.
    pub fn to_bytes(&self) -> (r: Vec<u8>)
        ensures
            r@ == tex_bytes(self.spec_fields()),
    {
        let mut out: Vec<u8> = Vec::new();
        out.push(0x54);
        out.push(0x45);
        out.push(0x58);
        out.push(0);
        push_le(&mut out, self.width as u64, 2);
        push_le(&mut out, self.height as u64, 2);
        out.push(self.depth);
        out.push(self.format.to_u8());
        out.push(self.resource_type.to_u8());
        out.push(self.flags.bits());
        crate::wad::decoder::append_bytes(&mut out, self.data.as_slice());
        proof {
            assert(out@ =~= tex_bytes(self.spec_fields()));
        }
        out
    }
}

/// The mip level a decode of `level` reads: `level`, or the last one.
pub open spec fn level_read(count: u32, level: u32) -> nat {
    if level < count - 1 {
        level as nat
    } else {
        (count - 1) as nat
    }
}

/// How many z-slices the base mip has: the depth, or 1 when it is 0.
pub open spec fn base_depth(t: TexFields) -> nat {
    if t.depth == 0 {
        1
    } else {
        t.depth as nat
    }
}

/// Where z-slice `slice` of mip `lv` starts in the mip chain.
pub open spec fn slice_start(t: TexFields, count: u32, lv: nat, slice: nat) -> nat {
    mips_before(t.format, t.width as nat, t.height as nat, base_depth(t), lv, count as nat) + slice
        * slice_bytes_of(t.format, mip_dim(t.width as nat, lv), mip_dim(t.height as nat, lv))
}

/// Whether the decoders' buffers for any mip of `t` fit the address space.
pub open spec fn dims_fit(t: TexFields) -> bool {
    (if t.width == 0 {
        1
    } else {
        t.width as nat
    }) * (if t.height == 0 {
        1
    } else {
        t.height as nat
    }) * 16 <= usize::MAX
}

impl Tex {
    /// Try to decode a single mipmap, where 0 is full resolution and
    /// `mip_count - 1` is the smallest mip.
    ///
    /// For volume textures this decodes z-slice 0.
    pub fn decode_mipmap(&self, level: u32) -> (r: Result<TexSurface, DecodeErr>)
        requires
            1 <= self.spec_mip_count() <= 32,
            dims_fit(self.spec_fields()),
            slice_start(
                self.spec_fields(),
                self.spec_mip_count(),
                level_read(self.spec_mip_count(), level),
                1,
            ) <= usize::MAX,
        ensures
            self.decodes_to(level, 0, r),
    {
        self.decode_mipmap_slice(level, 0)
    }

    /// Whether `r` is what decoding z-slice `slice` of mip `level` gives:
    /// the slice out of bounds of the mip's depth, the slice's bytes out of
    /// bounds of the data, or the surface its bytes decode to.
    pub open spec fn decodes_to(&self, level: u32, slice: u32, r: Result<TexSurface, DecodeErr>) -> bool {
        let t = self.spec_fields();
        let lv = level_read(self.spec_mip_count(), level);
        let w = mip_dim(t.width as nat, lv);
        let h = mip_dim(t.height as nat, lv);
        let d = mip_dim(base_depth(t), lv);
        let sb = slice_bytes_of(t.format, w, h);
        let start = slice_start(t, self.spec_mip_count(), lv, slice as nat);
        &&& slice >= d ==> (r matches Err(DecodeErr::SliceOutOfBounds { slice: s, depth: dp })
            && s == slice && dp == d)
        &&& slice < d && start + sb > t.data.len() ==> (r matches Err(
            DecodeErr::MipOutOfBounds { level: l, start: a, end: b, len },
        ) && l == lv && a == start && b == start + sb && len == t.data.len())
        &&& slice < d && start + sb <= t.data.len() ==> match decoded_mip(
            t.format,
            w,
            h,
            t.data.subrange(start as int, (start + sb) as int),
        ) {
            Some((pf, v)) => r matches Ok(s) && s.width == w && s.height == h && s.format
                == pf && s.data@ == v,
            None => r matches Err(DecodeErr::ImageDds(_)),
        }
    }

    /// Try to decode a single z-slice of a mipmap. For 2D textures the only
    /// valid slice is 0.
    ///
    /// - Mip dimensions halve per level with a floor of 1
    /// - Mip slices are stored sequentially, matching the D3D volume texture layout
    /// - Mip levels are stored in reverse order, smallest to largest
    #[verifier::spinoff_prover]
    #[verifier::rlimit(40)]
    pub fn decode_mipmap_slice(&self, level: u32, slice: u32) -> (r: Result<TexSurface, DecodeErr>)
        requires
            1 <= self.spec_mip_count() <= 32,
            dims_fit(self.spec_fields()),
            slice < mip_dim(base_depth(self.spec_fields()), level_read(self.spec_mip_count(), level))
                ==> slice_start(
                self.spec_fields(),
                self.spec_mip_count(),
                level_read(self.spec_mip_count(), level),
                slice as nat + 1,
            ) <= usize::MAX,
        ensures
            self.decodes_to(level, slice, r),
    {
        let count = self.mip_count;
        let lv: u32 = if level < count - 1 {
            level
        } else {
            count - 1
        };
        let base_d: u64 = if self.depth == 0 {
            1
        } else {
            self.depth as u64
        };
        let width = self.width as u64;
        let height = self.height as u64;
        let w = mip_dim_of(width, lv);
        let h = mip_dim_of(height, lv);
        let d = mip_dim_of(base_d, lv);
        if slice as u64 >= d {
            return Err(DecodeErr::SliceOutOfBounds { slice, depth: d as usize });
        }
        let sb = slice_bytes(self.format, w, h);
        let mut off: u64 = 0;
        let mut l: u32 = lv + 1;
        while l < count
            invariant
                lv < count <= 32,
                lv + 1 <= l <= count,
                width < 0x1_0000,
                height < 0x1_0000,
                base_d < 0x100,
                off <= (l - lv - 1) * 0x400_0000_0000,
                off + mips_before(
                    self.format,
                    width as nat,
                    height as nat,
                    base_d as nat,
                    (l - 1) as nat,
                    count as nat,
                ) == mips_before(
                    self.format,
                    width as nat,
                    height as nat,
                    base_d as nat,
                    lv as nat,
                    count as nat,
                ),
            decreases count - l,
        {
            let b = mip_bytes(self.format, width, height, base_d, l);
            off = off + b;
            l = l + 1;
        }
        proof {
            assert(off <= 31 * 0x400_0000_0000) by (nonlinear_arith)
                requires
                    off <= (l - lv - 1) * 0x400_0000_0000,
                    l <= count <= 32,
                    lv + 1 <= l,
            ;
            assert((slice as u64) * sb + sb <= 0x100 * 0x4_0000_0000) by (nonlinear_arith)
                requires
                    (slice as u64) < d <= 0xFF,
                    sb < 0x4_0000_0000,
            ;
            assert(mips_before(self.format, width as nat, height as nat, base_d as nat, (l - 1) as nat, count as nat) == 0);
            assert(self.spec_fields().width == self.width);
            assert(base_depth(self.spec_fields()) == base_d);
            assert((slice as nat + 1) * sb == slice * sb + sb) by (nonlinear_arith);
        }
        let start = off + (slice as u64) * sb;
        let end = start + sb;
        if end > self.data.len() as u64 {
            return Err(
                DecodeErr::MipOutOfBounds {
                    level: lv,
                    start: start as usize,
                    end: end as usize,
                    len: self.data.len(),
                },
            );
        }
        let mip = &self.data.as_slice()[start as usize..end as usize];
        proof {
            assert(w * h <= (if self.width == 0 { 1 } else { self.width as nat }) * (if self.height == 0 { 1 } else { self.height as nat })) by (nonlinear_arith)
                requires
                    1 <= w <= (if self.width == 0 { 1 } else { self.width as nat }),
                    1 <= h <= (if self.height == 0 { 1 } else { self.height as nat }),
            ;
        }
        proof {
            assert(blocks_of(w as nat) <= w && blocks_of(h as nat) <= h);
            assert(blocks_of(w as nat) * blocks_of(h as nat) * 16 <= w * h * 16) by (nonlinear_arith)
                requires
                    blocks_of(w as nat) <= w,
                    blocks_of(h as nat) <= h,
            ;
        }
        let (format, data) = match self.format {
            Format::Bgra8 => (PixelFormat::Bgra8Unorm, copy_range(mip, 0, mip.len())),
            Format::Bc5Snorm => (
                PixelFormat::Rg8Snorm,
                decode_bc5_snorm(mip, w as usize, h as usize),
            ),
            Format::Etc1 => match decode_etc1(mip, w as usize, h as usize) {
                Ok(v) => (PixelFormat::Bgra8Unorm, v),
                Err(reason) => {
                    return Err(DecodeErr::Decode(self.format, reason));
                },
            },
            Format::Etc2Eac => match decode_etc2_rgba8(mip, w as usize, h as usize) {
                Ok(v) => (PixelFormat::Bgra8Unorm, v),
                Err(reason) => {
                    return Err(DecodeErr::Decode(self.format, reason));
                },
            },
            _ => match decode_image_dds(self.format, w as u32, h as u32, mip) {
                Ok(v) => (PixelFormat::Rgba8Unorm, v),
                Err(e) => {
                    return Err(DecodeErr::ImageDds(e));
                },
            },
        };
        proof {
            let t = self.spec_fields();
            assert(mip@ == t.data.subrange(start as int, end as int));
            assert(start == slice_start(t, count, lv as nat, slice as nat));
            assert(decoded_mip(t.format, w as nat, h as nat, mip@) == Some((format, data@)));
        }
        Ok(TexSurface { width: w as u32, height: h as u32, format, data })
    }
}

/// A mip chain stored smallest first: the encoded mips, given largest
/// first, laid end to end from the last to the first.
pub open spec fn smallest_first(mips: Seq<Seq<u8>>) -> Seq<u8>
    decreases mips.len(),
{
    if mips.len() == 0 {
        Seq::empty()
    } else {
        mips.last() + smallest_first(mips.drop_last())
    }
}

/// Putting a larger mip in front of a chain stores it last.
proof fn lemma_smallest_first_prepend(x: Seq<u8>, t: Seq<Seq<u8>>)
    ensures
        smallest_first(seq![x] + t) == smallest_first(t) + x,
    decreases t.len(),
{
    if t.len() == 0 {
        assert(seq![x] + t =~= seq![x]);
        assert(seq![x].drop_last() =~= Seq::<Seq<u8>>::empty());
        assert(seq![x].last() == x);
        assert(smallest_first(Seq::<Seq<u8>>::empty()) == Seq::<u8>::empty());
        assert(smallest_first(seq![x]) == x + Seq::<u8>::empty());
        assert(x + Seq::<u8>::empty() =~= x);
        assert(smallest_first(t) + x =~= x);
    } else {
        let s = seq![x] + t;
        assert(s.drop_last() =~= seq![x] + t.drop_last());
        assert(s.last() == t.last());
        lemma_smallest_first_prepend(x, t.drop_last());
        assert(smallest_first(s) =~= smallest_first(t) + x);
    }
}

/// The mips stored before mip `level` of a chain of `count`, split off its
/// last (smallest) mip: those of the chain of `count - 1`, then the last.
proof fn lemma_mips_before_last(f: Format, w: nat, h: nat, d: nat, level: nat, count: nat)
    requires
        level + 1 < count,
    ensures
        mips_before(f, w, h, d, level, count) == mips_before(f, w, h, d, level, (count - 1) as nat)
            + mip_bytes_of(f, w, h, d, (count - 1) as nat),
    decreases count - level,
{
    if level + 2 < count {
        lemma_mips_before_last(f, w, h, d, level + 1, count);
        assert(mips_before(f, w, h, d, level, (count - 1) as nat) == mip_bytes_of(f, w, h, d, level + 1)
            + mips_before(f, w, h, d, level + 1, (count - 1) as nat));
    } else {
        assert(mips_before(f, w, h, d, level + 1, count) == 0);
        assert(mips_before(f, w, h, d, level, (count - 1) as nat) == 0);
    }
}

/// In a chain stored smallest first, mip `level` lies right after the mips
/// smaller than it, and the chain is as long as all its mips.
proof fn lemma_chain_layout(f: Format, w: nat, h: nat, d: nat, mips: Seq<Seq<u8>>, level: nat)
    requires
        level < mips.len(),
        forall|l: int| 0 <= l < mips.len() ==> #[trigger] mips[l].len() == mip_bytes_of(f, w, h, d, l as nat),
    ensures
        smallest_first(mips).len() == mips_before(f, w, h, d, 0, mips.len()) + mip_bytes_of(f, w, h, d, 0),
        smallest_first(mips).subrange(
            mips_before(f, w, h, d, level, mips.len()) as int,
            (mips_before(f, w, h, d, level, mips.len()) + mip_bytes_of(f, w, h, d, level)) as int,
        ) == mips[level as int],
        mips_before(f, w, h, d, level, mips.len()) + mip_bytes_of(f, w, h, d, level) <= smallest_first(
            mips,
        ).len(),
    decreases mips.len(),
{
    let n = mips.len();
    let rest = mips.drop_last();
    let last = mips.last();
    assert(smallest_first(mips) == last + smallest_first(rest));
    assert(last.len() == mip_bytes_of(f, w, h, d, (n - 1) as nat));
    if n == 1 {
        assert(rest =~= Seq::<Seq<u8>>::empty());
        assert(smallest_first(rest) == Seq::<u8>::empty());
        assert(last + Seq::<u8>::empty() =~= last);
        assert(mips_before(f, w, h, d, 0, 1) == 0);
        assert(smallest_first(mips).subrange(0, last.len() as int) =~= last);
    } else {
        assert forall|l: int| 0 <= l < rest.len() implies #[trigger] rest[l].len() == mip_bytes_of(
            f,
            w,
            h,
            d,
            l as nat,
        ) by {
            assert(rest[l] == mips[l]);
        }
        lemma_chain_layout(f, w, h, d, rest, 0);
        lemma_mips_before_last(f, w, h, d, 0, n);
        if level == n - 1 {
            assert(mips_before(f, w, h, d, level, n) == 0);
            assert(smallest_first(mips).subrange(0, last.len() as int) =~= last);
        } else {
            lemma_chain_layout(f, w, h, d, rest, level);
            lemma_mips_before_last(f, w, h, d, level, n);
            let a = mips_before(f, w, h, d, level, (n - 1) as nat);
            let b = a + mip_bytes_of(f, w, h, d, level);
            assert(rest[level as int] == mips[level as int]);
            assert(smallest_first(mips).subrange((last.len() + a) as int, (last.len() + b) as int) =~= smallest_first(
                rest,
            ).subrange(a as int, b as int));
        }
    }
}

/// One over a power of two is at most 1, so a single z-slice stays single.
proof fn lemma_one_slice(level: nat)
    ensures
        mip_dim(1, level) == 1,
{
    vstd::arithmetic::power2::lemma_pow2_pos(level);
    if pow2(level) > 1 {
        assert(1nat / pow2(level) == 0) by (nonlinear_arith)
            requires
                pow2(level) > 1,
        ;
    } else {
        assert(1nat / pow2(level) == 1) by (nonlinear_arith)
            requires
                pow2(level) == 1,
        ;
    }
}

/// A TEX stores its mips smallest first: the smallest mip opens the data,
/// each mip lies right after the next smaller one, and each z-slice right
/// after the one before.
pub proof fn lemma_mips_smallest_first(t: TexFields, count: u32)
    requires
        count >= 1,
    ensures
        slice_start(t, count, (count - 1) as nat, 0) == 0,
        forall|lv: nat|
            lv + 1 < count ==> #[trigger] slice_start(t, count, lv, 0) == slice_start(
                t,
                count,
                (lv + 1) as nat,
                0,
            ) + mip_bytes_of(t.format, t.width as nat, t.height as nat, base_depth(t), (lv + 1) as nat),
        forall|lv: nat, s: nat|
            #[trigger] slice_start(t, count, lv, s) == slice_start(t, count, lv, 0) + s * slice_bytes_of(
                t.format,
                mip_dim(t.width as nat, lv),
                mip_dim(t.height as nat, lv),
            ),
{
}

/// Decoding mip `level` of a texture whose data is a chain of mips stored
/// smallest first, as [`Tex::from_encoded_mips`] stores them, decodes that
/// very mip: the one `level` names among the mips given largest first.
pub proof fn lemma_decode_reads_its_mip(
    tex: Tex,
    mips: Seq<Seq<u8>>,
    level: u32,
    r: Result<TexSurface, DecodeErr>,
)
    requires
        tex.spec_fields().data == smallest_first(mips),
        mips.len() == tex.spec_mip_count(),
        tex.spec_mip_count() >= 1,
        tex.spec_fields().depth <= 1,
        forall|l: int|
            0 <= l < mips.len() ==> #[trigger] mips[l].len() == slice_bytes_of(
                tex.spec_fields().format,
                mip_dim(tex.spec_fields().width as nat, l as nat),
                mip_dim(tex.spec_fields().height as nat, l as nat),
            ),
        tex.decodes_to(level, 0, r),
    ensures
        ({
            let t = tex.spec_fields();
            let lv = level_read(tex.spec_mip_count(), level);
            let w = mip_dim(t.width as nat, lv);
            let h = mip_dim(t.height as nat, lv);
            match decoded_mip(t.format, w, h, mips[lv as int]) {
                Some((pf, v)) => r matches Ok(s) && s.width == w && s.height == h && s.format == pf
                    && s.data@ == v,
                None => r matches Err(DecodeErr::ImageDds(_)),
            }
        }),
{
    let t = tex.spec_fields();
    let count = tex.spec_mip_count();
    let lv = level_read(count, level);
    assert(base_depth(t) == 1);
    assert forall|l: int| 0 <= l < mips.len() implies #[trigger] mips[l].len() == mip_bytes_of(
        t.format,
        t.width as nat,
        t.height as nat,
        1,
        l as nat,
    ) by {
        lemma_one_slice(l as nat);
    }
    lemma_one_slice(lv);
    lemma_chain_layout(t.format, t.width as nat, t.height as nat, 1, mips, lv);
    let w = mip_dim(t.width as nat, lv);
    let h = mip_dim(t.height as nat, lv);
    assert(mip_bytes_of(t.format, t.width as nat, t.height as nat, 1, lv) == slice_bytes_of(t.format, w, h));
    assert(slice_start(t, count, lv, 0) == mips_before(t.format, t.width as nat, t.height as nat, 1, lv, count as nat));
}

impl Tex {
    /// A texture of mips encoded elsewhere, given largest first: one mip, or
    /// with mipmaps the whole chain, stored smallest first as a TEX stores
    /// it. The header keeps the low 16 bits of each dimension.
    pub fn from_encoded_mips(
        width: u32,
        height: u32,
        format: Format,
        mips: Vec<Vec<u8>>,
        with_mipmaps: bool,
    ) -> (r: Tex)
        requires
            1 <= mips@.len() <= u32::MAX,
            !with_mipmaps ==> mips@.len() == 1,
        ensures
            r.spec_fields() == (TexFields {
                width: width as u16,
                height: height as u16,
                depth: 1,
                format,
                resource_type: ResourceType::Texture,
                flags: if with_mipmaps {
                    HAS_MIP_MAPS
                } else {
                    0
                },
                data: smallest_first(mips@.map_values(|m: Vec<u8>| m@)),
            }),
            r.spec_mip_count() == mips@.len(),
    {
        let ghost views = mips@.map_values(|m: Vec<u8>| m@);
        let mut data: Vec<u8> = Vec::new();
        let n = mips.len();
        let mut k: usize = 0;
        proof {
            assert(views.subrange(n as int, n as int) =~= Seq::<Seq<u8>>::empty());
        }
        while k < n
            invariant
                n == mips@.len(),
                views == mips@.map_values(|m: Vec<u8>| m@),
                k <= n,
                data@ == smallest_first(views.subrange((n - k) as int, n as int)),
            decreases n - k,
        {
            let ghost before = data@;
            let level = n - 1 - k;
            crate::wad::decoder::append_bytes(&mut data, mips[level].as_slice());
            proof {
                let upper = views.subrange((n - k) as int, n as int);
                assert(views.subrange(level as int, n as int) =~= seq![views[level as int]] + upper);
                lemma_smallest_first_prepend(views[level as int], upper);
                assert(mips@[level as int]@ == views[level as int]);
            }
            k = k + 1;
        }
        proof {
            assert(views.subrange(0, n as int) =~= views);
        }
        let flags = if with_mipmaps {
            TextureFlags::from_bits(HAS_MIP_MAPS).unwrap()
        } else {
            TextureFlags::empty()
        };
        Tex {
            width: #[verifier::truncate] (width as u16),
            height: #[verifier::truncate] (height as u16),
            depth: 1,
            format,
            resource_type: ResourceType::Texture,
            flags,
            mip_count: n as u32,
            data,
        }
    }
}

impl Tex {
    /// Encode a new Tex from a `width` by `height` RGBA8 image with encoding
    /// options: one mip, or, with mipmaps, the whole chain down to 1x1.
    ///
    /// The header keeps the low 16 bits of each dimension.
    pub fn encode_rgba_image(width: u32, height: u32, rgba: &[u8], options: EncodeOptions) -> (r: Result<
        Self,
        EncodeError,
    >)
        requires
            rgba@.len() == width * height * 4,
            encodable(width, height),
            !options.generate_mipmaps && (options.format is Bc1 || options.format is Bc3) ==> width
                > 0,
        ensures
            r matches Ok(t) ==> t.spec_fields().width == width as u16 && t.spec_fields().height
                == height as u16 && t.spec_fields().depth == 1 && t.spec_fields().format
                == format_of_encode(options.format) && t.spec_fields().resource_type
                == ResourceType::Texture,
            !options.generate_mipmaps ==> match encode_result(
                options.format,
                width as nat,
                height as nat,
                rgba@,
            ) {
                Ok(v) => r matches Ok(t) && t.spec_fields().data == v && t.spec_fields().flags
                    == 0 && t.spec_mip_count() == 1,
                Err(e) => r == Err::<Tex, EncodeError>(e),
            },
            options.generate_mipmaps && (width == 0 || height == 0) ==> r matches Err(
                EncodeError::ZeroSizedImage,
            ),
            options.generate_mipmaps && width > 0 && height > 0 && options.format is Bc7 ==> r
                == Err::<Tex, EncodeError>(EncodeError::UnsupportedFormat(Format::Bc7)),
            options.generate_mipmaps && width > 0 && height > 0 && !(options.format is Bc7) ==> (r matches Ok(t)
                && t.spec_fields().flags == HAS_MIP_MAPS && t.spec_mip_count() == floor_log2(
                if width >= height {
                    width as nat
                } else {
                    height as nat
                },
            ) + 1 && mip_chain_of(
                options.format,
                rgba@,
                width as nat,
                height as nat,
                t.spec_mip_count() as nat,
                t.spec_fields().data,
            )),
    {
        let (data, mip_count, flags) = if options.generate_mipmaps {
            match encode_rgba_with_mipmaps(width, height, rgba, &options) {
                Ok((data, count)) => (data, count, TextureFlags::from_bits(HAS_MIP_MAPS).unwrap()),
                Err(e) => {
                    return Err(e);
                },
            }
        } else {
            match encode_rgba(width, height, rgba, &options) {
                Ok(data) => (data, 1, TextureFlags::empty()),
                Err(e) => {
                    return Err(e);
                },
            }
        };
        Ok(
            Tex {
                width: #[verifier::truncate] (width as u16),
                height: #[verifier::truncate] (height as u16),
                depth: 1,
                format: options.format.format(),
                resource_type: ResourceType::Texture,
                flags,
                mip_count,
                data,
            },
        )
    }
}

/// Writing a texture and reading the bytes back gives its fields back.
pub proof fn lemma_tex_write_read(t: TexFields)
    requires
        t.flags < 4,
    ensures
        tex_of(tex_bytes(t)) == Ok::<TexFields, TexFailure>(t),
{
    let b = tex_bytes(t);
    crate::bytes::lemma_byte_ranges();
    lemma_le_bytes_len(t.width as nat, 2);
    lemma_le_bytes_len(t.height as nat, 2);
    assert(b.subrange(0, 4) =~= le_bytes(TEX_MAGIC as nat, 4)) by {
        reveal_with_fuel(le_bytes, 5);
    }
    crate::bytes::lemma_le_value_of_bytes(TEX_MAGIC as nat, 4);
    assert(b.subrange(4, 6) =~= le_bytes(t.width as nat, 2));
    crate::bytes::lemma_le_value_of_bytes(t.width as nat, 2);
    assert(b.subrange(6, 8) =~= le_bytes(t.height as nat, 2));
    crate::bytes::lemma_le_value_of_bytes(t.height as nat, 2);
    super::format::lemma_format_code_round_trip(t.format);
    assert(resource_type_of_code(resource_type_code(t.resource_type)) == Some(t.resource_type));
    assert(b.subrange(12, b.len() as int) =~= t.data);
    assert(tex_of(b)->Ok_0 =~= t);
}

/// Reading a TEX file and writing what was read gives the same bytes, for
/// every format number but the two older ones (`3`, `11`), which are written
/// back as the current number of their format.
pub proof fn lemma_tex_read_write(b: Seq<u8>)
    requires
        tex_of(b) is Ok,
        b[9] != 3 && b[9] != 11,
    ensures
        tex_bytes(tex_of(b)->Ok_0) == b,
{
    let t = tex_of(b)->Ok_0;
    crate::bytes::lemma_byte_ranges();
    crate::bytes::lemma_le_bytes_of_value(b.subrange(0, 4));
    crate::bytes::lemma_le_bytes_of_value(b.subrange(4, 6));
    crate::bytes::lemma_le_bytes_of_value(b.subrange(6, 8));
    assert(le_bytes(TEX_MAGIC as nat, 4) =~= seq![0x54u8, 0x45u8, 0x58u8, 0u8]) by {
        reveal_with_fuel(le_bytes, 5);
    }
    assert(format_code(t.format) == b[9]);
    assert(resource_type_code(t.resource_type) == b[10]);
    assert(tex_bytes(t) =~= b);
}

} // verus!
