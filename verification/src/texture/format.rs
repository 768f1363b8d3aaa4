//! The numbers a TEX header stores: pixel format, resource type, flags.

use vstd::prelude::*;

verus! {

/// Pixel format of a TEX file, as the number its header stores.
#[derive(Clone, Copy, Debug, Hash, PartialEq, Eq, Structural)]
pub enum Format {
    Etc1,
    Etc2Eac,
    Bc1,
    Bc3,
    Bc7,
    Bc5Snorm,
    /// Uncompressed BGRA8
    Bgra8,
}

/// The number a header stores for `f`.
pub open spec fn format_code(f: Format) -> u8 {
    match f {
        Format::Etc1 => 1,
        Format::Etc2Eac => 2,
        Format::Bc1 => 10,
        Format::Bc3 => 12,
        Format::Bc7 => 13,
        Format::Bc5Snorm => 14,
        Format::Bgra8 => 20,
    }
}

/// The format a header number names: `3` and `11` are older numbers for
/// `Etc2Eac` and `Bc1`.
pub open spec fn format_of_code(v: u8) -> Option<Format> {
    if v == 1 {
        Some(Format::Etc1)
    } else if v == 2 || v == 3 {
        Some(Format::Etc2Eac)
    } else if v == 10 || v == 11 {
        Some(Format::Bc1)
    } else if v == 12 {
        Some(Format::Bc3)
    } else if v == 13 {
        Some(Format::Bc7)
    } else if v == 14 {
        Some(Format::Bc5Snorm)
    } else if v == 20 {
        Some(Format::Bgra8)
    } else {
        None
    }
}

/// Width and height in pixels of one block of `f`.
pub open spec fn block_dims(f: Format) -> (nat, nat) {
    match f {
        Format::Bgra8 => (1, 1),
        _ => (4, 4),
    }
}

/// Bytes one block of `f` takes.
pub open spec fn block_bytes(f: Format) -> nat {
    match f {
        Format::Etc1 => 8,
        Format::Bc1 => 8,
        Format::Bgra8 => 4,
        _ => 16,
    }
}

impl Format {
    /// The format `format` names, or `None` for a number no format has.
    pub fn try_from_u8(format: u8) -> (r: Option<Self>)
        ensures
            r == format_of_code(format),
    {
        match format {
            1 => Some(Format::Etc1),
            2 | 3 => Some(Format::Etc2Eac),
            10 | 11 => Some(Format::Bc1),
            12 => Some(Format::Bc3),
            13 => Some(Format::Bc7),
            14 => Some(Format::Bc5Snorm),
            20 => Some(Format::Bgra8),
            _ => None,
        }
    }

    /// The format `format` names.
    pub fn from_u8(format: u8) -> (r: Result<Self, super::tex::Error>)
        ensures
            format_of_code(format) matches Some(f) ==> r == Ok::<Format, super::tex::Error>(f),
            format_of_code(format) is None ==> (r matches Err(
                super::tex::Error::UnknownTextureFormat(v),
            ) && v == format),
    {
        match Self::try_from_u8(format) {
            Some(f) => Ok(f),
            None => Err(super::tex::Error::UnknownTextureFormat(format)),
        }
    }

    /// The number a header stores for the format.
    pub fn to_u8(self) -> (r: u8)
        ensures
            r == format_code(self),
    {
        match self {
            Format::Etc1 => 1,
            Format::Etc2Eac => 2,
            Format::Bc1 => 10,
            Format::Bc3 => 12,
            Format::Bc7 => 13,
            Format::Bc5Snorm => 14,
            Format::Bgra8 => 20,
        }
    }

    /// Get the block size of the format
    pub fn block_size(&self) -> (r: (usize, usize))
        ensures
            r.0 == block_dims(*self).0,
            r.1 == block_dims(*self).1,
    {
        match self {
            Format::Bgra8 => (1, 1),
            _ => (4, 4),
        }
    }

    /// Get the bytes per block of the format
    pub fn bytes_per_block(&self) -> (r: usize)
        ensures
            r == block_bytes(*self),
    {
        match self {
            Format::Etc1 => 8,
            Format::Etc2Eac => 16,
            Format::Bc1 => 8,
            Format::Bc3 => 16,
            Format::Bc7 => 16,
            Format::Bc5Snorm => 16,
            Format::Bgra8 => 4,
        }
    }
}

/// Every format reads back from the number it is stored as.
pub proof fn lemma_format_code_round_trip(f: Format)
    ensures
        format_of_code(format_code(f)) == Some(f),
{
}

/// GPU resource type, as stored in the TEX header.
/// Only regular and volume textures can be found in live builds of the game.
#[derive(Clone, Copy, Debug, Hash, PartialEq, Eq, Structural)]
pub enum ResourceType {
    /// A regular 2D texture (`depth == 1`)
    Texture,
    /// Six 2D faces (This resource type is assumed by reverse engineering)
    Cubemap,
    /// A bare 2D image (This resource type is assumed by reverse engineering)
    Surface,
    /// A 3D texture: `depth` z-slices per mip level, stored sequentially
    VolumeTexture,
}

/// The resource type a header number names.
pub open spec fn resource_type_of_code(v: u8) -> Option<ResourceType> {
    if v == 0 {
        Some(ResourceType::Texture)
    } else if v == 1 {
        Some(ResourceType::Cubemap)
    } else if v == 2 {
        Some(ResourceType::Surface)
    } else if v == 3 {
        Some(ResourceType::VolumeTexture)
    } else {
        None
    }
}

/// The number a header stores for `t`.
pub open spec fn resource_type_code(t: ResourceType) -> u8 {
    match t {
        ResourceType::Texture => 0,
        ResourceType::Cubemap => 1,
        ResourceType::Surface => 2,
        ResourceType::VolumeTexture => 3,
    }
}

impl ResourceType {
    pub fn from_u8(resource_type: u8) -> (r: Result<Self, super::tex::Error>)
        ensures
            resource_type_of_code(resource_type) matches Some(t) ==> r == Ok::<
                ResourceType,
                super::tex::Error,
            >(t),
            resource_type_of_code(resource_type) is None ==> (r matches Err(
                super::tex::Error::UnknownResourceType(v),
            ) && v == resource_type),
    {
        match resource_type {
            0 => Ok(ResourceType::Texture),
            1 => Ok(ResourceType::Cubemap),
            2 => Ok(ResourceType::Surface),
            3 => Ok(ResourceType::VolumeTexture),
            _ => Err(super::tex::Error::UnknownResourceType(resource_type)),
        }
    }

    pub fn to_u8(&self) -> (r: u8)
        ensures
            r == resource_type_code(*self),
    {
        match self {
            ResourceType::Texture => 0,
            ResourceType::Cubemap => 1,
            ResourceType::Surface => 2,
            ResourceType::VolumeTexture => 3,
        }
    }
}

/// The flags byte of a TEX header. Only its two low bits mean anything.
#[derive(Debug, Clone, Copy, PartialEq, Eq, Structural)]
pub struct TextureFlags {
    bits: u8,
}

/// The mipmaps flag.
pub const HAS_MIP_MAPS: u8 = 1;

/// The other known flag, whose meaning is not known.
pub const MYSTERY: u8 = 2;

impl TextureFlags {
    pub closed spec fn spec_bits(self) -> u8 {
        self.bits
    }

    /// No flag set.
    pub fn empty() -> (r: Self)
        ensures
            r.spec_bits() == 0,
    {
        TextureFlags { bits: 0 }
    }

    /// The flags `bits` sets, or `None` when it sets a bit no flag has.
    pub fn from_bits(bits: u8) -> (r: Option<Self>)
        ensures
            bits < 4 ==> (r matches Some(f) && f.spec_bits() == bits),
            bits >= 4 ==> r is None,
    {
        if bits < 4 {
            Some(TextureFlags { bits })
        } else {
            None
        }
    }

    /// The byte the flags are stored as.
    pub fn bits(&self) -> (r: u8)
        ensures
            r == self.spec_bits(),
    {
        self.bits
    }

    /// Whether every bit of `flag` is set.
    pub fn contains(&self, flag: u8) -> (r: bool)
        ensures
            r == (self.spec_bits() & flag == flag),
    {
        self.bits & flag == flag
    }
}

#[derive(Clone, Copy, Debug, Hash, PartialEq, Eq, Structural)]
pub enum TextureFilter {
    NoFilter,
    Nearest,
    Linear,
}

impl TextureFilter {
    /// The filter `v` names.
    pub fn try_from_u8(v: u8) -> (r: Option<Self>)
        ensures
            v == 0 ==> r == Some(TextureFilter::NoFilter),
            v == 1 ==> r == Some(TextureFilter::Nearest),
            v == 2 ==> r == Some(TextureFilter::Linear),
            v > 2 ==> r is None,
    {
        match v {
            0 => Some(TextureFilter::NoFilter),
            1 => Some(TextureFilter::Nearest),
            2 => Some(TextureFilter::Linear),
            _ => None,
        }
    }

    /// The number the filter is stored as.
    pub fn to_u8(self) -> (r: u8)
        ensures
            self is NoFilter ==> r == 0,
            self is Nearest ==> r == 1,
            self is Linear ==> r == 2,
    {
        match self {
            TextureFilter::NoFilter => 0,
            TextureFilter::Nearest => 1,
            TextureFilter::Linear => 2,
        }
    }
}

#[derive(Clone, Copy, Debug, Hash, PartialEq, Eq, Structural)]
pub enum TextureAddress {
    Wrap,
    Clamp,
}

impl TextureAddress {
    /// The addressing mode `v` names.
    pub fn try_from_u8(v: u8) -> (r: Option<Self>)
        ensures
            v == 0 ==> r == Some(TextureAddress::Wrap),
            v == 1 ==> r == Some(TextureAddress::Clamp),
            v > 1 ==> r is None,
    {
        match v {
            0 => Some(TextureAddress::Wrap),
            1 => Some(TextureAddress::Clamp),
            _ => None,
        }
    }

    /// The number the addressing mode is stored as.
    pub fn to_u8(self) -> (r: u8)
        ensures
            self is Wrap ==> r == 0,
            self is Clamp ==> r == 1,
    {
        match self {
            TextureAddress::Wrap => 0,
            TextureAddress::Clamp => 1,
        }
    }
}

} // verus!
