//! League extended textures (.tex): the header, the mip chain layout, and
//! decoding and encoding of their pixel formats.

pub mod bc5_snorm;
pub mod codec;
pub mod encode;
pub mod format;
pub mod surface;
pub mod tex;

pub use bc5_snorm::{decode_bc4_snorm_block, decode_bc5_snorm};

pub use encode::{
    bc7_surface, encodable_dimensions, encode_bgra8, mip_levels, encode_rgba, encode_rgba_with_mipmaps, pad_to_block_grid, EncodeError,
    EncodeFormat, EncodeOptions, MipmapFilter, Pixels,
};
pub use format::{Format, ResourceType, TextureAddress, TextureFilter, TextureFlags};
pub use surface::{PixelFormat, TexSurface};
pub use tex::{DecodeErr, Error, ReadError, Tex};
