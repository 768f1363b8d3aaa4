//! The texel codecs of other crates that TEX decoding and encoding call.
//!
//! Every function here is trusted: its contract names what the outside crate
//! returns rather than proving it.

use vstd::prelude::*;

use super::encode::MipmapFilter;
use super::format::{format_code, Format};

verus! {

#[verifier::external_type_specification]
#[verifier::external_body]
pub struct ExSurfaceError(image_dds::error::SurfaceError);

/// The RGBA8 texels image_dds decodes a `width` by `height` surface of the
/// format numbered `format` to, or `None` when it refuses the surface.
pub uninterp spec fn image_dds_rgba8(format: u8, width: nat, height: nat, data: Seq<u8>) -> Option<
    Seq<u8>,
>;

/// image_dds's `Surface::decode_layers_mipmaps_rgba8` over one layer and one
/// mipmap of a BC1, BC3 or BC7 (sRGB) surface.
///
/// Claims: the texels are the named decoding, and it fails exactly when the
/// name has none.
#[verifier::external_body]
pub(crate) fn decode_image_dds(format: Format, width: u32, height: u32, data: &[u8]) -> (r: Result<
    Vec<u8>,
    image_dds::error::SurfaceError,
>)
    requires
        format is Bc1 || format is Bc3 || format is Bc7,
    ensures
        r is Ok <==> image_dds_rgba8(format_code(format), width as nat, height as nat, data@) is Some,
        r matches Ok(v) ==> image_dds_rgba8(format_code(format), width as nat, height as nat, data@)
            == Some(v@),
{
    let image_format = match format {
        Format::Bc1 => image_dds::ImageFormat::BC1RgbaUnorm,
        Format::Bc3 => image_dds::ImageFormat::BC3RgbaUnorm,
        _ => image_dds::ImageFormat::BC7RgbaUnormSrgb,
    };
    let surface = image_dds::Surface {
        width,
        height,
        depth: 1,
        layers: 1,
        mipmaps: 1,
        image_format,
        data,
    };
    surface.decode_layers_mipmaps_rgba8(0..1, 0..1).map(|decoded| decoded.data)
}

/// The BGRA8 texels texture2ddecoder decodes a `width` by `height` ETC1
/// surface to, each pixel's `u32` laid out little-endian.
pub uninterp spec fn etc1_bgra8(width: nat, height: nat, data: Seq<u8>) -> Seq<u8>;

/// The BGRA8 texels texture2ddecoder decodes a `width` by `height` ETC2 RGBA8
/// surface to, each pixel's `u32` laid out little-endian.
pub uninterp spec fn etc2_rgba8_bgra8(width: nat, height: nat, data: Seq<u8>) -> Seq<u8>;

/// `ceil(n / 4)`.
pub open spec fn blocks_of(n: nat) -> nat {
    (n + 3) / 4
}

/// texture2ddecoder's `decode_etc1` into a buffer of `width * height`
/// pixels.
///
/// Claims: it fails exactly when the data holds fewer than 8 bytes per 4x4
/// block (as its source checks first), and otherwise yields the named texels.
#[verifier::external_body]
pub(crate) fn decode_etc1(data: &[u8], width: usize, height: usize) -> (r: Result<Vec<u8>, &'static str>)
    requires
        width * height * 4 <= usize::MAX,
        blocks_of(width as nat) * blocks_of(height as nat) * 16 <= usize::MAX,
    ensures
        r is Ok <==> data@.len() >= blocks_of(width as nat) * blocks_of(height as nat) * 8,
        r matches Ok(v) ==> v@ == etc1_bgra8(width as nat, height as nat, data@),
{
    let mut pixels = vec![0u32; width * height];
    texture2ddecoder::decode_etc1(data, width, height, &mut pixels).map(
        |_| pixels.into_iter().flat_map(u32::to_le_bytes).collect(),
    )
}

/// texture2ddecoder's `decode_etc2_rgba8` into a buffer of `width * height`
/// pixels.
///
/// Claims: it fails exactly when the data holds fewer than 16 bytes per 4x4
/// block (as its source checks first), and otherwise yields the named texels.
#[verifier::external_body]
pub(crate) fn decode_etc2_rgba8(data: &[u8], width: usize, height: usize) -> (r: Result<
    Vec<u8>,
    &'static str,
>)
    requires
        width * height * 4 <= usize::MAX,
        blocks_of(width as nat) * blocks_of(height as nat) * 16 <= usize::MAX,
    ensures
        r is Ok <==> data@.len() >= blocks_of(width as nat) * blocks_of(height as nat) * 16,
        r matches Ok(v) ==> v@ == etc2_rgba8_bgra8(width as nat, height as nat, data@),
{
    let mut pixels = vec![0u32; width * height];
    texture2ddecoder::decode_etc2_rgba8(data, width, height, &mut pixels).map(
        |_| pixels.into_iter().flat_map(u32::to_le_bytes).collect(),
    )
}

/// The BC1 (or, when `bc3`, BC3) blocks texpresso's cluster fit encodes a
/// `width` by `height` RGBA8 image to.
pub uninterp spec fn texpresso_encoding(
    bc3: bool,
    width: nat,
    height: nat,
    rgba: Seq<u8>,
    weigh_colour_by_alpha: bool,
) -> Seq<u8>;

/// texpresso's `Format::compress` with the cluster fit, into a buffer of
/// `Format::compressed_size` bytes.
///
/// Claims: the blocks are the named encoding, 8 (BC1) or 16 (BC3) bytes for
/// each 4x4 block of the image, as `compressed_size` computes. A width or
/// height of 0 is left out: texpresso splits its output into rows of zero
/// blocks there and panics.
#[verifier::external_body]
pub(crate) fn texpresso_compress(
    format: Format,
    width: usize,
    height: usize,
    rgba: &[u8],
    weigh_colour_by_alpha: bool,
) -> (r: Vec<u8>)
    requires
        format is Bc1 || format is Bc3,
        width > 0,
        height > 0,
        rgba@.len() == width * height * 4,
        width + 3 <= usize::MAX,
        height + 3 <= usize::MAX,
        blocks_of(width as nat) * blocks_of(height as nat) * 16 <= usize::MAX,
    ensures
        r@ == texpresso_encoding(format is Bc3, width as nat, height as nat, rgba@, weigh_colour_by_alpha),
        r@.len() == blocks_of(width as nat) * blocks_of(height as nat) * (if format is Bc3 {
            16nat
        } else {
            8nat
        }),
{
    let format = match format {
        Format::Bc3 => texpresso::Format::Bc3,
        _ => texpresso::Format::Bc1,
    };
    let mut out = vec![0u8; format.compressed_size(width, height)];
    let params = texpresso::Params {
        algorithm: texpresso::Algorithm::ClusterFit,
        weigh_colour_by_alpha,
        ..Default::default()
    };
    format.compress(rgba, width, height, params, &mut out);
    out
}

/// image's `imageops::resize` of an `RgbaImage`, with the filter type of
/// the same name.
///
/// Claims: `new_width * new_height` pixels of 4 bytes, as the image buffer
/// it returns holds. What the pixels hold is left unsaid: the filters
/// compute in floating point, and std does not pin down the results of some
/// of the functions they call (`sin` among them), so the result is not a
/// function of the arguments.
#[verifier::external_body]
pub(crate) fn resize_rgba(
    rgba: Vec<u8>,
    width: u32,
    height: u32,
    new_width: u32,
    new_height: u32,
    filter: MipmapFilter,
) -> (r: Vec<u8>)
    requires
        rgba@.len() == width * height * 4,
        new_width * new_height * 4 <= usize::MAX,
    ensures
        r@.len() == new_width * new_height * 4,
{
    let filter = match filter {
        MipmapFilter::Nearest => image::imageops::FilterType::Nearest,
        MipmapFilter::Triangle => image::imageops::FilterType::Triangle,
        MipmapFilter::CatmullRom => image::imageops::FilterType::CatmullRom,
        MipmapFilter::Lanczos3 => image::imageops::FilterType::Lanczos3,
    };
    let image = image::RgbaImage::from_raw(width, height, rgba).unwrap();
    image::imageops::resize(&image, new_width, new_height, filter).into_raw()
}

} // verus!
