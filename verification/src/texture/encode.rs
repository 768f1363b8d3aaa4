//! Encoding RGBA8 images to TEX pixel formats, with or without mipmaps.

use vstd::prelude::*;

use super::codec::{
    blocks_of, resize_rgba, texpresso_compress, texpresso_encoding,
};
use super::format::Format;
use super::surface::{swap_red_blue, swap_red_blue_pixels};
use super::tex::{floor_log2, mip_dim};
use vstd::arithmetic::power2::pow2;

verus! {

/// Texture format to encode to, along with any format-specific options
#[derive(Debug, Clone, Copy, PartialEq, Eq, Hash, Structural)]
pub enum EncodeFormat {
    Bc1 {
        /// Weigh colour by alpha during the cluster fit. Off by default;
        /// enabling it can improve perceived quality for textures rendered
        /// with alpha blending, at the cost of color accuracy in transparent
        /// regions.
        weigh_colour_by_alpha: bool,
    },
    Bc3 {
        /// Weigh colour by alpha during the cluster fit - see `Bc1`
        weigh_colour_by_alpha: bool,
    },
    Bc7,
    Bgra8,
}

/// The TEX format an encode format writes.
pub open spec fn format_of_encode(format: EncodeFormat) -> Format {
    match format {
        EncodeFormat::Bc1 { .. } => Format::Bc1,
        EncodeFormat::Bc3 { .. } => Format::Bc3,
        EncodeFormat::Bc7 => Format::Bc7,
        EncodeFormat::Bgra8 => Format::Bgra8,
    }
}

impl From<EncodeFormat> for Format {
    fn from(format: EncodeFormat) -> (r: Format) {
        match format {
            EncodeFormat::Bc1 { .. } => Format::Bc1,
            EncodeFormat::Bc3 { .. } => Format::Bc3,
            EncodeFormat::Bc7 => Format::Bc7,
            EncodeFormat::Bgra8 => Format::Bgra8,
        }
    }
}

impl vstd::std_specs::convert::FromSpecImpl<EncodeFormat> for Format {
    open spec fn obeys_from_spec() -> bool {
        true
    }

    open spec fn from_spec(v: EncodeFormat) -> Format {
        format_of_encode(v)
    }
}

impl EncodeFormat {
    /// The encode counterpart of a raw TEX format, with default options.
    pub fn try_from_format(format: Format) -> (r: Result<Self, EncodeError>)
        ensures
            match format {
                Format::Bc1 => r == Ok::<EncodeFormat, EncodeError>(
                    EncodeFormat::Bc1 { weigh_colour_by_alpha: false },
                ),
                Format::Bc3 => r == Ok::<EncodeFormat, EncodeError>(
                    EncodeFormat::Bc3 { weigh_colour_by_alpha: false },
                ),
                Format::Bc7 => r == Ok::<EncodeFormat, EncodeError>(EncodeFormat::Bc7),
                Format::Bgra8 => r == Ok::<EncodeFormat, EncodeError>(EncodeFormat::Bgra8),
                _ => r == Err::<EncodeFormat, EncodeError>(EncodeError::UnsupportedFormat(format)),
            },
    {
        match format {
            Format::Bc1 => Ok(EncodeFormat::Bc1 { weigh_colour_by_alpha: false }),
            Format::Bc3 => Ok(EncodeFormat::Bc3 { weigh_colour_by_alpha: false }),
            Format::Bc7 => Ok(EncodeFormat::Bc7),
            Format::Bgra8 => Ok(EncodeFormat::Bgra8),
            _ => Err(EncodeError::UnsupportedFormat(format)),
        }
    }

    /// The TEX format this encodes to.
    pub fn format(self) -> (r: Format)
        ensures
            r == format_of_encode(self),
    {
        Format::from(self)
    }
}

/// Filter types for mipmap generation
#[derive(Debug, Clone, Copy, PartialEq, Eq, Structural)]
pub enum MipmapFilter {
    /// Nearest neighbor (fastest, lowest quality)
    Nearest,
    /// Triangle/Bilinear (good balance of speed and quality)
    Triangle,
    /// Cubic/Bicubic (slower, higher quality)
    CatmullRom,
    /// Lanczos3 (slowest, highest quality)
    Lanczos3,
}

impl Default for MipmapFilter {
    fn default() -> (r: Self)
        ensures
            r == MipmapFilter::Triangle,
    {
        MipmapFilter::Triangle
    }
}

/// Options for encoding textures
#[derive(Debug, Clone, Copy, PartialEq, Eq, Structural)]
pub struct EncodeOptions {
    /// Texture format to encode to, with any format-specific options
    pub format: EncodeFormat,
    /// Whether to generate mipmaps
    pub generate_mipmaps: bool,
    /// Filter type to use for mipmap generation
    pub mipmap_filter: MipmapFilter,
}

impl EncodeOptions {
    /// Create new options with the specified format and no mipmaps
    pub fn new(format: EncodeFormat) -> (r: Self)
        ensures
            r == (EncodeOptions {
                format,
                generate_mipmaps: false,
                mipmap_filter: MipmapFilter::Triangle,
            }),
    {
        EncodeOptions { format, generate_mipmaps: false, mipmap_filter: MipmapFilter::default() }
    }

    /// Enable mipmap generation with default filter. Uses Triangle by default.
    pub fn with_mipmaps(self) -> (r: Self)
        ensures
            r == (EncodeOptions { generate_mipmaps: true, ..self }),
    {
        EncodeOptions { generate_mipmaps: true, ..self }
    }

    /// Set the mipmap filter type
    pub fn with_mipmap_filter(self, filter: MipmapFilter) -> (r: Self)
        ensures
            r == (EncodeOptions { mipmap_filter: filter, ..self }),
    {
        EncodeOptions { mipmap_filter: filter, ..self }
    }
}

impl Default for EncodeOptions {
    fn default() -> (r: Self)
        ensures
            r == (EncodeOptions {
                format: EncodeFormat::Bc3 { weigh_colour_by_alpha: false },
                generate_mipmaps: false,
                mipmap_filter: MipmapFilter::Triangle,
            }),
    {
        EncodeOptions::new(EncodeFormat::Bc3 { weigh_colour_by_alpha: false })
    }
}

/// Why an image could not be encoded.
#[derive(Debug, PartialEq, Eq, Structural)]
pub enum EncodeError {
    UnsupportedFormat(Format),
    InvalidPixelData,
    ZeroSizedImage,
}

/// RGBA bytes, borrowed from the caller or owned.
#[derive(Debug)]
pub enum Pixels<'a> {
    Borrowed(&'a [u8]),
    Owned(Vec<u8>),
}

impl<'a> Pixels<'a> {
    /// The bytes, wherever they live.
    pub open spec fn spec_bytes(&self) -> Seq<u8> {
        match self {
            Pixels::Borrowed(s) => s@,
            Pixels::Owned(v) => v@,
        }
    }

    /// The bytes, wherever they live.
    pub fn as_slice(&self) -> (r: &[u8])
        ensures
            r@ == self.spec_bytes(),
    {
        match self {
            Pixels::Borrowed(s) => s,
            Pixels::Owned(v) => v.as_slice(),
        }
    }
}

/// `n` rounded up to a multiple of 4.
pub open spec fn next_multiple_of_4(n: nat) -> nat {
    (n + 3) / 4 * 4
}

/// The index into a `w` by `h` image of the texel that pads position
/// `(x, y)`: the nearest edge texel.
pub open spec fn pad_source(w: nat, h: nat, x: nat, y: nat, c: nat) -> int {
    let sx = if x < w {
        x
    } else {
        (w - 1) as nat
    };
    let sy = if y < h {
        y
    } else {
        (h - 1) as nat
    };
    ((sy * w + sx) * 4 + c) as int
}

/// The `w` by `h` RGBA image padded out to the 4x4 block grid by replicating
/// edge texels.
pub open spec fn pad_pixels(w: nat, h: nat, rgba: Seq<u8>) -> Seq<u8> {
    let pw = next_multiple_of_4(w);
    Seq::new(
        pw * next_multiple_of_4(h) * 4,
        |i: int|
            rgba[pad_source(w, h, ((i / 4) % pw as int) as nat, ((i / 4) / pw as int) as nat, (i % 4) as nat)],
    )
}

/// Whether a `w` by `h` image is passed through unpadded: block-aligned or
/// empty.
pub open spec fn pad_passes_through(w: nat, h: nat) -> bool {
    (next_multiple_of_4(w) == w && next_multiple_of_4(h) == h) || w == 0 || h == 0
}

/// Pad RGBA data out to the 4x4 block grid by replicating edge texels.
///
/// Block-aligned and empty images are passed through without copying.
pub fn pad_to_block_grid<'a>(width: u32, height: u32, rgba: &'a [u8]) -> (r: (u32, u32, Pixels<'a>))
    requires
        width + 3 <= u32::MAX,
        height + 3 <= u32::MAX,
        !pad_passes_through(width as nat, height as nat) ==> (rgba@.len() >= width * height * 4
            && next_multiple_of_4(width as nat) * next_multiple_of_4(height as nat) * 4
            <= usize::MAX),
    ensures
        pad_passes_through(width as nat, height as nat) ==> (r.0 == width && r.1 == height && (
        r.2 matches Pixels::Borrowed(s) && s@ == rgba@)),
        !pad_passes_through(width as nat, height as nat) ==> (r.0 == next_multiple_of_4(width as nat)
            && r.1 == next_multiple_of_4(height as nat) && (r.2 matches Pixels::Owned(v) && v@
            == pad_pixels(width as nat, height as nat, rgba@))),
{
    let padded_w = (width + 3) / 4 * 4;
    let padded_h = (height + 3) / 4 * 4;
    if (padded_w == width && padded_h == height) || width == 0 || height == 0 {
        return (width, height, Pixels::Borrowed(rgba));
    }
    let w = width as usize;
    let h = height as usize;
    let pw = padded_w as usize;
    let ph = padded_h as usize;
    proof {
        assert(w * h * 4 <= rgba@.len());
        assert(pw * ph * 4 <= usize::MAX);
    }
    let len = rgba.len();
    let mut padded: Vec<u8> = Vec::new();
    let mut y: usize = 0;
    while y < ph
        invariant
            y <= ph,
            1 <= w <= pw,
            1 <= h <= ph,
            w == width,
            h == height,
            pw == next_multiple_of_4(width as nat),
            ph == next_multiple_of_4(height as nat),
            pw * ph * 4 <= usize::MAX,
            w * h * 4 <= rgba@.len(),
            len == rgba@.len(),
            padded@.len() == y * pw * 4,
            forall|xx: int, yy: int, c: int|
                0 <= xx < pw && 0 <= yy < y && 0 <= c < 4 ==> padded@[(yy * pw + xx) * 4 + c]
                    == rgba[#[trigger] pad_source(w as nat, h as nat, xx as nat, yy as nat, c as nat)],
        decreases ph - y,
    {
        let sy = if y < h {
            y
        } else {
            h - 1
        };
        let mut x: usize = 0;
        while x < pw
            invariant
                x <= pw,
                y < ph,
                1 <= w <= pw,
                1 <= h <= ph,
                sy == (if y < h {
                    y
                } else {
                    (h - 1) as usize
                }),
                pw * ph * 4 <= usize::MAX,
                w * h * 4 <= rgba@.len(),
                len == rgba@.len(),
                sy < h,
                padded@.len() == (y * pw + x) * 4,
                forall|xx: int, yy: int, c: int|
                    0 <= xx < pw && 0 <= yy < y && 0 <= c < 4 ==> padded@[(yy * pw + xx) * 4 + c]
                        == rgba[#[trigger] pad_source(w as nat, h as nat, xx as nat, yy as nat, c as nat)],
                forall|xx: int, c: int|
                    0 <= xx < x && 0 <= c < 4 ==> padded@[(y * pw + xx) * 4 + c]
                        == rgba[#[trigger] pad_source(w as nat, h as nat, xx as nat, y as nat, c as nat)],
            decreases pw - x,
        {
            let sx = if x < w {
                x
            } else {
                w - 1
            };
            proof {
                assert((sy * w + sx) * 4 + 4 <= w * h * 4) by (nonlinear_arith)
                    requires
                        sx < w,
                        sy < h,
                ;
                assert((y * pw + x) * 4 + 4 <= pw * ph * 4) by (nonlinear_arith)
                    requires
                        x < pw,
                        y < ph,
                ;
            }
            let src = (sy * w + sx) * 4;
            let ghost before = padded@;
            padded.push(rgba[src]);
            padded.push(rgba[src + 1]);
            padded.push(rgba[src + 2]);
            padded.push(rgba[src + 3]);
            proof {
                assert forall|xx: int, yy: int, c: int|
                    0 <= xx < pw && 0 <= yy < y && 0 <= c < 4 implies padded@[(yy * pw + xx) * 4 + c]
                    == rgba[#[trigger] pad_source(w as nat, h as nat, xx as nat, yy as nat, c as nat)] by {
                    assert((yy * pw + xx) * 4 + c < (y * pw + x) * 4) by (nonlinear_arith)
                        requires
                            0 <= xx < pw,
                            0 <= yy < y,
                            0 <= c < 4,
                            0 <= x,
                    ;
                    assert(padded@[(yy * pw + xx) * 4 + c] == before[(yy * pw + xx) * 4 + c]);
                }
                assert forall|xx: int, c: int|
                    0 <= xx < x + 1 && 0 <= c < 4 implies padded@[(y * pw + xx) * 4 + c]
                    == rgba[#[trigger] pad_source(w as nat, h as nat, xx as nat, y as nat, c as nat)] by {
                    if xx < x {
                        assert(padded@[(y * pw + xx) * 4 + c] == before[(y * pw + xx) * 4 + c]);
                    } else {
                        assert(pad_source(w as nat, h as nat, xx as nat, y as nat, c as nat) == src
                            + c);
                    }
                }
            }
            x = x + 1;
        }
        proof {
            assert(y * pw + pw == (y + 1) * pw) by (nonlinear_arith);
            assert forall|xx: int, yy: int, c: int|
                0 <= xx < pw && 0 <= yy < y + 1 && 0 <= c < 4 implies padded@[(yy * pw + xx) * 4 + c]
                == rgba[#[trigger] pad_source(w as nat, h as nat, xx as nat, yy as nat, c as nat)] by {
                if yy == y {
                }
            }
        }
        y = y + 1;
    }
    proof {
        let want = pad_pixels(w as nat, h as nat, rgba@);
        assert(y * pw * 4 == pw * ph * 4) by (nonlinear_arith)
            requires
                y == ph,
        ;
        assert forall|i: int| 0 <= i < padded@.len() implies padded@[i] == want[i] by {
            let p = i / 4;
            let pwi = pw as int;
            let xx = p % pwi;
            let yy = p / pwi;
            let c = i % 4;
            vstd::arithmetic::div_mod::lemma_fundamental_div_mod(p, pwi);
            assert(0 <= yy < ph) by (nonlinear_arith)
                requires
                    p == pwi * yy + xx,
                    0 <= xx < pwi,
                    0 <= p,
                    4 * p + c == i,
                    0 <= c < 4,
                    i < pwi * ph * 4,
            ;
            assert((yy * pwi + xx) * 4 + c == i) by (nonlinear_arith)
                requires
                    p == pwi * yy + xx,
                    4 * p + c == i,
            ;
        }
        assert(padded@ =~= want);
    }
    (padded_w, padded_h, Pixels::Owned(padded))
}

/// What encoding a `width` by `height` RGBA8 image to `format` gives.
///
/// This library carries no BC7 block encoder (see [`encode_rgba`]), so the
/// `Bc7` arm is empty: no encoding is ever produced for it.
pub open spec fn encoding_of(format: EncodeFormat, width: nat, height: nat, rgba: Seq<u8>) -> Seq<u8> {
    match format {
        EncodeFormat::Bc1 { weigh_colour_by_alpha } => texpresso_blocks(
            false,
            width,
            height,
            rgba,
            weigh_colour_by_alpha,
        ),
        EncodeFormat::Bc3 { weigh_colour_by_alpha } => texpresso_blocks(
            true,
            width,
            height,
            rgba,
            weigh_colour_by_alpha,
        ),
        EncodeFormat::Bc7 => Seq::empty(),
        EncodeFormat::Bgra8 => swap_red_blue(rgba),
    }
}

/// The image a BC7 encoder is handed: the `width` by `height` RGBA8 image
/// padded out to the 4x4 block grid, with the padded dimensions.
pub open spec fn bc7_surface_of(width: nat, height: nat, rgba: Seq<u8>) -> (nat, nat, Seq<u8>) {
    if pad_passes_through(width, height) {
        (width, height, rgba)
    } else {
        (next_multiple_of_4(width), next_multiple_of_4(height), pad_pixels(width, height, rgba))
    }
}

/// Whether the encoders' buffers for a `width` by `height` image fit the
/// address space and the encoders' own arithmetic.
pub open spec fn encodable(width: u32, height: u32) -> bool {
    &&& (width as nat + 4) * (height as nat + 4) * 16 <= usize::MAX
    &&& (width as nat + 4) * (height as nat + 4) + 15 <= u32::MAX
}

/// Whether an image of these dimensions can be encoded: its padded block
/// grid, with room for the mip chain, fits in memory and in `u32`.
pub fn encodable_dimensions(width: u32, height: u32) -> (r: bool)
    ensures
        r == encodable(width, height),
{
    let w: u128 = width as u128 + 4;
    let h: u128 = height as u128 + 4;
    assert(w * h <= 0x1_0000_0006_0000_0009) by (nonlinear_arith)
        requires
            w <= 0x1_0000_0003,
            h <= 0x1_0000_0003,
    ;
    let area: u128 = w * h;
    area * 16 <= usize::MAX as u128 && area + 15 <= u32::MAX as u128
}

/// Encode RGBA8 data to BGRA8: the red and blue byte of each pixel swapped.
pub fn encode_bgra8(rgba_data: &[u8]) -> (r: Result<Vec<u8>, EncodeError>)
    ensures
        r matches Ok(v) && v@ == swap_red_blue(rgba_data@),
{
    Ok(swap_red_blue_pixels(rgba_data))
}

/// The BC1 (or, when `bc3`, BC3) blocks of a `width` by `height` RGBA8
/// image: none for an image with no pixels, texpresso's cluster fit
/// otherwise.
pub open spec fn texpresso_blocks(
    bc3: bool,
    width: nat,
    height: nat,
    rgba: Seq<u8>,
    weigh_colour_by_alpha: bool,
) -> Seq<u8> {
    if width == 0 || height == 0 {
        Seq::empty()
    } else {
        texpresso_encoding(bc3, width, height, rgba, weigh_colour_by_alpha)
    }
}

/// Encode RGBA8 data to BC1/BC3 via texpresso's cluster fit.
fn encode_texpresso(
    format: Format,
    width: u32,
    height: u32,
    rgba_data: &[u8],
    weigh_colour_by_alpha: bool,
) -> (r: Result<Vec<u8>, EncodeError>)
    requires
        format is Bc1 || format is Bc3,
        encodable(width, height),
        width > 0,
    ensures
        rgba_data@.len() != width * height * 4 ==> r == Err::<Vec<u8>, EncodeError>(
            EncodeError::InvalidPixelData,
        ),
        rgba_data@.len() == width * height * 4 ==> (r matches Ok(v) && v@ == texpresso_blocks(
            format is Bc3,
            width as nat,
            height as nat,
            rgba_data@,
            weigh_colour_by_alpha,
        )),
{
    let w = width as usize;
    let h = height as usize;
    proof {
        assert(w + 3 <= usize::MAX && h + 3 <= usize::MAX) by (nonlinear_arith)
            requires
                (w + 4) * (h + 4) * 16 <= usize::MAX,
        ;
        assert(w * h * 4 <= usize::MAX && blocks_of(w as nat) * blocks_of(h as nat) * 16
            <= usize::MAX) by (nonlinear_arith)
            requires
                (w + 4) * (h + 4) * 16 <= usize::MAX,
                blocks_of(w as nat) <= w + 4,
                blocks_of(h as nat) <= h + 4,
        ;
    }
    if rgba_data.len() != w * h * 4 {
        return Err(EncodeError::InvalidPixelData);
    }
    if h == 0 {
        return Ok(Vec::new());
    }
    Ok(texpresso_compress(format, w, h, rgba_data, weigh_colour_by_alpha))
}

/// The surface a BC7 encoder works on: the image checked against its
/// dimensions, then padded out to the 4x4 block grid by replicating edge
/// texels.
pub fn bc7_surface(width: u32, height: u32, rgba_data: &[u8]) -> (r: Result<(u32, u32, Vec<u8>), EncodeError>)
    requires
        encodable(width, height),
    ensures
        rgba_data@.len() != width * height * 4 ==> r == Err::<(u32, u32, Vec<u8>), EncodeError>(
            EncodeError::InvalidPixelData,
        ),
        rgba_data@.len() == width * height * 4 ==> (r matches Ok((w, h, v)) && (w as nat, h as nat, v@)
            == bc7_surface_of(width as nat, height as nat, rgba_data@) && v@.len() == w * h * 4),
{
    proof {
        assert((width as nat) * (height as nat) * 4 <= usize::MAX) by (nonlinear_arith)
            requires
                (width as nat + 4) * (height as nat + 4) * 16 <= usize::MAX,
        ;
        assert(4 * (width as nat + 4) <= u32::MAX && 4 * (height as nat + 4) <= u32::MAX) by (nonlinear_arith)
            requires
                (width as nat + 4) * (height as nat + 4) + 15 <= u32::MAX,
        ;
    }
    let expected_len = width as usize * height as usize * 4;
    if rgba_data.len() != expected_len {
        return Err(EncodeError::InvalidPixelData);
    }
    proof {
        let pw = next_multiple_of_4(width as nat);
        let ph = next_multiple_of_4(height as nat);
        assert(pw <= width + 3 && ph <= height + 3);
        assert(pw * ph * 4 <= usize::MAX && pw * ph + 15 <= u32::MAX) by (nonlinear_arith)
            requires
                pw <= width + 3,
                ph <= height + 3,
                (width as nat + 4) * (height as nat + 4) * 16 <= usize::MAX,
                (width as nat + 4) * (height as nat + 4) + 15 <= u32::MAX,
        ;
        assert(width * height + 15 <= u32::MAX) by (nonlinear_arith)
            requires
                (width as nat + 4) * (height as nat + 4) + 15 <= u32::MAX,
        ;
    }
    let (w, h, rgba) = pad_to_block_grid(width, height, rgba_data);
    let data = match rgba {
        Pixels::Borrowed(b) => crate::wad::decoder::copy_range(b, 0, b.len()),
        Pixels::Owned(v) => v,
    };
    proof {
        if !pad_passes_through(width as nat, height as nat) {
            let pw = next_multiple_of_4(width as nat);
            assert(pad_pixels(width as nat, height as nat, rgba_data@).len() == pw
                * next_multiple_of_4(height as nat) * 4);
        }
    }
    Ok((w, h, data))
}

/// Encode RGBA8 data to BC7.
///
/// This library is built without a BC7 block encoder, so BC7 is refused as
/// an unsupported format whatever the data; [`bc7_surface`] prepares the
/// image for an encoder held elsewhere.
fn encode_bc7(width: u32, height: u32, rgba_data: &[u8]) -> (r: Result<Vec<u8>, EncodeError>)
    ensures
        r == Err::<Vec<u8>, EncodeError>(EncodeError::UnsupportedFormat(Format::Bc7)),
{
    Err(EncodeError::UnsupportedFormat(Format::Bc7))
}

/// What encoding a `width` by `height` RGBA8 image to `format` gives: BGRA8
/// whatever the data; BC7 refused; BC1 and BC3 only for data of the image's
/// size.
pub open spec fn encode_result(format: EncodeFormat, width: nat, height: nat, rgba: Seq<u8>) -> Result<
    Seq<u8>,
    EncodeError,
> {
    if format is Bgra8 {
        Ok(swap_red_blue(rgba))
    } else if format is Bc7 {
        Err(EncodeError::UnsupportedFormat(Format::Bc7))
    } else if rgba.len() == width * height * 4 {
        Ok(encoding_of(format, width, height, rgba))
    } else {
        Err(EncodeError::InvalidPixelData)
    }
}

/// Encode an RGBA8 image into the format specified by `options`
///
/// Dimensions don't need to be multiples of 4: BC1 and BC3 mask out the
/// texels past the image; they take an image at least one texel wide, as
/// texpresso splits its output into rows of zero bytes otherwise. BC7 is
/// refused: this library carries no BC7 block encoder.
pub fn encode_rgba(width: u32, height: u32, rgba_data: &[u8], options: &EncodeOptions) -> (r: Result<
    Vec<u8>,
    EncodeError,
>)
    requires
        encodable(width, height),
        options.format is Bc1 || options.format is Bc3 ==> width > 0,
    ensures
        match encode_result(options.format, width as nat, height as nat, rgba_data@) {
            Ok(v) => r matches Ok(x) && x@ == v,
            Err(e) => r == Err::<Vec<u8>, EncodeError>(e),
        },
{
    match options.format {
        EncodeFormat::Bc1 { weigh_colour_by_alpha } => encode_texpresso(
            Format::Bc1,
            width,
            height,
            rgba_data,
            weigh_colour_by_alpha,
        ),
        EncodeFormat::Bc3 { weigh_colour_by_alpha } => encode_texpresso(
            Format::Bc3,
            width,
            height,
            rgba_data,
            weigh_colour_by_alpha,
        ),
        EncodeFormat::Bc7 => encode_bc7(width, height, rgba_data),
        EncodeFormat::Bgra8 => encode_bgra8(rgba_data),
    }
}

/// Whether `levels` can be the `count` mips of a `width` by `height` image
/// `rgba`, largest first: the image itself first, then each level the
/// pixels of its size. What the resampling puts in those pixels is left
/// open: image's filters compute in floating point, whose results std does
/// not pin down.
pub open spec fn mip_levels_of(
    levels: Seq<Seq<u8>>,
    rgba: Seq<u8>,
    width: nat,
    height: nat,
    count: nat,
) -> bool {
    &&& levels.len() == count
    &&& count > 0 ==> levels[0] == rgba
    &&& forall|l: int|
        0 <= l < count ==> (#[trigger] levels[l]).len() == mip_dim(width, l as nat) * mip_dim(
            height,
            l as nat,
        ) * 4
}

/// The encoded mips `count - 1` down to `count - k` of `levels`, smallest
/// first: the first `k` mips of the chain a TEX file stores.
pub open spec fn mip_chain_encoding(
    format: EncodeFormat,
    levels: Seq<Seq<u8>>,
    width: nat,
    height: nat,
    count: nat,
    k: nat,
) -> Seq<u8>
    decreases k,
{
    if k == 0 {
        Seq::empty()
    } else {
        let level = (count - k) as nat;
        mip_chain_encoding(format, levels, width, height, count, (k - 1) as nat) + encoding_of(
            format,
            mip_dim(width, level),
            mip_dim(height, level),
            levels[level as int],
        )
    }
}

/// Whether `data` is a mip chain of the `width` by `height` image `rgba`
/// in `format`: the encodings of some `count` mips of the image, as
/// [`mip_levels_of`] allows them, stored smallest first.
pub open spec fn mip_chain_of(
    format: EncodeFormat,
    rgba: Seq<u8>,
    width: nat,
    height: nat,
    count: nat,
    data: Seq<u8>,
) -> bool {
    exists|levels: Seq<Seq<u8>>|
        #[trigger] mip_levels_of(levels, rgba, width, height, count) && data == mip_chain_encoding(
            format,
            levels,
            width,
            height,
            count,
            count,
        )
}

/// `m >> level`, but at least 1.
fn mip_size(m: u32, level: u32) -> (r: u32)
    requires
        level < 32,
    ensures
        r == mip_dim(m as nat, level as nat),
        m >= 1 ==> 1 <= r <= m,
{
    proof {
        vstd::bits::lemma_u32_shr_is_div(m, level);
        vstd::arithmetic::power2::lemma_pow2_pos(level as nat);
        vstd::arithmetic::div_mod::lemma_div_is_ordered_by_denominator(m as int, 1, pow2(level as nat) as int);
    }
    let v = m >> level;
    if v == 0 {
        1
    } else {
        v
    }
}

/// Encoding stays possible for smaller images.
proof fn lemma_encodable_smaller(w: u32, h: u32, w2: u32, h2: u32)
    requires
        encodable(w, h),
        w2 <= w,
        h2 <= h,
    ensures
        encodable(w2, h2),
{
    assert((w2 as nat + 4) * (h2 as nat + 4) <= (w as nat + 4) * (h as nat + 4)) by (nonlinear_arith)
        requires
            w2 <= w,
            h2 <= h,
    ;
}

/// The pixels of every mip of a `width` by `height` image, largest first,
/// each with its dimensions: the image itself, then each level resampled
/// with `filter` from the one before to half its size (at least 1), down to
/// 1x1. What the resampling puts in the pixels is left open.
pub fn mip_levels(width: u32, height: u32, rgba_data: &[u8], filter: MipmapFilter) -> (r: Vec<
    (u32, u32, Vec<u8>),
>)
    requires
        rgba_data@.len() == width * height * 4,
        encodable(width, height),
        width >= 1,
        height >= 1,
    ensures
        r@.len() == floor_log2(
            if width >= height {
                width as nat
            } else {
                height as nat
            },
        ) + 1,
        r@[0].2@ == rgba_data@,
        forall|l: int|
            0 <= l < r@.len() ==> (#[trigger] r@[l]).0 == mip_dim(width as nat, l as nat) && r@[l].1
                == mip_dim(height as nat, l as nat) && r@[l].2@.len() == mip_dim(width as nat, l as nat)
                * mip_dim(height as nat, l as nat) * 4,
{
    let largest = if width >= height {
        width
    } else {
        height
    };
    proof {
        vstd::arithmetic::power2::lemma2_to64();
        super::tex::lemma_floor_log2_small(largest as nat, 32);
    }
    let mut rest = largest;
    let mut log: u32 = 0;
    while rest > 1
        invariant
            rest >= 1,
            floor_log2(largest as nat) == log + floor_log2(rest as nat),
            log + floor_log2(rest as nat) <= 31,
        decreases rest,
    {
        rest = rest / 2;
        log = log + 1;
    }
    let mip_count = log + 1;
    let mut levels: Vec<(u32, u32, Vec<u8>)> = Vec::new();
    let total = rgba_data.len();
    let mut current = crate::wad::decoder::copy_range(rgba_data, 0, rgba_data.len());
    proof {
        vstd::arithmetic::power2::lemma2_to64();
        assert(mip_dim(width as nat, 0) == width);
        assert(mip_dim(height as nat, 0) == height);
    }
    let mut level: u32 = 0;
    while level < mip_count
        invariant
            mip_count <= 32,
            level <= mip_count,
            width >= 1,
            height >= 1,
            rgba_data@.len() == width * height * 4,
            encodable(width, height),
            levels@.len() == level,
            mip_count == floor_log2(largest as nat) + 1,
            largest == (if width >= height {
                width
            } else {
                height
            }),
            level > 0 ==> levels@[0].2@ == rgba_data@,
            forall|l: int|
                0 <= l < level ==> (#[trigger] levels@[l]).0 == mip_dim(width as nat, l as nat)
                    && levels@[l].1 == mip_dim(height as nat, l as nat),
            level == 0 ==> current@ == rgba_data@,
            current@.len() == mip_dim(width as nat, (if level == 0 { 0 } else { level - 1 }) as nat)
                * mip_dim(height as nat, (if level == 0 { 0 } else { level - 1 }) as nat) * 4,
            forall|l: int|
                0 <= l < level ==> (#[trigger] levels@[l]).2@.len() == mip_dim(width as nat, l as nat)
                    * mip_dim(height as nat, l as nat) * 4,
            total == rgba_data@.len(),
        decreases mip_count - level,
    {
        if level > 0 {
            let pw = mip_size(width, level - 1);
            let ph = mip_size(height, level - 1);
            let nw = mip_size(width, level);
            let nh = mip_size(height, level);
            proof {
                assert(nw * nh * 4 <= width * height * 4) by (nonlinear_arith)
                    requires
                        1 <= nw <= width,
                        1 <= nh <= height,
                ;
            }
            current = resize_rgba(current, pw, ph, nw, nh, filter);
        }
        let copy = crate::wad::decoder::copy_range(current.as_slice(), 0, current.len());
        let lw = mip_size(width, level);
        let lh = mip_size(height, level);
        levels.push((lw, lh, copy));
        level = level + 1;
    }
    levels
}

/// A mip of an image is no larger than the image, and at least 1 by 1.
proof fn lemma_mip_size_bounds(width: u32, height: u32, level: u32)
    requires
        width >= 1,
        height >= 1,
        level < 32,
    ensures
        1 <= mip_dim(width as nat, level as nat) <= width,
        1 <= mip_dim(height as nat, level as nat) <= height,
{
    vstd::arithmetic::power2::lemma_pow2_pos(level as nat);
    vstd::arithmetic::div_mod::lemma_div_is_ordered_by_denominator(width as int, 1, pow2(level as nat) as int);
    vstd::arithmetic::div_mod::lemma_div_is_ordered_by_denominator(height as int, 1, pow2(level as nat) as int);
}

/// Encode an RGBA8 image with mipmaps into the specified format.
///
/// Mip `l` is mip `l - 1` resampled with the options' filter to half its
/// size (at least 1); the mips are stored from smallest to largest.
pub fn encode_rgba_with_mipmaps(
    width: u32,
    height: u32,
    rgba_data: &[u8],
    options: &EncodeOptions,
) -> (r: Result<(Vec<u8>, u32), EncodeError>)
    requires
        rgba_data@.len() == width * height * 4,
        encodable(width, height),
    ensures
        width == 0 || height == 0 ==> r == Err::<(Vec<u8>, u32), EncodeError>(
            EncodeError::ZeroSizedImage,
        ),
        width > 0 && height > 0 && options.format is Bc7 ==> r == Err::<(Vec<u8>, u32), EncodeError>(
            EncodeError::UnsupportedFormat(Format::Bc7),
        ),
        width > 0 && height > 0 && !(options.format is Bc7) ==> (r matches Ok((data, count)) && count == floor_log2(
            if width >= height {
                width as nat
            } else {
                height as nat
            },
        ) + 1 && mip_chain_of(
            options.format,
            rgba_data@,
            width as nat,
            height as nat,
            count as nat,
            data@,
        )),
{
    if width == 0 || height == 0 {
        return Err(EncodeError::ZeroSizedImage);
    }
    if let EncodeFormat::Bc7 = options.format {
        return Err(EncodeError::UnsupportedFormat(Format::Bc7));
    }
    let levels = mip_levels(width, height, rgba_data, options.mipmap_filter);
    proof {
        vstd::arithmetic::power2::lemma2_to64();
        let largest: u32 = if width >= height {
            width
        } else {
            height
        };
        super::tex::lemma_floor_log2_small(largest as nat, 32);
    }
    let mip_count = levels.len() as u32;
    let ghost lv = levels@.map_values(|t: (u32, u32, Vec<u8>)| t.2@);
    let mut encoded: Vec<u8> = Vec::new();
    let mut k: u32 = 0;
    while k < mip_count
        invariant
            k <= mip_count <= 32,
            width >= 1,
            height >= 1,
            encodable(width, height),
            !(options.format is Bc7),
            levels@.len() == mip_count,
            mip_count == floor_log2(
                if width >= height {
                    width as nat
                } else {
                    height as nat
                },
            ) + 1,
            lv == levels@.map_values(|t: (u32, u32, Vec<u8>)| t.2@),
            forall|l: int|
                0 <= l < mip_count ==> (#[trigger] levels@[l]).0 == mip_dim(width as nat, l as nat) && levels@[l].1 == mip_dim(
                    height as nat,
                    l as nat,
                ) && levels@[l].2@.len() == mip_dim(width as nat, l as nat) * mip_dim(
                    height as nat,
                    l as nat,
                ) * 4,
            encoded@ == mip_chain_encoding(
                options.format,
                lv,
                width as nat,
                height as nat,
                mip_count as nat,
                k as nat,
            ),
        decreases mip_count - k,
    {
        let l = mip_count - 1 - k;
        let w = levels[l as usize].0;
        let h = levels[l as usize].1;
        proof {
            lemma_mip_size_bounds(width, height, l);
            lemma_encodable_smaller(width, height, w, h);
        }
        let bytes = match encode_rgba(w, h, levels[l as usize].2.as_slice(), options) {
            Ok(v) => v,
            Err(e) => {
                return Err(e);
            },
        };
        crate::wad::decoder::append_bytes(&mut encoded, bytes.as_slice());
        proof {
            assert(lv[l as int] == levels@[l as int].2@);
        }
        k = k + 1;
    }
    proof {
        assert(mip_levels_of(lv, rgba_data@, width as nat, height as nat, mip_count as nat)) by {
            assert(lv[0] == levels@[0].2@);
            assert forall|l: int| 0 <= l < mip_count implies (#[trigger] lv[l]).len() == mip_dim(
                width as nat,
                l as nat,
            ) * mip_dim(height as nat, l as nat) * 4 by {
                assert(lv[l] == levels@[l].2@);
            }
        }
        assert(encoded@ == mip_chain_encoding(
            options.format,
            lv,
            width as nat,
            height as nat,
            mip_count as nat,
            mip_count as nat,
        ));
        assert(mip_chain_of(
            options.format,
            rgba_data@,
            width as nat,
            height as nat,
            mip_count as nat,
            encoded@,
        ));
        assert(mip_count == floor_log2(
            if width >= height {
                width as nat
            } else {
                height as nat
            },
        ) + 1);
    }
    Ok((encoded, mip_count))
}

} // verus!
