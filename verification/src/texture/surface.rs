//! Decoded mips and their pixel layouts.

use vstd::prelude::*;

use super::bc5_snorm::{round_div, signed};

verus! {

/// The uncompressed pixel layout of a decoded surface
#[non_exhaustive]
#[derive(Debug, Clone, Copy, Hash, PartialEq, Eq, Structural)]
pub enum PixelFormat {
    /// 8-bit BGRA, unsigned normalized
    Bgra8Unorm,
    /// 8-bit RGBA, unsigned normalized
    Rgba8Unorm,
    /// 8-bit RG, signed normalized (bytes are `i8` bit patterns)
    Rg8Snorm,
    /// 16-bit RGBA, half-float (channels are little-endian `half::f16` bit patterns)
    Rgba16Float,
}

impl PixelFormat {
    pub fn channel_count(self) -> (r: usize)
        ensures
            r == (if self is Rg8Snorm {
                2usize
            } else {
                4usize
            }),
    {
        match self {
            PixelFormat::Bgra8Unorm | PixelFormat::Rgba8Unorm | PixelFormat::Rgba16Float => 4,
            PixelFormat::Rg8Snorm => 2,
        }
    }

    pub fn bytes_per_pixel(self) -> (r: usize)
        ensures
            r == (match self {
                PixelFormat::Bgra8Unorm | PixelFormat::Rgba8Unorm => 4usize,
                PixelFormat::Rg8Snorm => 2usize,
                PixelFormat::Rgba16Float => 8usize,
            }),
    {
        match self {
            PixelFormat::Bgra8Unorm | PixelFormat::Rgba8Unorm => 4,
            PixelFormat::Rg8Snorm => 2,
            PixelFormat::Rgba16Float => 8,
        }
    }
}

/// A decoded tex mipmap
///
/// `data` holds tightly-packed, row-major pixels laid out as described by
/// `format`. Decoders emit their natural format (BC5_SNORM decodes to
/// `Rg8Snorm` with the signed data intact).
#[derive(Debug, Clone)]
pub struct TexSurface {
    pub width: u32,
    pub height: u32,
    pub format: PixelFormat,
    pub data: Vec<u8>,
}

/// A signed-normalized byte remapped from `[-1, 1]` to `[0, 255]`: `-128`
/// counts as `-127`, and the value is rounded to the nearest integer, a half
/// up.
pub open spec fn snorm8_to_unorm8_spec(b: u8) -> int {
    let v = if signed(b) < -127 {
        -127
    } else {
        signed(b)
    };
    round_div((v + 127) * 255, 254)
}

/// Remap a signed-normalized value from `[-1, 1]` to `[0, 255]`.
pub fn snorm8_to_unorm8(b: u8) -> (r: u8)
    ensures
        r == snorm8_to_unorm8_spec(b),
{
    let s: u32 = if b < 128 {
        b as u32 + 127
    } else if b == 128 {
        0
    } else {
        b as u32 - 129
    };
    let q = (2 * (s * 255) + 254) / 508;
    proof {
        assert(q <= 255) by (nonlinear_arith)
            requires
                s <= 254,
                q == (2 * (s * 255) + 254) / 508,
        ;
    }
    q as u8
}

/// The 4-byte pixels of `data` with their first and third bytes swapped
/// (RGBA to BGRA and back). Trailing bytes that make no whole pixel are
/// dropped.
pub open spec fn swap_red_blue(data: Seq<u8>) -> Seq<u8> {
    Seq::new(
        (data.len() / 4 * 4) as nat,
        |i: int|
            {
                let p = i / 4;
                let c = i % 4;
                if c == 0 {
                    data[4 * p + 2]
                } else if c == 2 {
                    data[4 * p]
                } else {
                    data[i]
                }
            },
    )
}

/// `data` with the first and third byte of each whole 4-byte pixel swapped.
pub fn swap_red_blue_pixels(data: &[u8]) -> (r: Vec<u8>)
    ensures
        r@ == swap_red_blue(data@),
{
    let n = data.len();
    let ghost want = swap_red_blue(data@);
    let pixels = n / 4;
    let mut out: Vec<u8> = Vec::new();
    let mut p: usize = 0;
    while p < pixels
        invariant
            n == data@.len(),
            pixels == n / 4,
            p <= pixels,
            want == swap_red_blue(data@),
            out@ == want.subrange(0, 4 * p as int),
        decreases pixels - p,
    {
        out.push(data[4 * p + 2]);
        out.push(data[4 * p + 1]);
        out.push(data[4 * p]);
        out.push(data[4 * p + 3]);
        proof {
            assert(out@ =~= want.subrange(0, 4 * (p + 1)));
        }
        p = p + 1;
    }
    proof {
        assert(want.subrange(0, 4 * p as int) =~= want);
    }
    out
}

/// The RGBA8 pixels a presentation of `data` in `format` shows, or `None`
/// for the half-float layout. Trailing bytes that make no whole pixel are
/// dropped.
pub open spec fn rgba8_of(format: PixelFormat, data: Seq<u8>) -> Option<Seq<u8>> {
    match format {
        PixelFormat::Rgba8Unorm => Some(data),
        PixelFormat::Bgra8Unorm => Some(swap_red_blue(data)),
        PixelFormat::Rg8Snorm => Some(
            Seq::new(
                (data.len() / 2 * 4) as nat,
                |i: int|
                    {
                        let p = i / 4;
                        let c = i % 4;
                        if c < 2 {
                            snorm8_to_unorm8_spec(data[2 * p + c]) as u8
                        } else if c == 2 {
                            0u8
                        } else {
                            255u8
                        }
                    },
            ),
        ),
        PixelFormat::Rgba16Float => None,
    }
}

impl TexSurface {
    /// The RGBA8 pixels the surface shows, for every layout but half-float:
    /// BGRA is reordered, signed-normalized channels are remapped from
    /// `[-1, 1]` to `[0, 255]` with blue 0 and alpha 255.
    pub fn rgba8_pixels(&self) -> (r: Option<Vec<u8>>)
        ensures
            match rgba8_of(self.format, self.data@) {
                Some(p) => r matches Some(v) && v@ == p,
                None => r is None,
            },
    {
        let data = &self.data;
        let n = data.len();
        match self.format {
            PixelFormat::Rgba16Float => None,
            PixelFormat::Rgba8Unorm => {
                let mut out: Vec<u8> = Vec::new();
                let mut i: usize = 0;
                while i < n
                    invariant
                        n == data@.len(),
                        i <= n,
                        out@ == data@.subrange(0, i as int),
                    decreases n - i,
                {
                    out.push(data[i]);
                    proof {
                        assert(out@ =~= data@.subrange(0, i + 1));
                    }
                    i = i + 1;
                }
                proof {
                    assert(data@.subrange(0, n as int) =~= data@);
                }
                Some(out)
            },
            PixelFormat::Bgra8Unorm => Some(swap_red_blue_pixels(data.as_slice())),
            PixelFormat::Rg8Snorm => {
                let ghost want = rgba8_of(self.format, data@).unwrap();
                let pixels = n / 2;
                let mut out: Vec<u8> = Vec::new();
                let mut p: usize = 0;
                while p < pixels
                    invariant
                        n == data@.len(),
                        pixels == n / 2,
                        p <= pixels,
                        want == rgba8_of(PixelFormat::Rg8Snorm, data@).unwrap(),
                        out@ == want.subrange(0, 4 * p as int),
                    decreases pixels - p,
                {
                    out.push(snorm8_to_unorm8(data[2 * p]));
                    out.push(snorm8_to_unorm8(data[2 * p + 1]));
                    out.push(0);
                    out.push(255);
                    proof {
                        assert(out@ =~= want.subrange(0, 4 * (p + 1)));
                    }
                    p = p + 1;
                }
                proof {
                    assert(want.subrange(0, 4 * p as int) =~= want);
                }
                Some(out)
            },
        }
    }
}

} // verus!
