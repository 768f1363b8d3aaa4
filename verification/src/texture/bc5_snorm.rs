//! Signed-normalized BC5 (`BC5_SNORM`) decoding, after the D3D11 functional
//! specification (section 19.5.2): two BC4_SNORM blocks per 4x4 texels, red
//! then green.
//!
//! Palette entries are interpolated in exact integer arithmetic and rounded
//! to the nearest integer; an entry is never halfway between two integers,
//! since its denominator (7 or 5) is odd.

use vstd::prelude::*;
use vstd::arithmetic::power2::{pow2, lemma_pow2_adds, lemma_pow2_pos};

use crate::bytes::{le_value, read_u64_le};

verus! {

/// The nearest integer to `n / d` (`d > 0`), halves away from zero.
pub open spec fn round_div(n: int, d: int) -> int {
    if n >= 0 {
        (2 * n + d) / (2 * d)
    } else {
        -((-2 * n + d) / (2 * d))
    }
}

/// The signed value of a byte read as `i8`.
pub open spec fn signed(b: u8) -> int {
    if b < 128 {
        b as int
    } else {
        b - 256
    }
}

/// An endpoint's value: `-128` counts as `-127`, so the range is symmetric.
pub open spec fn endpoint_value(b: u8) -> int {
    if signed(b) < -127 {
        -127
    } else {
        signed(b)
    }
}

/// Entry `k` (`0..8`) of the palette of a BC4_SNORM block with endpoint bytes
/// `e0` and `e1`.
///
/// The mode is chosen by comparing the raw endpoints as signed numbers:
/// eight interpolated entries when `e0 > e1`, else six and the constants
/// `-127` and `127`.
pub open spec fn bc4_palette(e0: u8, e1: u8, k: int) -> int {
    let r0 = endpoint_value(e0);
    let r1 = endpoint_value(e1);
    if k == 0 {
        r0
    } else if k == 1 {
        r1
    } else if signed(e0) > signed(e1) {
        round_div(r0 * (8 - k) + r1 * (k - 1), 7)
    } else if k == 6 {
        -127
    } else if k == 7 {
        127
    } else {
        round_div(r0 * (6 - k) + r1 * (k - 1), 5)
    }
}

/// The palette index of texel `t` (`0..16`): three bits at bit `16 + 3t` of
/// the block read as a little-endian number.
pub open spec fn texel_index(block: Seq<u8>, t: int) -> int {
    ((le_value(block) / pow2((16 + 3 * t) as nat)) % 8) as int
}

/// Texel `t` of a BC4_SNORM block, in `-127..=127`.
pub open spec fn bc4_texel(block: Seq<u8>, t: int) -> int {
    bc4_palette(block[0], block[1], texel_index(block, t))
}

/// Interpolating between values in `-127..=127` stays there.
proof fn lemma_round_div_bounds(r0: int, r1: int, a: int, b: int, d: int)
    requires
        -127 <= r0 <= 127,
        -127 <= r1 <= 127,
        0 <= a,
        0 <= b,
        a + b == d,
        d > 0,
    ensures
        -127 <= round_div(r0 * a + r1 * b, d) <= 127,
{
    let n = r0 * a + r1 * b;
    assert(-127 * a <= r0 * a <= 127 * a) by (nonlinear_arith)
        requires
            -127 <= r0 <= 127,
            0 <= a,
    ;
    assert(-127 * b <= r1 * b <= 127 * b) by (nonlinear_arith)
        requires
            -127 <= r1 <= 127,
            0 <= b,
    ;
    if n >= 0 {
        assert((2 * n + d) / (2 * d) <= 127) by (nonlinear_arith)
            requires
                0 <= n <= 127 * d,
                d > 0,
        ;
        assert((2 * n + d) / (2 * d) >= 0) by (nonlinear_arith)
            requires
                0 <= n,
                d > 0,
        ;
    } else {
        assert((-2 * n + d) / (2 * d) <= 127) by (nonlinear_arith)
            requires
                0 < -n <= 127 * d,
                d > 0,
        ;
        assert((-2 * n + d) / (2 * d) >= 0) by (nonlinear_arith)
            requires
                0 < -n,
                d > 0,
        ;
    }
}

proof fn lemma_palette_bounds(e0: u8, e1: u8, k: int)
    requires
        0 <= k < 8,
    ensures
        -127 <= bc4_palette(e0, e1, k) <= 127,
{
    let r0 = endpoint_value(e0);
    let r1 = endpoint_value(e1);
    if k >= 2 {
        if signed(e0) > signed(e1) {
            lemma_round_div_bounds(r0, r1, 8 - k, k - 1, 7);
        } else if k < 6 {
            lemma_round_div_bounds(r0, r1, 6 - k, k - 1, 5);
        }
    }
}

/// `n / d` rounded to the nearest integer, for `|n| <= 1016` and `d` 5 or 7.
fn round_div_i32(n: i32, d: i32) -> (r: i32)
    requires
        -1016 <= n <= 1016,
        d == 5 || d == 7,
    ensures
        r == round_div(n as int, d as int),
{
    if n >= 0 {
        let q = ((2 * n + d) as u32) / ((2 * d) as u32);
        q as i32
    } else {
        let m: i32 = 0 - n;
        let q = ((2 * m + d) as u32) / ((2 * d) as u32);
        proof {
            assert(q <= 1016);
        }
        0 - (q as i32)
    }
}

/// Entry `k` of the palette of a block with endpoint bytes `e0` and `e1`.
fn palette_entry(e0: u8, e1: u8, k: u8) -> (r: i8)
    requires
        k < 8,
    ensures
        r == bc4_palette(e0, e1, k as int),
{
    proof {
        lemma_palette_bounds(e0, e1, k as int);
    }
    let s0: i32 = if e0 < 128 { e0 as i32 } else { e0 as i32 - 256 };
    let s1: i32 = if e1 < 128 { e1 as i32 } else { e1 as i32 - 256 };
    let r0: i32 = if s0 < -127 { -127 } else { s0 };
    let r1: i32 = if s1 < -127 { -127 } else { s1 };
    let k32 = k as i32;
    let v: i32 = if k == 0 {
        r0
    } else if k == 1 {
        r1
    } else if s0 > s1 {
        proof {
            assert(-889 <= r0 * (8 - k32) <= 889 && -889 <= r1 * (k32 - 1) <= 889) by (nonlinear_arith)
                requires
                    -127 <= r0 <= 127,
                    -127 <= r1 <= 127,
                    2 <= k32 <= 7,
            ;
            assert(-889 <= r0 * (8 - k32) + r1 * (k32 - 1) <= 889) by (nonlinear_arith)
                requires
                    -127 <= r0 <= 127,
                    -127 <= r1 <= 127,
                    2 <= k32 <= 7,
            ;
        }
        round_div_i32(r0 * (8 - k32) + r1 * (k32 - 1), 7)
    } else if k == 6 {
        -127
    } else if k == 7 {
        127
    } else {
        proof {
            assert(-889 <= r0 * (6 - k32) <= 889 && -889 <= r1 * (k32 - 1) <= 889) by (nonlinear_arith)
                requires
                    -127 <= r0 <= 127,
                    -127 <= r1 <= 127,
                    2 <= k32 <= 5,
            ;
            assert(-889 <= r0 * (6 - k32) + r1 * (k32 - 1) <= 889) by (nonlinear_arith)
                requires
                    -127 <= r0 <= 127,
                    -127 <= r1 <= 127,
                    2 <= k32 <= 5,
            ;
        }
        round_div_i32(r0 * (6 - k32) + r1 * (k32 - 1), 5)
    };
    v as i8
}

/// Decode a single 8-byte BC4_SNORM block into 16 texels in `[-127, 127]`
pub fn decode_bc4_snorm_block(block: [u8; 8]) -> (r: [i8; 16])
    ensures
        forall|t: int| 0 <= t < 16 ==> r@[t] as int == #[trigger] bc4_texel(block@, t),
{
    let bits = read_u64_le(&block, 0);
    proof {
        assert(block@.subrange(0, 8) =~= block@);
        vstd::bits::lemma_u64_shr_is_div(bits, 16);
    }
    let mut indices = bits >> 16;
    let mut out = [0i8; 16];
    let mut t: usize = 0;
    while t < 16
        invariant
            t <= 16,
            bits as nat == le_value(block@),
            indices as nat == le_value(block@) / pow2((16 + 3 * t) as nat),
            forall|u: int| 0 <= u < t ==> out@[u] as int == #[trigger] bc4_texel(block@, u),
        decreases 16 - t,
    {
        let k = (indices & 7) as u8;
        proof {
            assert(indices & 7 == indices % 8) by (bit_vector);
            assert(indices >> 3 == indices / 8) by (bit_vector);
            lemma_pow2_pos((16 + 3 * t) as nat);
            lemma_pow2_adds((16 + 3 * t) as nat, 3);
            vstd::arithmetic::power2::lemma2_to64();
            vstd::arithmetic::div_mod::lemma_div_denominator(
                le_value(block@) as int,
                pow2((16 + 3 * t) as nat) as int,
                8,
            );
            assert((16 + 3 * (t + 1)) as nat == (16 + 3 * t) as nat + 3);
        }
        let v = palette_entry(block[0], block[1], k);
        out[t] = v;
        indices = indices >> 3;
        t = t + 1;
    }
    out
}

/// The byte an `i8` value is stored as.
pub open spec fn snorm_byte(v: int) -> u8 {
    if v < 0 {
        (v + 256) as u8
    } else {
        v as u8
    }
}

/// `ceil(n / 4)`: how many 4-texel blocks span `n` texels.
pub open spec fn blocks_for(n: nat) -> nat {
    (n + 3) / 4
}

/// The 8-byte block of channel `c` (0 red, 1 green) that covers texel
/// `(x, y)` of a BC5 surface `width` texels wide.
pub open spec fn bc5_block_at(data: Seq<u8>, width: nat, x: nat, y: nat, c: nat) -> Seq<u8> {
    let b = ((y / 4) * blocks_for(width) + x / 4) as int;
    data.subrange(16 * b + 8 * c, 16 * b + 8 * c + 8)
}

/// Channel `c` of texel `(x, y)` of a BC5_SNORM surface, as the byte it
/// decodes to.
pub open spec fn bc5_texel(data: Seq<u8>, width: nat, x: nat, y: nat, c: nat) -> u8 {
    snorm_byte(bc4_texel(bc5_block_at(data, width, x, y, c), ((y % 4) * 4 + x % 4) as int))
}

/// The RG8 SNORM bytes a `width` by `height` BC5_SNORM surface decodes to,
/// row-major, red then green.
pub open spec fn bc5_snorm_data(data: Seq<u8>, width: nat, height: nat) -> Seq<u8> {
    Seq::new(
        width * height * 2,
        |i: int| bc5_texel(data, width, ((i / 2) % width as int) as nat, ((i / 2) / width as int) as nat, (i % 2) as nat),
    )
}

/// The BC4 block of the 8 bytes at `start`, decoded.
fn decode_block_at(data: &[u8], start: usize) -> (r: [i8; 16])
    requires
        start + 8 <= data@.len(),
    ensures
        forall|t: int|
            0 <= t < 16 ==> r@[t] as int == #[trigger] bc4_texel(
                data@.subrange(start as int, start + 8),
                t,
            ),
{
    let len = data.len();
    let mut block = [0u8; 8];
    let mut k: usize = 0;
    while k < 8
        invariant
            k <= 8,
            len == data@.len(),
            start + 8 <= data@.len(),
            forall|j: int| 0 <= j < k ==> block@[j] == data@[start + j],
        decreases 8 - k,
    {
        block[k] = data[start + k];
        k = k + 1;
    }
    proof {
        assert(block@ =~= data@.subrange(start as int, start + 8));
    }
    decode_bc4_snorm_block(block)
}

proof fn lemma_block_in_range(w: nat, h: nat, x: nat, y: nat)
    requires
        x < w,
        y < h,
    ensures
        (y / 4) * blocks_for(w) + x / 4 < blocks_for(w) * blocks_for(h),
{
    let bw = blocks_for(w);
    let bh = blocks_for(h);
    assert(x / 4 < bw);
    assert(y / 4 < bh);
    assert((y / 4) * bw + x / 4 < bw * bh) by (nonlinear_arith)
        requires
            x / 4 < bw,
            y / 4 < bh,
    ;
}

/// Decode a BC5_SNORM surface to interleaved RG8 SNORM data (2 bytes per
/// pixel, each byte an `i8` bit pattern in `[-127, 127]`).
///
/// Texels of partial edge blocks that fall outside the surface are skipped.
pub fn decode_bc5_snorm(data: &[u8], width: usize, height: usize) -> (r: Vec<u8>)
    requires
        data@.len() == blocks_for(width as nat) * blocks_for(height as nat) * 16,
        width * height * 2 <= usize::MAX,
    ensures
        r@.len() == width * height * 2,
        r@ == bc5_snorm_data(data@, width as nat, height as nat),
        forall|x: int, y: int, c: int|
            0 <= x < width && 0 <= y < height && 0 <= c < 2 ==> r@[(y * width + x) * 2 + c]
                == #[trigger] bc5_texel(data@, width as nat, x as nat, y as nat, c as nat),
{
    let blocks_x = if width % 4 == 0 {
        width / 4
    } else {
        width / 4 + 1
    };
    let len = data.len();
    let block_count = len / 16;
    let mut red: Vec<[i8; 16]> = Vec::new();
    let mut green: Vec<[i8; 16]> = Vec::new();
    let mut b: usize = 0;
    while b < block_count
        invariant
            b <= block_count,
            block_count * 16 == data@.len(),
            len == data@.len(),
            red@.len() == b,
            green@.len() == b,
            forall|j: int, t: int| #![auto]
                0 <= j < b && 0 <= t < 16 ==> red@[j]@[t] as int == bc4_texel(
                    data@.subrange(16 * j, 16 * j + 8),
                    t,
                ),
            forall|j: int, t: int| #![auto]
                0 <= j < b && 0 <= t < 16 ==> green@[j]@[t] as int == bc4_texel(
                    data@.subrange(16 * j + 8, 16 * j + 16),
                    t,
                ),
        decreases block_count - b,
    {
        let r = decode_block_at(data, 16 * b);
        let g = decode_block_at(data, 16 * b + 8);
        proof {
            assert(data@.subrange(16 * b + 8, 16 * b + 8 + 8) =~= data@.subrange(
                16 * b + 8,
                16 * b + 16,
            ));
        }
        red.push(r);
        green.push(g);
        b = b + 1;
    }
    let mut rg: Vec<u8> = Vec::new();
    let mut y: usize = 0;
    while y < height
        invariant
            y <= height,
            blocks_x == blocks_for(width as nat),
            block_count == blocks_for(width as nat) * blocks_for(height as nat),
            red@.len() == block_count,
            green@.len() == block_count,
            forall|j: int, t: int| #![auto]
                0 <= j < block_count && 0 <= t < 16 ==> red@[j]@[t] as int
                    == bc4_texel(data@.subrange(16 * j, 16 * j + 8), t),
            forall|j: int, t: int| #![auto]
                0 <= j < block_count && 0 <= t < 16 ==> green@[j]@[t] as int
                    == bc4_texel(data@.subrange(16 * j + 8, 16 * j + 16), t),
            width * height * 2 <= usize::MAX,
            rg@.len() == y * width * 2,
            forall|xx: int, yy: int, c: int|
                0 <= xx < width && 0 <= yy < y && 0 <= c < 2 ==> rg@[(yy * width + xx) * 2 + c]
                    == #[trigger] bc5_texel(data@, width as nat, xx as nat, yy as nat, c as nat),
        decreases height - y,
    {
        let mut x: usize = 0;
        while x < width
            invariant
                x <= width,
                y < height,
                blocks_x == blocks_for(width as nat),
                block_count == blocks_for(width as nat) * blocks_for(height as nat),
                red@.len() == block_count,
                green@.len() == block_count,
                forall|j: int, t: int| #![auto]
                    0 <= j < block_count && 0 <= t < 16 ==> red@[j]@[t] as int
                        == bc4_texel(data@.subrange(16 * j, 16 * j + 8), t),
                forall|j: int, t: int| #![auto]
                    0 <= j < block_count && 0 <= t < 16 ==> green@[j]@[t] as int
                        == bc4_texel(data@.subrange(16 * j + 8, 16 * j + 16), t),
                width * height * 2 <= usize::MAX,
                rg@.len() == (y * width + x) * 2,
                forall|xx: int, yy: int, c: int|
                    0 <= xx < width && 0 <= yy < y && 0 <= c < 2 ==> rg@[(yy * width + xx) * 2 + c]
                        == #[trigger] bc5_texel(data@, width as nat, xx as nat, yy as nat, c as nat),
                forall|xx: int, c: int|
                    0 <= xx < x && 0 <= c < 2 ==> rg@[(y * width + xx) * 2 + c] == #[trigger] bc5_texel(
                        data@,
                        width as nat,
                        xx as nat,
                        y as nat,
                        c as nat,
                    ),
            decreases width - x,
        {
            proof {
                lemma_block_in_range(width as nat, height as nat, x as nat, y as nat);
                assert((y * width + x) * 2 + 2 <= width * height * 2) by (nonlinear_arith)
                    requires
                        x < width,
                        y < height,
                ;
            }
            let block = (y / 4) * blocks_x + x / 4;
            let texel = (y % 4) * 4 + x % 4;
            let rv = red[block][texel];
            let gv = green[block][texel];
            let ghost before = rg@;
            let rb: u8 = if rv < 0 { (rv as i16 + 256) as u8 } else { rv as u8 };
            let gb: u8 = if gv < 0 { (gv as i16 + 256) as u8 } else { gv as u8 };
            rg.push(rb);
            rg.push(gb);
            proof {
                let p = (y * width + x) * 2;
                assert(bc5_block_at(data@, width as nat, x as nat, y as nat, 0) =~= data@.subrange(
                    16 * block,
                    16 * block + 8,
                ));
                assert(bc5_block_at(data@, width as nat, x as nat, y as nat, 1) =~= data@.subrange(
                    16 * block + 8,
                    16 * block + 16,
                ));
                assert(rg@[p] == bc5_texel(data@, width as nat, x as nat, y as nat, 0));
                assert(rg@[p + 1] == bc5_texel(data@, width as nat, x as nat, y as nat, 1));
                assert forall|xx: int, yy: int, c: int|
                    0 <= xx < width && 0 <= yy < y && 0 <= c < 2 implies rg@[(yy * width + xx) * 2
                    + c] == #[trigger] bc5_texel(data@, width as nat, xx as nat, yy as nat, c as nat) by {
                    assert((yy * width + xx) * 2 + c < (y * width + x) * 2) by (nonlinear_arith)
                        requires
                            0 <= xx < width,
                            0 <= yy < y,
                            0 <= c < 2,
                            0 <= x,
                    ;
                    assert(rg@[(yy * width + xx) * 2 + c] == before[(yy * width + xx) * 2 + c]);
                }
                assert forall|xx: int, c: int| 0 <= xx < x + 1 && 0 <= c < 2 implies rg@[(y * width
                    + xx) * 2 + c] == #[trigger] bc5_texel(
                    data@,
                    width as nat,
                    xx as nat,
                    y as nat,
                    c as nat,
                ) by {
                    if xx < x {
                        assert(rg@[(y * width + xx) * 2 + c] == before[(y * width + xx) * 2 + c]);
                    }
                }
            }
            x = x + 1;
        }
        proof {
            assert((y * width + width) == (y + 1) * width) by (nonlinear_arith);
            assert forall|xx: int, yy: int, c: int|
                0 <= xx < width && 0 <= yy < y + 1 && 0 <= c < 2 implies rg@[(yy * width + xx) * 2
                + c] == #[trigger] bc5_texel(data@, width as nat, xx as nat, yy as nat, c as nat) by {
                if yy == y {
                }
            }
        }
        y = y + 1;
    }
    proof {
        assert(y * width * 2 == width * height * 2) by (nonlinear_arith)
            requires
                y == height,
        ;
        let want = bc5_snorm_data(data@, width as nat, height as nat);
        assert forall|i: int| 0 <= i < rg@.len() implies rg@[i] == want[i] by {
            let p = i / 2;
            let w = width as int;
            let xx = p % w;
            let yy = p / w;
            let c = i % 2;
            assert(w > 0) by (nonlinear_arith)
                requires
                    i < width * height * 2,
                    0 <= i,
                    w == width,
            ;
            vstd::arithmetic::div_mod::lemma_fundamental_div_mod(p, w);
            assert(0 <= xx < w);
            assert(0 <= yy < height) by (nonlinear_arith)
                requires
                    p == w * yy + xx,
                    0 <= xx < w,
                    0 <= p,
                    2 * p + c == i,
                    0 <= c < 2,
                    i < w * height * 2,
            ;
            assert((yy * w + xx) * 2 + c == i) by (nonlinear_arith)
                requires
                    p == w * yy + xx,
                    2 * p + c == i,
            ;
        }
        assert(rg@ =~= want);
    }
    rg
}

} // verus!
