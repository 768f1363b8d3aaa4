//! Why a v2 troybin written from raw records reads back as those records,
//! grouped by block.

use vstd::prelude::*;

use super::binary::{
    block_image, bool_block, bucket, c_string, component_width, flag_at, flag_bytes,
    number_block, number_entry, storage_of_bit, string_block, u16_at, u32_at, components_bytes, entry_values, flag_of, flag_set,
    flags_upto, hashes_upto, offsets_upto, pack_bits, packed_upto, pool_upto, text_of, u16_le,
    values_upto, RawRecordView, RawValueView, blocks_from, blocks_image, block_at, bucket_upto,
    string_pool, v2_image, v2_records, all_old_format,
};
use super::types::{components_of, lemma_storage_code_round_trip, storage_code, StorageType};
use crate::bytes::{byte_range, le_bytes, le_value, lemma_byte_ranges, lemma_le_bytes_len, lemma_le_value_of_bytes};

verus! {

/// Setting bit `m` of `x` sets that bit and keeps the others.
proof fn lemma_or_bit(x: u16, m: u16, k: u16)
    requires
        m < 16,
        k < 16,
    ensures
        ((x | (1u16 << m)) & (1u16 << k) != 0) == ((x & (1u16 << k) != 0) || k == m),
        (x | 0u16) == x,
{
    assert(((x | (1u16 << m)) & (1u16 << k) != 0) == ((x & (1u16 << k) != 0) || k == m))
        by (bit_vector)
        requires
            m < 16,
            k < 16,
    ;
    assert((x | 0u16) == x) by (bit_vector);
}

/// Bit `k` of the flags of blocks `0..b` is set exactly when `k < b` and
/// block `k` holds records.
proof fn lemma_flags_upto(rs: Seq<RawRecordView>, b: nat, k: nat)
    requires
        b <= 14,
        k < 16,
    ensures
        flag_set(flags_upto(rs, b), k) == (k < b && bucket(rs, k).len() > 0),
    decreases b,
{
    if b == 0 {
        assert((0u16 & (1u16 << (k as u16))) == 0) by (bit_vector);
    } else {
        lemma_flags_upto(rs, (b - 1) as nat, k);
        lemma_or_bit(flags_upto(rs, (b - 1) as nat), (b - 1) as u16, k as u16);
    }
}

/// A flags word with a bit set is not zero.
proof fn lemma_set_bit_nonzero(x: u16, k: nat)
    requires
        k < 16,
        flag_set(x, k),
    ensures
        x != 0,
{
    let kk = k as u16;
    assert((x & (1u16 << kk) != 0) ==> x != 0) by (bit_vector);
}

/// A value that fits reads back from its bytes.
proof fn lemma_le_round_trip(x: nat, n: nat)
    requires
        x < byte_range(n),
    ensures
        le_bytes(x, n).len() == n,
        le_value(le_bytes(x, n)) == x,
{
    lemma_le_bytes_len(x, n);
    lemma_le_value_of_bytes(x, n);
}

/// An `u16` that fits reads back from its bytes.
proof fn lemma_u16_le(x: nat)
    requires
        x < 0x1_0000,
    ensures
        u16_le(x).len() == 2,
        le_value(u16_le(x)) == x,
{
    lemma_byte_ranges();
    lemma_le_round_trip(x, 2);
}

/// The hashes of `rs[..i]` are 4 bytes each, in order.
proof fn lemma_hashes(rs: Seq<RawRecordView>, i: nat)
    requires
        i <= rs.len(),
    ensures
        hashes_upto(rs, i).len() == 4 * i,
        forall|j: int|
            0 <= j < i ==> #[trigger] hashes_upto(rs, i).subrange(4 * j, 4 * j + 4) == le_bytes(
                rs[j].hash as nat,
                4,
            ),
    decreases i,
{
    if i > 0 {
        lemma_hashes(rs, (i - 1) as nat);
        let prev = hashes_upto(rs, (i - 1) as nat);
        let x = le_bytes(rs[i - 1].hash as nat, 4);
        lemma_le_bytes_len(rs[i - 1].hash as nat, 4);
        assert forall|j: int| 0 <= j < i implies #[trigger] hashes_upto(rs, i).subrange(
            4 * j,
            4 * j + 4,
        ) == le_bytes(rs[j].hash as nat, 4) by {
            if j < i - 1 {
                assert((prev + x).subrange(4 * j, 4 * j + 4) =~= prev.subrange(4 * j, 4 * j + 4));
            } else {
                assert((prev + x).subrange(4 * j, 4 * j + 4) =~= x);
            }
        }
    }
}

/// The components `cs[..k]` are `w` bytes each, in order.
#[verifier::spinoff_prover]
proof fn lemma_components(cs: Seq<u32>, w: nat, k: nat)
    requires
        k <= cs.len(),
    ensures
        components_bytes(cs, w, k).len() == k * w,
        forall|m: int|
            0 <= m < k ==> #[trigger] components_bytes(cs, w, k).subrange(m * w, m * w + w)
                == le_bytes(cs[m] as nat, w),
    decreases k,
{
    if k > 0 {
        lemma_components(cs, w, (k - 1) as nat);
        let prev = components_bytes(cs, w, (k - 1) as nat);
        let x = le_bytes(cs[k - 1] as nat, w);
        lemma_le_bytes_len(cs[k - 1] as nat, w);
        assert((k - 1) * w + w == k * w) by (nonlinear_arith);
        assert(components_bytes(cs, w, k) == prev + x);
        assert(components_bytes(cs, w, k).len() == k * w);
        assert forall|m: int| 0 <= m < k implies #[trigger] components_bytes(cs, w, k).subrange(
            m * w,
            m * w + w,
        ) == le_bytes(cs[m] as nat, w) by {
            if m < k - 1 {
                assert(m * w + w <= (k - 1) * w) by (nonlinear_arith)
                    requires
                        m < k - 1,
                ;
                assert(0 <= m * w) by (nonlinear_arith)
                    requires
                        0 <= m,
                ;
                assert((prev + x).subrange(m * w, m * w + w) =~= prev.subrange(m * w, m * w + w));
            } else {
                assert((prev + x).subrange(m * w, m * w + w) =~= x);
            }
        }
    } else {
        assert(k * w == 0) by (nonlinear_arith)
            requires
                k == 0,
        ;
    }
}

/// Whether every record of `rs` holds `components_of(t)` components.
pub open spec fn full_components(rs: Seq<RawRecordView>, t: StorageType) -> bool {
    forall|i: int|
        0 <= i < rs.len() ==> (#[trigger] rs[i].value matches RawValueView::Components(cs)
            && cs.len() == components_of(t))
}

/// The components of the record `v`.
pub open spec fn components_in(v: RawValueView) -> Seq<u32> {
    match v {
        RawValueView::Components(cs) => cs,
        _ => Seq::empty(),
    }
}

/// The values of `rs[..i]` are `c * w` bytes per record, component by
/// component.
proof fn lemma_values(rs: Seq<RawRecordView>, t: StorageType, i: nat)
    requires
        i <= rs.len(),
        full_components(rs, t),
    ensures
        values_upto(rs, t, i).len() == i * components_of(t) * component_width(t),
        forall|j: int, m: int|
            0 <= j < i && 0 <= m < components_of(t) ==> #[trigger] values_upto(rs, t, i).subrange(
                (j * components_of(t) + m) * component_width(t),
                (j * components_of(t) + m) * component_width(t) + component_width(t),
            ) == le_bytes(#[trigger] components_in(rs[j].value)[m] as nat, component_width(t)),
    decreases i,
{
    let c = components_of(t);
    let w = component_width(t);
    if i > 0 {
        lemma_values(rs, t, (i - 1) as nat);
        let prev = values_upto(rs, t, (i - 1) as nat);
        let cs = components_in(rs[i - 1].value);
        assert(rs[i - 1].value matches RawValueView::Components(x) && x.len() == c);
        let x = entry_values(rs[i - 1].value, t);
        assert(x == components_bytes(cs, w, cs.len()));
        lemma_components(cs, w, cs.len());
        assert((i - 1) * c * w + c * w == i * c * w) by (nonlinear_arith);
        assert forall|j: int, m: int|
            0 <= j < i && 0 <= m < c implies #[trigger] values_upto(rs, t, i).subrange(
            (j * c + m) * w,
            (j * c + m) * w + w,
        ) == le_bytes(#[trigger] components_in(rs[j].value)[m] as nat, w) by {
            assert((j * c + m) * w == j * c * w + m * w) by (nonlinear_arith);
            assert(0 <= m * w && m * w + w <= c * w) by (nonlinear_arith)
                requires
                    0 <= m < c,
                    0 <= w,
            ;
            if j < i - 1 {
                assert(j * c * w + c * w <= (i - 1) * c * w) by (nonlinear_arith)
                    requires
                        0 <= j < i - 1,
                        0 <= c,
                        0 <= w,
                ;
                assert(0 <= j * c * w) by (nonlinear_arith)
                    requires
                        0 <= j,
                        0 <= c,
                        0 <= w,
                ;
                assert((prev + x).subrange((j * c + m) * w, (j * c + m) * w + w) =~= prev.subrange(
                    (j * c + m) * w,
                    (j * c + m) * w + w,
                ));
            } else {
                assert(j * c * w == (i - 1) * c * w);
                assert((prev + x).subrange((j * c + m) * w, (j * c + m) * w + w) =~= x.subrange(
                    m * w,
                    m * w + w,
                ));
            }
        }
    }
}

/// The offsets of `rs[..i]` are 2 bytes each, in order.
proof fn lemma_offsets(rs: Seq<RawRecordView>, i: nat)
    requires
        i <= rs.len(),
    ensures
        offsets_upto(rs, i).len() == 2 * i,
        forall|j: int|
            0 <= j < i ==> #[trigger] offsets_upto(rs, i).subrange(2 * j, 2 * j + 2) == u16_le(
                pool_upto(rs, j as nat).len(),
            ),
    decreases i,
{
    if i > 0 {
        lemma_offsets(rs, (i - 1) as nat);
        let prev = offsets_upto(rs, (i - 1) as nat);
        let x = u16_le(pool_upto(rs, (i - 1) as nat).len());
        lemma_le_bytes_len(pool_upto(rs, (i - 1) as nat).len() % 0x1_0000, 2);
        assert forall|j: int| 0 <= j < i implies #[trigger] offsets_upto(rs, i).subrange(
            2 * j,
            2 * j + 2,
        ) == u16_le(pool_upto(rs, j as nat).len()) by {
            if j < i - 1 {
                assert((prev + x).subrange(2 * j, 2 * j + 2) =~= prev.subrange(2 * j, 2 * j + 2));
            } else {
                assert((prev + x).subrange(2 * j, 2 * j + 2) =~= x);
            }
        }
    }
}

/// The packed flags are one byte per eight records.
proof fn lemma_packed(rs: Seq<RawRecordView>, k: nat)
    ensures
        packed_upto(rs, k).len() == k,
        forall|m: int| 0 <= m < k ==> #[trigger] packed_upto(rs, k)[m] == pack_bits(rs, 8 * m, 8),
    decreases k,
{
    if k > 0 {
        lemma_packed(rs, (k - 1) as nat);
    }
}

/// Bit `s` of a packed byte is the flag of record `base + s`.
proof fn lemma_pack_bits(rs: Seq<RawRecordView>, base: int, s: nat)
    requires
        s < 8,
    ensures
        ((pack_bits(rs, base, 8) >> (s as u8)) & 1u8 == 1u8) == flag_of(rs, base + s),
{
    reveal_with_fuel(pack_bits, 9);
    let f0 = flag_of(rs, base);
    let f1 = flag_of(rs, base + 1);
    let f2 = flag_of(rs, base + 2);
    let f3 = flag_of(rs, base + 3);
    let f4 = flag_of(rs, base + 4);
    let f5 = flag_of(rs, base + 5);
    let f6 = flag_of(rs, base + 6);
    let f7 = flag_of(rs, base + 7);
    let x = pack_bits(rs, base, 8);
    let b0: u8 = if f0 { 1u8 << 0u8 } else { 0u8 };
    let b1: u8 = if f1 { 1u8 << 1u8 } else { 0u8 };
    let b2: u8 = if f2 { 1u8 << 2u8 } else { 0u8 };
    let b3: u8 = if f3 { 1u8 << 3u8 } else { 0u8 };
    let b4: u8 = if f4 { 1u8 << 4u8 } else { 0u8 };
    let b5: u8 = if f5 { 1u8 << 5u8 } else { 0u8 };
    let b6: u8 = if f6 { 1u8 << 6u8 } else { 0u8 };
    let b7: u8 = if f7 { 1u8 << 7u8 } else { 0u8 };
    assert(x == (((((((0u8 | b0) | b1) | b2) | b3) | b4) | b5) | b6) | b7);
    let ss = s as u8;
    assert(((x >> ss) & 1u8 == 1u8) == (if ss == 0 {
        f0
    } else if ss == 1 {
        f1
    } else if ss == 2 {
        f2
    } else if ss == 3 {
        f3
    } else if ss == 4 {
        f4
    } else if ss == 5 {
        f5
    } else if ss == 6 {
        f6
    } else {
        f7
    })) by (bit_vector)
        requires
            x == (((((((0u8 | b0) | b1) | b2) | b3) | b4) | b5) | b6) | b7,
            b0 == (if f0 { 1u8 << 0u8 } else { 0u8 }),
            b1 == (if f1 { 1u8 << 1u8 } else { 0u8 }),
            b2 == (if f2 { 1u8 << 2u8 } else { 0u8 }),
            b3 == (if f3 { 1u8 << 3u8 } else { 0u8 }),
            b4 == (if f4 { 1u8 << 4u8 } else { 0u8 }),
            b5 == (if f5 { 1u8 << 5u8 } else { 0u8 }),
            b6 == (if f6 { 1u8 << 6u8 } else { 0u8 }),
            b7 == (if f7 { 1u8 << 7u8 } else { 0u8 }),
            ss < 8,
    ;
}

/// A string with no NUL, followed by a NUL, reads back as the string.
proof fn lemma_c_string(data: Seq<u8>, o: int, t: Seq<u8>)
    requires
        0 <= o,
        o + t.len() < data.len(),
        data[o + t.len()] == 0,
        forall|k: int| 0 <= k < t.len() ==> data[o + k] == #[trigger] t[k] && t[k] != 0,
    ensures
        c_string(data, o) == t,
    decreases t.len(),
{
    if t.len() == 0 {
        assert(c_string(data, o) =~= t);
    } else {
        let rest = t.drop_first();
        assert forall|k: int| 0 <= k < rest.len() implies data[(o + 1) + k] == #[trigger] rest[k]
            && rest[k] != 0 by {
            assert(rest[k] == t[k + 1]);
        }
        lemma_c_string(data, o + 1, rest);
        assert(data[o] == t[0]);
        assert(seq![t[0]] + rest =~= t);
    }
}

/// The pool of `rs[..j]` starts the pool of `rs[..i]` for `j <= i`.
proof fn lemma_pool_prefix(rs: Seq<RawRecordView>, j: nat, i: nat)
    requires
        j <= i,
    ensures
        pool_upto(rs, j).len() <= pool_upto(rs, i).len(),
        pool_upto(rs, i).subrange(0, pool_upto(rs, j).len() as int) == pool_upto(rs, j),
    decreases i - j,
{
    if j < i {
        lemma_pool_prefix(rs, j, (i - 1) as nat);
        let p = pool_upto(rs, (i - 1) as nat);
        let x = text_of(rs[i - 1].value).push(0u8);
        assert((p + x).subrange(0, pool_upto(rs, j).len() as int) =~= p.subrange(
            0,
            pool_upto(rs, j).len() as int,
        ));
    } else {
        assert(pool_upto(rs, i).subrange(0, pool_upto(rs, i).len() as int) =~= pool_upto(rs, i));
    }
}

/// Whether no string of `rs` holds a NUL.
pub open spec fn no_nul_text(rs: Seq<RawRecordView>) -> bool {
    forall|i: int, k: int|
        0 <= i < rs.len() && 0 <= k < text_of(rs[i].value).len() ==> #[trigger] text_of(
            rs[i].value,
        )[k] != 0
}

/// In the pool of `rs[..n]`, the string of record `j` reads back from its
/// offset.
proof fn lemma_pool_string(rs: Seq<RawRecordView>, n: nat, j: nat)
    requires
        j < n <= rs.len(),
        no_nul_text(rs),
    ensures
        c_string(pool_upto(rs, n), pool_upto(rs, j).len() as int) == text_of(rs[j as int].value),
        pool_upto(rs, j).len() < pool_upto(rs, n).len(),
{
    lemma_pool_prefix(rs, j + 1, n);
    let pn = pool_upto(rs, n);
    let pj = pool_upto(rs, j);
    let t = text_of(rs[j as int].value);
    let pj1 = pool_upto(rs, j + 1);
    assert(pj1 == pj + t.push(0u8));
    assert(pj1.len() == pj.len() + t.len() + 1);
    let sub = pn.subrange(0, pj1.len() as int);
    assert(sub == pj1);
    assert forall|k: int| 0 <= k < t.len() implies pn[pj.len() + k] == #[trigger] t[k] && t[k]
        != 0 by {
        assert(sub[pj.len() + k] == pn[pj.len() + k]);
        assert(pj1[pj.len() + k] == t[k]);
        assert(t[k] == text_of(rs[j as int].value)[k]);
    }
    assert(sub[pj.len() + t.len() as int] == pn[pj.len() + t.len() as int]);
    assert(pj1[pj.len() + t.len() as int] == 0u8);
    lemma_c_string(pn, pj.len() as int, t);
}

/// Whether `img` stands in `d` from `p` on.
pub open spec fn placed(d: Seq<u8>, p: int, img: Seq<u8>) -> bool {
    0 <= p && p + img.len() <= d.len() && d.subrange(p, p + img.len()) == img
}

/// A piece of what stands in `d` stands there too.
proof fn lemma_placed_sub(d: Seq<u8>, p: int, img: Seq<u8>, a: int, b: int)
    requires
        placed(d, p, img),
        0 <= a <= b <= img.len(),
    ensures
        d.subrange(p + a, p + b) == img.subrange(a, b),
{
    assert forall|k: int| 0 <= k < b - a implies #[trigger] d.subrange(p + a, p + b)[k]
        == img.subrange(a, b)[k] by {
        assert(d.subrange(p, p + img.len())[a + k] == d[p + a + k]);
    }
    assert(d.subrange(p + a, p + b) =~= img.subrange(a, b));
}

/// The count and hashes at the head of a block image read back.
proof fn lemma_block_head(d: Seq<u8>, p: int, img: Seq<u8>, bk: Seq<RawRecordView>, tail: Seq<u8>)
    requires
        bk.len() < 0x1_0000,
        img == u16_le(bk.len()) + hashes_upto(bk, bk.len()) + tail,
        placed(d, p, img),
    ensures
        u16_at(d, p) == bk.len(),
        img.len() == 2 + 4 * bk.len() + tail.len(),
        forall|j: int| 0 <= j < bk.len() ==> #[trigger] u32_at(d, p + 2 + 4 * j) == bk[j].hash,
        d.subrange(p + 2 + 4 * bk.len(), p + img.len()) == tail,
{
    let n = bk.len();
    lemma_u16_le(n);
    lemma_hashes(bk, n);
    lemma_byte_ranges();
    let h = hashes_upto(bk, n);
    lemma_placed_sub(d, p, img, 0, 2);
    assert(img.subrange(0, 2) =~= u16_le(n));
    assert forall|j: int| 0 <= j < n implies #[trigger] u32_at(d, p + 2 + 4 * j) == bk[j].hash by {
        lemma_placed_sub(d, p, img, 2 + 4 * j, 2 + 4 * j + 4);
        assert(img.subrange(2 + 4 * j, 2 + 4 * j + 4) =~= h.subrange(4 * j, 4 * j + 4));
        lemma_le_round_trip(bk[j].hash as nat, 4);
    }
    lemma_placed_sub(d, p, img, 2 + 4 * n as int, img.len() as int);
    assert(img.subrange(2 + 4 * n as int, img.len() as int) =~= tail);
}

/// Whether every component of `rs` fits the width of `t`.
pub open spec fn components_fit(rs: Seq<RawRecordView>, t: StorageType) -> bool {
    forall|i: int, m: int|
        0 <= i < rs.len() && 0 <= m < components_in(rs[i].value).len() ==> #[trigger] components_in(
            rs[i].value,
        )[m] < byte_range(component_width(t))
}

/// A numeric block image reads back as its records.
proof fn lemma_number_block(d: Seq<u8>, p: int, bk: Seq<RawRecordView>, bit: nat, pool: Seq<u8>)
    requires
        bit < 14,
        bit != 5,
        bit != 12,
        bk.len() < 0x1_0000,
        forall|i: int| 0 <= i < bk.len() ==> #[trigger] bk[i].storage == storage_of_bit(bit),
        full_components(bk, storage_of_bit(bit)),
        components_fit(bk, storage_of_bit(bit)),
        placed(d, p, block_image(bk, bit, pool)),
    ensures
        number_block(d, p, storage_of_bit(bit)) == Some((bk, p + block_image(bk, bit, pool).len())),
{
    let t = storage_of_bit(bit);
    let n = bk.len();
    let c = components_of(t);
    let w = component_width(t);
    let img = block_image(bk, bit, pool);
    let v = values_upto(bk, t, n);
    lemma_block_head(d, p, img, bk, v);
    lemma_values(bk, t, n);
    lemma_byte_ranges();
    let hp = p + 2;
    let vp = hp + 4 * n;
    assert(img.len() == 2 + 4 * n + n * c * w);
    assert forall|i: int| 0 <= i < n implies #[trigger] number_entry(d, hp, vp, i, t) == bk[i] by {
        let cs = components_in(bk[i].value);
        assert(bk[i].value matches RawValueView::Components(x) && x.len() == c);
        let got = Seq::new(
            c,
            |k: int| le_value(d.subrange(vp + (i * c + k) * w, vp + (i * c + k) * w + w)) as u32,
        );
        assert forall|k: int| 0 <= k < c implies #[trigger] got[k] == cs[k] by {
            assert(0 <= (i * c + k) * w && (i * c + k) * w + w <= n * c * w) by (nonlinear_arith)
                requires
                    0 <= i < n,
                    0 <= k < c,
                    0 <= w,
            ;
            lemma_placed_sub(d, p, img, 2 + 4 * n + (i * c + k) * w, 2 + 4 * n + (i * c + k) * w + w);
            assert(img.subrange(2 + 4 * n + (i * c + k) * w, 2 + 4 * n + (i * c + k) * w + w)
                =~= v.subrange((i * c + k) * w, (i * c + k) * w + w));
            assert(v.subrange((i * c + k) * w, (i * c + k) * w + w) == le_bytes(
                components_in(bk[i].value)[k] as nat,
                w,
            ));
            assert(cs[k] < byte_range(w));
            lemma_le_round_trip(cs[k] as nat, w);
        }
        assert(got =~= cs);
        assert(u32_at(d, p + 2 + 4 * i) == bk[i].hash);
        assert(bk[i].value == RawValueView::Components(cs));
        let e = number_entry(d, hp, vp, i, t);
        assert(e.hash == bk[i].hash);
        assert(e.storage == bk[i].storage);
        assert(e.value == bk[i].value);
    }
    assert(Seq::new(n, |i: int| number_entry(d, hp, vp, i, t)) =~= bk);
}

/// A boolean block image reads back as its records.
proof fn lemma_bool_block(d: Seq<u8>, p: int, bk: Seq<RawRecordView>, pool: Seq<u8>)
    requires
        bk.len() < 0x1_0000,
        forall|i: int|
            0 <= i < bk.len() ==> #[trigger] bk[i].storage == StorageType::Bool && bk[i].value is Flag,
        placed(d, p, block_image(bk, 5, pool)),
    ensures
        bool_block(d, p) == Some((bk, p + block_image(bk, 5, pool).len())),
{
    let n = bk.len();
    let img = block_image(bk, 5, pool);
    let packed = packed_upto(bk, flag_bytes(n));
    lemma_block_head(d, p, img, bk, packed);
    lemma_packed(bk, flag_bytes(n));
    let hp = p + 2;
    let bp = hp + 4 * n;
    let want = Seq::new(
        n,
        |j: int|
            RawRecordView {
                hash: u32_at(d, hp + 4 * j) as u32,
                storage: StorageType::Bool,
                value: RawValueView::Flag(flag_at(d, bp, j)),
            },
    );
    assert forall|j: int| 0 <= j < n implies #[trigger] want[j] == bk[j] by {
        let k = j / 8;
        assert(0 <= k < flag_bytes(n));
        assert(d.subrange(bp, p + img.len())[k] == d[bp + k]);
        assert(d[bp + k] == packed[k]);
        lemma_pack_bits(bk, 8 * k, (j % 8) as nat);
        assert(8 * k + j % 8 == j);
        assert(flag_at(d, bp, j) == flag_of(bk, j));
        assert(bk[j].storage == StorageType::Bool);
        assert(bk[j].value == RawValueView::Flag(flag_of(bk, j)));
        assert(u32_at(d, p + 2 + 4 * j) == bk[j].hash);
        assert(want[j].hash == bk[j].hash);
        assert(want[j].storage == bk[j].storage);
        assert(want[j].value == bk[j].value);
    }
    assert(want =~= bk);
}

/// A string block image reads back as its records.
proof fn lemma_string_block(d: Seq<u8>, p: int, bk: Seq<RawRecordView>, pool: Seq<u8>)
    requires
        bk.len() < 0x1_0000,
        forall|i: int|
            0 <= i < bk.len() ==> #[trigger] bk[i].storage == StorageType::StringBlock
                && bk[i].value is Text,
        no_nul_text(bk),
        pool == pool_upto(bk, bk.len()),
        pool.len() < 0x1_0000,
        placed(d, p, block_image(bk, 12, pool)),
    ensures
        string_block(d, p, pool.len()) == Some((bk, p + block_image(bk, 12, pool).len())),
{
    let n = bk.len();
    let img = block_image(bk, 12, pool);
    let offs = offsets_upto(bk, n);
    lemma_block_head(d, p, img, bk, offs + pool);
    lemma_offsets(bk, n);
    let hp = p + 2;
    let op = hp + 4 * n;
    let dp = op + 2 * n;
    let end = dp + pool.len();
    assert(end == p + img.len());
    let tail = offs + pool;
    assert(d.subrange(op, p + img.len()) == tail);
    assert(d.subrange(dp, end) =~= pool) by {
        assert forall|k: int| 0 <= k < pool.len() implies #[trigger] d.subrange(dp, end)[k] == pool[k] by {
            assert(d.subrange(op, p + img.len())[2 * n + k] == d[dp + k]);
            assert(tail[2 * n + k] == pool[k]);
        }
    }
    let want = Seq::new(
        n,
        |i: int|
            RawRecordView {
                hash: u32_at(d, hp + 4 * i) as u32,
                storage: StorageType::StringBlock,
                value: RawValueView::Text(c_string(d.subrange(dp, end), u16_at(d, op + 2 * i) as int)),
            },
    );
    assert forall|i: int| 0 <= i < n implies #[trigger] want[i] == bk[i] by {
        lemma_pool_string(bk, n, i as nat);
        let o = pool_upto(bk, i as nat).len();
        assert(d.subrange(op + 2 * i, op + 2 * i + 2) =~= tail.subrange(2 * i, 2 * i + 2)) by {
            assert forall|k: int| 0 <= k < 2 implies #[trigger] d.subrange(op + 2 * i, op + 2 * i + 2)[k]
                == tail.subrange(2 * i, 2 * i + 2)[k] by {
                assert(d.subrange(op, p + img.len())[2 * i + k] == d[op + 2 * i + k]);
            }
        }
        assert(tail.subrange(2 * i, 2 * i + 2) =~= offs.subrange(2 * i, 2 * i + 2));
        lemma_u16_le(o);
        assert(u16_at(d, op + 2 * i) == o);
        assert(bk[i].storage == StorageType::StringBlock);
        assert(bk[i].value == RawValueView::Text(text_of(bk[i].value)));
        assert(u32_at(d, p + 2 + 4 * i) == bk[i].hash);
        assert(want[i].hash == bk[i].hash);
        assert(want[i].storage == bk[i].storage);
        assert(want[i].value == bk[i].value);
    }
    assert(want =~= bk);
}

/// The records of `rs` block by block, from block `bit` on.
pub open spec fn grouped_from(rs: Seq<RawRecordView>, bit: nat) -> Seq<RawRecordView>
    decreases 14 - bit,
{
    if bit >= 14 {
        Seq::empty()
    } else {
        bucket(rs, bit) + grouped_from(rs, bit + 1)
    }
}

/// The records of `rs` grouped by block: the order a v2 file holds them in.
pub open spec fn grouped(rs: Seq<RawRecordView>) -> Seq<RawRecordView> {
    grouped_from(rs, 0)
}

/// Whether a record's value is one its storage type writes and reads back:
/// a flag for the boolean block, a string without NUL for the string block,
/// and for a numeric block as many components as it stores, each fitting
/// its width. Records of the old format are left out of a v2 file.
pub open spec fn writable_record(r: RawRecordView) -> bool {
    match r.storage {
        StorageType::OldFormat => true,
        StorageType::Bool => r.value is Flag,
        StorageType::StringBlock => r.value matches RawValueView::Text(t) && forall|k: int|
            0 <= k < t.len() ==> #[trigger] t[k] != 0,
        _ => r.value matches RawValueView::Components(cs) && cs.len() == components_of(r.storage)
            && forall|k: int|
            0 <= k < cs.len() ==> #[trigger] cs[k] < byte_range(component_width(r.storage)),
    }
}

/// Whether a v2 file written from `rs` can hold them: every record writable,
/// fewer than 65536 records per block and bytes of strings, and at least one
/// record of a v2 block (with none, the flags word is zero, which a reader
/// takes for a second flags word to come).
pub open spec fn writable(rs: Seq<RawRecordView>) -> bool {
    &&& forall|i: int| 0 <= i < rs.len() ==> #[trigger] writable_record(rs[i])
    &&& forall|bit: nat| bit < 14 ==> #[trigger] bucket(rs, bit).len() < 0x1_0000
    &&& string_pool(rs).len() < 0x1_0000
    &&& !all_old_format(rs)
}

/// The records of a block are writable records of that block.
proof fn lemma_bucket_records(rs: Seq<RawRecordView>, bit: nat, i: nat)
    requires
        i <= rs.len(),
        forall|k: int| 0 <= k < rs.len() ==> #[trigger] writable_record(rs[k]),
    ensures
        forall|j: int|
            0 <= j < bucket_upto(rs, bit, i).len() ==> storage_code(
                #[trigger] bucket_upto(rs, bit, i)[j].storage,
            ) == bit && writable_record(bucket_upto(rs, bit, i)[j]),
    decreases i,
{
    if i > 0 {
        lemma_bucket_records(rs, bit, (i - 1) as nat);
        assert(writable_record(rs[i - 1]));
    }
}

/// A block holding a record is not empty.
proof fn lemma_bucket_nonempty(rs: Seq<RawRecordView>, bit: nat, j: int, i: nat)
    requires
        0 <= j < i <= rs.len(),
        storage_code(rs[j].storage) == bit,
    ensures
        bucket_upto(rs, bit, i).len() > 0,
    decreases i,
{
    if j < i - 1 {
        lemma_bucket_nonempty(rs, bit, j, (i - 1) as nat);
    }
}

/// Two images one after the other stand where their concatenation does.
proof fn lemma_placed_split(d: Seq<u8>, p: int, a: Seq<u8>, b: Seq<u8>)
    requires
        placed(d, p, a + b),
    ensures
        placed(d, p, a),
        placed(d, p + a.len(), b),
{
    lemma_placed_sub(d, p, a + b, 0, a.len() as int);
    lemma_placed_sub(d, p, a + b, a.len() as int, (a + b).len() as int);
    assert((a + b).subrange(0, a.len() as int) =~= a);
    assert((a + b).subrange(a.len() as int, (a + b).len() as int) =~= b);
}

/// Block `bit` of a file written from `rs`, when it holds records, reads
/// back as them.
proof fn lemma_block(rs: Seq<RawRecordView>, d: Seq<u8>, p: int, bit: nat)
    requires
        writable(rs),
        bit < 14,
        bucket(rs, bit).len() > 0,
        placed(d, p, block_image(bucket(rs, bit), bit, string_pool(rs))),
    ensures
        block_at(d, p, bit, string_pool(rs).len()) == Some(
            (bucket(rs, bit), p + block_image(bucket(rs, bit), bit, string_pool(rs)).len()),
        ),
{
    let bk = bucket(rs, bit);
    let pool = string_pool(rs);
    lemma_bucket_records(rs, bit, rs.len());
    assert(bk.len() < 0x1_0000);
    if bit == 5 {
        assert forall|i: int| 0 <= i < bk.len() implies #[trigger] bk[i].storage == StorageType::Bool
            && bk[i].value is Flag by {
            assert(storage_code(bk[i].storage) == 5);
            assert(writable_record(bk[i]));
        }
        lemma_bool_block(d, p, bk, pool);
    } else if bit == 12 {
        assert forall|i: int| 0 <= i < bk.len() implies #[trigger] bk[i].storage
            == StorageType::StringBlock && bk[i].value is Text by {
            assert(storage_code(bk[i].storage) == 12);
            assert(writable_record(bk[i]));
        }
        assert forall|i: int, k: int|
            0 <= i < bk.len() && 0 <= k < text_of(bk[i].value).len() implies #[trigger] text_of(
            bk[i].value,
        )[k] != 0 by {
            assert(storage_code(bk[i].storage) == 12);
            assert(writable_record(bk[i]));
        }
        lemma_string_block(d, p, bk, pool);
    } else {
        let t = storage_of_bit(bit);
        assert forall|i: int| 0 <= i < bk.len() implies #[trigger] bk[i].storage == t by {
            assert(storage_code(bk[i].storage) == bit);
            lemma_storage_code_round_trip(bk[i].storage);
        }
        assert forall|i: int| 0 <= i < bk.len() implies (#[trigger] bk[i].value matches RawValueView::Components(cs)
            && cs.len() == components_of(t)) by {
            assert(bk[i].storage == t);
            assert(writable_record(bk[i]));
        }
        assert forall|i: int, m: int|
            0 <= i < bk.len() && 0 <= m < components_in(bk[i].value).len() implies #[trigger] components_in(
            bk[i].value,
        )[m] < byte_range(component_width(t)) by {
            assert(bk[i].storage == t);
            assert(writable_record(bk[i]));
        }
        lemma_number_block(d, p, bk, bit, pool);
    }
}

/// The blocks of a file written from `rs` read back, from block `bit` on,
/// as its records grouped by block.
proof fn lemma_blocks(rs: Seq<RawRecordView>, d: Seq<u8>, p: int, bit: nat)
    requires
        writable(rs),
        bit <= 16,
        placed(d, p, blocks_image(rs, bit)),
    ensures
        blocks_from(d, p, flags_upto(rs, 14), string_pool(rs).len(), bit) == Some(
            (grouped_from(rs, bit), p + blocks_image(rs, bit).len()),
        ),
    decreases 16 - bit,
{
    let flags = flags_upto(rs, 14);
    let len = string_pool(rs).len();
    if bit >= 16 {
        assert(grouped_from(rs, bit) =~= Seq::<RawRecordView>::empty());
    } else if bit >= 14 {
        lemma_flags_upto(rs, 14, bit);
        lemma_blocks(rs, d, p, bit + 1);
        assert(grouped_from(rs, bit) =~= Seq::<RawRecordView>::empty());
        assert(grouped_from(rs, bit + 1) =~= Seq::<RawRecordView>::empty());
    } else {
        lemma_flags_upto(rs, 14, bit);
        let bk = bucket(rs, bit);
        if bk.len() == 0 {
            assert(blocks_image(rs, bit) =~= blocks_image(rs, bit + 1));
            lemma_blocks(rs, d, p, bit + 1);
            assert(grouped_from(rs, bit) =~= grouped_from(rs, bit + 1));
        } else {
            let img = block_image(bk, bit, string_pool(rs));
            let rest = blocks_image(rs, bit + 1);
            assert(blocks_image(rs, bit) == img + rest);
            lemma_placed_split(d, p, img, rest);
            lemma_block(rs, d, p, bit);
            lemma_blocks(rs, d, p + img.len(), bit + 1);
        }
    }
}

/// Writing raw records to a v2 troybin and reading the bytes back gives the
/// records grouped by block, each block keeping their order, for records
/// that a v2 file can hold.
pub proof fn lemma_v2_round_trip(rs: Seq<RawRecordView>)
    requires
        writable(rs),
    ensures
        v2_image(rs)[0] == 2,
        v2_records(v2_image(rs)) == Some(grouped(rs)),
{
    let d = v2_image(rs);
    let pool = string_pool(rs);
    let flags = flags_upto(rs, 14);
    let head = seq![2u8] + u16_le(pool.len()) + le_bytes(flags as nat, 2);
    let body = blocks_image(rs, 0);
    lemma_u16_le(pool.len());
    lemma_byte_ranges();
    lemma_le_round_trip(flags as nat, 2);
    assert(head.len() == 5);
    assert(d == head + body);
    assert(d.subrange(1, 3) =~= u16_le(pool.len()));
    assert(d.subrange(3, 5) =~= le_bytes(flags as nat, 2));
    assert(u16_at(d, 1) == pool.len());
    assert(u16_at(d, 3) == flags);
    let i = choose|i: int| 0 <= i < rs.len() && rs[i].storage != StorageType::OldFormat;
    assert(writable_record(rs[i]));
    let code = storage_code(rs[i].storage);
    assert(code < 14);
    lemma_bucket_nonempty(rs, code as nat, i, rs.len());
    lemma_flags_upto(rs, 14, code as nat);
    lemma_set_bit_nonzero(flags, code as nat);
    assert(d.subrange(5, d.len() as int) =~= body);
    assert(placed(d, 5, body));
    lemma_blocks(rs, d, 5, 0);
}

} // verus!
