//! The troybin binary layout: v1 and v2 files read into raw records, and v2
//! files written back from them.
//!
//! A record keeps a value as the file stores it: the little-endian numbers
//! of a numeric entry, the bit of a packed boolean, the bytes of a string.
//! What those numbers mean (an `f32`'s bits, a `u8` scaled by 0.1) is for
//! the caller to read off the record's storage type.

use vstd::prelude::*;

use super::types::{components_of, storage_code, storage_of_code, StorageType, TroybinError};
use crate::bytes::{le_value, read_u16_le, read_u32_le};
use crate::wad::error::unexpected_eof;

verus! {

/// A value as a troybin stores it.
#[derive(Debug, Clone, PartialEq, Eq)]
pub enum RawValue {
    /// The components of a numeric entry, each the little-endian unsigned
    /// number of its stored bytes: 4 for `i32` and `f32`, 2 for `i16`, 1 for
    /// `u8`.
    Components(Vec<u32>),
    /// A packed boolean.
    Flag(bool),
    /// The bytes of a string, without its terminating NUL.
    Text(Vec<u8>),
}

/// A [`RawValue`] as a mathematical value.
pub enum RawValueView {
    Components(Seq<u32>),
    Flag(bool),
    Text(Seq<u8>),
}

impl View for RawValue {
    type V = RawValueView;

    open spec fn view(&self) -> RawValueView {
        match self {
            RawValue::Components(c) => RawValueView::Components(c@),
            RawValue::Flag(b) => RawValueView::Flag(*b),
            RawValue::Text(t) => RawValueView::Text(t@),
        }
    }
}

/// One entry of a troybin: its hash, how it is stored, and the stored value.
#[derive(Debug, Clone, PartialEq, Eq)]
pub struct RawRecord {
    /// The ihash of the field path.
    pub hash: u32,
    /// The block the entry is stored in.
    pub storage: StorageType,
    /// The value as stored.
    pub value: RawValue,
}

/// A [`RawRecord`] as a mathematical value.
pub struct RawRecordView {
    pub hash: u32,
    pub storage: StorageType,
    pub value: RawValueView,
}

impl View for RawRecord {
    type V = RawRecordView;

    open spec fn view(&self) -> RawRecordView {
        RawRecordView { hash: self.hash, storage: self.storage, value: self.value@ }
    }
}

/// The views of `v`'s records.
pub open spec fn records_view(v: Seq<RawRecord>) -> Seq<RawRecordView> {
    v.map_values(|r: RawRecord| r@)
}

/// Bytes per stored component of a storage type.
pub open spec fn component_width(t: StorageType) -> nat {
    match t {
        StorageType::Int16 => 2,
        StorageType::U8Scaled | StorageType::U8 | StorageType::U8x3Scaled
        | StorageType::U8x2Scaled | StorageType::U8x4Scaled => 1,
        _ => 4,
    }
}

/// The `u16` stored little-endian at `p`.
pub open spec fn u16_at(d: Seq<u8>, p: int) -> nat {
    le_value(d.subrange(p, p + 2))
}

/// The `u32` stored little-endian at `p`.
pub open spec fn u32_at(d: Seq<u8>, p: int) -> nat {
    le_value(d.subrange(p, p + 4))
}

/// The bytes of `data` from `o` up to its first NUL, or its end; nothing
/// when `o` is past the end.
pub open spec fn c_string(data: Seq<u8>, o: int) -> Seq<u8>
    decreases data.len() - o,
{
    if o < 0 || o >= data.len() || data[o] == 0 {
        Seq::empty()
    } else {
        seq![data[o]] + c_string(data, o + 1)
    }
}

/// The storage type of v2 block `bit`.
pub open spec fn storage_of_bit(bit: nat) -> StorageType {
    match storage_of_code(bit as u8) {
        Some(t) => t,
        None => StorageType::OldFormat,
    }
}

/// Entry `i` of a numeric block whose hashes start at `hp` and values at
/// `vp`.
pub open spec fn number_entry(d: Seq<u8>, hp: int, vp: int, i: int, t: StorageType) -> RawRecordView {
    let c = components_of(t);
    let w = component_width(t);
    RawRecordView {
        hash: u32_at(d, hp + 4 * i) as u32,
        storage: t,
        value: RawValueView::Components(
            Seq::new(c, |k: int| le_value(d.subrange(vp + (i * c + k) * w, vp + (i * c + k) * w + w)) as u32),
        ),
    }
}

/// A numeric block at `p`: an `u16` count, the hashes, then each entry's
/// components. The records and where the block ends, or `None` when the
/// data ends first.
pub open spec fn number_block(d: Seq<u8>, p: int, t: StorageType) -> Option<(Seq<RawRecordView>, int)> {
    if p + 2 > d.len() {
        None
    } else {
        let n = u16_at(d, p);
        let hp = p + 2;
        let vp = hp + 4 * n;
        let end = vp + n * components_of(t) * component_width(t);
        if end > d.len() {
            None
        } else {
            Some((Seq::new(n, |i: int| number_entry(d, hp, vp, i, t)), end))
        }
    }
}

/// Bytes that hold `n` packed booleans.
pub open spec fn flag_bytes(n: nat) -> nat {
    n / 8 + if n % 8 != 0 {
        1nat
    } else {
        0nat
    }
}

/// Boolean `j` of the packed bytes at `bp`: bit `j % 8` of byte `j / 8`.
pub open spec fn flag_at(d: Seq<u8>, bp: int, j: int) -> bool {
    ((d[bp + j / 8] >> ((j % 8) as u8)) & 1u8) == 1u8
}

/// The boolean block at `p`: an `u16` count, the hashes, the packed bits.
pub open spec fn bool_block(d: Seq<u8>, p: int) -> Option<(Seq<RawRecordView>, int)> {
    if p + 2 > d.len() {
        None
    } else {
        let n = u16_at(d, p);
        let hp = p + 2;
        let bp = hp + 4 * n;
        let end = bp + flag_bytes(n);
        if end > d.len() {
            None
        } else {
            Some(
                (
                    Seq::new(
                        n,
                        |j: int|
                            RawRecordView {
                                hash: u32_at(d, hp + 4 * j) as u32,
                                storage: StorageType::Bool,
                                value: RawValueView::Flag(flag_at(d, bp, j)),
                            },
                    ),
                    end,
                ),
            )
        }
    }
}

/// The string block at `p`: an `u16` count, the hashes, an `u16` offset per
/// string, then `strings_length` bytes of NUL-terminated strings.
pub open spec fn string_block(d: Seq<u8>, p: int, strings_length: nat) -> Option<
    (Seq<RawRecordView>, int),
> {
    if p + 2 > d.len() {
        None
    } else {
        let n = u16_at(d, p);
        let hp = p + 2;
        let op = hp + 4 * n;
        let dp = op + 2 * n;
        let end = dp + strings_length;
        if end > d.len() {
            None
        } else {
            Some(
                (
                    Seq::new(
                        n,
                        |i: int|
                            RawRecordView {
                                hash: u32_at(d, hp + 4 * i) as u32,
                                storage: StorageType::StringBlock,
                                value: RawValueView::Text(
                                    c_string(d.subrange(dp, end), u16_at(d, op + 2 * i) as int),
                                ),
                            },
                    ),
                    end,
                ),
            )
        }
    }
}

/// Block `bit` at `p`. Bits 14 and 15 name no block and read nothing.
pub open spec fn block_at(d: Seq<u8>, p: int, bit: nat, strings_length: nat) -> Option<
    (Seq<RawRecordView>, int),
> {
    if bit == 5 {
        bool_block(d, p)
    } else if bit == 12 {
        string_block(d, p, strings_length)
    } else if bit < 14 {
        number_block(d, p, storage_of_bit(bit))
    } else {
        Some((Seq::empty(), p))
    }
}

/// Whether bit `bit` of `flags` is set.
pub open spec fn flag_set(flags: u16, bit: nat) -> bool {
    flags & (1u16 << (bit as u16)) != 0
}

/// The blocks `flags` names from bit `bit` on, read one after the other from
/// `p`: their records in bit order and where the last ends.
pub open spec fn blocks_from(d: Seq<u8>, p: int, flags: u16, strings_length: nat, bit: nat) -> Option<
    (Seq<RawRecordView>, int),
>
    decreases 16 - bit,
{
    if bit >= 16 {
        Some((Seq::empty(), p))
    } else if !flag_set(flags, bit) {
        blocks_from(d, p, flags, strings_length, bit + 1)
    } else {
        match block_at(d, p, bit, strings_length) {
            None => None,
            Some((rs, q)) => match blocks_from(d, q, flags, strings_length, bit + 1) {
                None => None,
                Some((rest, e)) => Some((rs + rest, e)),
            },
        }
    }
}

/// The records of a v2 file (its version byte at 0): the strings length and
/// the flags, a second flags word when the first is zero, then the blocks.
pub open spec fn v2_records(d: Seq<u8>) -> Option<Seq<RawRecordView>> {
    if d.len() < 5 {
        None
    } else {
        let strings_length = u16_at(d, 1);
        let flags = u16_at(d, 3) as u16;
        let (start, flags) = if flags == 0 {
            (7int, u16_at(d, 5) as u16)
        } else {
            (5int, flags)
        };
        if start > d.len() {
            None
        } else {
            match blocks_from(d, start, flags, strings_length, 0) {
                Some((rs, _)) => Some(rs),
                None => None,
            }
        }
    }
}

/// The records of a v1 file (its version byte at 0): three unknown bytes,
/// the entry and data counts, a hash and an offset per entry, then the data
/// block of NUL-terminated strings.
pub open spec fn v1_records(d: Seq<u8>) -> Option<Seq<RawRecordView>> {
    if d.len() < 12 {
        None
    } else {
        let n = u32_at(d, 4);
        let m = u32_at(d, 8);
        let dp = 12 + 8 * n;
        let end = dp + m;
        if end > d.len() {
            None
        } else {
            Some(
                Seq::new(
                    n,
                    |i: int|
                        RawRecordView {
                            hash: u32_at(d, 12 + 8 * i) as u32,
                            storage: StorageType::OldFormat,
                            value: RawValueView::Text(
                                c_string(d.subrange(dp as int, end as int), u32_at(d, 12 + 8 * i + 4) as int),
                            ),
                        },
                ),
            )
        }
    }
}

/// The bytes of `data` from `o` up to its first NUL, or its end.
fn c_string_at(data: &[u8], o: usize) -> (r: Vec<u8>)
    ensures
        r@ == c_string(data@, o as int),
{
    let mut out: Vec<u8> = Vec::new();
    let mut i = o;
    let len = data.len();
    while i < len && data[i] != 0
        invariant
            o <= i,
            len == data@.len(),
            c_string(data@, o as int) == out@ + c_string(data@, i as int),
        decreases len - i,
    {
        proof {
            assert(c_string(data@, i as int) == seq![data@[i as int]] + c_string(data@, i + 1));
            assert(out@ + c_string(data@, i as int) =~= out@.push(data@[i as int]) + c_string(
                data@,
                i + 1,
            ));
        }
        out.push(data[i]);
        i = i + 1;
    }
    proof {
        assert(c_string(data@, i as int) =~= Seq::<u8>::empty());
        assert(out@ + Seq::<u8>::empty() =~= out@);
    }
    out
}

/// Bytes per stored component of `t`.
fn width_of(t: StorageType) -> (r: usize)
    ensures
        r == component_width(t),
        r == 1 || r == 2 || r == 4,
{
    match t {
        StorageType::Int16 => 2,
        StorageType::U8Scaled | StorageType::U8 | StorageType::U8x3Scaled
        | StorageType::U8x2Scaled | StorageType::U8x4Scaled => 1,
        _ => 4,
    }
}

/// The little-endian number in the `w` bytes at `p`.
fn component_at(d: &[u8], p: usize, w: usize) -> (r: u32)
    requires
        w == 1 || w == 2 || w == 4,
        p + w <= d@.len(),
    ensures
        r == le_value(d@.subrange(p as int, p + w)) as u32,
{
    if w == 1 {
        proof {
            reveal_with_fuel(le_value, 2);
            assert(d@.subrange(p as int, p + 1).drop_first() =~= Seq::<u8>::empty());
        }
        d[p] as u32
    } else if w == 2 {
        read_u16_le(d, p) as u32
    } else {
        read_u32_le(d, p)
    }
}

/// An entry's stored position stays inside its block.
proof fn lemma_component_in_block(i: int, k: int, n: int, c: int, w: int)
    requires
        0 <= i < n,
        0 <= k < c,
        0 <= w,
    ensures
        (i * c + k) * w + w <= n * c * w,
        0 <= (i * c + k) * w,
{
    assert((i * c + k) * w + w <= n * c * w) by (nonlinear_arith)
        requires
            0 <= i < n,
            0 <= k < c,
            0 <= w,
    ;
    assert(0 <= (i * c + k) * w) by (nonlinear_arith)
        requires
            0 <= i,
            0 <= k,
            0 <= c,
            0 <= w,
    ;
}

/// Reads the numeric block of storage `t` at `p`.
fn read_numbers(d: &[u8], p: usize, t: StorageType) -> (r: Option<(Vec<RawRecord>, usize)>)
    requires
        p <= d@.len(),
        t != StorageType::Bool,
        t != StorageType::StringBlock,
    ensures
        match number_block(d@, p as int, t) {
            None => r is None,
            Some((rs, e)) => r matches Some((v, q)) && records_view(v@) == rs && q == e,
        },
{
    let len = d.len();
    if len - p < 2 {
        return None;
    }
    let n = read_u16_le(d, p) as usize;
    let c = t.component_count();
    let w = width_of(t);
    let hp = p + 2;
    proof {
        assert(n * c <= 0x1_0000 * 4 && n * c * w <= 0x1_0000 * 16) by (nonlinear_arith)
            requires
                n < 0x1_0000,
                c <= 4,
                w <= 4,
        ;
    }
    let need = 4 * n + n * c * w;
    if len - hp < need {
        return None;
    }
    let vp = hp + 4 * n;
    let ghost dv = d@;
    let mut out: Vec<RawRecord> = Vec::new();
    let mut i: usize = 0;
    while i < n
        invariant
            dv == d@,
            len == d@.len(),
            n == u16_at(d@, p as int),
            c == components_of(t),
            w == component_width(t),
            w == 1 || w == 2 || w == 4,
            c <= 4,
            hp == p + 2,
            vp == hp + 4 * n,
            vp + n * c * w <= len,
            i <= n,
            out@.len() == i,
            forall|j: int| 0 <= j < i ==> (#[trigger] out@[j])@ == number_entry(dv, hp as int, vp as int, j, t),
        decreases n - i,
    {
        let hash = read_u32_le(d, hp + 4 * i);
        let mut comps: Vec<u32> = Vec::new();
        let mut k: usize = 0;
        while k < c
            invariant
                dv == d@,
                len == d@.len(),
                c == components_of(t),
                w == component_width(t),
                w == 1 || w == 2 || w == 4,
                c <= 4,
                vp + n * c * w <= len,
                i < n,
                k <= c,
                comps@.len() == k,
                forall|m: int|
                    0 <= m < k ==> #[trigger] comps@[m] == le_value(
                        dv.subrange(vp + (i * c + m) * w, vp + (i * c + m) * w + w),
                    ) as u32,
            decreases c - k,
        {
            proof {
                lemma_component_in_block(i as int, k as int, n as int, c as int, w as int);
            }
            let at = vp + (i * c + k) * w;
            let v = component_at(d, at, w);
            comps.push(v);
            k = k + 1;
        }
        let record = RawRecord { hash, storage: t, value: RawValue::Components(comps) };
        proof {
            let want = number_entry(dv, hp as int, vp as int, i as int, t);
            assert(want.value == RawValueView::Components(
                Seq::new(c as nat, |m: int| le_value(dv.subrange(vp + (i * c + m) * w, vp + (i * c + m) * w + w)) as u32),
            ));
            assert(comps@ =~= Seq::new(c as nat, |m: int| le_value(dv.subrange(vp + (i * c + m) * w, vp + (i * c + m) * w + w)) as u32));
            assert(record@ == want);
        }
        out.push(record);
        i = i + 1;
    }
    proof {
        assert(records_view(out@) =~= Seq::new(n as nat, |j: int| number_entry(dv, hp as int, vp as int, j, t)));
    }
    Some((out, vp + n * c * w))
}

/// Reads the boolean block at `p`.
fn read_bools(d: &[u8], p: usize) -> (r: Option<(Vec<RawRecord>, usize)>)
    requires
        p <= d@.len(),
    ensures
        match bool_block(d@, p as int) {
            None => r is None,
            Some((rs, e)) => r matches Some((v, q)) && records_view(v@) == rs && q == e,
        },
{
    let len = d.len();
    if len - p < 2 {
        return None;
    }
    let n = read_u16_le(d, p) as usize;
    let hp = p + 2;
    let bytes_count = n / 8 + if n % 8 != 0 {
        1
    } else {
        0
    };
    if len - hp < 4 * n + bytes_count {
        return None;
    }
    let bp = hp + 4 * n;
    let ghost dv = d@;
    let mut out: Vec<RawRecord> = Vec::new();
    let mut j: usize = 0;
    while j < n
        invariant
            dv == d@,
            len == d@.len(),
            n == u16_at(d@, p as int),
            hp == p + 2,
            bp == hp + 4 * n,
            bp + flag_bytes(n as nat) <= len,
            j <= n,
            out@.len() == j,
            forall|m: int|
                0 <= m < j ==> (#[trigger] out@[m])@ == (RawRecordView {
                    hash: u32_at(dv, hp + 4 * m) as u32,
                    storage: StorageType::Bool,
                    value: RawValueView::Flag(flag_at(dv, bp as int, m)),
                }),
        decreases n - j,
    {
        let hash = read_u32_le(d, hp + 4 * j);
        let byte = d[bp + j / 8];
        let bit = (byte >> ((j % 8) as u8)) & 1u8;
        out.push(RawRecord { hash, storage: StorageType::Bool, value: RawValue::Flag(bit == 1u8) });
        j = j + 1;
    }
    proof {
        assert(records_view(out@) =~= Seq::new(
            n as nat,
            |m: int|
                RawRecordView {
                    hash: u32_at(dv, hp + 4 * m) as u32,
                    storage: StorageType::Bool,
                    value: RawValueView::Flag(flag_at(dv, bp as int, m)),
                },
        ));
    }
    Some((out, bp + bytes_count))
}

/// Reads the string block at `p`, its strings `strings_length` bytes long.
fn read_strings(d: &[u8], p: usize, strings_length: usize) -> (r: Option<(Vec<RawRecord>, usize)>)
    requires
        p <= d@.len(),
        strings_length < 0x1_0000,
    ensures
        match string_block(d@, p as int, strings_length as nat) {
            None => r is None,
            Some((rs, e)) => r matches Some((v, q)) && records_view(v@) == rs && q == e,
        },
{
    let len = d.len();
    if len - p < 2 {
        return None;
    }
    let n = read_u16_le(d, p) as usize;
    let hp = p + 2;
    if len - hp < 6 * n + strings_length {
        return None;
    }
    let op = hp + 4 * n;
    let dp = op + 2 * n;
    let end = dp + strings_length;
    let data = crate::wad::decoder::copy_range(d, dp, end);
    let ghost dv = d@;
    let mut out: Vec<RawRecord> = Vec::new();
    let mut i: usize = 0;
    while i < n
        invariant
            dv == d@,
            len == d@.len(),
            n == u16_at(d@, p as int),
            hp == p + 2,
            op == hp + 4 * n,
            dp == op + 2 * n,
            end == dp + strings_length,
            end <= len,
            data@ == dv.subrange(dp as int, end as int),
            i <= n,
            out@.len() == i,
            forall|m: int|
                0 <= m < i ==> (#[trigger] out@[m])@ == (RawRecordView {
                    hash: u32_at(dv, hp + 4 * m) as u32,
                    storage: StorageType::StringBlock,
                    value: RawValueView::Text(
                        c_string(dv.subrange(dp as int, end as int), u16_at(dv, op + 2 * m) as int),
                    ),
                }),
        decreases n - i,
    {
        let hash = read_u32_le(d, hp + 4 * i);
        let offset = read_u16_le(d, op + 2 * i) as usize;
        let text = c_string_at(data.as_slice(), offset);
        out.push(RawRecord { hash, storage: StorageType::StringBlock, value: RawValue::Text(text) });
        i = i + 1;
    }
    proof {
        assert(records_view(out@) =~= Seq::new(
            n as nat,
            |m: int|
                RawRecordView {
                    hash: u32_at(dv, hp + 4 * m) as u32,
                    storage: StorageType::StringBlock,
                    value: RawValueView::Text(
                        c_string(dv.subrange(dp as int, end as int), u16_at(dv, op + 2 * m) as int),
                    ),
                },
        ));
    }
    Some((out, end))
}

/// Reads block `bit` at `p`.
fn read_block(d: &[u8], p: usize, bit: u16, strings_length: usize) -> (r: Option<(Vec<RawRecord>, usize)>)
    requires
        p <= d@.len(),
        bit < 16,
        strings_length < 0x1_0000,
    ensures
        match block_at(d@, p as int, bit as nat, strings_length as nat) {
            None => r is None,
            Some((rs, e)) => r matches Some((v, q)) && records_view(v@) == rs && q == e,
        },
{
    if bit == 5 {
        read_bools(d, p)
    } else if bit == 12 {
        read_strings(d, p, strings_length)
    } else if bit < 14 {
        match StorageType::try_from_u8(bit as u8) {
            Ok(t) => read_numbers(d, p, t),
            Err(_) => None,
        }
    } else {
        let none: Vec<RawRecord> = Vec::new();
        proof {
            assert(records_view(none@) =~= Seq::<RawRecordView>::empty());
        }
        Some((none, p))
    }
}

/// Reads the blocks `flags` names, in bit order, from `start`.
fn read_blocks(d: &[u8], start: usize, flags: u16, strings_length: usize) -> (r: Option<Vec<RawRecord>>)
    requires
        start <= d@.len(),
        strings_length < 0x1_0000,
    ensures
        match blocks_from(d@, start as int, flags, strings_length as nat, 0) {
            None => r is None,
            Some((rs, _)) => r matches Some(v) && records_view(v@) == rs,
        },
{
    let mut out: Vec<RawRecord> = Vec::new();
    let mut pos = start;
    let mut bit: u16 = 0;
    proof {
        assert(records_view(out@) + Seq::<RawRecordView>::empty() =~= Seq::<RawRecordView>::empty());
        match blocks_from(d@, start as int, flags, strings_length as nat, 0) {
            None => {},
            Some((rest, e)) => {
                assert(records_view(out@) + rest =~= rest);
            },
        }
    }
    while bit < 16
        invariant
            bit <= 16,
            pos <= d@.len(),
            strings_length < 0x1_0000,
            blocks_from(d@, start as int, flags, strings_length as nat, 0) == match blocks_from(
                d@,
                pos as int,
                flags,
                strings_length as nat,
                bit as nat,
            ) {
                None => None,
                Some((rest, e)) => Some((records_view(out@) + rest, e)),
            },
        decreases 16 - bit,
    {
        if flags & (1u16 << bit) != 0 {
            match read_block(d, pos, bit, strings_length) {
                None => {
                    return None;
                },
                Some((mut rs, q)) => {
                    let ghost before = records_view(out@);
                    let ghost got = records_view(rs@);
                    out.append(&mut rs);
                    proof {
                        assert(records_view(out@) =~= before + got);
                        match blocks_from(d@, q as int, flags, strings_length as nat, (bit + 1) as nat) {
                            None => {},
                            Some((rest, e)) => {
                                assert(before + (got + rest) =~= (before + got) + rest);
                            },
                        }
                    }
                    pos = q;
                },
            }
        }
        bit = bit + 1;
    }
    proof {
        assert(records_view(out@) + Seq::<RawRecordView>::empty() =~= records_view(out@));
    }
    Some(out)
}

/// Reads a v2 file, its version byte at 0.
pub fn read_v2(data: &[u8]) -> (r: Result<Vec<RawRecord>, TroybinError>)
    ensures
        match v2_records(data@) {
            None => r matches Err(TroybinError::Io(_)),
            Some(rs) => r matches Ok(v) && records_view(v@) == rs,
        },
{
    let len = data.len();
    if len < 5 {
        return Err(TroybinError::Io(unexpected_eof()));
    }
    let strings_length = read_u16_le(data, 1) as usize;
    let first = read_u16_le(data, 3);
    let (start, flags) = if first == 0 {
        if len < 7 {
            return Err(TroybinError::Io(unexpected_eof()));
        }
        (7, read_u16_le(data, 5))
    } else {
        (5, first)
    };
    match read_blocks(data, start, flags, strings_length) {
        Some(v) => Ok(v),
        None => Err(TroybinError::Io(unexpected_eof())),
    }
}

/// Reads a v1 file, its version byte at 0.
pub fn read_v1(data: &[u8]) -> (r: Result<Vec<RawRecord>, TroybinError>)
    ensures
        match v1_records(data@) {
            None => r matches Err(TroybinError::Io(_)),
            Some(rs) => r matches Ok(v) && records_view(v@) == rs,
        },
{
    let len = data.len();
    if len < 12 {
        return Err(TroybinError::Io(unexpected_eof()));
    }
    let n = read_u32_le(data, 4);
    let m = read_u32_le(data, 8);
    let need: u64 = 12 + 8 * (n as u64) + m as u64;
    if need > len as u64 {
        return Err(TroybinError::Io(unexpected_eof()));
    }
    let n = n as usize;
    let dp = 12 + 8 * n;
    let end = dp + m as usize;
    let block = crate::wad::decoder::copy_range(data, dp, end);
    let ghost dv = data@;
    let mut out: Vec<RawRecord> = Vec::new();
    let mut i: usize = 0;
    while i < n
        invariant
            dv == data@,
            n == u32_at(dv, 4),
            dp == 12 + 8 * n,
            end == dp + u32_at(dv, 8),
            end <= dv.len(),
            block@ == dv.subrange(dp as int, end as int),
            i <= n,
            out@.len() == i,
            forall|k: int|
                0 <= k < i ==> (#[trigger] out@[k])@ == (RawRecordView {
                    hash: u32_at(dv, 12 + 8 * k) as u32,
                    storage: StorageType::OldFormat,
                    value: RawValueView::Text(
                        c_string(dv.subrange(dp as int, end as int), u32_at(dv, 12 + 8 * k + 4) as int),
                    ),
                }),
        decreases n - i,
    {
        let hash = read_u32_le(data, 12 + 8 * i);
        let offset = read_u32_le(data, 12 + 8 * i + 4) as usize;
        let text = c_string_at(block.as_slice(), offset);
        out.push(RawRecord { hash, storage: StorageType::OldFormat, value: RawValue::Text(text) });
        i = i + 1;
    }
    proof {
        assert(records_view(out@) =~= Seq::new(
            n as nat,
            |k: int|
                RawRecordView {
                    hash: u32_at(dv, 12 + 8 * k) as u32,
                    storage: StorageType::OldFormat,
                    value: RawValueView::Text(
                        c_string(dv.subrange(dp as int, end as int), u32_at(dv, 12 + 8 * k + 4) as int),
                    ),
                },
        ));
    }
    Ok(out)
}

/// Read a troybin binary buffer, returning its version and raw records.
///
/// Fails with `Empty` for no bytes, `UnknownVersion` for a first byte other
/// than 1 or 2, and an I/O error when the data ends before the layout does.
pub fn read_binary(data: &[u8]) -> (r: Result<(u8, Vec<RawRecord>), TroybinError>)
    ensures
        data@.len() == 0 ==> r matches Err(TroybinError::Empty),
        data@.len() > 0 && data@[0] == 2 ==> match v2_records(data@) {
            None => r matches Err(TroybinError::Io(_)),
            Some(rs) => r matches Ok((version, v)) && version == 2 && records_view(v@) == rs,
        },
        data@.len() > 0 && data@[0] == 1 ==> match v1_records(data@) {
            None => r matches Err(TroybinError::Io(_)),
            Some(rs) => r matches Ok((version, v)) && version == 1 && records_view(v@) == rs,
        },
        data@.len() > 0 && data@[0] != 1 && data@[0] != 2 ==> (r matches Err(
            TroybinError::UnknownVersion(x),
        ) && x == data@[0]),
{
    if data.len() == 0 {
        return Err(TroybinError::Empty);
    }
    let version = data[0];
    if version == 2 {
        match read_v2(data) {
            Ok(v) => Ok((2, v)),
            Err(e) => Err(e),
        }
    } else if version == 1 {
        match read_v1(data) {
            Ok(v) => Ok((1, v)),
            Err(e) => Err(e),
        }
    } else {
        Err(TroybinError::UnknownVersion(version))
    }
}

/// The records of `rs[..i]` stored in block `bit`, in order.
pub open spec fn bucket_upto(rs: Seq<RawRecordView>, bit: nat, i: nat) -> Seq<RawRecordView>
    decreases i,
{
    if i == 0 {
        Seq::empty()
    } else {
        let prev = bucket_upto(rs, bit, (i - 1) as nat);
        if storage_code(rs[i - 1].storage) == bit {
            prev.push(rs[i - 1])
        } else {
            prev
        }
    }
}

/// The records of `rs` stored in block `bit`, in order.
pub open spec fn bucket(rs: Seq<RawRecordView>, bit: nat) -> Seq<RawRecordView> {
    bucket_upto(rs, bit, rs.len())
}

/// The flags word of blocks `0..b`: bit `k` set when block `k` holds records.
pub open spec fn flags_upto(rs: Seq<RawRecordView>, b: nat) -> u16
    decreases b,
{
    if b == 0 {
        0u16
    } else {
        flags_upto(rs, (b - 1) as nat) | (if bucket(rs, (b - 1) as nat).len() > 0 {
            1u16 << ((b - 1) as u16)
        } else {
            0u16
        })
    }
}

/// The bytes of a string value; nothing for any other value.
pub open spec fn text_of(v: RawValueView) -> Seq<u8> {
    match v {
        RawValueView::Text(t) => t,
        _ => Seq::empty(),
    }
}

/// The strings of `rs[..i]`, each followed by a NUL.
pub open spec fn pool_upto(rs: Seq<RawRecordView>, i: nat) -> Seq<u8>
    decreases i,
{
    if i == 0 {
        Seq::empty()
    } else {
        pool_upto(rs, (i - 1) as nat) + text_of(rs[i - 1].value).push(0u8)
    }
}

/// The string data of a v2 file written from `rs`.
pub open spec fn string_pool(rs: Seq<RawRecordView>) -> Seq<u8> {
    pool_upto(bucket(rs, 12), bucket(rs, 12).len())
}

/// `x` stored as an `u16`, its bits past the 16th dropped.
pub open spec fn u16_le(x: nat) -> Seq<u8> {
    crate::bytes::le_bytes(x % 0x1_0000, 2)
}

/// The hashes of `rs[..i]`.
pub open spec fn hashes_upto(rs: Seq<RawRecordView>, i: nat) -> Seq<u8>
    decreases i,
{
    if i == 0 {
        Seq::empty()
    } else {
        hashes_upto(rs, (i - 1) as nat) + crate::bytes::le_bytes(rs[i - 1].hash as nat, 4)
    }
}

/// The first `k` components of `cs`, `w` bytes each.
pub open spec fn components_bytes(cs: Seq<u32>, w: nat, k: nat) -> Seq<u8>
    decreases k,
{
    if k == 0 {
        Seq::empty()
    } else {
        components_bytes(cs, w, (k - 1) as nat) + crate::bytes::le_bytes(cs[k - 1] as nat, w)
    }
}

/// The stored value of one entry of numeric block `t`: its components, or
/// zeros for a value that has none.
pub open spec fn entry_values(v: RawValueView, t: StorageType) -> Seq<u8> {
    match v {
        RawValueView::Components(cs) => components_bytes(cs, component_width(t), cs.len()),
        _ => Seq::new(components_of(t) * component_width(t), |i: int| 0u8),
    }
}

/// The stored values of `rs[..i]` in numeric block `t`.
pub open spec fn values_upto(rs: Seq<RawRecordView>, t: StorageType, i: nat) -> Seq<u8>
    decreases i,
{
    if i == 0 {
        Seq::empty()
    } else {
        values_upto(rs, t, (i - 1) as nat) + entry_values(rs[i - 1].value, t)
    }
}

/// Whether record `i` of `rs` is a set flag.
pub open spec fn flag_of(rs: Seq<RawRecordView>, i: int) -> bool {
    0 <= i < rs.len() && rs[i].value == RawValueView::Flag(true)
}

/// The flags of `rs[base..base + s]` packed into one byte, bit `k` for
/// record `base + k`.
pub open spec fn pack_bits(rs: Seq<RawRecordView>, base: int, s: nat) -> u8
    decreases s,
{
    if s == 0 {
        0u8
    } else {
        pack_bits(rs, base, (s - 1) as nat) | (if flag_of(rs, base + s - 1) {
            1u8 << ((s - 1) as u8)
        } else {
            0u8
        })
    }
}

/// The first `k` bytes of `rs`'s packed flags.
pub open spec fn packed_upto(rs: Seq<RawRecordView>, k: nat) -> Seq<u8>
    decreases k,
{
    if k == 0 {
        Seq::empty()
    } else {
        packed_upto(rs, (k - 1) as nat).push(pack_bits(rs, 8 * (k - 1), 8))
    }
}

/// The offsets of `rs[..i]`'s strings in their pool.
pub open spec fn offsets_upto(rs: Seq<RawRecordView>, i: nat) -> Seq<u8>
    decreases i,
{
    if i == 0 {
        Seq::empty()
    } else {
        offsets_upto(rs, (i - 1) as nat) + u16_le(pool_upto(rs, (i - 1) as nat).len())
    }
}

/// Block `bit` written from its records `rs`, with the file's string `pool`.
pub open spec fn block_image(rs: Seq<RawRecordView>, bit: nat, pool: Seq<u8>) -> Seq<u8> {
    let n = rs.len();
    u16_le(n) + hashes_upto(rs, n) + if bit == 5 {
        packed_upto(rs, flag_bytes(n))
    } else if bit == 12 {
        offsets_upto(rs, n) + pool
    } else {
        values_upto(rs, storage_of_bit(bit), n)
    }
}

/// The blocks from `bit` on that hold records of `rs`, in bit order.
pub open spec fn blocks_image(rs: Seq<RawRecordView>, bit: nat) -> Seq<u8>
    decreases 14 - bit,
{
    if bit >= 14 {
        Seq::empty()
    } else {
        (if bucket(rs, bit).len() > 0 {
            block_image(bucket(rs, bit), bit, string_pool(rs))
        } else {
            Seq::empty()
        }) + blocks_image(rs, bit + 1)
    }
}

/// The v2 file written from `rs`: version 2, the strings length, the flags,
/// then each non-empty block. Records of the old format are left out.
pub open spec fn v2_image(rs: Seq<RawRecordView>) -> Seq<u8> {
    seq![2u8] + u16_le(string_pool(rs).len()) + crate::bytes::le_bytes(flags_upto(rs, 14) as nat, 2)
        + blocks_image(rs, 0)
}

/// The records of `rs` that `idx` points at, in its order.
pub open spec fn picked(rs: Seq<RawRecordView>, idx: Seq<usize>) -> Seq<RawRecordView> {
    Seq::new(idx.len(), |j: int| rs[idx[j] as int])
}

/// The positions in `records` of the records stored in block `bit`.
fn bucket_indices(records: &[RawRecord], bit: u8) -> (r: Vec<usize>)
    ensures
        forall|j: int| 0 <= j < r@.len() ==> #[trigger] r@[j] < records@.len(),
        picked(records_view(records@), r@) == bucket(records_view(records@), bit as nat),
{
    let ghost rs = records_view(records@);
    let mut out: Vec<usize> = Vec::new();
    let mut i: usize = 0;
    while i < records.len()
        invariant
            rs == records_view(records@),
            i <= records@.len(),
            forall|j: int| 0 <= j < out@.len() ==> #[trigger] out@[j] < i,
            picked(rs, out@) == bucket_upto(rs, bit as nat, i as nat),
        decreases records@.len() - i,
    {
        if records[i].storage.to_u8() == bit {
            let ghost before = out@;
            out.push(i);
            proof {
                assert(picked(rs, out@) =~= picked(rs, before).push(rs[i as int]));
            }
        }
        i = i + 1;
    }
    out
}

/// Appends the hashes of the records `idx` points at.
fn push_hashes(out: &mut Vec<u8>, records: &[RawRecord], idx: &[usize])
    requires
        forall|j: int| 0 <= j < idx@.len() ==> #[trigger] idx@[j] < records@.len(),
    ensures
        final(out)@ == old(out)@ + hashes_upto(
            picked(records_view(records@), idx@),
            idx@.len(),
        ),
{
    let ghost rs = picked(records_view(records@), idx@);
    let mut j: usize = 0;
    while j < idx.len()
        invariant
            rs == picked(records_view(records@), idx@),
            forall|m: int| 0 <= m < idx@.len() ==> #[trigger] idx@[m] < records@.len(),
            j <= idx@.len(),
            out@ == old(out)@ + hashes_upto(rs, j as nat),
        decreases idx@.len() - j,
    {
        let ghost before = out@;
        crate::bytes::push_le(out, records[idx[j]].hash as u64, 4);
        proof {
            assert(out@ =~= old(out)@ + hashes_upto(rs, (j + 1) as nat));
        }
        j = j + 1;
    }
}

/// Appends the stored values of the records `idx` points at, in numeric
/// block `t`.
fn push_values(out: &mut Vec<u8>, records: &[RawRecord], idx: &[usize], t: StorageType)
    requires
        forall|j: int| 0 <= j < idx@.len() ==> #[trigger] idx@[j] < records@.len(),
    ensures
        final(out)@ == old(out)@ + values_upto(picked(records_view(records@), idx@), t, idx@.len()),
{
    let ghost rs = picked(records_view(records@), idx@);
    let c = t.component_count();
    let w = width_of(t);
    let mut j: usize = 0;
    while j < idx.len()
        invariant
            rs == picked(records_view(records@), idx@),
            forall|m: int| 0 <= m < idx@.len() ==> #[trigger] idx@[m] < records@.len(),
            c == components_of(t),
            w == component_width(t),
            w <= 4,
            c <= 4,
            j <= idx@.len(),
            out@ == old(out)@ + values_upto(rs, t, j as nat),
        decreases idx@.len() - j,
    {
        let ghost before = out@;
        match &records[idx[j]].value {
            RawValue::Components(cs) => {
                let mut k: usize = 0;
                while k < cs.len()
                    invariant
                        w == component_width(t),
                        w <= 4,
                        k <= cs@.len(),
                        out@ == before + components_bytes(cs@, w as nat, k as nat),
                    decreases cs@.len() - k,
                {
                    let ghost mid = out@;
                    crate::bytes::push_le(out, cs[k] as u64, w);
                    proof {
                        assert(out@ =~= before + components_bytes(cs@, w as nat, (k + 1) as nat));
                    }
                    k = k + 1;
                }
                proof {
                    assert(rs[j as int].value == RawValueView::Components(cs@));
                }
            },
            _ => {
                proof {
                    assert(c * w <= 16) by (nonlinear_arith)
                        requires
                            c <= 4,
                            w <= 4,
                    ;
                }
                let mut k: usize = 0;
                while k < c * w
                        invariant
                        c <= 4,
                        w <= 4,
                        c * w <= 16,
                        k <= c * w,
                        out@ == before + Seq::new(k as nat, |i: int| 0u8),
                    decreases c * w - k,
                {
                    out.push(0u8);
                    proof {
                        assert(out@ =~= before + Seq::new((k + 1) as nat, |i: int| 0u8));
                    }
                    k = k + 1;
                }
                proof {
                    assert(!(rs[j as int].value is Components));
                }
            },
        }
        proof {
            assert(out@ =~= old(out)@ + values_upto(rs, t, (j + 1) as nat));
        }
        j = j + 1;
    }
}

/// Appends the packed flags of the records `idx` points at.
fn push_flags(out: &mut Vec<u8>, records: &[RawRecord], idx: &[usize])
    requires
        forall|j: int| 0 <= j < idx@.len() ==> #[trigger] idx@[j] < records@.len(),
    ensures
        final(out)@ == old(out)@ + packed_upto(
            picked(records_view(records@), idx@),
            flag_bytes(idx@.len()),
        ),
{
    let ghost rs = picked(records_view(records@), idx@);
    let n = idx.len();
    let bytes_count = n / 8 + if n % 8 != 0 {
        1
    } else {
        0
    };
    let mut k: usize = 0;
    while k < bytes_count
        invariant
            rs == picked(records_view(records@), idx@),
            forall|m: int| 0 <= m < idx@.len() ==> #[trigger] idx@[m] < records@.len(),
            n == idx@.len(),
            bytes_count == flag_bytes(n as nat),
            bytes_count <= n / 8 + 1,
            k <= bytes_count,
            out@ == old(out)@ + packed_upto(rs, k as nat),
        decreases bytes_count - k,
    {
        let mut byte: u8 = 0;
        let mut s: usize = 0;
        while s < 8
            invariant
                rs == picked(records_view(records@), idx@),
                forall|m: int| 0 <= m < idx@.len() ==> #[trigger] idx@[m] < records@.len(),
                n == idx@.len(),
                k < bytes_count,
                bytes_count <= n / 8 + 1,
                s <= 8,
                byte == pack_bits(rs, 8 * k, s as nat),
            decreases 8 - s,
        {
            let j = 8 * k + s;
            let set = j < n && match &records[idx[j]].value {
                RawValue::Flag(b) => *b,
                _ => false,
            };
            proof {
                assert(set == flag_of(rs, 8 * k + s));
            }
            byte = byte | (if set {
                1u8 << (s as u8)
            } else {
                0u8
            });
            s = s + 1;
        }
        out.push(byte);
        proof {
            assert(out@ =~= old(out)@ + packed_upto(rs, (k + 1) as nat));
        }
        k = k + 1;
    }
}

/// The string pool of the records `idx` points at, and each string's offset
/// in it stored as an `u16`.
fn build_string_pool(records: &[RawRecord], idx: &[usize]) -> (r: (Vec<u8>, Vec<u16>))
    requires
        forall|j: int| 0 <= j < idx@.len() ==> #[trigger] idx@[j] < records@.len(),
    ensures
        r.0@ == pool_upto(picked(records_view(records@), idx@), idx@.len()),
        r.1@.len() == idx@.len(),
        forall|j: int|
            0 <= j < idx@.len() ==> #[trigger] r.1@[j] as nat == pool_upto(
                picked(records_view(records@), idx@),
                j as nat,
            ).len() % 0x1_0000,
{
    let ghost rs = picked(records_view(records@), idx@);
    let mut data: Vec<u8> = Vec::new();
    let mut offsets: Vec<u16> = Vec::new();
    let mut j: usize = 0;
    while j < idx.len()
        invariant
            rs == picked(records_view(records@), idx@),
            forall|m: int| 0 <= m < idx@.len() ==> #[trigger] idx@[m] < records@.len(),
            j <= idx@.len(),
            data@ == pool_upto(rs, j as nat),
            offsets@.len() == j,
            forall|m: int| 0 <= m < j ==> #[trigger] offsets@[m] as nat == pool_upto(rs, m as nat).len() % 0x1_0000,
        decreases idx@.len() - j,
    {
        offsets.push((data.len() % 0x1_0000) as u16);
        let ghost before = data@;
        match &records[idx[j]].value {
            RawValue::Text(t) => {
                let mut k: usize = 0;
                while k < t.len()
                    invariant
                        k <= t@.len(),
                        data@ == before + t@.subrange(0, k as int),
                    decreases t@.len() - k,
                {
                    data.push(t[k]);
                    proof {
                        assert(data@ =~= before + t@.subrange(0, k + 1));
                    }
                    k = k + 1;
                }
                proof {
                    assert(t@.subrange(0, t@.len() as int) =~= t@);
                    assert(text_of(rs[j as int].value) == t@);
                }
            },
            _ => {
                proof {
                    assert(text_of(rs[j as int].value) =~= Seq::<u8>::empty());
                    assert(before + Seq::<u8>::empty() =~= before);
                }
            },
        }
        data.push(0u8);
        proof {
            assert(data@ =~= pool_upto(rs, (j + 1) as nat));
        }
        j = j + 1;
    }
    (data, offsets)
}

/// Appends block `bit`, holding the records `idx` points at, with the
/// file's string `pool` and its strings' `offsets`.
fn push_block(
    out: &mut Vec<u8>,
    records: &[RawRecord],
    idx: &[usize],
    bit: u8,
    pool: &[u8],
    offsets: &[u16],
)
    requires
        bit < 14,
        forall|j: int| 0 <= j < idx@.len() ==> #[trigger] idx@[j] < records@.len(),
        bit == 12 ==> offsets@.len() == idx@.len(),
        bit == 12 ==> forall|j: int|
            0 <= j < offsets@.len() ==> #[trigger] offsets@[j] as nat == pool_upto(
                picked(records_view(records@), idx@),
                j as nat,
            ).len() % 0x1_0000,
    ensures
        final(out)@ == old(out)@ + block_image(picked(records_view(records@), idx@), bit as nat, pool@),
{
    let ghost bk = picked(records_view(records@), idx@);
    crate::bytes::push_le(out, (idx.len() % 0x1_0000) as u64, 2);
    push_hashes(out, records, idx);
    let ghost head = out@;
    if bit == 5 {
        push_flags(out, records, idx);
    } else if bit == 12 {
        let mut j: usize = 0;
        while j < offsets.len()
            invariant
                offsets@.len() == bk.len(),
                forall|m: int|
                    0 <= m < offsets@.len() ==> #[trigger] offsets@[m] as nat == pool_upto(
                        bk,
                        m as nat,
                    ).len() % 0x1_0000,
                j <= offsets@.len(),
                out@ == head + offsets_upto(bk, j as nat),
            decreases offsets@.len() - j,
        {
            crate::bytes::push_le(out, offsets[j] as u64, 2);
            proof {
                assert(out@ =~= head + offsets_upto(bk, (j + 1) as nat));
            }
            j = j + 1;
        }
        let ghost mid = out@;
        let mut k: usize = 0;
        while k < pool.len()
            invariant
                k <= pool@.len(),
                out@ == mid + pool@.subrange(0, k as int),
            decreases pool@.len() - k,
        {
            out.push(pool[k]);
            proof {
                assert(out@ =~= mid + pool@.subrange(0, k + 1));
            }
            k = k + 1;
        }
        proof {
            assert(pool@.subrange(0, pool@.len() as int) =~= pool@);
            assert(out@ =~= head + (offsets_upto(bk, bk.len()) + pool@));
        }
    } else {
        match StorageType::try_from_u8(bit) {
            Ok(t) => {
                push_values(out, records, idx, t);
            },
            Err(_) => {},
        }
    }
    proof {
        assert(out@ =~= old(out)@ + block_image(bk, bit as nat, pool@));
    }
}

/// Write raw records to a v2 troybin binary.
///
/// The records are grouped by storage type into blocks written in flag-bit
/// order, each keeping its records' order; records of the old format are
/// left out, as v1 cannot be written. Counts, offsets and the strings length
/// are stored as `u16`.
pub fn write_v2(records: &[RawRecord]) -> (r: Vec<u8>)
    ensures
        r@ == v2_image(records_view(records@)),
{
    let ghost rs = records_view(records@);
    let mut buckets: Vec<Vec<usize>> = Vec::new();
    let mut b: u8 = 0;
    while b < 14
        invariant
            rs == records_view(records@),
            b <= 14,
            buckets@.len() == b,
            forall|k: int, j: int|
                0 <= k < b && 0 <= j < buckets@[k]@.len() ==> #[trigger] buckets@[k]@[j] < records@.len(),
            forall|k: int| 0 <= k < b ==> picked(rs, #[trigger] buckets@[k]@) == bucket(rs, k as nat),
        decreases 14 - b,
    {
        let indices = bucket_indices(records, b);
        buckets.push(indices);
        b = b + 1;
    }
    let mut flags: u16 = 0;
    let mut bit: u16 = 0;
    while bit < 14
        invariant
            rs == records_view(records@),
            bit <= 14,
            buckets@.len() == 14,
            forall|k: int| 0 <= k < 14 ==> picked(rs, #[trigger] buckets@[k]@) == bucket(rs, k as nat),
            flags == flags_upto(rs, bit as nat),
        decreases 14 - bit,
    {
        let nonempty = buckets[bit as usize].len() > 0;
        proof {
            assert(picked(rs, buckets@[bit as int]@).len() == buckets@[bit as int]@.len());
        }
        flags = flags | (if nonempty {
            1u16 << bit
        } else {
            0u16
        });
        bit = bit + 1;
    }
    let (pool, offsets) = build_string_pool(records, buckets[12].as_slice());
    proof {
        assert(picked(rs, buckets@[12]@) == bucket(rs, 12));
    }
    let mut out: Vec<u8> = Vec::new();
    out.push(2u8);
    crate::bytes::push_le(&mut out, (pool.len() % 0x1_0000) as u64, 2);
    crate::bytes::push_le(&mut out, flags as u64, 2);
    let mut bit: u8 = 0;
    proof {
        assert(out@ + blocks_image(rs, 0) =~= v2_image(rs));
    }
    while bit < 14
        invariant
            rs == records_view(records@),
            bit <= 14,
            buckets@.len() == 14,
            forall|k: int, j: int|
                0 <= k < 14 && 0 <= j < buckets@[k]@.len() ==> #[trigger] buckets@[k]@[j] < records@.len(),
            forall|k: int| 0 <= k < 14 ==> picked(rs, #[trigger] buckets@[k]@) == bucket(rs, k as nat),
            pool@ == string_pool(rs),
            offsets@.len() == bucket(rs, 12).len(),
            forall|j: int|
                0 <= j < offsets@.len() ==> #[trigger] offsets@[j] as nat == pool_upto(
                    bucket(rs, 12),
                    j as nat,
                ).len() % 0x1_0000,
            out@ + blocks_image(rs, bit as nat) == v2_image(rs),
        decreases 14 - bit,
    {
        let idx = buckets[bit as usize].as_slice();
        let ghost before = out@;
        let ghost bk = bucket(rs, bit as nat);
        proof {
            assert(picked(rs, idx@) == bk);
            assert(bk.len() == idx@.len());
        }
        if idx.len() > 0 {
            push_block(&mut out, records, idx, bit, pool.as_slice(), offsets.as_slice());
            proof {
                assert(before + blocks_image(rs, bit as nat) =~= before + block_image(
                    bk,
                    bit as nat,
                    string_pool(rs),
                ) + blocks_image(rs, (bit + 1) as nat));
            }
        } else {
            proof {
                assert(blocks_image(rs, bit as nat) =~= blocks_image(rs, (bit + 1) as nat));
            }
        }
        bit = bit + 1;
    }
    proof {
        assert(out@ + Seq::<u8>::empty() =~= out@);
    }
    out
}

/// Whether every record of `rs` is of the old format.
pub open spec fn all_old_format(rs: Seq<RawRecordView>) -> bool {
    forall|i: int| 0 <= i < rs.len() ==> #[trigger] rs[i].storage == StorageType::OldFormat
}

/// Write raw records to binary.
///
/// When every record is of the old format (and there is one), fails with
/// `V1WriteNotSupported`: v1 is a read-only format. Otherwise writes v2.
pub fn write_binary(records: &[RawRecord]) -> (r: Result<Vec<u8>, TroybinError>)
    ensures
        all_old_format(records_view(records@)) && records@.len() > 0 ==> r matches Err(
            TroybinError::V1WriteNotSupported,
        ),
        !(all_old_format(records_view(records@)) && records@.len() > 0) ==> (r matches Ok(v)
            && v@ == v2_image(records_view(records@))),
{
    let ghost rs = records_view(records@);
    let mut all_old = true;
    let mut i: usize = 0;
    while i < records.len()
        invariant
            rs == records_view(records@),
            i <= records@.len(),
            all_old == forall|j: int| 0 <= j < i ==> #[trigger] rs[j].storage == StorageType::OldFormat,
        decreases records@.len() - i,
    {
        let old_format = match records[i].storage {
            StorageType::OldFormat => true,
            _ => false,
        };
        proof {
            assert((forall|j: int| 0 <= j < i + 1 ==> #[trigger] rs[j].storage == StorageType::OldFormat)
                == ((forall|j: int| 0 <= j < i ==> #[trigger] rs[j].storage == StorageType::OldFormat)
                && rs[i as int].storage == StorageType::OldFormat));
        }
        all_old = all_old && old_format;
        i = i + 1;
    }
    if all_old && records.len() > 0 {
        return Err(TroybinError::V1WriteNotSupported);
    }
    Ok(write_v2(records))
}

} // verus!
