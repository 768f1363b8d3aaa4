//! Little-endian integers as the byte runs the file formats store them in.

use vstd::prelude::*;

verus! {

/// The number a little-endian run of bytes spells.
pub open spec fn le_value(s: Seq<u8>) -> nat
    decreases s.len(),
{
    if s.len() == 0 {
        0
    } else {
        s[0] as nat + 256 * le_value(s.drop_first())
    }
}

/// The `n` low bytes of `x`, least significant first.
pub open spec fn le_bytes(x: nat, n: nat) -> Seq<u8>
    decreases n,
{
    if n == 0 {
        Seq::empty()
    } else {
        seq![(x % 256) as u8] + le_bytes(x / 256, (n - 1) as nat)
    }
}

/// `256` to the power `n`: one past the largest value `n` bytes hold.
pub open spec fn byte_range(n: nat) -> nat
    decreases n,
{
    if n == 0 {
        1
    } else {
        256 * byte_range((n - 1) as nat)
    }
}

pub proof fn lemma_le_bytes_len(x: nat, n: nat)
    ensures
        le_bytes(x, n).len() == n,
    decreases n,
{
    if n > 0 {
        lemma_le_bytes_len(x / 256, (n - 1) as nat);
    }
}

/// Reading back the bytes of a value that fits gives the value.
pub proof fn lemma_le_value_of_bytes(x: nat, n: nat)
    requires
        x < byte_range(n),
    ensures
        le_value(le_bytes(x, n)) == x,
    decreases n,
{
    if n > 0 {
        lemma_le_bytes_len(x / 256, (n - 1) as nat);
        lemma_le_value_of_bytes(x / 256, (n - 1) as nat);
        let s = le_bytes(x, n);
        assert(s.drop_first() =~= le_bytes(x / 256, (n - 1) as nat));
    } else {
        assert(x == 0);
    }
}

/// Writing out the value of a run gives the run.
pub proof fn lemma_le_bytes_of_value(s: Seq<u8>)
    ensures
        le_bytes(le_value(s), s.len()) =~= s,
        le_value(s) < byte_range(s.len()),
    decreases s.len(),
{
    if s.len() > 0 {
        lemma_le_bytes_of_value(s.drop_first());
        let v = le_value(s);
        assert(v % 256 == s[0] as nat);
        assert(v / 256 == le_value(s.drop_first()));
        let t = le_bytes(v, s.len());
        assert(t =~= seq![s[0]] + s.drop_first());
        assert(seq![s[0]] + s.drop_first() =~= s);
    }
}

pub proof fn lemma_byte_ranges()
    ensures
        byte_range(1) == 0x100,
        byte_range(2) == 0x1_0000,
        byte_range(3) == 0x100_0000,
        byte_range(4) == 0x1_0000_0000,
        byte_range(8) == 0x1_0000_0000_0000_0000,
{
    reveal_with_fuel(byte_range, 9);
}

/// The `u16` stored little-endian at `pos`.
pub fn read_u16_le(bytes: &[u8], pos: usize) -> (r: u16)
    requires
        pos + 2 <= bytes@.len(),
    ensures
        r == le_value(bytes@.subrange(pos as int, pos + 2)),
{
    let s = Ghost(bytes@.subrange(pos as int, pos + 2));
    proof {
        reveal_with_fuel(le_value, 3);
        assert(s@.drop_first().drop_first() =~= Seq::<u8>::empty());
    }
    bytes[pos] as u16 + bytes[pos + 1] as u16 * 0x100
}

/// The `u32` stored little-endian at `pos`.
pub fn read_u32_le(bytes: &[u8], pos: usize) -> (r: u32)
    requires
        pos + 4 <= bytes@.len(),
    ensures
        r == le_value(bytes@.subrange(pos as int, pos + 4)),
{
    let s = Ghost(bytes@.subrange(pos as int, pos + 4));
    proof {
        reveal_with_fuel(le_value, 5);
        assert(s@.drop_first().drop_first().drop_first().drop_first() =~= Seq::<u8>::empty());
    }
    bytes[pos] as u32 + bytes[pos + 1] as u32 * 0x100 + bytes[pos + 2] as u32 * 0x1_0000
        + bytes[pos + 3] as u32 * 0x100_0000
}

/// The `u64` stored little-endian at `pos`.
pub fn read_u64_le(bytes: &[u8], pos: usize) -> (r: u64)
    requires
        pos + 8 <= bytes@.len(),
    ensures
        r == le_value(bytes@.subrange(pos as int, pos + 8)),
{
    let _len = bytes.len();
    let lo = read_u32_le(bytes, pos);
    let hi = read_u32_le(bytes, pos + 4);
    proof {
        lemma_le_value_split(bytes@.subrange(pos as int, pos + 8), 4);
        assert(bytes@.subrange(pos as int, pos + 8).subrange(0, 4) =~= bytes@.subrange(
            pos as int,
            pos + 4,
        ));
        assert(bytes@.subrange(pos as int, pos + 8).subrange(4, 8) =~= bytes@.subrange(
            pos + 4,
            pos + 8,
        ));
        lemma_byte_ranges();
    }
    lo as u64 + hi as u64 * 0x1_0000_0000
}

/// A run splits into its low `k` bytes and the rest.
pub proof fn lemma_le_value_split(s: Seq<u8>, k: nat)
    requires
        k <= s.len(),
    ensures
        le_value(s) == le_value(s.subrange(0, k as int)) + byte_range(k) * le_value(
            s.subrange(k as int, s.len() as int),
        ),
    decreases k,
{
    if k > 0 {
        let t = s.drop_first();
        lemma_le_value_split(t, (k - 1) as nat);
        let lo = s.subrange(0, k as int);
        assert(t.subrange(0, k - 1) =~= lo.drop_first());
        assert(t.subrange(k - 1, t.len() as int) =~= s.subrange(k as int, s.len() as int));
        let a = le_value(lo.drop_first());
        let b = le_value(s.subrange(k as int, s.len() as int));
        assert(le_value(lo) == s[0] as nat + 256 * a);
        assert(le_value(t) == a + byte_range((k - 1) as nat) * b);
        assert(byte_range(k) == 256 * byte_range((k - 1) as nat));
        assert(256 * (a + byte_range((k - 1) as nat) * b) == 256 * a + (256 * byte_range(
            (k - 1) as nat,
        )) * b) by (nonlinear_arith);
        assert(le_value(s) == s[0] as nat + 256 * le_value(t));
        assert(byte_range(k) * b == (256 * byte_range((k - 1) as nat)) * b);
    } else {
        assert(s.subrange(0, s.len() as int) =~= s);
        assert(byte_range(0) == 1);
        assert(s.subrange(0, 0) =~= Seq::<u8>::empty());
    }
}

/// Append the `n` low bytes of `x`, least significant first.
pub fn push_le(out: &mut Vec<u8>, x: u64, n: usize)
    requires
        n <= 8,
    ensures
        final(out)@ == old(out)@ + le_bytes(x as nat, n as nat),
{
    let mut v = x;
    let mut i: usize = 0;
    proof {
        assert(old(out)@ + le_bytes(x as nat, 0) =~= old(out)@);
    }
    while i < n
        invariant
            i <= n,
            out@ + le_bytes(v as nat, (n - i) as nat) == old(out)@ + le_bytes(x as nat, n as nat),
        decreases n - i,
    {
        let ghost before = out@;
        out.push((v % 256) as u8);
        proof {
            let rest = le_bytes((v / 256) as nat, (n - i - 1) as nat);
            assert(le_bytes(v as nat, (n - i) as nat) == seq![(v % 256) as u8] + rest);
            assert(before + (seq![(v % 256) as u8] + rest) =~= out@ + rest);
        }
        v = v / 256;
        i = i + 1;
    }
    proof {
        assert(out@ + le_bytes(v as nat, 0) =~= out@);
    }
}

} // verus!
