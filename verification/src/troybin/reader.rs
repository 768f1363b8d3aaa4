//! The cursor the troybin reader reads its blocks with.

use vstd::prelude::*;

use crate::bytes::le_value;
use crate::wad::error::unexpected_eof;

verus! {

/// A cursor over a troybin's bytes. A read that runs past the end fails
/// with `UnexpectedEof` and leaves the cursor at the end.
pub struct BinReader {
    data: Vec<u8>,
    pos: usize,
}

impl BinReader {
    pub closed spec fn spec_data(&self) -> Seq<u8> {
        self.data@
    }

    pub closed spec fn spec_pos(&self) -> int {
        self.pos as int
    }

    /// The cursor stays within the data.
    pub closed spec fn wf(&self) -> bool {
        self.pos <= self.data@.len()
    }

    pub fn new(data: Vec<u8>) -> (r: Self)
        ensures
            r.wf(),
            r.spec_data() == data@,
            r.spec_pos() == 0,
    {
        BinReader { data, pos: 0 }
    }

    /// The `n` bytes at the cursor, moving past them; when fewer are left,
    /// an error and the cursor at the end.
    pub fn read_bytes(&mut self, n: usize) -> (r: Result<Vec<u8>, std::io::Error>)
        requires
            old(self).wf(),
        ensures
            final(self).wf(),
            final(self).spec_data() == old(self).spec_data(),
            old(self).spec_pos() + n <= old(self).spec_data().len() ==> (r matches Ok(v) && v@
                == old(self).spec_data().subrange(
                old(self).spec_pos() as int,
                old(self).spec_pos() + n,
            ) && final(self).spec_pos() == old(self).spec_pos() + n),
            old(self).spec_pos() + n > old(self).spec_data().len() ==> (r is Err
                && final(self).spec_pos() == old(self).spec_data().len()),
    {
        let len = self.data.len();
        if n > len - self.pos {
            self.pos = len;
            return Err(unexpected_eof());
        }
        let out = crate::wad::decoder::copy_range(self.data.as_slice(), self.pos, self.pos + n);
        self.pos = self.pos + n;
        Ok(out)
    }

    /// Moves past `n` bytes; when fewer are left, an error and the cursor at
    /// the end.
    pub fn skip(&mut self, n: usize) -> (r: Result<(), std::io::Error>)
        requires
            old(self).wf(),
        ensures
            final(self).wf(),
            final(self).spec_data() == old(self).spec_data(),
            old(self).spec_pos() + n <= old(self).spec_data().len() ==> (r is Ok
                && final(self).spec_pos() == old(self).spec_pos() + n),
            old(self).spec_pos() + n > old(self).spec_data().len() ==> (r is Err
                && final(self).spec_pos() == old(self).spec_data().len()),
    {
        let len = self.data.len();
        if n > len - self.pos {
            self.pos = len;
            return Err(unexpected_eof());
        }
        self.pos = self.pos + n;
        Ok(())
    }

    /// The little-endian number in the `n` bytes at the cursor.
    fn read_le(&mut self, n: usize) -> (r: Result<u64, std::io::Error>)
        requires
            old(self).wf(),
            1 <= n <= 8,
        ensures
            final(self).wf(),
            final(self).spec_data() == old(self).spec_data(),
            old(self).spec_pos() + n <= old(self).spec_data().len() ==> (r matches Ok(v) && v
                == le_value(
                old(self).spec_data().subrange(old(self).spec_pos() as int, old(self).spec_pos() + n),
            ) && final(self).spec_pos() == old(self).spec_pos() + n),
            old(self).spec_pos() + n > old(self).spec_data().len() ==> (r is Err
                && final(self).spec_pos() == old(self).spec_data().len()),
    {
        let bytes = match self.read_bytes(n) {
            Ok(b) => b,
            Err(e) => {
                return Err(e);
            },
        };
        let mut v: u64 = 0;
        let mut k = n;
        proof {
            crate::bytes::lemma_byte_ranges();
        }
        while k > 0
            invariant
                k <= n <= 8,
                bytes@.len() == n,
                v == le_value(bytes@.subrange(k as int, n as int)),
                v < crate::bytes::byte_range((n - k) as nat),
            decreases k,
        {
            k = k - 1;
            proof {
                let tail = bytes@.subrange(k as int, n as int);
                assert(tail.drop_first() =~= bytes@.subrange(k + 1, n as int));
                assert(crate::bytes::byte_range((n - k) as nat) == 256 * crate::bytes::byte_range(
                    (n - k - 1) as nat,
                ));
                lemma_byte_range_bound((n - k) as nat);
                assert(v * 256 + bytes@[k as int] < crate::bytes::byte_range((n - k) as nat))
                    by (nonlinear_arith)
                    requires
                        v < crate::bytes::byte_range((n - k - 1) as nat),
                        bytes@[k as int] < 256,
                        crate::bytes::byte_range((n - k) as nat) == 256 * crate::bytes::byte_range(
                            (n - k - 1) as nat,
                        ),
                ;
                lemma_byte_range_monotone((n - k) as nat, 8);
                crate::bytes::lemma_byte_ranges();
            }
            v = v * 256 + bytes[k] as u64;
        }
        proof {
            assert(bytes@.subrange(0, n as int) =~= bytes@);
        }
        Ok(v)
    }

    pub fn read_u8(&mut self) -> (r: Result<u8, std::io::Error>)
        requires
            old(self).wf(),
        ensures
            final(self).wf(),
            final(self).spec_data() == old(self).spec_data(),
            old(self).spec_pos() + 1 <= old(self).spec_data().len() ==> (r matches Ok(v) && v
                == old(self).spec_data()[old(self).spec_pos() as int] && final(self).spec_pos()
                == old(self).spec_pos() + 1),
            old(self).spec_pos() + 1 > old(self).spec_data().len() ==> (r is Err
                && final(self).spec_pos() == old(self).spec_data().len()),
    {
        let bytes = match self.read_bytes(1) {
            Ok(b) => b,
            Err(e) => {
                return Err(e);
            },
        };
        Ok(bytes[0])
    }

    pub fn read_u16_le(&mut self) -> (r: Result<u16, std::io::Error>)
        requires
            old(self).wf(),
        ensures
            final(self).wf(),
            final(self).spec_data() == old(self).spec_data(),
            old(self).spec_pos() + 2 <= old(self).spec_data().len() ==> (r matches Ok(v) && v
                == le_value(
                old(self).spec_data().subrange(old(self).spec_pos() as int, old(self).spec_pos() + 2),
            ) && final(self).spec_pos() == old(self).spec_pos() + 2),
            old(self).spec_pos() + 2 > old(self).spec_data().len() ==> (r is Err
                && final(self).spec_pos() == old(self).spec_data().len()),
    {
        proof {
            crate::bytes::lemma_byte_ranges();
        }
        match self.read_le(2) {
            Ok(v) => {
                proof {
                    crate::bytes::lemma_le_bytes_of_value(
                        old(self).spec_data().subrange(
                            old(self).spec_pos() as int,
                            old(self).spec_pos() + 2,
                        ),
                    );
                }
                Ok(v as u16)
            },
            Err(e) => Err(e),
        }
    }

    pub fn read_i16_le(&mut self) -> (r: Result<i16, std::io::Error>)
        requires
            old(self).wf(),
        ensures
            final(self).wf(),
            final(self).spec_data() == old(self).spec_data(),
            old(self).spec_pos() + 2 <= old(self).spec_data().len() ==> (r matches Ok(v) && v
                == signed16(
                le_value(
                    old(self).spec_data().subrange(
                        old(self).spec_pos() as int,
                        old(self).spec_pos() + 2,
                    ),
                ),
            ) && final(self).spec_pos() == old(self).spec_pos() + 2),
            old(self).spec_pos() + 2 > old(self).spec_data().len() ==> (r is Err
                && final(self).spec_pos() == old(self).spec_data().len()),
    {
        match self.read_u16_le() {
            Ok(v) => {
                let s: i16 = if v < 0x8000 {
                    v as i16
                } else {
                    (v as i32 - 0x1_0000) as i16
                };
                Ok(s)
            },
            Err(e) => Err(e),
        }
    }

    pub fn read_u32_le(&mut self) -> (r: Result<u32, std::io::Error>)
        requires
            old(self).wf(),
        ensures
            final(self).wf(),
            final(self).spec_data() == old(self).spec_data(),
            old(self).spec_pos() + 4 <= old(self).spec_data().len() ==> (r matches Ok(v) && v
                == le_value(
                old(self).spec_data().subrange(old(self).spec_pos() as int, old(self).spec_pos() + 4),
            ) && final(self).spec_pos() == old(self).spec_pos() + 4),
            old(self).spec_pos() + 4 > old(self).spec_data().len() ==> (r is Err
                && final(self).spec_pos() == old(self).spec_data().len()),
    {
        proof {
            crate::bytes::lemma_byte_ranges();
        }
        match self.read_le(4) {
            Ok(v) => {
                proof {
                    crate::bytes::lemma_le_bytes_of_value(
                        old(self).spec_data().subrange(
                            old(self).spec_pos() as int,
                            old(self).spec_pos() + 4,
                        ),
                    );
                }
                Ok(v as u32)
            },
            Err(e) => Err(e),
        }
    }

    pub fn read_i32_le(&mut self) -> (r: Result<i32, std::io::Error>)
        requires
            old(self).wf(),
        ensures
            final(self).wf(),
            final(self).spec_data() == old(self).spec_data(),
            old(self).spec_pos() + 4 <= old(self).spec_data().len() ==> (r matches Ok(v) && v
                == signed32(
                le_value(
                    old(self).spec_data().subrange(
                        old(self).spec_pos() as int,
                        old(self).spec_pos() + 4,
                    ),
                ),
            ) && final(self).spec_pos() == old(self).spec_pos() + 4),
            old(self).spec_pos() + 4 > old(self).spec_data().len() ==> (r is Err
                && final(self).spec_pos() == old(self).spec_data().len()),
    {
        match self.read_u32_le() {
            Ok(v) => {
                let s: i32 = if v < 0x8000_0000 {
                    v as i32
                } else {
                    (v as i64 - 0x1_0000_0000) as i32
                };
                Ok(s)
            },
            Err(e) => Err(e),
        }
    }
}

/// The two's-complement value of a 16-bit number.
pub open spec fn signed16(v: nat) -> int {
    if v < 0x8000 {
        v as int
    } else {
        v - 0x1_0000
    }
}

/// The two's-complement value of a 32-bit number.
pub open spec fn signed32(v: nat) -> int {
    if v < 0x8000_0000 {
        v as int
    } else {
        v - 0x1_0000_0000
    }
}

proof fn lemma_byte_range_monotone(a: nat, b: nat)
    requires
        a <= b,
    ensures
        crate::bytes::byte_range(a) <= crate::bytes::byte_range(b),
    decreases b,
{
    if a < b {
        lemma_byte_range_monotone(a, (b - 1) as nat);
        assert(crate::bytes::byte_range(b) == 256 * crate::bytes::byte_range((b - 1) as nat));
    }
}

proof fn lemma_byte_range_bound(n: nat)
    requires
        1 <= n <= 8,
    ensures
        crate::bytes::byte_range(n) == 256 * crate::bytes::byte_range((n - 1) as nat),
{
}

} // verus!
