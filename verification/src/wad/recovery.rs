//! Recovering chunk names from the `.bin` files of an archive: the strings a
//! bin holds, read as the length-prefixed runs the format writes, with no
//! parse of its property data.

use vstd::prelude::*;
use vstd::arithmetic::power2::pow2;

use std::collections::{HashMap, HashSet};

use crate::text::chars_of;
use super::builder::{lowercase_utf8, to_lowercase_bytes};
use super::codec::{xxh64, xxh64_of};
use super::resolver::{answer_view, PathResolver};

verus! {

#[verifier::external_type_specification]
#[verifier::external_body]
pub struct ExUtf8Error(std::str::Utf8Error);

/// Whether every byte is ASCII.
pub open spec fn all_ascii(bytes: Seq<u8>) -> bool {
    forall|i: int| 0 <= i < bytes.len() ==> bytes[i] < 128
}

/// The ASCII bytes as the characters they encode, one per byte.
pub open spec fn ascii_chars(bytes: Seq<u8>) -> Seq<char> {
    Seq::new(bytes.len(), |i: int| bytes[i] as char)
}

/// std's `str::from_utf8`.
///
/// Claims: bytes that are all ASCII decode, one character per byte. What it
/// gives for other bytes is left unsaid.
#[verifier::external_body]
fn from_utf8(bytes: &[u8]) -> (r: Result<&str, std::str::Utf8Error>)
    ensures
        r is Ok || !all_ascii(bytes@),
        r matches Ok(s) ==> (all_ascii(bytes@) ==> s@ == ascii_chars(bytes@)),
{
    std::str::from_utf8(bytes)
}

/// Shortest printable run worth a hash. No chunk path is shorter.
pub const MIN_CANDIDATE_LEN: usize = 4;

/// Whether `b` is printable ASCII.
pub open spec fn printable(b: u8) -> bool {
    0x20 <= b <= 0x7e
}

/// Where the run of printable bytes from `start` ends.
pub open spec fn run_end(data: Seq<u8>, start: int) -> int
    decreases data.len() - start,
{
    if start < 0 || start >= data.len() || !printable(data[start]) {
        start
    } else {
        run_end(data, start + 1)
    }
}

pub proof fn lemma_run_end(data: Seq<u8>, start: int)
    requires
        0 <= start <= data.len(),
    ensures
        start <= run_end(data, start) <= data.len(),
        start < data.len() && printable(data[start]) ==> run_end(data, start) > start,
        forall|j: int| start <= j < run_end(data, start) ==> printable(#[trigger] data[j]),
        run_end(data, start) < data.len() ==> !printable(data[run_end(data, start)]),
    decreases data.len() - start,
{
    if start < data.len() && printable(data[start]) {
        lemma_run_end(data, start + 1);
    }
}

/// The string a run from `start` to `end` holds: as long as the
/// little-endian `u16` in front of it says, when that fits the run, is at
/// least `MIN_CANDIDATE_LEN`, and holds a `/` or a `.`.
pub open spec fn candidate_at(data: Seq<u8>, start: int, end: int) -> Option<Seq<u8>> {
    if start >= 2 && end - start >= 4 {
        let len = data[start - 2] as int + 256 * data[start - 1] as int;
        if len >= 4 && start + len <= end {
            let c = data.subrange(start, start + len);
            if c.contains(0x2f) || c.contains(0x2e) {
                Some(c)
            } else {
                None
            }
        } else {
            None
        }
    } else {
        None
    }
}

/// The strings a bin holds from `start` on: every run of printable bytes
/// read as a length-prefixed string.
pub open spec fn candidates_from(data: Seq<u8>, start: int) -> Seq<Seq<u8>>
    decreases data.len() - start,
{
    if start < 0 || start >= data.len() {
        Seq::empty()
    } else if !printable(data[start]) {
        candidates_from(data, start + 1)
    } else {
        let end = run_end(data, start);
        if end <= start {
            Seq::empty()
        } else {
            proof {
                lemma_run_end(data, start);
            }
            let rest = candidates_from(data, end);
            match candidate_at(data, start, end) {
                Some(c) => seq![c] + rest,
                None => rest,
            }
        }
    }
}

/// The bytes of each string, read as characters.
pub open spec fn as_text(s: Seq<Seq<u8>>) -> Seq<Seq<char>> {
    s.map_values(|c: Seq<u8>| c.map_values(|b: u8| b as char))
}

/// Whether `b` is printable ASCII.
pub fn is_printable(byte: u8) -> (r: bool)
    ensures
        r == printable(byte),
{
    0x20 <= byte && byte <= 0x7e
}

/// Whether `data[start..end]` holds a `/` or a `.`.
fn has_slash_or_dot(data: &[u8], start: usize, end: usize) -> (r: bool)
    requires
        start <= end <= data@.len(),
    ensures
        r == (data@.subrange(start as int, end as int).contains(0x2f) || data@.subrange(
            start as int,
            end as int,
        ).contains(0x2e)),
{
    let ghost c = data@.subrange(start as int, end as int);
    let mut k = start;
    while k < end
        invariant
            start <= k <= end <= data@.len(),
            c == data@.subrange(start as int, end as int),
            forall|j: int| start <= j < k ==> data@[j] != 0x2f && data@[j] != 0x2e,
        decreases end - k,
    {
        if data[k] == 0x2f || data[k] == 0x2e {
            proof {
                assert(c[k - start] == data@[k as int]);
            }
            return true;
        }
        k = k + 1;
    }
    proof {
        assert(!c.contains(0x2f) && !c.contains(0x2e)) by {
            assert forall|j: int| 0 <= j < c.len() implies c[j] != 0x2f && c[j] != 0x2e by {
                assert(c[j] == data@[start + j]);
            }
        }
    }
    false
}

/// Every string a bin holds, as the text between its length prefix and its
/// end.
///
/// The format writes a string as a little-endian `u16` length and the bytes,
/// with no terminator. A path is printable ASCII and its length's high byte
/// is zero, so each run of printable bytes starts on a string's first byte,
/// the two bytes in front of the run are its length, and the length bounds
/// the string however many printable bytes follow it.
pub fn candidates(data: &[u8]) -> (r: Vec<String>)
    ensures
        r@.map_values(|s: String| s@) == as_text(candidates_from(data@, 0)),
{
    let n = data.len();
    let mut out: Vec<String> = Vec::new();
    let mut start: usize = 0;
    while start < n
        invariant
            n == data@.len(),
            start <= n,
            out@.map_values(|s: String| s@) + as_text(candidates_from(data@, start as int)) == as_text(
                candidates_from(data@, 0),
            ),
        decreases n - start,
    {
        if !is_printable(data[start]) {
            start = start + 1;
            continue;
        }
        let mut end = start;
        while end < n && is_printable(data[end])
            invariant
                start <= end <= n,
                n == data@.len(),
                forall|j: int| start <= j < end ==> printable(#[trigger] data@[j]),
            decreases n - end,
        {
            end = end + 1;
        }
        proof {
            lemma_run_end(data@, start as int);
            lemma_run_end_is(data@, start as int, end as int);
        }
        let ghost before = out@;
        if start >= 2 && end - start >= MIN_CANDIDATE_LEN {
            let len = data[start - 2] as usize + 256 * data[start - 1] as usize;
            if len >= MIN_CANDIDATE_LEN && len <= end - start {
                if has_slash_or_dot(data, start, start + len) {
                    let bytes = crate::wad::decoder::copy_range(data, start, start + len);
                    proof {
                        assert forall|i: int| 0 <= i < bytes@.len() implies bytes@[i] < 128 by {
                            assert(bytes@[i] == data@[start + i]);
                            assert(printable(data@[start + i]));
                        }
                        assert(ascii_chars(bytes@) =~= bytes@.map_values(|b: u8| b as char));
                    }
                    match from_utf8(bytes.as_slice()) {
                        Ok(text) => {
                            out.push(String::from_str(text));
                        },
                        Err(_) => {},
                    }
                }
            }
        }
        proof {
            let c = candidate_at(data@, start as int, end as int);
            assert(candidates_from(data@, start as int) == match c {
                Some(x) => seq![x] + candidates_from(data@, end as int),
                None => candidates_from(data@, end as int),
            });
            match c {
                Some(x) => {
                    assert(out@.map_values(|s: String| s@) =~= before.map_values(|s: String| s@)
                        + as_text(seq![x]));
                    assert(as_text(seq![x] + candidates_from(data@, end as int)) =~= as_text(seq![x])
                        + as_text(candidates_from(data@, end as int)));
                },
                None => {
                    assert(out@ == before);
                },
            }
        }
        start = end;
    }
    proof {
        assert(candidates_from(data@, start as int) == Seq::<Seq<u8>>::empty());
        assert(as_text(Seq::<Seq<u8>>::empty()) =~= Seq::<Seq<char>>::empty());
        assert(out@.map_values(|s: String| s@) + Seq::<Seq<char>>::empty() =~= out@.map_values(
            |s: String| s@,
        ));
    }
    out
}

proof fn lemma_run_end_is(data: Seq<u8>, start: int, end: int)
    requires
        0 <= start <= end <= data.len(),
        forall|j: int| start <= j < end ==> printable(#[trigger] data[j]),
        end == data.len() || !printable(data[end]),
    ensures
        run_end(data, start) == end,
    decreases end - start,
{
    if start < end {
        lemma_run_end_is(data, start + 1, end);
    }
}

/// Whether `path` ends in `.bin`, in any case, after at least one more
/// character.
pub open spec fn bin_name(path: Seq<char>) -> bool {
    let n = path.len();
    &&& n >= 5
    &&& path[n - 4] == '.'
    &&& (path[n - 3] == 'b' || path[n - 3] == 'B')
    &&& (path[n - 2] == 'i' || path[n - 2] == 'I')
    &&& (path[n - 1] == 'n' || path[n - 1] == 'N')
}

/// Whether `path` names a `.bin` file, the extension in any case.
pub fn is_bin_name(path: &str) -> (r: bool)
    ensures
        r == bin_name(path@),
{
    let chars = chars_of(path);
    let n = chars.len();
    n >= 5 && chars[n - 4] == '.' && (chars[n - 3] == 'b' || chars[n - 3] == 'B') && (chars[n
        - 2] == 'i' || chars[n - 2] == 'I') && (chars[n - 1] == 'n' || chars[n - 1] == 'N')
}

/// The lower-case hex digit of `d`.
pub open spec fn hex_digit(d: nat) -> char {
    if d < 10 {
        (0x30 + d) as char
    } else {
        (0x61 + d - 10) as char
    }
}

/// `path_hash` as sixteen lower-case hex digits, most significant first.
pub open spec fn hex_name_of(path_hash: u64) -> Seq<char> {
    Seq::new(16, |i: int| hex_digit(((path_hash as nat / pow2((4 * (15 - i)) as nat)) % 16) as nat))
}

/// The name of a chunk no resolver names: its path hash as sixteen
/// lower-case hex digits.
pub fn hex_name(path_hash: u64) -> (r: String)
    ensures
        r@ == hex_name_of(path_hash),
{
    let digits = "0123456789abcdef";
    proof {
        reveal_strlit("0123456789abcdef");
    }
    let mut out = String::new();
    let mut i: u64 = 0;
    while i < 16
        invariant
            i <= 16,
            digits@.len() == 16,
            forall|k: int| 0 <= k < 16 ==> #[trigger] digits@[k] == hex_digit(k as nat),
            out@ == hex_name_of(path_hash).subrange(0, i as int),
        decreases 16 - i,
    {
        let shift = 4 * (15 - i);
        proof {
            vstd::bits::lemma_u64_shr_is_div(path_hash, shift);
        }
        let d = ((path_hash >> shift) & 0xF) as usize;
        proof {
            let x = path_hash >> shift;
            assert(x & 0xF == x % 16) by (bit_vector);
        }
        out.append(digits.substring_char(d, d + 1));
        proof {
            assert(out@ =~= hex_name_of(path_hash).subrange(0, i + 1));
        }
        i = i + 1;
    }
    out
}

/// The value of the hex digit `c`, either case.
pub open spec fn hex_value_of(c: char) -> Option<nat> {
    if '0' <= c && c <= '9' {
        Some((c as nat - 0x30) as nat)
    } else if 'a' <= c && c <= 'f' {
        Some((c as nat - 0x61 + 10) as nat)
    } else if 'A' <= c && c <= 'F' {
        Some((c as nat - 0x41 + 10) as nat)
    } else {
        None
    }
}

/// The number the hex digits of `s` write, most significant first.
pub open spec fn hex_number(s: Seq<char>) -> nat
    decreases s.len(),
{
    if s.len() == 0 {
        0
    } else {
        hex_number(s.drop_last()) * 16 + match hex_value_of(s.last()) {
            Some(d) => d,
            None => 0,
        }
    }
}

/// Whether `s` is sixteen hex digits: the name of a nameless chunk.
pub open spec fn is_hex_stem(s: Seq<char>) -> bool {
    s.len() == 16 && forall|i: int| 0 <= i < 16 ==> (#[trigger] hex_value_of(s[i])) is Some
}

/// The stem camino's `Utf8Path::file_stem` gives for `path`: its file name
/// without the extension, or `None` when it has no file name.
pub uninterp spec fn file_stem_of(path: Seq<char>) -> Option<Seq<char>>;

/// Whether `s` holds no `/`.
pub open spec fn no_slash(s: Seq<char>) -> bool {
    forall|i: int| 0 <= i < s.len() ==> s[i] != '/'
}

/// Whether `s` holds no `\`.
pub open spec fn no_backslash(s: Seq<char>) -> bool {
    forall|i: int| 0 <= i < s.len() ==> s[i] != '\\'
}

/// Whether `s` holds no `:`.
pub open spec fn no_colon(s: Seq<char>) -> bool {
    forall|i: int| 0 <= i < s.len() ==> s[i] != ':'
}

/// Whether `s` is one path component on every host: no `/`, no `\` and no
/// `:` to split it or make it a drive prefix.
pub open spec fn one_component(s: Seq<char>) -> bool {
    no_slash(s) && no_backslash(s) && no_colon(s)
}

/// Whether `s` holds no `.`.
pub open spec fn no_dot(s: Seq<char>) -> bool {
    forall|i: int| 0 <= i < s.len() ==> s[i] != '.'
}

/// The part of `p` before its one `.`, when `p` holds exactly one `.` and
/// something before it.
pub open spec fn one_dot_stem(p: Seq<char>) -> Option<Seq<char>> {
    if exists|i: int|
        0 < i < p.len() && p[i] == '.' && no_dot(p.subrange(0, i)) && no_dot(
            p.subrange(i + 1, p.len() as int),
        ) {
        let i = choose|i: int|
            0 < i < p.len() && p[i] == '.' && no_dot(p.subrange(0, i)) && no_dot(
                p.subrange(i + 1, p.len() as int),
            );
        Some(p.subrange(0, i))
    } else {
        None
    }
}

/// camino's `Utf8Path::file_stem`, the stem copied out.
///
/// Claims: the result is the named stem. Also, as its documentation gives:
/// a non-empty path of one component with no `.` is its own stem, and one
/// of one component with a single `.`, something before it, has the part
/// before the `.` as its stem. One component means no `/`, `\` or `:`, so
/// that no host splits it or reads it as a drive prefix.
#[verifier::external_body]
pub(crate) fn file_stem(path: &str) -> (r: Option<String>)
    ensures
        r is Some <==> file_stem_of(path@) is Some,
        r matches Some(x) ==> file_stem_of(path@) == Some(x@),
        r is Some || !(path@.len() > 0 && one_component(path@) && no_dot(path@)),
        r matches Some(x) ==> (path@.len() > 0 && one_component(path@) && no_dot(path@) ==> x@
            == path@),
        r is Some || !(one_component(path@) && one_dot_stem(path@) is Some),
        r matches Some(x) ==> (one_component(path@) && one_dot_stem(path@) is Some ==> Some(x@)
            == one_dot_stem(path@)),
{
    camino::Utf8Path::new(path).file_stem().map(|s| s.to_string())
}

/// The hash a file stem names, when it is sixteen hex digits.
pub open spec fn stem_hash(stem: Option<Seq<char>>) -> Option<u64> {
    match stem {
        Some(s) => if is_hex_stem(s) {
            Some(hex_number(s) as u64)
        } else {
            None
        },
        None => None,
    }
}

/// The value of the hex digit `c`.
fn hex_digit_value(c: char) -> (r: Option<u64>)
    ensures
        match hex_value_of(c) {
            Some(d) => r == Some(d as u64),
            None => r is None,
        },
{
    if '0' <= c && c <= '9' {
        Some(c as u64 - 0x30)
    } else if 'a' <= c && c <= 'f' {
        Some(c as u64 - 0x61 + 10)
    } else if 'A' <= c && c <= 'F' {
        Some(c as u64 - 0x41 + 10)
    } else {
        None
    }
}

/// The chunk `path` was written for, when its file stem is a hash: the
/// sixteen hex digits of a nameless chunk's name, read back. `None` for any
/// other shape.
pub fn hex_chunk_hash(path: &str) -> (r: Option<u64>)
    ensures
        r == stem_hash(file_stem_of(path@)),
{
    let stem = match file_stem(path) {
        Some(s) => s,
        None => {
            return None;
        },
    };
    let chars = chars_of(stem.as_str());
    if chars.len() != 16 {
        return None;
    }
    let mut value: u64 = 0;
    let mut i: usize = 0;
    proof {
        vstd::arithmetic::power2::lemma2_to64();
        assert(stem@.subrange(0, 0) =~= Seq::<char>::empty());
    }
    while i < 16
        invariant
            file_stem_of(path@) == Some(stem@),
            chars@ == stem@,
            chars@.len() == 16,
            i <= 16,
            forall|j: int| 0 <= j < i ==> (#[trigger] hex_value_of(stem@[j])) is Some,
            value == hex_number(stem@.subrange(0, i as int)),
            value < pow2(4 * i as nat),
        decreases 16 - i,
    {
        let d = match hex_digit_value(chars[i]) {
            Some(d) => d,
            None => {
                proof {
                    assert(hex_value_of(stem@[i as int]) is None);
                    assert(!is_hex_stem(stem@));
                }
                return None;
            },
        };
        proof {
            let p = stem@.subrange(0, i + 1);
            assert(p.drop_last() =~= stem@.subrange(0, i as int));
            assert(p.last() == stem@[i as int]);
            vstd::arithmetic::power2::lemma_pow2_adds(4 * i as nat, 4);
            vstd::arithmetic::power2::lemma2_to64();
            if i + 1 < 16 {
                vstd::arithmetic::power2::lemma_pow2_strictly_increases(4 * (i + 1) as nat, 64);
            }
            assert(value * 16 + d < pow2(4 * (i + 1) as nat)) by (nonlinear_arith)
                requires
                    value < pow2(4 * i as nat),
                    d < 16,
                    pow2(4 * (i + 1) as nat) == pow2(4 * i as nat) * pow2(4),
                    pow2(4) == 16,
            ;
            if i + 1 < 16 {
                assert(pow2(4 * (i + 1) as nat) <= 0x1_0000_0000_0000_0000);
            } else {
                assert(pow2(64) == 0x1_0000_0000_0000_0000);
            }
        }
        value = value * 16 + d;
        i = i + 1;
    }
    proof {
        assert(stem@.subrange(0, 16) =~= stem@);
        assert(is_hex_stem(stem@));
    }
    Some(value)
}

/// Whether `path`'s file stem is the sixteen hex digits a nameless chunk
/// lands under.
pub fn is_hex_chunk_path(path: &str) -> (r: bool)
    ensures
        r == (stem_hash(file_stem_of(path@)) is Some),
{
    hex_chunk_hash(path).is_some()
}

/// The first `k` digits of a hash's hex name write the hash's top `4k` bits.
proof fn lemma_hex_name_prefix(path_hash: u64, k: nat)
    requires
        k <= 16,
    ensures
        hex_number(hex_name_of(path_hash).subrange(0, k as int)) == path_hash as nat / pow2(
            (4 * (16 - k)) as nat,
        ),
    decreases k,
{
    let s = hex_name_of(path_hash);
    let h = path_hash as nat;
    vstd::arithmetic::power2::lemma2_to64();
    if k == 0 {
        assert(s.subrange(0, 0) =~= Seq::<char>::empty());
        assert(h < 0x1_0000_0000_0000_0000);
        vstd::arithmetic::div_mod::lemma_basic_div(h as int, pow2(64) as int);
    } else {
        lemma_hex_name_prefix(path_hash, (k - 1) as nat);
        let j = (k - 1) as int;
        let p = s.subrange(0, k as int);
        assert(p.drop_last() =~= s.subrange(0, j));
        assert(p.last() == s[j]);
        let x = h / pow2((4 * (15 - j)) as nat);
        let d = x % 16;
        assert(s[j] == hex_digit(d));
        assert(hex_value_of(s[j]) == Some(d));
        vstd::arithmetic::power2::lemma_pow2_adds((4 * (15 - j)) as nat, 4);
        vstd::arithmetic::power2::lemma_pow2_pos((4 * (15 - j)) as nat);
        assert((4 * (15 - j)) as nat + 4 == (4 * (16 - j)) as nat);
        assert(pow2((4 * (16 - j)) as nat) == pow2((4 * (15 - j)) as nat) * 16);
        vstd::arithmetic::div_mod::lemma_div_denominator(h as int, pow2((4 * (15 - j)) as nat) as int, 16);
        assert(x / 16 == h / pow2((4 * (16 - j)) as nat));
        vstd::arithmetic::div_mod::lemma_fundamental_div_mod(x as int, 16);
        assert(hex_number(p) == (x / 16) * 16 + d);
        assert((4 * (16 - k)) as nat == (4 * (15 - j)) as nat);
    }
}

/// The hex name of a hash reads back as the hash.
pub proof fn lemma_hex_name_round_trip(path_hash: u64)
    ensures
        is_hex_stem(hex_name_of(path_hash)),
        hex_number(hex_name_of(path_hash)) == path_hash,
{
    let s = hex_name_of(path_hash);
    let h = path_hash as nat;
    assert forall|i: int| 0 <= i < 16 implies (#[trigger] hex_value_of(s[i])) is Some by {
        let d = (h / pow2((4 * (15 - i)) as nat)) % 16;
        assert(s[i] == hex_digit(d));
    }
    lemma_hex_name_prefix(path_hash, 16);
    assert(s.subrange(0, 16) =~= s);
    vstd::arithmetic::power2::lemma2_to64();
    assert((4 * (16 - 16int)) as nat == 0);
    assert(pow2(0) == 1);
    vstd::arithmetic::div_mod::lemma_div_basics(h as int);
}

/// Configuration of a name recovery over one archive: how many threads scan
/// the bins, and a flag that stops it early.
#[derive(Debug, Clone)]
pub struct NameRecovery<'a> {
    /// How many threads scan the bins; the machine's parallelism when unset.
    workers: Option<usize>,
    /// Stops the recovery once it reads `true`.
    cancel: Option<&'a std::sync::atomic::AtomicBool>,
}

impl<'a> NameRecovery<'a> {
    pub closed spec fn spec_workers(&self) -> Option<usize> {
        self.workers
    }

    pub closed spec fn spec_cancel(&self) -> Option<&'a std::sync::atomic::AtomicBool> {
        self.cancel
    }

    /// A recovery with the default worker count and no cancel flag.
    pub fn new() -> (r: Self)
        ensures
            r.spec_workers() is None,
            r.spec_cancel() is None,
    {
        NameRecovery { workers: None, cancel: None }
    }

    /// Set how many threads decompress and scan the bins.
    pub fn with_workers(self, workers: usize) -> (r: Self)
        requires
            workers > 0,
        ensures
            r.spec_workers() == Some(workers),
            r.spec_cancel() == self.spec_cancel(),
    {
        NameRecovery { workers: Some(workers), ..self }
    }

    /// Stop early once `flag` reads `true`.
    pub fn with_cancel_flag(self, flag: &'a std::sync::atomic::AtomicBool) -> (r: Self)
        ensures
            r.spec_workers() == self.spec_workers(),
            r.spec_cancel() == Some(flag),
    {
        NameRecovery { cancel: Some(flag), ..self }
    }

    /// The worker count, if one was set.
    pub fn workers(&self) -> (r: Option<usize>)
        ensures
            r == self.spec_workers(),
    {
        self.workers
    }

    /// The cancel flag, if one was set.
    pub fn cancel_flag(&self) -> (r: Option<&'a std::sync::atomic::AtomicBool>)
        ensures
            r == self.spec_cancel(),
    {
        self.cancel
    }
}

/// The hash an archive keys `path` by: XXH64, seed 0, of its lower-case
/// UTF-8 bytes.
pub open spec fn wad_hash_of(path: Seq<char>) -> u64 {
    xxh64_of(lowercase_utf8(path), 0)
}

/// A table of names by the text of each name.
pub open spec fn names_view(names: Map<u64, String>) -> Map<u64, Seq<char>> {
    names.map_values(|s: String| s@)
}

/// `found` with each path of `paths`, in order, claimed for the chunk it
/// hashes to, when that chunk is unknown and no earlier path claimed it.
pub open spec fn claim_all(
    found: Map<u64, Seq<char>>,
    paths: Seq<Seq<char>>,
    unknown: Set<u64>,
) -> Map<u64, Seq<char>>
    decreases paths.len(),
{
    if paths.len() == 0 {
        found
    } else {
        let before = claim_all(found, paths.drop_last(), unknown);
        let path = paths.last();
        let hash = wad_hash_of(path);
        if unknown.contains(hash) && !before.contains_key(hash) {
            before.insert(hash, path)
        } else {
            before
        }
    }
}

/// Claims every string of the bin `data` that names an unknown chunk, for
/// that chunk: the first string to name a chunk keeps it.
pub fn claim_names(found: &mut HashMap<u64, String>, data: &[u8], unknown: &HashSet<u64>)
    ensures
        names_view(final(found)@) == claim_all(
            names_view(old(found)@),
            as_text(candidates_from(data@, 0)),
            unknown@,
        ),
{
    broadcast use vstd::std_specs::hash::group_hash_axioms;

    let paths = candidates(data);
    let ghost pv = paths@.map_values(|s: String| s@);
    let mut i: usize = 0;
    proof {
        assert(pv.subrange(0, 0) =~= Seq::<Seq<char>>::empty());
    }
    while i < paths.len()
        invariant
            pv == paths@.map_values(|s: String| s@),
            pv == as_text(candidates_from(data@, 0)),
            i <= paths@.len(),
            names_view(found@) == claim_all(names_view(old(found)@), pv.subrange(0, i as int), unknown@),
        decreases paths@.len() - i,
    {
        let path = &paths[i];
        let bytes = to_lowercase_bytes(path.as_str());
        let hash = xxh64(bytes.as_slice(), 0);
        let ghost before = found@;
        proof {
            assert(pv.subrange(0, i + 1).drop_last() =~= pv.subrange(0, i as int));
            assert(pv.subrange(0, i + 1).last() == path@);
        }
        if unknown.contains(&hash) && !found.contains_key(&hash) {
            found.insert(hash, path.clone());
            proof {
                assert(names_view(found@) =~= names_view(before).insert(hash, path@));
            }
        }
        i = i + 1;
    }
    proof {
        assert(pv.subrange(0, paths@.len() as int) =~= pv);
    }
}

/// The chunks a recovery has to name and the bins it reads first.
///
/// A chunk `resolver` cannot name is unknown. One it names with a `.bin`
/// path is a bin, listed by its index under that path, in order.
pub fn recovery_plan<R: PathResolver>(resolver: &R, path_hashes: &[u64]) -> (r: (
    HashSet<u64>,
    Vec<(usize, String)>,
))
    ensures
        forall|h: u64|
            #![trigger r.0@.contains(h)]
            r.0@.contains(h) <==> exists|i: int|
                0 <= i < path_hashes@.len() && path_hashes@[i] == h && resolver.names(h) is None,
        r.1@.map_values(|b: (usize, String)| (b.0 as int, b.1@)) == named_bins(
            resolver,
            path_hashes@,
        ),
{
    broadcast use vstd::std_specs::hash::group_hash_axioms;

    let mut unknown: HashSet<u64> = HashSet::new();
    let mut bins: Vec<(usize, String)> = Vec::new();
    let mut i: usize = 0;
    while i < path_hashes.len()
        invariant
            i <= path_hashes@.len(),
            forall|h: u64|
                #![trigger unknown@.contains(h)]
                unknown@.contains(h) <==> exists|j: int|
                    0 <= j < i && path_hashes@[j] == h && resolver.names(h) is None,
            bins@.map_values(|b: (usize, String)| (b.0 as int, b.1@)) == named_bins(
                resolver,
                path_hashes@.subrange(0, i as int),
            ),
        decreases path_hashes@.len() - i,
    {
        let hash = path_hashes[i];
        let ghost old_bins = bins@;
        proof {
            assert(path_hashes@.subrange(0, i + 1).drop_last() =~= path_hashes@.subrange(0, i as int));
        }
        match resolver.resolve(hash) {
            Some(path) => {
                if is_bin_name(path.as_str()) {
                    bins.push((i, path));
                    proof {
                        assert(bins@.map_values(|b: (usize, String)| (b.0 as int, b.1@))
                            =~= old_bins.map_values(|b: (usize, String)| (b.0 as int, b.1@)).push(
                            (i as int, resolver.names(hash)->0),
                        ));
                    }
                }
            },
            None => {
                unknown.insert(hash);
            },
        }
        proof {
            assert forall|h: u64| #[trigger] unknown@.contains(h) <==> exists|j: int|
                0 <= j < i + 1 && path_hashes@[j] == h && resolver.names(h) is None by {
                if h == hash && resolver.names(h) is None {
                    assert(path_hashes@[i as int] == h);
                }
            }
        }
        i = i + 1;
    }
    proof {
        assert(path_hashes@.subrange(0, path_hashes@.len() as int) =~= path_hashes@);
    }
    (unknown, bins)
}

/// The hashes `resolver` names with a `.bin` path, by index and path, in
/// order.
pub open spec fn named_bins<R: PathResolver>(resolver: &R, path_hashes: Seq<u64>) -> Seq<(int, Seq<char>)>
    decreases path_hashes.len(),
{
    if path_hashes.len() == 0 {
        Seq::empty()
    } else {
        let before = named_bins(resolver, path_hashes.drop_last());
        let i = path_hashes.len() - 1;
        match resolver.names(path_hashes[i]) {
            Some(path) => if bin_name(path) {
                before.push((i, path))
            } else {
                before
            },
            None => before,
        }
    }
}

/// Names recovered from the `.bin` files of one archive.
#[derive(Debug, Clone)]
pub struct RecoveredNames {
    /// Path hash to the path a bin named it by, for chunks the resolver
    /// could not name.
    pub names: HashMap<u64, String>,
    /// Bins read for the names.
    pub bins_scanned: usize,
    /// Chunks whose first bytes the scan read because nothing named them.
    pub chunks_sniffed: usize,
}

impl RecoveredNames {
    /// No names, nothing read.
    pub fn new() -> (r: Self)
        ensures
            r.names@ == Map::<u64, String>::empty(),
            r.bins_scanned == 0,
            r.chunks_sniffed == 0,
    {
        RecoveredNames { names: HashMap::new(), bins_scanned: 0, chunks_sniffed: 0 }
    }

    /// The recovered path of a chunk, if a bin named it.
    pub fn get(&self, path_hash: u64) -> (r: Option<&str>)
        ensures
            r is Some <==> self.names@.contains_key(path_hash),
            r matches Some(s) ==> s@ == self.names@[path_hash]@,
    {
        broadcast use vstd::std_specs::hash::group_hash_axioms;

        match self.names.get(&path_hash) {
            Some(path) => Some(path.as_str()),
            None => None,
        }
    }

    /// How many chunks gained a name.
    pub fn len(&self) -> (r: usize)
        ensures
            r == self.names@.len(),
    {
        broadcast use vstd::std_specs::hash::group_hash_axioms;

        self.names.len()
    }

    /// Whether no chunk gained a name.
    pub fn is_empty(&self) -> (r: bool)
        ensures
            r == self.names@.is_empty(),
    {
        self.names.is_empty()
    }

    /// A resolver that answers with a recovered name first and asks
    /// `fallback` for the rest.
    pub fn over<'a, R: PathResolver>(&'a self, fallback: &'a R) -> (r: LayeredResolver<'a, R>)
        ensures
            r.names == self,
            r.fallback == fallback,
    {
        LayeredResolver { names: self, fallback }
    }
}

impl Default for RecoveredNames {
    fn default() -> (r: Self)
        ensures
            r.names@ == Map::<u64, String>::empty(),
            r.bins_scanned == 0,
            r.chunks_sniffed == 0,
    {
        RecoveredNames::new()
    }
}

impl PathResolver for RecoveredNames {
    open spec fn names(&self, path_hash: u64) -> Option<Seq<char>> {
        if self.names@.contains_key(path_hash) {
            Some(self.names@[path_hash]@)
        } else {
            None
        }
    }

    fn resolve(&self, path_hash: u64) -> (r: Option<String>) {
        broadcast use vstd::std_specs::hash::group_hash_axioms;

        match self.names.get(&path_hash) {
            Some(path) => Some(path.clone()),
            None => None,
        }
    }

    fn is_known(&self, path_hash: u64) -> (r: bool) {
        broadcast use vstd::std_specs::hash::group_hash_axioms;

        self.names.contains_key(&path_hash)
    }
}

/// Recovered names over another resolver.
pub struct LayeredResolver<'a, R: PathResolver> {
    pub names: &'a RecoveredNames,
    pub fallback: &'a R,
}

impl<'a, R: PathResolver> PathResolver for LayeredResolver<'a, R> {
    open spec fn names(&self, path_hash: u64) -> Option<Seq<char>> {
        if self.names.names@.contains_key(path_hash) {
            Some(self.names.names@[path_hash]@)
        } else {
            self.fallback.names(path_hash)
        }
    }

    fn resolve(&self, path_hash: u64) -> (r: Option<String>) {
        match self.names.resolve(path_hash) {
            Some(path) => Some(path),
            None => self.fallback.resolve(path_hash),
        }
    }

    fn is_known(&self, path_hash: u64) -> (r: bool) {
        self.names.is_known(path_hash) || self.fallback.is_known(path_hash)
    }
}

} // verus!
