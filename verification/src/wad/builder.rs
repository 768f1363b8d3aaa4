//! Building a WAD (v3.4) from chunks given by path and data.

use vstd::prelude::*;
use vstd::multiset::Multiset;

use crate::bytes::{le_bytes, lemma_le_bytes_len, push_le};
use super::archive::{toc_bytes_of, toc_bytes};
use super::chunk::{WadChunk, WadChunkCompression};
use super::codec::{gzip_encode, gzip_encoding, xxh3_64, xxh3_64_of, xxh64, xxh64_of, zstd_encode, zstd_encoding};
use super::decoder::{append_bytes, copy_range};
use super::error::WadError;

verus! {

broadcast use vstd::seq_lib::group_to_multiset_ensures;

/// What can go wrong while building a WAD.
#[derive(Debug)]
pub enum WadBuilderError {
    WadError(WadError),
    IoError(std::io::Error),
    UnsupportedCompressionType(WadChunkCompression),
}

/// The lower-case form of `s`, UTF-8 encoded.
pub uninterp spec fn lowercase_utf8(s: Seq<char>) -> Seq<u8>;

/// std's `str::to_lowercase`, taken as its UTF-8 bytes.
///
/// Claims: the bytes are the named lower-case encoding of `s`.
#[verifier::external_body]
pub(crate) fn to_lowercase_bytes(s: &str) -> (r: Vec<u8>)
    ensures
        r@ == lowercase_utf8(s@),
{
    s.to_lowercase().into_bytes()
}

/// Whether `data` opens with a Wwise sound bank (`BKHD`) or package (`AKPK`)
/// signature: the two kinds of file a WAD stores uncompressed.
pub open spec fn is_wwise(data: Seq<u8>) -> bool {
    &&& data.len() >= 4
    &&& data[1] == 0x4B
    &&& (data[0] == 0x42 && data[2] == 0x48 && data[3] == 0x44) || (data[0] == 0x41 && data[2]
        == 0x50 && data[3] == 0x4B)
}

/// The compression a chunk gets when none is forced on it.
pub open spec fn ideal_compression_of(data: Seq<u8>) -> WadChunkCompression {
    if is_wwise(data) {
        WadChunkCompression::Uncompressed
    } else {
        WadChunkCompression::Zstd
    }
}

/// A chunk whose data opens with the signature of a Wwise package (`AKPK`)
/// or sound bank (`BKHD`) is stored uncompressed, any other chunk zstd
/// compressed; only the first four bytes decide.
pub proof fn lemma_ideal_compression_by_signature(data: Seq<u8>, more: Seq<u8>)
    ensures
        data.len() >= 4 && data.subrange(0, 4) == seq![0x41u8, 0x4Bu8, 0x50u8, 0x4Bu8]
            ==> ideal_compression_of(data) == WadChunkCompression::Uncompressed,
        data.len() >= 4 && data.subrange(0, 4) == seq![0x42u8, 0x4Bu8, 0x48u8, 0x44u8]
            ==> ideal_compression_of(data) == WadChunkCompression::Uncompressed,
        !(data.len() >= 4 && (data.subrange(0, 4) == seq![0x41u8, 0x4Bu8, 0x50u8, 0x4Bu8]
            || data.subrange(0, 4) == seq![0x42u8, 0x4Bu8, 0x48u8, 0x44u8]))
            ==> ideal_compression_of(data) == WadChunkCompression::Zstd,
        data.len() >= 4 ==> ideal_compression_of(data + more) == ideal_compression_of(data),
{
    let akpk = seq![0x41u8, 0x4Bu8, 0x50u8, 0x4Bu8];
    let bkhd = seq![0x42u8, 0x4Bu8, 0x48u8, 0x44u8];
    if data.len() >= 4 {
        let head = data.subrange(0, 4);
        assert(head[0] == data[0] && head[1] == data[1] && head[2] == data[2] && head[3] == data[3]);
        if data[0] == 0x41 && data[1] == 0x4B && data[2] == 0x50 && data[3] == 0x4B {
            assert(head =~= akpk);
        }
        if data[0] == 0x42 && data[1] == 0x4B && data[2] == 0x48 && data[3] == 0x44 {
            assert(head =~= bkhd);
        }
        if head == akpk {
            assert(head[0] == akpk[0] && head[1] == akpk[1] && head[2] == akpk[2] && head[3] == akpk[3]);
        }
        if head == bkhd {
            assert(head[0] == bkhd[0] && head[1] == bkhd[1] && head[2] == bkhd[2] && head[3] == bkhd[3]);
        }
        let joined = data + more;
        assert(joined[0] == data[0] && joined[1] == data[1] && joined[2] == data[2] && joined[3] == data[3]);
    }
}

/// The compression a chunk is stored with: the forced one, or the ideal one.
pub open spec fn chosen_compression(
    force: Option<WadChunkCompression>,
    data: Seq<u8>,
) -> WadChunkCompression {
    match force {
        Some(c) => c,
        None => ideal_compression_of(data),
    }
}

/// Whether the builder can store a chunk with `c`.
pub open spec fn writable(c: WadChunkCompression) -> bool {
    !(c is Satellite || c is ZstdMulti)
}

/// The bytes `data` is stored as under `c`.
pub open spec fn encoding_of(data: Seq<u8>, c: WadChunkCompression) -> Seq<u8> {
    match c {
        WadChunkCompression::Uncompressed => data,
        WadChunkCompression::GZip => gzip_encoding(data),
        _ => zstd_encoding(data),
    }
}

/// The compression the builder picks for `data`.
pub fn ideal_compression(data: &[u8]) -> (r: WadChunkCompression)
    ensures
        r == ideal_compression_of(data@),
{
    if data.len() >= 4 && data[1] == 0x4B && ((data[0] == 0x42 && data[2] == 0x48 && data[3]
        == 0x44) || (data[0] == 0x41 && data[2] == 0x50 && data[3] == 0x4B)) {
        WadChunkCompression::Uncompressed
    } else {
        WadChunkCompression::Zstd
    }
}

/// Builds a chunk: its path hash and, if given, the compression it must use.
#[derive(Debug, Clone, Copy)]
pub struct WadChunkBuilder {
    /// The path hash of the chunk. Hashed using xxhash64.
    path: u64,
    /// If provided, the chunk will be compressed using the given compression
    /// type, otherwise the ideal compression will be used.
    force_compression: Option<WadChunkCompression>,
}

impl WadChunkBuilder {
    pub closed spec fn spec_path(self) -> u64 {
        self.path
    }

    pub closed spec fn spec_force_compression(self) -> Option<WadChunkCompression> {
        self.force_compression
    }

    /// Set the chunk path hash by hashing the given str: XXH64, seed 0, of
    /// its lower-case UTF-8 bytes.
    pub fn with_path(self, path: &str) -> (r: Self)
        ensures
            r.spec_path() == xxh64_of(lowercase_utf8(path@), 0),
            r.spec_force_compression() == self.spec_force_compression(),
    {
        let bytes = to_lowercase_bytes(path);
        WadChunkBuilder { path: xxh64(bytes.as_slice(), 0), ..self }
    }

    /// Set the chunk path hash directly.
    pub fn with_hash(self, hash: u64) -> (r: Self)
        ensures
            r.spec_path() == hash,
            r.spec_force_compression() == self.spec_force_compression(),
    {
        WadChunkBuilder { path: hash, ..self }
    }

    pub fn with_force_compression(self, compression: WadChunkCompression) -> (r: Self)
        ensures
            r.spec_path() == self.spec_path(),
            r.spec_force_compression() == Some(compression),
    {
        WadChunkBuilder { force_compression: Some(compression), ..self }
    }

    /// The path hash the chunk is stored under.
    pub fn path_hash(&self) -> (r: u64)
        ensures
            r == self.spec_path(),
    {
        self.path
    }
}

impl Default for WadChunkBuilder {
    fn default() -> (r: Self)
        ensures
            r.spec_path() == 0,
            r.spec_force_compression() is None,
    {
        WadChunkBuilder { path: 0, force_compression: None }
    }
}

/// `s` with `b` put after the last element whose path is at most `b`'s.
pub open spec fn insert_by_path(s: Seq<WadChunkBuilder>, b: WadChunkBuilder) -> Seq<
    WadChunkBuilder,
>
    decreases s.len(),
{
    if s.len() == 0 {
        seq![b]
    } else if s.last().spec_path() <= b.spec_path() {
        s.push(b)
    } else {
        insert_by_path(s.drop_last(), b).push(s.last())
    }
}

/// `s` ordered by path hash, builders with one path keeping their order.
pub open spec fn sort_by_path(s: Seq<WadChunkBuilder>) -> Seq<WadChunkBuilder>
    decreases s.len(),
{
    if s.len() == 0 {
        Seq::empty()
    } else {
        insert_by_path(sort_by_path(s.drop_last()), s.last())
    }
}

/// Whether `s` is ordered by path hash.
pub open spec fn sorted_by_path(s: Seq<WadChunkBuilder>) -> bool {
    forall|i: int, j: int| 0 <= i <= j < s.len() ==> s[i].spec_path() <= s[j].spec_path()
}

/// Inserting at the place a scan from the back stops at.
proof fn lemma_insert_at(s: Seq<WadChunkBuilder>, b: WadChunkBuilder, k: int)
    requires
        0 <= k <= s.len(),
        forall|j: int| k <= j < s.len() ==> s[j].spec_path() > b.spec_path(),
        k == 0 || s[k - 1].spec_path() <= b.spec_path(),
    ensures
        insert_by_path(s, b) =~= s.insert(k, b),
    decreases s.len(),
{
    if s.len() > 0 {
        if s.last().spec_path() <= b.spec_path() {
            assert(k == s.len());
        } else {
            lemma_insert_at(s.drop_last(), b, k);
            assert(s.drop_last().insert(k, b).push(s.last()) =~= s.insert(k, b));
        }
    }
}

/// Inserting keeps a sorted sequence sorted, and adds exactly `b`.
proof fn lemma_insert_by_path(s: Seq<WadChunkBuilder>, b: WadChunkBuilder)
    requires
        sorted_by_path(s),
    ensures
        sorted_by_path(insert_by_path(s, b)),
        insert_by_path(s, b).to_multiset() == s.to_multiset().insert(b),
    decreases s.len(),
{
    if s.len() > 0 && s.last().spec_path() > b.spec_path() {
        let t = s.drop_last();
        lemma_insert_by_path(t, b);
        let u = insert_by_path(t, b);
        assert forall|i: int, j: int|
            0 <= i <= j < u.push(s.last()).len() implies u.push(s.last())[i].spec_path()
            <= u.push(s.last())[j].spec_path() by {
            if j == u.len() && i < u.len() {
                assert(u.to_multiset().count(u[i]) > 0);
                assert(t.to_multiset().insert(b).count(u[i]) > 0);
                if u[i] != b {
                    assert(t.to_multiset().count(u[i]) > 0);
                    let k = t.index_of(u[i]);
                    assert(t[k] == u[i]);
                    assert(s[k] == t[k]);
                }
            }
        }
        assert(s =~= t.push(s.last()));
    } else if s.len() > 0 {
        assert(sorted_by_path(s.push(b)));
    }
}

/// The law the builder sorts by: its order is sorted by path hash and holds
/// every builder it was given, each as often.
pub proof fn lemma_sort_by_path(s: Seq<WadChunkBuilder>)
    ensures
        sorted_by_path(sort_by_path(s)),
        sort_by_path(s).to_multiset() == s.to_multiset(),
    decreases s.len(),
{
    if s.len() > 0 {
        lemma_sort_by_path(s.drop_last());
        lemma_insert_by_path(sort_by_path(s.drop_last()), s.last());
        assert(s =~= s.drop_last().push(s.last()));
    }
}

/// The header a builder writes: magic, version 3.4, signature, checksum and
/// chunk count.
pub open spec fn header_bytes(signature: Seq<u8>, checksum: u64, count: nat) -> Seq<u8> {
    seq![0x52u8, 0x57u8, 3u8, 4u8] + signature + le_bytes(checksum as nat, 8) + le_bytes(
        count % 0x1_0000_0000,
        4,
    )
}

/// The byte runs of `s`, laid end to end.
pub open spec fn concat(s: Seq<Seq<u8>>) -> Seq<u8>
    decreases s.len(),
{
    if s.len() == 0 {
        Seq::empty()
    } else {
        concat(s.drop_last()) + s.last()
    }
}

/// The TOC record of a built chunk stored as `stored` at `offset`.
pub open spec fn built_chunk(
    path_hash: u64,
    compression: WadChunkCompression,
    uncompressed_len: nat,
    stored: Seq<u8>,
    offset: nat,
) -> WadChunk {
    WadChunk {
        path_hash,
        data_offset: offset as usize,
        compressed_size: stored.len() as usize,
        uncompressed_size: uncompressed_len as usize,
        compression_type: compression,
        is_duplicated: false,
        frame_count: 0,
        start_frame: 0,
        checksum: xxh3_64_of(stored),
    }
}

/// Where the chunk data of a WAD with `count` chunks starts.
pub open spec fn data_start(count: nat) -> nat {
    272 + 32 * count
}

/// The chunk data each ordered builder is stored as, given what was provided
/// for it.
pub open spec fn stored_data(ordered: Seq<WadChunkBuilder>, data: Seq<Seq<u8>>) -> Seq<Seq<u8>> {
    Seq::new(
        ordered.len(),
        |i: int|
            encoding_of(data[i], chosen_compression(ordered[i].spec_force_compression(), data[i])),
    )
}

/// The TOC records of the ordered builders, each chunk stored after the ones
/// before it.
pub open spec fn built_chunks(ordered: Seq<WadChunkBuilder>, data: Seq<Seq<u8>>) -> Seq<WadChunk> {
    let stored = stored_data(ordered, data);
    Seq::new(
        ordered.len(),
        |i: int|
            built_chunk(
                ordered[i].spec_path(),
                chosen_compression(ordered[i].spec_force_compression(), data[i]),
                data[i].len(),
                stored[i],
                data_start(ordered.len()) + concat(stored.take(i)).len(),
            ),
    )
}

/// The WAD a builder writes: header, TOC in path order, then the chunk data.
pub open spec fn wad_image(
    signature: Seq<u8>,
    checksum: u64,
    ordered: Seq<WadChunkBuilder>,
    data: Seq<Seq<u8>>,
) -> Seq<u8> {
    header_bytes(signature, checksum, ordered.len()) + toc_bytes_of(built_chunks(ordered, data))
        + concat(stored_data(ordered, data))
}

/// Stores `data` with `compression`.
fn compress_chunk_data_by_compression(data: &[u8], compression: WadChunkCompression) -> (r: Result<
    Vec<u8>,
    WadBuilderError,
>)
    ensures
        r matches Ok(v) ==> writable(compression) && v@ == encoding_of(data@, compression),
        r matches Err(e) ==> e is UnsupportedCompressionType && !writable(compression)
            && e->UnsupportedCompressionType_0 == compression,
        !writable(compression) ==> r is Err,
        writable(compression) ==> r is Ok,
{
    match compression {
        WadChunkCompression::Uncompressed => Ok(copy_range(data, 0, data.len())),
        WadChunkCompression::GZip => match gzip_encode(data) {
            Ok(v) => Ok(v),
            Err(e) => Err(WadBuilderError::IoError(e)),
        },
        WadChunkCompression::Zstd => Ok(zstd_encode(data)),
        WadChunkCompression::Satellite => Err(
            WadBuilderError::UnsupportedCompressionType(compression),
        ),
        WadChunkCompression::ZstdMulti => Err(
            WadBuilderError::UnsupportedCompressionType(compression),
        ),
    }
}

/// Stores `data` with the forced compression, or the ideal one.
fn compress_chunk_data(data: &[u8], force_compression: Option<WadChunkCompression>) -> (r: Result<
    (Vec<u8>, WadChunkCompression),
    WadBuilderError,
>)
    ensures
        ({
            let c = chosen_compression(force_compression, data@);
            &&& r matches Ok((v, rc)) ==> rc == c && writable(c) && v@ == encoding_of(data@, c)
            &&& r matches Err(e) ==> e is UnsupportedCompressionType && !writable(c)
                && e->UnsupportedCompressionType_0 == c
            &&& !writable(c) ==> r is Err
            &&& writable(c) ==> r is Ok
        }),
{
    let compression = match force_compression {
        Some(c) => c,
        None => ideal_compression(data),
    };
    match compress_chunk_data_by_compression(data, compression) {
        Ok(v) => Ok((v, compression)),
        Err(e) => Err(e),
    }
}

/// Overwrites `out` from `pos` on with `bytes`.
fn write_at(out: &mut Vec<u8>, pos: usize, bytes: &[u8])
    requires
        pos + bytes@.len() <= old(out)@.len(),
    ensures
        final(out)@ == old(out)@.subrange(0, pos as int) + bytes@ + old(out)@.subrange(
            pos + bytes@.len(),
            old(out)@.len() as int,
        ),
{
    let ghost start = out@;
    let total = out.len();
    let mut k: usize = 0;
    while k < bytes.len()
        invariant
            k <= bytes@.len(),
            pos + bytes@.len() <= start.len(),
            out@.len() == start.len(),
            total == start.len(),
            out@ == start.subrange(0, pos as int) + bytes@.subrange(0, k as int) + start.subrange(
                pos + k,
                start.len() as int,
            ),
        decreases bytes@.len() - k,
    {
        out.set(pos + k, bytes[k]);
        proof {
            assert(out@ =~= start.subrange(0, pos as int) + bytes@.subrange(0, k + 1)
                + start.subrange(pos + k + 1, start.len() as int));
        }
        k = k + 1;
    }
    proof {
        assert(bytes@.subrange(0, k as int) =~= bytes@);
    }
}

pub(crate) proof fn lemma_toc_bytes_len(chunks: Seq<WadChunk>)
    ensures
        toc_bytes_of(chunks).len() == 32 * chunks.len(),
    decreases chunks.len(),
{
    if chunks.len() > 0 {
        lemma_toc_bytes_len(chunks.drop_last());
        super::chunk::lemma_v3_4_entry_len(chunks.last());
    }
}

/// Builds WAD files: chunks given by path hash, a signature and a checksum.
#[derive(Debug)]
pub struct WadBuilder {
    chunk_builders: Vec<WadChunkBuilder>,
    signature: [u8; 256],
    checksum: u64,
}

impl Default for WadBuilder {
    fn default() -> (r: Self)
        ensures
            r.spec_chunks() == Seq::<WadChunkBuilder>::empty(),
            r.spec_signature() == Seq::new(256, |i: int| 0u8),
            r.spec_checksum() == 0,
    {
        let r = WadBuilder { chunk_builders: Vec::new(), signature: [0u8; 256], checksum: 0 };
        proof {
            assert(r.signature@ =~= Seq::new(256, |i: int| 0u8));
        }
        r
    }
}

impl WadBuilder {
    pub closed spec fn spec_chunks(&self) -> Seq<WadChunkBuilder> {
        self.chunk_builders@
    }

    pub closed spec fn spec_signature(&self) -> Seq<u8> {
        self.signature@
    }

    pub closed spec fn spec_checksum(&self) -> u64 {
        self.checksum
    }

    pub fn with_chunk(self, chunk: WadChunkBuilder) -> (r: Self)
        ensures
            r.spec_chunks() == self.spec_chunks().push(chunk),
            r.spec_signature() == self.spec_signature(),
            r.spec_checksum() == self.spec_checksum(),
    {
        let mut s = self;
        s.chunk_builders.push(chunk);
        s
    }

    pub fn with_checksum(self, checksum: u64) -> (r: Self)
        ensures
            r.spec_chunks() == self.spec_chunks(),
            r.spec_signature() == self.spec_signature(),
            r.spec_checksum() == checksum,
    {
        WadBuilder { checksum, ..self }
    }

    pub fn with_signature(self, signature: &[u8; 256]) -> (r: Self)
        ensures
            r.spec_chunks() == self.spec_chunks(),
            r.spec_signature() == signature@,
            r.spec_checksum() == self.spec_checksum(),
    {
        WadBuilder { signature: *signature, ..self }
    }

    /// The chunk builders in the order the WAD stores them: by path hash,
    /// builders with one path in the order they were added.
    pub fn ordered_chunks(&self) -> (r: Vec<WadChunkBuilder>)
        ensures
            r@ == sort_by_path(self.spec_chunks()),
    {
        let mut out: Vec<WadChunkBuilder> = Vec::new();
        let mut i: usize = 0;
        while i < self.chunk_builders.len()
            invariant
                i <= self.spec_chunks().len(),
                out@ == sort_by_path(self.spec_chunks().subrange(0, i as int)),
            decreases self.spec_chunks().len() - i,
        {
            let b = self.chunk_builders[i];
            proof {
                lemma_sort_by_path(self.spec_chunks().subrange(0, i as int));
            }
            let mut k = out.len();
            while k > 0 && out[k - 1].path > b.path
                invariant
                    k <= out@.len(),
                    forall|j: int| k <= j < out@.len() ==> out@[j].spec_path() > b.spec_path(),
                decreases k,
            {
                k = k - 1;
            }
            proof {
                lemma_insert_at(out@, b, k as int);
                assert(self.spec_chunks().subrange(0, i + 1).drop_last() =~= self.spec_chunks().subrange(
                    0,
                    i as int,
                ));
            }
            out.insert(k, b);
            i = i + 1;
        }
        proof {
            assert(self.spec_chunks().subrange(0, i as int) =~= self.spec_chunks());
        }
        out
    }

    /// The path hashes of the chunks, in the order the WAD stores them: the
    /// order in which `build` takes their data.
    pub fn ordered_paths(&self) -> (r: Vec<u64>)
        ensures
            r@ == sort_by_path(self.spec_chunks()).map_values(|b: WadChunkBuilder| b.spec_path()),
    {
        let ordered = self.ordered_chunks();
        let mut out: Vec<u64> = Vec::new();
        let mut i: usize = 0;
        while i < ordered.len()
            invariant
                i <= ordered@.len(),
                out@ == ordered@.subrange(0, i as int).map_values(
                    |b: WadChunkBuilder| b.spec_path(),
                ),
            decreases ordered@.len() - i,
        {
            out.push(ordered[i].path);
            proof {
                assert(out@ =~= ordered@.subrange(0, i + 1).map_values(
                    |b: WadChunkBuilder| b.spec_path(),
                ));
            }
            i = i + 1;
        }
        proof {
            assert(ordered@.subrange(0, i as int) =~= ordered@);
        }
        out
    }
}


/// What was provided for each chunk, as byte sequences.
pub open spec fn provided(data: Seq<Vec<u8>>) -> Seq<Seq<u8>> {
    data.map_values(|v: Vec<u8>| v@)
}

/// The compression the `i`-th ordered chunk is stored with.
pub open spec fn compression_at(
    ordered: Seq<WadChunkBuilder>,
    data: Seq<Seq<u8>>,
    i: int,
) -> WadChunkCompression {
    chosen_compression(ordered[i].spec_force_compression(), data[i])
}

/// Whether the `i`-th ordered chunk exists and every one before it was
/// stored.
pub open spec fn stored_up_to(ordered: Seq<WadChunkBuilder>, data: Seq<Seq<u8>>, i: int) -> bool {
    &&& 0 <= i < ordered.len()
    &&& forall|j: int| 0 <= j < i ==> writable(#[trigger] compression_at(ordered, data, j))
}

/// `n` zero bytes.
pub open spec fn zeros(n: nat) -> Seq<u8> {
    Seq::new(n, |i: int| 0u8)
}

proof fn lemma_concat_push(s: Seq<Seq<u8>>, i: int)
    requires
        0 <= i < s.len(),
    ensures
        concat(s.take(i + 1)) == concat(s.take(i)) + s[i],
{
    assert(s.take(i + 1).drop_last() =~= s.take(i));
}

proof fn lemma_toc_bytes_push(chunks: Seq<WadChunk>, i: int)
    requires
        0 <= i < chunks.len(),
    ensures
        toc_bytes_of(chunks.take(i + 1)) == toc_bytes_of(chunks.take(i))
            + super::chunk::v3_4_entry_bytes(chunks[i]),
{
    assert(chunks.take(i + 1).drop_last() =~= chunks.take(i));
}

impl WadBuilder {
    /// Builds the WAD. `data[i]` is the data of the `i`-th chunk in the order
    /// `ordered_paths` gives.
    ///
    /// The chunks are stored after the header and the TOC, one after the
    /// other in that order, each with its forced compression or the ideal
    /// one. The build succeeds exactly when every chunk's compression is one
    /// the builder writes (uncompressed, gzip or zstd); otherwise the first
    /// chunk that cannot be stored fails it with `UnsupportedCompressionType`.
    pub fn build(&self, data: &[Vec<u8>]) -> (r: Result<Vec<u8>, WadBuilderError>)
        requires
            data@.len() == self.spec_chunks().len(),
        ensures
            ({
                let ordered = sort_by_path(self.spec_chunks());
                let d = provided(data@);
                &&& r matches Ok(image) ==> image@ == wad_image(
                    self.spec_signature(),
                    self.spec_checksum(),
                    ordered,
                    d,
                ) && forall|i: int| 0 <= i < ordered.len() ==> writable(compression_at(ordered, d, i))
                &&& r matches Err(e) ==> exists|i: int|
                    #[trigger] stored_up_to(ordered, d, i) && e is UnsupportedCompressionType
                        && !writable(compression_at(ordered, d, i)) && e->UnsupportedCompressionType_0
                        == compression_at(ordered, d, i)
                &&& (forall|i: int|
                    0 <= i < ordered.len() ==> writable(#[trigger] compression_at(ordered, d, i)))
                    ==> r is Ok
                &&& forall|i: int|
                    0 <= i < ordered.len() && !writable(compression_at(ordered, d, i)) && (forall|j: int|
                        0 <= j < i ==> writable(#[trigger] compression_at(ordered, d, j))) ==> (r matches Err(
                        WadBuilderError::UnsupportedCompressionType(c),
                    ) && c == compression_at(ordered, d, i))
            }),
    {
        let ordered = self.ordered_chunks();
        let ghost d = provided(data@);
        let ghost stored = stored_data(ordered@, d);
        let ghost built = built_chunks(ordered@, d);
        proof {
            lemma_sort_by_path(self.spec_chunks());
            assert(ordered@.len() == self.spec_chunks().len()) by {
                assert(ordered@.to_multiset().len() == self.spec_chunks().to_multiset().len());
            }
        }
        let n = ordered.len();
        let mut out: Vec<u8> = Vec::new();
        out.push(0x52);
        out.push(0x57);
        out.push(3);
        out.push(4);
        let mut k: usize = 0;
        while k < 256
            invariant
                k <= 256,
                out@ == seq![0x52u8, 0x57u8, 3u8, 4u8] + self.signature@.subrange(0, k as int),
            decreases 256 - k,
        {
            out.push(self.signature[k]);
            proof {
                assert(out@ =~= seq![0x52u8, 0x57u8, 3u8, 4u8] + self.signature@.subrange(
                    0,
                    k + 1,
                ));
            }
            k = k + 1;
        }
        proof {
            assert(self.signature@.subrange(0, 256) =~= self.signature@);
        }
        push_le(&mut out, self.checksum, 8);
        push_le(&mut out, (n as u64) % 0x1_0000_0000, 4);
        let ghost header = out@;
        proof {
            assert(header =~= header_bytes(self.signature@, self.checksum, n as nat));
            lemma_le_bytes_len(self.checksum as nat, 8);
            lemma_le_bytes_len((n as nat) % 0x1_0000_0000, 4);
            assert(header.len() == 272);
        }
        let mut z: usize = 0;
        while z < n
            invariant
                z <= n,
                out@ == header + zeros(32 * z as nat),
            decreases n - z,
        {
            let mut b: usize = 0;
            while b < 32
                invariant
                    b <= 32,
                    z < n,
                    out@ == header + zeros((32 * z + b) as nat),
                decreases 32 - b,
            {
                out.push(0);
                proof {
                    assert(out@ =~= header + zeros((32 * z + b + 1) as nat));
                }
                b = b + 1;
            }
            z = z + 1;
        }
        let mut chunks: Vec<WadChunk> = Vec::new();
        let mut i: usize = 0;
        while i < n
            invariant
                i <= n,
                n == ordered@.len(),
                ordered@ == sort_by_path(self.spec_chunks()),
                n == data@.len(),
                d == provided(data@),
                stored == stored_data(ordered@, d),
                built == built_chunks(ordered@, d),
                header.len() == 272,
                out@ == header + zeros(32 * n as nat) + concat(stored.take(i as int)),
                chunks@ == built.take(i as int),
                forall|j: int| 0 <= j < i ==> writable(#[trigger] compression_at(ordered@, d, j)),
            decreases n - i,
        {
            let item = ordered[i];
            let provided_data = &data[i];
            proof {
                assert(d[i as int] == provided_data@);
            }
            let compressed = compress_chunk_data(provided_data.as_slice(), item.force_compression);
            match compressed {
                Err(e) => {
                    proof {
                        let ii = i as int;
                        assert(compression_at(ordered@, d, ii) == chosen_compression(
                            item.force_compression,
                            provided_data@,
                        ));
                        assert(stored_up_to(ordered@, d, ii));
                    }
                    return Err(e);
                },
                Ok((bytes, compression)) => {
                    let offset = out.len();
                    let checksum = xxh3_64(bytes.as_slice());
                    let chunk = WadChunk {
                        path_hash: item.path,
                        data_offset: offset,
                        compressed_size: bytes.len(),
                        uncompressed_size: provided_data.len(),
                        compression_type: compression,
                        is_duplicated: false,
                        frame_count: 0,
                        start_frame: 0,
                        checksum,
                    };
                    proof {
                        lemma_concat_push(stored, i as int);
                        assert(stored[i as int] == bytes@);
                        assert(out@.len() == data_start(n as nat) + concat(stored.take(i as int)).len());
                        assert(chunk == built[i as int]);
                        assert(chunks@.push(chunk) =~= built.take(i + 1));
                    }
                    append_bytes(&mut out, bytes.as_slice());
                    chunks.push(chunk);
                    proof {
                        assert(out@ =~= header + zeros(32 * n as nat) + concat(stored.take(i + 1)));
                    }
                },
            }
            i = i + 1;
        }
        proof {
            assert(stored.take(n as int) =~= stored);
            assert(built.take(n as int) =~= built);
        }
        let ghost rest = concat(stored);
        let total = out.len();
        let mut t: usize = 0;
        while t < n
            invariant
                t <= n,
                out@.len() == total,
                total == 272 + 32 * n + rest.len(),
                n == chunks@.len(),
                header.len() == 272,
                out@ == header + toc_bytes_of(chunks@.take(t as int)) + zeros((32 * (n - t)) as nat)
                    + rest,
            decreases n - t,
        {
            let entry = chunks[t].write_v3_4();
            let ghost before = out@;
            proof {
                lemma_toc_bytes_len(chunks@.take(t as int));
                lemma_toc_bytes_push(chunks@, t as int);
                assert(before.subrange(0, 272 + 32 * t) =~= header + toc_bytes_of(chunks@.take(t as int)));
                assert(before.subrange(272 + 32 * t + 32, before.len() as int) =~= zeros(
                    (32 * (n - t - 1)) as nat,
                ) + rest);
            }
            write_at(&mut out, 272 + 32 * t, entry.as_slice());
            proof {
                assert(out@ =~= header + toc_bytes_of(chunks@.take(t + 1)) + zeros(
                    (32 * (n - t - 1)) as nat,
                ) + rest);
            }
            t = t + 1;
        }
        proof {
            assert(chunks@.take(n as int) =~= chunks@);
            assert(out@ =~= wad_image(self.signature@, self.checksum, ordered@, d));
        }
        Ok(out)
    }
}


proof fn lemma_concat_len(s: Seq<Seq<u8>>, i: int)
    requires
        0 <= i < s.len(),
    ensures
        concat(s.take(i)).len() + s[i].len() <= concat(s).len(),
    decreases s.len(),
{
    if i < s.len() - 1 {
        lemma_concat_len(s.drop_last(), i);
        assert(s.drop_last().take(i) =~= s.take(i));
    } else {
        assert(s.drop_last() =~= s.take(i));
    }
}

/// The first `m` entries of a TOC are the TOC of the first `m` chunks.
proof fn lemma_toc_prefix(chunks: Seq<WadChunk>, m: int)
    requires
        0 <= m <= chunks.len(),
    ensures
        toc_bytes_of(chunks).subrange(0, 32 * m) == toc_bytes_of(chunks.take(m)),
    decreases chunks.len(),
{
    lemma_toc_bytes_len(chunks);
    if m == chunks.len() {
        assert(chunks.take(m) =~= chunks);
        assert(toc_bytes_of(chunks).subrange(0, 32 * m) =~= toc_bytes_of(chunks));
    } else {
        let t = chunks.drop_last();
        lemma_toc_prefix(t, m);
        lemma_toc_bytes_len(t);
        assert(t.take(m) =~= chunks.take(m));
        assert(toc_bytes_of(chunks).subrange(0, 32 * m) =~= toc_bytes_of(t).subrange(0, 32 * m));
    }
}

/// The `k`-th 32 bytes of a TOC are the entry of the `k`-th chunk.
proof fn lemma_toc_entry(chunks: Seq<WadChunk>, k: int)
    requires
        0 <= k < chunks.len(),
    ensures
        toc_bytes_of(chunks).subrange(32 * k, 32 * k + 32) == super::chunk::v3_4_entry_bytes(
            chunks[k],
        ),
{
    lemma_toc_bytes_len(chunks);
    lemma_toc_prefix(chunks, k + 1);
    lemma_toc_bytes_push(chunks, k);
    lemma_toc_bytes_len(chunks.take(k));
    super::chunk::lemma_v3_4_entry_len(chunks[k]);
    assert(toc_bytes_of(chunks).subrange(32 * k, 32 * k + 32) =~= toc_bytes_of(
        chunks.take(k + 1),
    ).subrange(32 * k, 32 * k + 32));
}

/// A mount of the bytes `header + toc + rest` reads back the chunks of the
/// TOC, one by one.
pub(crate) proof fn lemma_mount_reads_toc(image: Seq<u8>, toc: Seq<WadChunk>, k: nat)
    requires
        k <= toc.len(),
        image.len() >= 272 + 32 * toc.len(),
        image.subrange(272, 272 + 32 * toc.len() as int) == toc_bytes_of(toc),
        forall|i: int| 0 <= i < toc.len() ==> super::chunk::fits_v3_4(#[trigger] toc[i]),
    ensures
        super::archive::toc_entries(image, 3, 4, k) == Ok::<Seq<WadChunk>, super::archive::MountFailure>(
            toc.take(k as int),
        ),
    decreases k,
{
    if k > 0 {
        let j = (k - 1) as int;
        lemma_mount_reads_toc(image, toc, (k - 1) as nat);
        lemma_toc_entry(toc, j);
        let at = 272 + 32 * j;
        assert(super::archive::count_offset(3) + 4 + 32 * j == at);
        let entry = image.subrange(at, at + 32);
        assert(entry =~= image.subrange(272, 272 + 32 * toc.len() as int).subrange(
            32 * j,
            32 * j + 32,
        ));
        super::chunk::lemma_v3_4_entry_round_trip(toc[j]);
        assert(super::chunk::v3_4_entry_of(entry) == Ok::<WadChunk, u8>(toc[j]));
        assert(toc.take(j).push(toc[j]) =~= toc.take(k as int));
    } else {
        assert(toc.take(0) =~= Seq::<WadChunk>::empty());
    }
}

/// The header a builder writes reads back as version 3.4 with its signature,
/// checksum and count.
proof fn lemma_header_reads(signature: Seq<u8>, checksum: u64, n: nat, image: Seq<u8>)
    requires
        signature.len() == 256,
        n < 0x8000_0000,
        image.len() >= 272,
        image.subrange(0, 272) == header_bytes(signature, checksum, n),
    ensures
        crate::bytes::le_value(image.subrange(0, 2)) == super::archive::WAD_MAGIC,
        image[2] == 3,
        image[3] == 4,
        super::archive::header_count(image, 3) == n,
        super::archive::header_signature(image, 3) == signature,
        super::archive::header_checksum(image, 3) == checksum,
{
    let header = header_bytes(signature, checksum, n);
    crate::bytes::lemma_byte_ranges();
    lemma_le_bytes_len(checksum as nat, 8);
    lemma_le_bytes_len(n % 0x1_0000_0000, 4);
    assert(image.subrange(0, 2) =~= seq![0x52u8, 0x57u8]) by {
        assert(image.subrange(0, 2) =~= header.subrange(0, 2));
    }
    reveal_with_fuel(crate::bytes::le_value, 3);
    assert(crate::bytes::le_value(seq![0x52u8, 0x57u8].drop_first().drop_first()) == 0);
    assert(image[2] == header[2]);
    assert(image[3] == header[3]);
    assert(image.subrange(4, 260) =~= signature) by {
        assert(image.subrange(4, 260) =~= header.subrange(4, 260));
    }
    assert(image.subrange(260, 268) =~= le_bytes(checksum as nat, 8)) by {
        assert(image.subrange(260, 268) =~= header.subrange(260, 268));
    }
    crate::bytes::lemma_le_value_of_bytes(checksum as nat, 8);
    assert(image.subrange(268, 272) =~= le_bytes(n % 0x1_0000_0000, 4)) by {
        assert(image.subrange(268, 272) =~= header.subrange(268, 272));
    }
    crate::bytes::lemma_le_value_of_bytes(n % 0x1_0000_0000, 4);
}

/// Every chunk a builder stores fits a v3.4 entry, when the image is under
/// 4 GiB and so is each chunk's data.
proof fn lemma_built_chunks_fit(ordered: Seq<WadChunkBuilder>, data: Seq<Seq<u8>>, image_len: nat)
    requires
        data.len() == ordered.len(),
        image_len == data_start(ordered.len()) + concat(stored_data(ordered, data)).len(),
        image_len < 0x1_0000_0000,
        forall|i: int| 0 <= i < data.len() ==> (#[trigger] data[i]).len() < 0x1_0000_0000,
    ensures
        forall|i: int|
            0 <= i < ordered.len() ==> super::chunk::fits_v3_4(#[trigger] built_chunks(ordered, data)[i]),
{
    let stored = stored_data(ordered, data);
    assert forall|i: int| 0 <= i < ordered.len() implies super::chunk::fits_v3_4(
        #[trigger] built_chunks(ordered, data)[i],
    ) by {
        lemma_concat_len(stored, i);
        assert(data[i].len() < 0x1_0000_0000);
    }
}

/// What a built WAD mounts as: version 3.4, the signature and checksum it was
/// built with, and the chunks in the order it stored them.
///
/// This holds wherever a v3.4 TOC can hold the offsets and sizes: the image
/// under 4 GiB, each chunk's data too, and fewer than 2^31 chunks.
pub proof fn lemma_built_wad_mounts(
    signature: Seq<u8>,
    checksum: u64,
    ordered: Seq<WadChunkBuilder>,
    data: Seq<Seq<u8>>,
)
    requires
        signature.len() == 256,
        data.len() == ordered.len(),
        ordered.len() < 0x8000_0000,
        wad_image(signature, checksum, ordered, data).len() < 0x1_0000_0000,
        forall|i: int| 0 <= i < data.len() ==> (#[trigger] data[i]).len() < 0x1_0000_0000,
    ensures
        super::archive::mount_of(wad_image(signature, checksum, ordered, data)) == Ok::<
            (u8, u8, Seq<u8>, u64, Seq<WadChunk>),
            super::archive::MountFailure,
        >((3, 4, signature, checksum, built_chunks(ordered, data))),
{
    let n = ordered.len();
    let image = wad_image(signature, checksum, ordered, data);
    let header = header_bytes(signature, checksum, n);
    let chunks = built_chunks(ordered, data);
    let toc = toc_bytes_of(chunks);
    lemma_le_bytes_len(checksum as nat, 8);
    lemma_le_bytes_len(n % 0x1_0000_0000, 4);
    lemma_toc_bytes_len(chunks);
    assert(header.len() == 272);
    assert(image.subrange(0, 272) =~= header);
    lemma_header_reads(signature, checksum, n, image);
    assert(image.subrange(272, 272 + 32 * n as int) =~= toc);
    lemma_built_chunks_fit(ordered, data, image.len());
    lemma_mount_reads_toc(image, chunks, n);
    assert(chunks.take(n as int) =~= chunks);
}

} // verus!
