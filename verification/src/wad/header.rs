//! WAD headers by major version.

use vstd::prelude::*;

use super::entry::LATEST_MINOR;

verus! {

/// What every version of a WAD header tells.
pub trait HeaderExt {
    spec fn spec_toc_offset(&self) -> u16;

    spec fn spec_entry_size(&self) -> u16;

    spec fn spec_entry_count(&self) -> u32;

    spec fn spec_checksum(&self) -> Option<u64>;

    spec fn spec_signature(&self) -> Option<Seq<u8>>;

    /// Where the TOC starts.
    fn toc_offset(&self) -> (r: u16)
        ensures
            r == self.spec_toc_offset(),
    ;

    /// Size of a single TOC entry (wad chunk).
    fn entry_size(&self) -> (r: u16)
        ensures
            r == self.spec_entry_size(),
    ;

    /// Number of TOC entries (wad chunks).
    fn entry_count(&self) -> (r: u32)
        ensures
            r == self.spec_entry_count(),
    ;

    /// The checksum of the wad (only present from versions >= 2.x)
    fn checksum(&self) -> (r: Option<u64>)
        ensures
            r == self.spec_checksum(),
    ;

    /// The signature of the wad (only present from versions >= 3.x)
    fn signature(&self) -> (r: Option<&[u8; 256]>)
        ensures
            match self.spec_signature() {
                Some(s) => r matches Some(a) && a@ == s,
                None => r is None,
            },
    ;
}

/// A v1 header: the TOC at 12, 24-byte entries.
#[derive(Debug, Copy, Clone, PartialEq, Eq, Structural)]
pub struct V1 {
    /// Number of TOC entries (# of wad chunks)
    pub entry_count: u32,
}

impl V1 {
    pub const TOC_OFFSET: u16 = 12;
    pub const ENTRY_SIZE: u16 = 24;
}

impl HeaderExt for V1 {
    open spec fn spec_toc_offset(&self) -> u16 {
        12
    }

    open spec fn spec_entry_size(&self) -> u16 {
        24
    }

    open spec fn spec_entry_count(&self) -> u32 {
        self.entry_count
    }

    open spec fn spec_checksum(&self) -> Option<u64> {
        None
    }

    open spec fn spec_signature(&self) -> Option<Seq<u8>> {
        None
    }

    fn toc_offset(&self) -> (r: u16) {
        Self::TOC_OFFSET
    }

    fn entry_size(&self) -> (r: u16) {
        Self::ENTRY_SIZE
    }

    fn entry_count(&self) -> (r: u32) {
        self.entry_count
    }

    fn checksum(&self) -> (r: Option<u64>) {
        None
    }

    fn signature(&self) -> (r: Option<&[u8; 256]>) {
        None
    }
}

/// A v2 header: a checksum, the TOC at 104, 24-byte entries.
#[derive(Debug, Copy, Clone, PartialEq, Eq, Structural)]
pub struct V2 {
    pub checksum: u64,
    /// Number of TOC entries (# of wad chunks)
    pub entry_count: u32,
}

impl V2 {
    pub const TOC_OFFSET: u16 = 104;
    pub const ENTRY_SIZE: u16 = 24;
}

impl HeaderExt for V2 {
    open spec fn spec_toc_offset(&self) -> u16 {
        104
    }

    open spec fn spec_entry_size(&self) -> u16 {
        24
    }

    open spec fn spec_entry_count(&self) -> u32 {
        self.entry_count
    }

    open spec fn spec_checksum(&self) -> Option<u64> {
        Some(self.checksum)
    }

    open spec fn spec_signature(&self) -> Option<Seq<u8>> {
        None
    }

    fn toc_offset(&self) -> (r: u16) {
        Self::TOC_OFFSET
    }

    fn entry_size(&self) -> (r: u16) {
        Self::ENTRY_SIZE
    }

    fn entry_count(&self) -> (r: u32) {
        self.entry_count
    }

    fn checksum(&self) -> (r: Option<u64>) {
        Some(self.checksum)
    }

    fn signature(&self) -> (r: Option<&[u8; 256]>) {
        None
    }
}

/// A v3 header: a signature, a checksum, the TOC at 272, 32-byte entries.
#[derive(Debug, Copy, Clone)]
pub struct V3 {
    pub signature: [u8; 256],
    pub checksum: u64,
    /// Number of TOC entries (# of wad chunks)
    pub entry_count: u32,
}

impl V3 {
    pub const TOC_OFFSET: u16 = 272;
    pub const ENTRY_SIZE: u16 = 32;
    pub const MAJOR: u8 = 3;
}

impl HeaderExt for V3 {
    open spec fn spec_toc_offset(&self) -> u16 {
        272
    }

    open spec fn spec_entry_size(&self) -> u16 {
        32
    }

    open spec fn spec_entry_count(&self) -> u32 {
        self.entry_count
    }

    open spec fn spec_checksum(&self) -> Option<u64> {
        Some(self.checksum)
    }

    open spec fn spec_signature(&self) -> Option<Seq<u8>> {
        Some(self.signature@)
    }

    fn toc_offset(&self) -> (r: u16) {
        Self::TOC_OFFSET
    }

    fn entry_size(&self) -> (r: u16) {
        Self::ENTRY_SIZE
    }

    fn entry_count(&self) -> (r: u32) {
        self.entry_count
    }

    fn checksum(&self) -> (r: Option<u64>) {
        Some(self.checksum)
    }

    fn signature(&self) -> (r: Option<&[u8; 256]>) {
        Some(&self.signature)
    }
}

/// A header of any version.
#[derive(Debug, Copy, Clone)]
pub enum Headers {
    V3(V3),
    V2(V2),
    V1(V1),
}

/// The major version of a header.
pub open spec fn headers_major(h: Headers) -> u8 {
    match h {
        Headers::V1(_) => 1,
        Headers::V2(_) => 2,
        Headers::V3(_) => 3,
    }
}

impl Headers {
    pub fn major(&self) -> (r: u8)
        ensures
            r == headers_major(*self),
    {
        match self {
            Headers::V1(_) => 1,
            Headers::V2(_) => 2,
            Headers::V3(_) => 3,
        }
    }
}

impl HeaderExt for Headers {
    open spec fn spec_toc_offset(&self) -> u16 {
        match self {
            Headers::V1(inner) => inner.spec_toc_offset(),
            Headers::V2(inner) => inner.spec_toc_offset(),
            Headers::V3(inner) => inner.spec_toc_offset(),
        }
    }

    open spec fn spec_entry_size(&self) -> u16 {
        match self {
            Headers::V1(inner) => inner.spec_entry_size(),
            Headers::V2(inner) => inner.spec_entry_size(),
            Headers::V3(inner) => inner.spec_entry_size(),
        }
    }

    open spec fn spec_entry_count(&self) -> u32 {
        match self {
            Headers::V1(inner) => inner.spec_entry_count(),
            Headers::V2(inner) => inner.spec_entry_count(),
            Headers::V3(inner) => inner.spec_entry_count(),
        }
    }

    open spec fn spec_checksum(&self) -> Option<u64> {
        match self {
            Headers::V1(inner) => inner.spec_checksum(),
            Headers::V2(inner) => inner.spec_checksum(),
            Headers::V3(inner) => inner.spec_checksum(),
        }
    }

    open spec fn spec_signature(&self) -> Option<Seq<u8>> {
        match self {
            Headers::V1(inner) => inner.spec_signature(),
            Headers::V2(inner) => inner.spec_signature(),
            Headers::V3(inner) => inner.spec_signature(),
        }
    }

    fn toc_offset(&self) -> (r: u16) {
        match self {
            Headers::V1(inner) => inner.toc_offset(),
            Headers::V2(inner) => inner.toc_offset(),
            Headers::V3(inner) => inner.toc_offset(),
        }
    }

    fn entry_size(&self) -> (r: u16) {
        match self {
            Headers::V1(inner) => inner.entry_size(),
            Headers::V2(inner) => inner.entry_size(),
            Headers::V3(inner) => inner.entry_size(),
        }
    }

    fn entry_count(&self) -> (r: u32) {
        match self {
            Headers::V1(inner) => inner.entry_count(),
            Headers::V2(inner) => inner.entry_count(),
            Headers::V3(inner) => inner.entry_count(),
        }
    }

    fn checksum(&self) -> (r: Option<u64>) {
        match self {
            Headers::V1(inner) => inner.checksum(),
            Headers::V2(inner) => inner.checksum(),
            Headers::V3(inner) => inner.checksum(),
        }
    }

    fn signature(&self) -> (r: Option<&[u8; 256]>) {
        match self {
            Headers::V1(inner) => inner.signature(),
            Headers::V2(inner) => inner.signature(),
            Headers::V3(inner) => inner.signature(),
        }
    }
}

/// A WAD header: the minor version and the header of the major version.
#[derive(Debug, Clone)]
pub struct Header {
    pub minor: u8,
    pub inner: Headers,
}

impl Header {
    /// A header of the latest version around `inner`.
    pub fn new(inner: V3) -> (r: Self)
        ensures
            r.minor == LATEST_MINOR,
            r.inner == Headers::V3(inner),
    {
        Header { minor: LATEST_MINOR, inner: Headers::V3(inner) }
    }

    pub fn major(&self) -> (r: u8)
        ensures
            r == headers_major(self.inner),
    {
        self.inner.major()
    }

    pub fn minor(&self) -> (r: u8)
        ensures
            r == self.minor,
    {
        self.minor
    }

    pub fn version(&self) -> (r: (u8, u8))
        ensures
            r == (headers_major(self.inner), self.minor),
    {
        (self.major(), self.minor())
    }
}

} // verus!
