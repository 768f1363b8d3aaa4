//! Reading, writing and rebasing League of Legends WAD archives.

pub mod archive;
pub mod builder;
pub mod chunk;
pub mod chunks;
pub mod codec;
pub mod decoder;
pub mod entry;
pub mod error;
pub mod extract;
pub mod header;
pub mod naming;
pub mod ordered;
pub mod rebase;
pub mod recovery;
pub mod resolver;
pub mod subchunk;

pub use archive::Wad;
pub use builder::{WadBuilder, WadBuilderError, WadChunkBuilder};
pub use chunk::{
    read_24_bit_subchunk_start_frame, write_24_bit_subchunk_start_frame, WadChunk,
    WadChunkCompression,
};
pub use chunks::WadChunks;
pub use decoder::{
    decompress_prefix, decompress_raw, decompress_subchunked, try_decompress_raw, ChunkDecoder,
};
pub use entry::{Builder, DataRegion, Entry, EntryExt, EntryKind, OwnedEntry};
pub use error::WadError;
pub use extract::{base_name, hashed_name, settle_name, ClaimedPaths};
pub use header::{Header, HeaderExt, Headers};
pub use naming::{
    chunk_hash_of, is_evil, ltk_name, plain_path, strip_ltk_suffix, DirectoryPaths, ExistingFilePolicy,
    ExtractLayout, ExtractResult, NamingPolicy, PathIssue,
};
pub use rebase::{
    EncodedChunk, RebaseImage, WadRebaseError, WadRebasePlan, WadRebaseReport, WadTailLayout,
};
pub use recovery::{
    candidates, claim_names, hex_chunk_hash, hex_name, is_bin_name, is_hex_chunk_path, recovery_plan,
    LayeredResolver, NameRecovery, RecoveredNames,
};
pub use resolver::{NoResolver, PathResolver};
pub use subchunk::{
    subchunk_toc_candidates, subchunk_toc_of_candidate, SubchunkToc, WadSubchunk,
};
