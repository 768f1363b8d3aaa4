# ltk

League Toolkit formats as a verified library: WAD archives, TEX textures and
troybin particle files. Every function under `src/` is checked by Verus
against its `requires` / `ensures` contract.

## Layout

- `src/wad/`: WAD archives. Headers and TOC entries of every version, the
  chunk table, mounting from the bytes an archive starts with, building an
  archive, rebasing one in place, chunk decompression (gzip, zstd, the
  subchunked `ZstdMulti` layout), the names an extraction writes chunks
  under, path resolvers, and the recovery of chunk names from `.bin` files.
- `src/texture/`: the TEX header and mip chain layout, decoding of its pixel
  formats, BC5 signed decoding, and encoding with and without mipmaps.
- `src/troybin/`: the binary troybin format (reading both versions, writing
  the second), the hash dictionary that names its fields, grouping records
  into sections, and the INI text form.
- `src/bytes.rs`, `src/text.rs`: little-endian integers and character
  helpers the three formats share.
- `app/`: what Verus does not take: readers and writers, the file system,
  images, floating-point values, and the BC7 encoder.
- `tests/`: the test suite, run against the compiled library.

Calls into outside crates (flate2, ruzstd, xxhash-rust, sha2, texpresso,
texture2ddecoder, image, image_dds, camino) go through small trusted
wrappers whose contracts state what the crates document; each wrapper's doc
comment says what it claims.

Proved properties include: a built WAD mounts as what it was built from; a
rebased WAD mounts with its TOC listing the tail where it was laid down; a
TEX written and read back is the same texture; a troybin's second version
reads back the records it was written from; a hash name reads back as its
hash; the `.ltk` suffix strips back to the name it was added to; and a
settled extraction name is never one the extraction needs as a directory,
unless it is the chunk's hash name; and every hash of the troybin dictionary
is the hash of the pair it resolves to, each group's properties are among its
hashes, and no group takes a hash from the System section.
