[package]
name = "ltk"
version = "0.1.0"
edition = "2021"
publish = false

[dependencies]
flate2 = "=1.1.10"
ruzstd = "=0.9.1"
xxhash-rust = { version = "=0.8.19", features = ["xxh3", "xxh64"] }
sha2 = "=0.10.9"
texpresso = "=2.0.2"
texture2ddecoder = "=0.1.2"
image_dds = { version = "=0.7.2", default-features = false, features = ["ddsfile", "image", "strum"] }
intel_tex_2 = "=0.5.0"
image = "=0.25.10"
half = "=2.7.1"
thiserror = "=2.0.21"
camino = "=1.2.6"
ddsfile = "=0.5.2"
