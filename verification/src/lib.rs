//! League Toolkit formats: WAD archives, TEX textures and troybin particle files.

pub mod bytes;
pub mod text;
pub mod texture;
pub mod troybin;
pub mod wad;
