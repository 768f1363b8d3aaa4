//! Troybin (INIBIN) particle files: the binary layout, the property-name
//! hash and dictionary, and the sections records resolve into.

pub mod binary;
pub mod dictionary;
pub mod hash;
pub mod ini;
pub mod reader;
pub mod resolution;
pub mod round_trip;
pub mod sections;
pub mod types;

pub use binary::{read_binary, read_v1, read_v2, write_binary, write_v2, RawRecord, RawValue};
pub use dictionary::{build_hash_map, extract_group_names, resolve_entries, resolve_hash};
pub use ini::{read_ini, IniDocument, IniEntry};
pub use hash::{build_hash_entries, hash_section_field, ihash, section_field_hash};
pub use reader::BinReader;
pub use sections::{resolve_sections, RawProperty, RawSection};
pub use types::{StorageType, TroybinError};
