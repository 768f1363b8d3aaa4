//! The storage types of a troybin's blocks, and what can go wrong reading
//! or writing one.

use vstd::prelude::*;

verus! {

/// Which binary storage type was used for an entry. The number of each type
/// is its flag bit in the v2 format.
#[derive(Debug, Clone, Copy, PartialEq, Eq, Structural)]
pub enum StorageType {
    /// Bit 0: `i32 x 1, mul=1`
    Int32,
    /// Bit 1: `f32 x 1, mul=1`
    Float32,
    /// Bit 2: `u8 x 1, mul=0.1`
    U8Scaled,
    /// Bit 3: `i16 x 1, mul=1`
    Int16,
    /// Bit 4: `u8 x 1, mul=1`
    U8,
    /// Bit 5: packed booleans
    Bool,
    /// Bit 6: `u8 x 3, mul=0.1`
    U8x3Scaled,
    /// Bit 7: `f32 x 3, mul=1`
    Float32x3,
    /// Bit 8: `u8 x 2, mul=0.1`
    U8x2Scaled,
    /// Bit 9: `f32 x 2, mul=1`
    Float32x2,
    /// Bit 10: `u8 x 4, mul=0.1` (colors)
    U8x4Scaled,
    /// Bit 11: `f32 x 4, mul=1`
    Float32x4,
    /// Bit 12: null-terminated strings
    StringBlock,
    /// Bit 13: `i32 x 1, mul=1` (long in Leischii's code)
    Int32Long,
    /// Old format (v1): all values stored as strings in a data block.
    /// Numbered 255, since it is no v2 flag bit.
    OldFormat,
}

/// The number of a storage type.
pub open spec fn storage_code(t: StorageType) -> u8 {
    match t {
        StorageType::Int32 => 0,
        StorageType::Float32 => 1,
        StorageType::U8Scaled => 2,
        StorageType::Int16 => 3,
        StorageType::U8 => 4,
        StorageType::Bool => 5,
        StorageType::U8x3Scaled => 6,
        StorageType::Float32x3 => 7,
        StorageType::U8x2Scaled => 8,
        StorageType::Float32x2 => 9,
        StorageType::U8x4Scaled => 10,
        StorageType::Float32x4 => 11,
        StorageType::StringBlock => 12,
        StorageType::Int32Long => 13,
        StorageType::OldFormat => 255,
    }
}

/// The storage type a number names.
pub open spec fn storage_of_code(v: u8) -> Option<StorageType> {
    if v == 0 {
        Some(StorageType::Int32)
    } else if v == 1 {
        Some(StorageType::Float32)
    } else if v == 2 {
        Some(StorageType::U8Scaled)
    } else if v == 3 {
        Some(StorageType::Int16)
    } else if v == 4 {
        Some(StorageType::U8)
    } else if v == 5 {
        Some(StorageType::Bool)
    } else if v == 6 {
        Some(StorageType::U8x3Scaled)
    } else if v == 7 {
        Some(StorageType::Float32x3)
    } else if v == 8 {
        Some(StorageType::U8x2Scaled)
    } else if v == 9 {
        Some(StorageType::Float32x2)
    } else if v == 10 {
        Some(StorageType::U8x4Scaled)
    } else if v == 11 {
        Some(StorageType::Float32x4)
    } else if v == 12 {
        Some(StorageType::StringBlock)
    } else if v == 13 {
        Some(StorageType::Int32Long)
    } else if v == 255 {
        Some(StorageType::OldFormat)
    } else {
        None
    }
}

/// Scalar components per entry of a storage type.
pub open spec fn components_of(t: StorageType) -> nat {
    match t {
        StorageType::U8x3Scaled | StorageType::Float32x3 => 3,
        StorageType::U8x2Scaled | StorageType::Float32x2 => 2,
        StorageType::U8x4Scaled | StorageType::Float32x4 => 4,
        _ => 1,
    }
}

impl StorageType {
    /// Number of scalar components per entry for this type.
    pub fn component_count(self) -> (r: usize)
        ensures
            r == components_of(self),
    {
        match self {
            StorageType::U8x3Scaled | StorageType::Float32x3 => 3,
            StorageType::U8x2Scaled | StorageType::Float32x2 => 2,
            StorageType::U8x4Scaled | StorageType::Float32x4 => 4,
            _ => 1,
        }
    }

    /// Whether read values are scaled by 0.1 (the `u8` scaled types).
    pub fn is_scaled(self) -> (r: bool)
        ensures
            r == (self is U8Scaled || self is U8x3Scaled || self is U8x2Scaled
                || self is U8x4Scaled),
    {
        match self {
            StorageType::U8Scaled | StorageType::U8x3Scaled | StorageType::U8x2Scaled
            | StorageType::U8x4Scaled => true,
            _ => false,
        }
    }

    /// The number of the storage type.
    pub fn to_u8(self) -> (r: u8)
        ensures
            r == storage_code(self),
    {
        match self {
            StorageType::Int32 => 0,
            StorageType::Float32 => 1,
            StorageType::U8Scaled => 2,
            StorageType::Int16 => 3,
            StorageType::U8 => 4,
            StorageType::Bool => 5,
            StorageType::U8x3Scaled => 6,
            StorageType::Float32x3 => 7,
            StorageType::U8x2Scaled => 8,
            StorageType::Float32x2 => 9,
            StorageType::U8x4Scaled => 10,
            StorageType::Float32x4 => 11,
            StorageType::StringBlock => 12,
            StorageType::Int32Long => 13,
            StorageType::OldFormat => 255,
        }
    }

    /// The storage type numbered `v`.
    pub fn try_from_u8(v: u8) -> (r: Result<Self, TroybinError>)
        ensures
            storage_of_code(v) matches Some(t) ==> r == Ok::<StorageType, TroybinError>(t),
            storage_of_code(v) is None ==> (r matches Err(TroybinError::InvalidStorageType(x))
                && x == v),
    {
        match v {
            0 => Ok(StorageType::Int32),
            1 => Ok(StorageType::Float32),
            2 => Ok(StorageType::U8Scaled),
            3 => Ok(StorageType::Int16),
            4 => Ok(StorageType::U8),
            5 => Ok(StorageType::Bool),
            6 => Ok(StorageType::U8x3Scaled),
            7 => Ok(StorageType::Float32x3),
            8 => Ok(StorageType::U8x2Scaled),
            9 => Ok(StorageType::Float32x2),
            10 => Ok(StorageType::U8x4Scaled),
            11 => Ok(StorageType::Float32x4),
            12 => Ok(StorageType::StringBlock),
            13 => Ok(StorageType::Int32Long),
            255 => Ok(StorageType::OldFormat),
            _ => Err(TroybinError::InvalidStorageType(v)),
        }
    }
}

/// Every storage type reads back from its number.
pub proof fn lemma_storage_code_round_trip(t: StorageType)
    ensures
        storage_of_code(storage_code(t)) == Some(t),
{
}

/// What can go wrong reading or writing a troybin.
#[derive(Debug)]
pub enum TroybinError {
    Io(std::io::Error),
    Empty,
    UnknownVersion(u8),
    UnexpectedEof { offset: usize, needed: usize, available: usize },
    IniParse { line: usize, message: String },
    V1WriteNotSupported,
    /// A number that names no storage type.
    InvalidStorageType(u8),
}

} // verus!
