//! Failures that can occur while loading/validating an SDIO index catalog.
//!
//! Every variant is a detected, controlled rejection of untrusted bytes: the
//! parser never panics and never coerces malformed input into a
//! plausible-looking result.
use vstd::prelude::*;

verus! {

/// Which cross-reference of the index failed validation.
#[derive(Debug, Clone, Copy, PartialEq, Eq)]
pub enum CrossRefKind {
    InfFileIndex,
    ManufacturerIndex,
    DescIndex,
}

/// Which record field held an unrepresentable value.
#[derive(Debug, Clone, Copy, PartialEq, Eq)]
pub enum RangeField {
    InfSize,
    VerV1,
    VerV2,
    VerV3,
    VerV4,
    DriverDate,
}

#[derive(Debug, Clone, PartialEq, Eq)]
pub enum SdioError {
    /// Reading the index failed; the payload is the I/O error's text.
    Io(String),
    TooLarge(usize),
    BadMagic,
    BadVersion(u32),
    Decompress(String),
    UncompressedTooLarge(usize),
    BadBlockHeader(usize),
    BlockSizeMismatch { block: usize, count: u64, elem_size: usize, byte_count: u64 },
    RecordCountExceeded { block: usize, count: u64, bound: u64 },
    PoolOffsetOutOfRange { offset: u32, pool: u32 },
    UnterminatedString(u32),
    StringTooLong(u32, usize),
    CrossRefInvalid { kind: CrossRefKind, index: u64, count: u64 },
    ReservedFieldInvalid,
    OutOfRange { field: RangeField, value: i64 },
    /// A bounded lookup was refused: the exact-ID bucket exceeds the cap.
    LookupBucketTooLarge { id: String, bucket: usize, max: usize },
}

} // verus!
