//! The error taxonomy of the object store.

use vstd::prelude::*;

verus! {

/// Everything that can go wrong while reading or decoding a stored object.
///
/// `UnsupportedKind` is the one recoverable condition: the envelope is valid
/// but names a kind outside the closed set; it carries the kind token's raw
/// bytes so a caller can report it. All other variants indicate a missing or
/// corrupt store entry.
#[derive(Debug)]
pub enum ObjectError {
    /// No object is stored at the hash-derived address.
    NotFound,
    /// Decompression failed structurally, or no header terminator was found
    /// within the scan bound.
    CorruptObject,
    /// The header has no space separating the kind token from the size.
    MalformedHeader,
    /// The kind token is outside the closed set; the token bytes are carried.
    UnsupportedKind(Vec<u8>),
    /// The size field is not a decimal number that fits the size type.
    InvalidSize,
    /// The payload ended before the declared size was reached.
    SizeMismatch { expected: u64, actual: u64 },
}

} // verus!
