//! A content-addressable object store: the zlib-compressed, header-prefixed
//! on-disk encoding used by distributed version-control object databases.
//!
//! An object is an immutable byte record addressed by the SHA-1 digest of
//! `"<kind> <size>\0" + payload`. This crate provides the header codec, the
//! hash-derived addressing scheme, and the read and write paths that keep
//! what is stored in agreement with what its hash names.

pub mod addr;
pub mod codec;
pub mod compress;
pub mod laws;
pub mod errors;
pub mod hashing;
pub mod reader;
pub mod writer;

pub use codec::Kind;
pub use errors::ObjectError;
