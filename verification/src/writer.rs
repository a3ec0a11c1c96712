//! The object writer: encodes raw content as a blob object, computes its
//! hash-derived address, and optionally produces the compressed bytes to be
//! staged and atomically published by the caller.

use vstd::prelude::*;
use crate::codec::{Kind, encode_header, spec_header_bytes};
use crate::compress::{deflate, inflate_of, inflate_valid};
use crate::hashing::{hex_encode, sha1_digest, sha1_of, spec_hex};

verus! {

/// The full uncompressed bytes stored for a blob with the given content:
/// its envelope followed by the content itself.
pub open spec fn spec_stored_blob(content: Seq<u8>) -> Seq<u8> {
    spec_header_bytes(Kind::Blob, content.len()) + content
}

/// The hash-derived address of a blob with the given content: the
/// lowercase hex SHA-1 of its stored bytes. The hash is computed over the
/// uncompressed logical bytes, never over compressed output, so it does not
/// depend on whether or how the object is persisted.
pub open spec fn spec_blob_hash(content: Seq<u8>) -> Seq<char> {
    spec_hex(sha1_of(spec_stored_blob(content)))
}

/// The outcome of writing a blob: its address, and, when persistence was
/// requested, the compressed bytes to be staged and renamed into place.
pub struct BlobWrite {
    /// The hex hash that names the object.
    pub hash: String,
    /// The zlib-compressed stored bytes; `Some` exactly when persistence
    /// was requested, `None` for a dry hash.
    pub compressed: Option<Vec<u8>>,
}

/// Encodes `content` as a blob object.
///
/// The returned hash is a function of the content alone: the `persist`
/// flag only decides whether compressed bytes are produced for the caller
/// to store, never what the hash is. The compressed bytes are a
/// well-formed stream whose decompression is exactly the envelope plus
/// content that the hash was computed over.
pub fn write_blob(content: &Vec<u8>, persist: bool) -> (r: BlobWrite)
    ensures
        r.hash@ == spec_blob_hash(content@),
        r.hash@.len() == 40,
        (r.compressed is Some) <==> persist,
        persist ==> inflate_of(r.compressed->0@) == spec_stored_blob(content@),
        persist ==> inflate_valid(r.compressed->0@),
{
    let size: u64 = content.len() as u64;
    let mut stored = encode_header(Kind::Blob, size);
    proof {
        assert(stored@ + content@.take(0) =~= stored@);
    }
    let ghost header = stored@;
    let mut i: usize = 0;
    while i < content.len()
        invariant
            i <= content@.len(),
            header == spec_header_bytes(Kind::Blob, content@.len() as nat),
            stored@ == header + content@.take(i as int),
        decreases content@.len() - i,
    {
        stored.push(content[i]);
        proof {
            assert(header + content@.take(i as int) + seq![content@[i as int]] =~= header
                + content@.take(i + 1));
        }
        i = i + 1;
    }
    proof {
        assert(content@.take(content@.len() as int) =~= content@);
        assert(stored@ == spec_stored_blob(content@));
    }
    let digest = sha1_digest(&stored);
    let hash = hex_encode(&digest);
    let compressed: Option<Vec<u8>> = if persist {
        Some(deflate(&stored))
    } else {
        None
    };
    BlobWrite { hash, compressed }
}

} // verus!
