//! The property that ties the writer and reader together: what was written
//! is what is read back.

use vstd::prelude::*;
use crate::codec::{Kind, NUL_BYTE, lemma_find_characterization, lemma_find_in_prefix,
    lemma_find_is, lemma_header_ok_text, lemma_header_round_trip, spec_find, spec_header_bytes,
    spec_header_fields, spec_header_ok, spec_header_size};
use crate::compress::{inflate_of, inflate_valid};
use crate::errors::ObjectError;
use crate::reader::{spec_read_ok, spec_read_outcome, Object, HEADER_SCAN_BOUND};
use crate::writer::spec_stored_blob;

verus! {

/// Round-trip identity: a blob written from `content` and read back yields
/// kind `Blob`, a declared size equal to the content's length, and exactly
/// the content as its payload.
///
/// The writer guarantees that decompressing what it persists gives
/// `spec_stored_blob(content)`; the reader guarantees `spec_read_ok` of
/// whatever it accepted over that decompressed stream. This lemma closes
/// the loop for every content that fits in memory alongside its envelope.
pub proof fn lemma_blob_round_trip(content: Seq<u8>, obj: Object)
    requires
        content.len() + 28 <= usize::MAX,
        spec_read_ok(spec_stored_blob(content), obj),
    ensures
        obj.spec_kind() == Kind::Blob,
        obj.spec_size() == content.len(),
        obj.payload_seq() == content,
{
    let size: u64 = content.len() as u64;
    assert(size as nat == content.len());
    lemma_header_round_trip(Kind::Blob, size);
    let hdr = spec_header_bytes(Kind::Blob, content.len() as nat);
    let s = spec_stored_blob(content);
    let hl = hdr.len() as int;
    assert(s.take(hl) =~= hdr);
    lemma_find_in_prefix(s, hl, NUL_BYTE);
    assert(spec_find(s, NUL_BYTE) == Some(hl - 1));
    assert(hl - 1 < HEADER_SCAN_BOUND);
    assert(spec_header_size(hdr) == content.len());
    assert(obj.payload_seq().len() == content.len());
    assert(s.subrange(hl, hl + content.len()) =~= content);
}

/// Acceptance: a well-formed stream whose envelope terminator lies within
/// the scan bound and whose header the grammar accepts cannot be rejected
/// — every error arm of the reader's contract is contradicted, so the
/// reader returns an object.
pub proof fn lemma_valid_envelope_accepted(c: Seq<u8>, r: Result<Object, ObjectError>)
    requires
        inflate_valid(c),
        spec_find(inflate_of(c), NUL_BYTE) is Some,
        spec_find(inflate_of(c), NUL_BYTE)->Some_0 < HEADER_SCAN_BOUND,
        spec_header_ok(inflate_of(c).take(spec_find(inflate_of(c), NUL_BYTE)->Some_0 + 1)),
        spec_read_outcome(c, r),
    ensures
        r is Ok,
{
    let s = inflate_of(c);
    let i = spec_find(s, NUL_BYTE)->Some_0;
    lemma_find_characterization(s, NUL_BYTE);
    let hdr = s.take(i + 1);
    match r {
        Ok(_) => {},
        Err(e) => match e {
            ObjectError::CorruptObject => {
                let m = vstd::math::min(HEADER_SCAN_BOUND as int, s.len() as int);
                assert(i < m);
                assert(s.take(m)[i] == NUL_BYTE);
                assert forall|j: int| 0 <= j < i implies s.take(m)[j] != NUL_BYTE by {
                    assert(s.take(m)[j] == s[j]);
                }
                lemma_find_is(s.take(m), NUL_BYTE, i);
                lemma_header_ok_text(hdr);
                assert(hdr.take(hdr.len() - 1) =~= s.take(i));
                assert(false);
            },
            ObjectError::MalformedHeader => {
                assert(spec_header_fields(hdr) is Some);
                assert(false);
            },
            ObjectError::UnsupportedKind(_) => {
                assert(false);
            },
            ObjectError::InvalidSize => {
                assert(false);
            },
            _ => {
                assert(false);
            },
        },
    }
}

/// Round-trip success: reading compressed bytes that the writer produced
/// for `content` cannot fail. The stream is well formed and its
/// decompression is the canonical envelope plus content, so the reader
/// accepts it, and by `lemma_blob_round_trip` the accepted object is the
/// blob that was written.
pub proof fn lemma_blob_read_back(c: Seq<u8>, content: Seq<u8>, r: Result<Object, ObjectError>)
    requires
        content.len() + 28 <= usize::MAX,
        inflate_valid(c),
        inflate_of(c) == spec_stored_blob(content),
        spec_read_outcome(c, r),
    ensures
        r is Ok,
        r->Ok_0.spec_kind() == Kind::Blob,
        r->Ok_0.spec_size() == content.len(),
        r->Ok_0.payload_seq() == content,
{
    let size: u64 = content.len() as u64;
    lemma_header_round_trip(Kind::Blob, size);
    let hdr = spec_header_bytes(Kind::Blob, content.len() as nat);
    let s = spec_stored_blob(content);
    let hl = hdr.len() as int;
    assert(s.take(hl) =~= hdr);
    lemma_find_in_prefix(s, hl, NUL_BYTE);
    assert(spec_find(s, NUL_BYTE) == Some(hl - 1));
    lemma_valid_envelope_accepted(c, r);
    lemma_blob_round_trip(content, r->Ok_0);
}

/// Cap enforcement: however many decompressed bytes physically follow the
/// header in the stream `s`, an object the reader accepts never carries
/// more payload than its header declared.
pub proof fn lemma_cap_enforcement(s: Seq<u8>, obj: Object)
    requires
        spec_read_ok(s, obj),
    ensures
        obj.payload_seq().len() <= obj.spec_size(),
{
}

} // verus!
