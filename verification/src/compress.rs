//! zlib compression and decompression of stored objects, behind trusted
//! wrappers around flate2.
//!
//! Decompression is named by `inflate_of`: the longest byte sequence that a
//! zlib decoder produces from the input before it reaches the end of the
//! stream or fails. It is a function of the input bytes alone. A
//! well-formed stream's `inflate_of` is its full decompression; compressing
//! is stated as producing bytes whose `inflate_of` is the original input,
//! which is flate2's documented lossless round trip.

use vstd::prelude::*;

verus! {

/// The bytes a zlib decoder produces from `s`: the full decompression of a
/// well-formed stream, or the longest prefix decoded before a structural
/// failure.
pub uninterp spec fn inflate_of(s: Seq<u8>) -> Seq<u8>;

/// Whether `s` is a well-formed zlib stream: one a decoder decodes cleanly
/// to its end, without a structural error. Like `inflate_of`, this is a
/// function of the bytes alone.
pub uninterp spec fn inflate_valid(s: Seq<u8>) -> bool;

/// Relies on flate2's `write::ZlibEncoder`: compression to an in-memory
/// sink cannot fail, `finish` emits a complete well-formed stream, and
/// decompressing that stream yields exactly the bytes written, so
/// `inflate_of` of the result is the input.
#[verifier::external_body]
pub(crate) fn deflate(data: &Vec<u8>) -> (r: Vec<u8>)
    ensures
        inflate_of(r@) == data@,
        inflate_valid(r@),
{
    let mut enc = flate2::write::ZlibEncoder::new(Vec::new(), flate2::Compression::default());
    std::io::Write::write_all(&mut enc, data.as_slice()).expect("writing to a Vec sink");
    enc.finish().expect("finishing to a Vec sink")
}

/// Relies on flate2's `read::ZlibDecoder`, bounded by `Read::take`: at most
/// `cap` decoded bytes are ever produced, they are a prefix of `inflate_of`
/// of the input, and a result shorter than `cap` means the stream ended
/// there, so the prefix is the whole decompression. `None` reports a
/// structural decoding failure — corrupt or truncated input — which never
/// happens to a well-formed stream under any cap.
#[verifier::external_body]
pub(crate) fn inflate_capped(data: &Vec<u8>, cap: usize) -> (r: Option<Vec<u8>>)
    ensures
        match r {
            Some(v) => {
                &&& v@.len() <= cap
                &&& v@.len() <= inflate_of(data@).len()
                &&& v@ == inflate_of(data@).take(v@.len() as int)
                &&& v@.len() < cap ==> v@ == inflate_of(data@)
            },
            None => !inflate_valid(data@),
        },
{
    let dec = flate2::read::ZlibDecoder::new(data.as_slice());
    let mut out: Vec<u8> = Vec::new();
    let mut capped = std::io::Read::take(dec, cap as u64);
    match std::io::Read::read_to_end(&mut capped, &mut out) {
        Ok(_) => Some(out),
        Err(_) => None,
    }
}

} // verus!
