//! Content digests and their hex rendering: the addressing scheme of the
//! store. An object's address is the lowercase hex form of the SHA-1 digest
//! of its full uncompressed bytes, header included.

use vstd::prelude::*;

verus! {

/// The SHA-1 digest of a byte sequence. The digest has no short closed
/// form, so it is left as a name; it is a function of the input bytes
/// alone, which is what content addressing rests on.
pub uninterp spec fn sha1_of(s: Seq<u8>) -> Seq<u8>;

/// Relies on the sha1 crate's `Sha1` (`update` then `finalize`): the digest
/// depends only on the bytes fed in, and is exactly 20 bytes long.
#[verifier::external_body]
pub(crate) fn sha1_digest(data: &Vec<u8>) -> (r: Vec<u8>)
    ensures
        r@ == sha1_of(data@),
        r@.len() == 20,
{
    let mut hasher = <sha1::Sha1 as sha1::Digest>::new();
    sha1::Digest::update(&mut hasher, data.as_slice());
    let out = sha1::Digest::finalize(hasher);
    out.to_vec()
}

/// The lowercase hex digit for a nibble value.
pub open spec fn spec_hex_digit(n: u8) -> char {
    if n < 10 {
        ((48 + n) as char)
    } else {
        ((87 + n) as char)
    }
}

/// The lowercase hex rendering of a byte sequence: two digits per byte,
/// high nibble first.
pub open spec fn spec_hex(s: Seq<u8>) -> Seq<char> {
    Seq::new(
        s.len() * 2,
        |i: int|
            if i % 2 == 0 {
                spec_hex_digit((s[i / 2] / 16) as u8)
            } else {
                spec_hex_digit((s[i / 2] % 16) as u8)
            },
    )
}

/// Relies on hex::encode: lowercase hex, two digits per byte, high nibble
/// first.
#[verifier::external_body]
pub(crate) fn hex_encode(data: &Vec<u8>) -> (r: String)
    ensures
        r@ == spec_hex(data@),
{
    hex::encode(data.as_slice())
}

} // verus!
