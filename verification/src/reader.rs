//! The object reader: resolves stored compressed bytes into a typed,
//! size-validated payload stream.
//!
//! The stored bytes are decompressed under a cap, the envelope is scanned
//! and parsed, and the payload is exposed as a bounded stream that can
//! never yield more than the declared size — the defense against a stored
//! object whose header understates an adversarially large payload.

use vstd::prelude::*;
use crate::codec::{
    Kind, NUL_BYTE, find_byte, lemma_find_in_prefix, lemma_find_is, lemma_find_characterization,
    parse_header, spec_find, spec_header_fields, spec_header_kind, spec_header_ok,
    spec_header_size, spec_kind_of_token, all_digits, spec_digits_val,
};
use crate::compress::{inflate_capped, inflate_of, inflate_valid};
use crate::errors::ObjectError;

verus! {

/// The hard safety bound on the header scan: a stored object whose first
/// NUL does not appear within this many decompressed bytes is corrupt.
/// The longest valid header — "commit", a space, a 20-digit size, NUL —
/// is 28 bytes.
pub const HEADER_SCAN_BOUND: usize = 64;

/// A stored object resolved by the reader: its kind, its declared payload
/// size, and a bounded stream over the payload bytes.
///
/// The stream holds at most `expected_size` bytes however many decompressed
/// bytes physically followed the header: the excess of a lying header is
/// unreachable by construction. A payload shorter than declared is only
/// reported when the stream is drained, as `SizeMismatch`.
pub struct Object {
    kind: Kind,
    expected_size: u64,
    payload: Vec<u8>,
    pos: usize,
}

impl Object {
    /// The kind named by the header.
    pub closed spec fn spec_kind(&self) -> Kind {
        self.kind
    }

    /// The payload length in bytes that the header declared.
    pub closed spec fn spec_size(&self) -> u64 {
        self.expected_size
    }

    /// The kind named by the header.
    pub fn kind(&self) -> (r: Kind)
        ensures
            r == self.spec_kind(),
    {
        self.kind
    }

    /// The payload length in bytes that the header declared.
    pub fn expected_size(&self) -> (r: u64)
        ensures
            r == self.spec_size(),
    {
        self.expected_size
    }

    /// The payload bytes the stream ranges over (capped at the declared
    /// size).
    pub closed spec fn payload_seq(&self) -> Seq<u8> {
        self.payload@
    }

    /// How many payload bytes have been consumed.
    pub closed spec fn position(&self) -> int {
        self.pos as int
    }

    /// Well-formedness: the cursor is inside the payload, and the payload
    /// never exceeds the declared size.
    pub open spec fn wf(&self) -> bool {
        0 <= self.position() <= self.payload_seq().len() && self.payload_seq().len()
            <= self.spec_size()
    }

    /// How many payload bytes can still be read.
    pub fn remaining(&self) -> (r: usize)
        requires
            self.wf(),
        ensures
            r == self.payload_seq().len() - self.position(),
    {
        self.payload.len() - self.pos
    }

    /// Reads up to `n` more payload bytes: the next `n`, or all that
    /// remain, whichever is fewer. Never yields a byte beyond the cap.
    pub fn read_up_to(&mut self, n: usize) -> (r: Vec<u8>)
        requires
            old(self).wf(),
        ensures
            final(self).wf(),
            final(self).spec_kind() == old(self).spec_kind(),
            final(self).spec_size() == old(self).spec_size(),
            final(self).payload_seq() == old(self).payload_seq(),
            r@.len() == vstd::math::min(
                n as int,
                old(self).payload_seq().len() - old(self).position(),
            ),
            r@ == old(self).payload_seq().subrange(
                old(self).position(),
                old(self).position() + r@.len(),
            ),
            final(self).position() == old(self).position() + r@.len(),
    {
        let avail: usize = self.payload.len() - self.pos;
        let k: usize = if n < avail {
            n
        } else {
            avail
        };
        let mut out: Vec<u8> = Vec::new();
        let start: usize = self.pos;
        let mut j: usize = 0;
        proof {
            assert(out@ =~= self.payload@.subrange(start as int, start as int));
        }
        while j < k
            invariant
                j <= k,
                start + k <= usize::MAX,
                start + k <= self.payload@.len(),
                out@ == self.payload@.subrange(start as int, start + j),
            decreases k - j,
        {
            out.push(self.payload[start + j]);
            proof {
                assert(out@ =~= self.payload@.subrange(start as int, start + j + 1));
            }
            j = j + 1;
        }
        self.pos = start + k;
        out
    }

    /// Drains the rest of the stream. Returns the remaining payload bytes
    /// if the payload reaches its declared size; reports `SizeMismatch`
    /// with the declared and actual totals if the underlying stream ended
    /// early.
    pub fn read_to_end(&mut self) -> (r: Result<Vec<u8>, ObjectError>)
        requires
            old(self).wf(),
        ensures
            final(self).wf(),
            final(self).spec_kind() == old(self).spec_kind(),
            final(self).spec_size() == old(self).spec_size(),
            final(self).payload_seq() == old(self).payload_seq(),
            final(self).position() == final(self).payload_seq().len(),
            match r {
                Ok(v) => old(self).payload_seq().len() == old(self).spec_size() && v@ == old(
                    self,
                ).payload_seq().subrange(old(self).position(), old(self).payload_seq().len() as int),
                Err(ObjectError::SizeMismatch { expected, actual }) => {
                    &&& old(self).payload_seq().len() < old(self).spec_size()
                    &&& expected == old(self).spec_size()
                    &&& actual as nat == old(self).payload_seq().len()
                },
                Err(_) => false,
            },
    {
        let total: usize = self.payload.len();
        if (total as u64) < self.expected_size {
            self.pos = total;
            return Err(
                ObjectError::SizeMismatch { expected: self.expected_size, actual: total as u64 },
            );
        }
        let rest = self.read_up_to(total);
        Ok(rest)
    }
}

/// Scans a decompressed prefix of a stored object for its envelope: finds
/// the first NUL and parses everything through it as a header.
///
/// `CorruptObject` reports that no NUL terminator was found in the given
/// bytes, or that the header text is not valid UTF-8; header grammar
/// errors are propagated exactly as `parse_header` classifies them.
pub fn parse_object_prefix(head: &Vec<u8>) -> (r: Result<(Kind, u64, usize), ObjectError>)
    ensures
        match r {
            Ok(t) => {
                &&& spec_find(head@, NUL_BYTE) == Some(t.2 - 1)
                &&& 1 <= t.2 <= head@.len()
                &&& spec_header_ok(head@.take(t.2 as int))
                &&& t.0 == spec_header_kind(head@.take(t.2 as int))
                &&& t.1 as nat == spec_header_size(head@.take(t.2 as int))
            },
            Err(e) => match e {
                ObjectError::CorruptObject => spec_find(head@, NUL_BYTE) is None || (spec_find(
                    head@,
                    NUL_BYTE,
                ) matches Some(i) && !vstd::utf8::valid_utf8(head@.take(i))),
                ObjectError::MalformedHeader => spec_find(head@, NUL_BYTE) matches Some(i)
                    && spec_header_fields(head@.take(i + 1)) is None,
                ObjectError::UnsupportedKind(tk) => spec_find(head@, NUL_BYTE) matches Some(i)
                    && spec_header_fields(head@.take(i + 1)) matches Some(f)
                    && spec_kind_of_token(f.0) is None && tk@ == f.0,
                ObjectError::InvalidSize => spec_find(head@, NUL_BYTE) matches Some(i)
                    && spec_header_fields(head@.take(i + 1)) matches Some(f)
                    && spec_kind_of_token(f.0) is Some && !(all_digits(f.1) && spec_digits_val(f.1)
                    <= u64::MAX),
                _ => false,
            },
        },
{
    let nul: usize = match find_byte(head, 0, head.len(), NUL_BYTE) {
        Some(i) => i,
        None => {
            proof {
                assert(spec_find(head@, NUL_BYTE) is None) by {
                    lemma_find_characterization(head@, NUL_BYTE);
                    if spec_find(head@, NUL_BYTE) is Some {
                        let i = spec_find(head@, NUL_BYTE)->Some_0;
                        assert(head@[i] == NUL_BYTE);
                        assert(false);
                    }
                }
            }
            return Err(ObjectError::CorruptObject);
        },
    };
    proof {
        lemma_find_is(head@, NUL_BYTE, nul as int);
    }
    let hl: usize = nul + 1;
    let mut hbytes: Vec<u8> = Vec::new();
    let mut j: usize = 0;
    while j < hl
        invariant
            j <= hl <= head@.len(),
            hbytes@ == head@.take(j as int),
        decreases hl - j,
    {
        hbytes.push(head[j]);
        proof {
            assert(hbytes@ =~= head@.take(j + 1));
        }
        j = j + 1;
    }
    match parse_header(&hbytes) {
        Ok(p) => Ok((p.0, p.1, hl)),
        Err(e) => {
            proof {
                assert(hbytes@.take(hl as int - 1) =~= head@.take(nul as int));
            }
            Err(e)
        },
    }
}

/// What a successful read says of the decompressed stream `s` it came
/// from: the envelope was found within the scan bound and parsed to the
/// object's kind and declared size, and the payload is the stream's bytes
/// right after the header — as many as the stream offers, capped at the
/// declared size (and by what a vector can hold).
pub open spec fn spec_read_ok(s: Seq<u8>, obj: Object) -> bool {
    &&& spec_find(s, NUL_BYTE) is Some
    &&& {
        let i = spec_find(s, NUL_BYTE)->Some_0;
        &&& i < HEADER_SCAN_BOUND
        &&& spec_header_ok(s.take(i + 1))
        &&& obj.spec_kind() == spec_header_kind(s.take(i + 1))
        &&& obj.spec_size() as nat == spec_header_size(s.take(i + 1))
        &&& obj.payload_seq().len() == vstd::math::min(
            obj.spec_size() as int,
            vstd::math::min(s.len() - (i + 1), usize::MAX - (i + 1)),
        )
        &&& obj.payload_seq() == s.subrange(i + 1, i + 1 + obj.payload_seq().len())
    }
}

/// What any outcome of reading compressed bytes `c` says. `CorruptObject`
/// comes only from a structurally invalid stream, from an envelope whose
/// terminator is not within the scan bound, or from header text that is
/// not valid UTF-8; every other outcome is pinned to the decompressed
/// stream. In particular, on a well-formed stream whose envelope parses,
/// the read must succeed.
pub open spec fn spec_read_outcome(c: Seq<u8>, r: Result<Object, ObjectError>) -> bool {
    match r {
        Ok(obj) => obj.wf() && obj.position() == 0 && spec_read_ok(inflate_of(c), obj),
        Err(e) => match e {
            ObjectError::CorruptObject => {
                ||| !inflate_valid(c)
                ||| spec_find(
                    inflate_of(c).take(
                        vstd::math::min(HEADER_SCAN_BOUND as int, inflate_of(c).len() as int),
                    ),
                    NUL_BYTE,
                ) is None
                ||| (spec_find(inflate_of(c), NUL_BYTE) matches Some(i) && (i < HEADER_SCAN_BOUND
                    && !vstd::utf8::valid_utf8(inflate_of(c).take(i))))
            },
            ObjectError::MalformedHeader => spec_find(inflate_of(c), NUL_BYTE) matches Some(i)
                && i < HEADER_SCAN_BOUND && spec_header_fields(inflate_of(c).take(i + 1)) is None,
            ObjectError::UnsupportedKind(tk) => spec_find(inflate_of(c), NUL_BYTE) matches Some(i)
                && ({
                &&& i < HEADER_SCAN_BOUND
                &&& spec_header_fields(inflate_of(c).take(i + 1)) matches Some(f) && (
                spec_kind_of_token(f.0) is None && tk@ == f.0)
            }),
            ObjectError::InvalidSize => spec_find(inflate_of(c), NUL_BYTE) matches Some(i) && ({
                &&& i < HEADER_SCAN_BOUND
                &&& spec_header_fields(inflate_of(c).take(i + 1)) matches Some(f) && (
                spec_kind_of_token(f.0) is Some && !(all_digits(f.1) && spec_digits_val(f.1)
                    <= u64::MAX))
            }),
            _ => false,
        },
    }
}

/// Reads a stored object from its compressed on-disk bytes.
///
/// Decompresses under a cap, scans the first `HEADER_SCAN_BOUND` bytes for
/// the envelope, parses it, and wraps the payload in a bounded stream that
/// can never produce more than the declared size.
pub fn read_object(compressed: &Vec<u8>) -> (r: Result<Object, ObjectError>)
    ensures
        spec_read_outcome(compressed@, r),
{
    let ghost s = inflate_of(compressed@);
    let head = match inflate_capped(compressed, HEADER_SCAN_BOUND) {
        Some(v) => v,
        None => {
            return Err(ObjectError::CorruptObject);
        },
    };
    let parsed = match parse_object_prefix(&head) {
        Ok(t) => t,
        Err(e) => {
            proof {
                assert(head@ == s.take(head@.len() as int));
                if spec_find(head@, NUL_BYTE) is Some {
                    let i = spec_find(head@, NUL_BYTE)->Some_0;
                    lemma_find_characterization(head@, NUL_BYTE);
                    lemma_find_in_prefix(s, head@.len() as int, NUL_BYTE);
                    assert(head@.take(i + 1) =~= s.take(i + 1));
                    assert(head@.take(i) =~= s.take(i));
                } else {
                    // no NUL in what was decoded: the scan bound is missed,
                    // whether the stream ended early (head is all of it) or
                    // the first scan-bound bytes are NUL-free
                    let m = vstd::math::min(HEADER_SCAN_BOUND as int, s.len() as int);
                    if head@.len() < HEADER_SCAN_BOUND {
                        assert(head@ == s);
                        assert(s.take(m) =~= head@);
                    } else {
                        assert(s.take(m) =~= head@);
                    }
                }
            }
            return Err(e);
        },
    };
    let kind = parsed.0;
    let size: u64 = parsed.1;
    let hl: usize = parsed.2;
    proof {
        assert(head@ == s.take(head@.len() as int));
        lemma_find_in_prefix(s, head@.len() as int, NUL_BYTE);
        assert(head@.take(hl as int) =~= s.take(hl as int));
    }
    let cap2: usize = if size <= (usize::MAX - hl) as u64 {
        hl + (size as usize)
    } else {
        usize::MAX
    };
    let full = match inflate_capped(compressed, cap2) {
        Some(v) => v,
        None => {
            return Err(ObjectError::CorruptObject);
        },
    };
    proof {
        assert(s.len() >= head@.len());
        assert(full@.len() >= hl);
    }
    let mut payload: Vec<u8> = Vec::new();
    let flen: usize = full.len();
    let mut j: usize = hl;
    proof {
        assert(payload@ =~= full@.subrange(hl as int, hl as int));
    }
    while j < flen
        invariant
            hl <= j <= flen,
            flen == full@.len(),
            payload@ == full@.subrange(hl as int, j as int),
        decreases flen - j,
    {
        payload.push(full[j]);
        proof {
            assert(payload@ =~= full@.subrange(hl as int, j + 1));
        }
        j = j + 1;
    }
    proof {
        assert(full@ == s.take(full@.len() as int));
        assert(payload@ =~= s.subrange(hl as int, full@.len() as int));
        if full@.len() < cap2 {
            assert(full@ == s);
        }
    }
    let obj = Object { kind, expected_size: size, payload, pos: 0 };
    proof {
        assert(obj.payload_seq().len() == vstd::math::min(
            obj.spec_size() as int,
            vstd::math::min(s.len() - (hl as int), usize::MAX - (hl as int)),
        ));
        assert(obj.payload_seq() == s.subrange(hl as int, hl + obj.payload_seq().len()));
    }
    Ok(obj)
}

/// Reads a stored object from the bytes found — or not found — at its
/// hash-derived address. `None` stands for a missing file and yields
/// `NotFound`; otherwise the bytes are read as `read_object` does.
pub fn read_stored(stored: Option<Vec<u8>>) -> (r: Result<Object, ObjectError>)
    ensures
        match stored {
            None => r matches Err(ObjectError::NotFound),
            Some(d) => spec_read_outcome(d@, r),
        },
{
    match stored {
        None => Err(ObjectError::NotFound),
        Some(d) => read_object(&d),
    }
}

} // verus!
