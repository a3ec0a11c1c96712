//! Hash-derived addressing: validating a hex digest and deriving the
//! on-disk location from it. The location is a pure function of the hash —
//! first two hex characters as the directory, the rest as the file name —
//! shared by the read and write paths so the two cannot drift apart.

use vstd::prelude::*;

verus! {

/// Whether `c` is a lowercase hex digit.
pub open spec fn spec_is_hex_char(c: char) -> bool {
    (48 <= c as u32 && c as u32 <= 57) || (97 <= c as u32 && c as u32 <= 102)
}

/// A well-formed object hash: exactly 40 lowercase hex characters. Short
/// or ambiguous prefixes are not addresses; callers must expand them
/// before reaching the store.
pub open spec fn spec_valid_hash(s: Seq<char>) -> bool {
    s.len() == 40 && forall|i: int| 0 <= i < s.len() ==> spec_is_hex_char(s[i])
}

/// Checks that `h` is a well-formed object hash.
pub fn valid_hash(h: &str) -> (r: bool)
    ensures
        r == spec_valid_hash(h@),
{
    let len: usize = h.unicode_len();
    if len != 40 {
        return false;
    }
    let mut i: usize = 0;
    while i < 40
        invariant
            i <= 40,
            h@.len() == 40,
            forall|j: int| 0 <= j < i ==> spec_is_hex_char(h@[j]),
        decreases 40 - i,
    {
        let c: char = h.get_char(i);
        let u: u32 = c as u32;
        if !((48 <= u && u <= 57) || (97 <= u && u <= 102)) {
            return false;
        }
        i = i + 1;
    }
    true
}

/// Splits a well-formed hash into its storage location: the two-character
/// directory name and the remaining thirty-eight-character file name.
pub fn hash_path_parts(h: &str) -> (r: (String, String))
    requires
        spec_valid_hash(h@),
    ensures
        r.0@ == h@.take(2),
        r.1@ == h@.skip(2),
{
    let dir = h.substring_char(0, 2);
    let rest = h.substring_char(2, 40);
    proof {
        assert(dir@ =~= h@.take(2));
        assert(rest@ =~= h@.skip(2));
    }
    (dir.to_owned(), rest.to_owned())
}

} // verus!
