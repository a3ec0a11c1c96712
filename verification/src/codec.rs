//! The object header codec: the `"<kind> <size>\0"` envelope that prefixes
//! every stored object's payload.
//!
//! A header is the kind's lowercase token, one space, the payload size in
//! decimal, and a single NUL terminator. The grammar is exact: the spec
//! functions here define it, and both the serializer and the parser are
//! proved against them.

use vstd::prelude::*;
use crate::errors::ObjectError;

verus! {

/// The byte value of the NUL terminator.
pub const NUL_BYTE: u8 = 0;

/// The byte value of the space separator.
pub const SPACE_BYTE: u8 = 32;

/// The closed set of object kinds. Tree and commit payloads are treated as
/// opaque byte sequences by this crate; the kinds exist so that their
/// envelopes parse.
#[derive(Clone, Copy, Debug, PartialEq, Eq, Structural)]
pub enum Kind {
    Blob,
    Tree,
    Commit,
}

impl Kind {
    /// The kind's token as it appears in a header: "blob", "tree" or
    /// "commit" as ASCII bytes.
    pub open spec fn spec_token(self) -> Seq<u8> {
        match self {
            Kind::Blob => seq![98u8, 108u8, 111u8, 98u8],
            Kind::Tree => seq![116u8, 114u8, 101u8, 101u8],
            Kind::Commit => seq![99u8, 111u8, 109u8, 109u8, 105u8, 116u8],
        }
    }

    /// The kind's lowercase name, for display.
    pub open spec fn spec_name(self) -> Seq<char> {
        match self {
            Kind::Blob => "blob"@,
            Kind::Tree => "tree"@,
            Kind::Commit => "commit"@,
        }
    }

    pub fn name(&self) -> (r: &'static str)
        ensures
            r@ == self.spec_name(),
    {
        match self {
            Kind::Blob => "blob",
            Kind::Tree => "tree",
            Kind::Commit => "commit",
        }
    }
}

/// The index of the first occurrence of `b` in `s`, if any.
pub open spec fn spec_find(s: Seq<u8>, b: u8) -> Option<int>
    decreases s.len(),
{
    if s.len() == 0 {
        None
    } else if s[0] == b {
        Some(0)
    } else {
        match spec_find(s.skip(1), b) {
            Some(i) => Some(i + 1),
            None => None,
        }
    }
}

/// `spec_find` returns the first occurrence: the found index holds `b` and
/// nothing before it does; `None` means `b` does not occur at all.
pub proof fn lemma_find_characterization(s: Seq<u8>, b: u8)
    ensures
        match spec_find(s, b) {
            Some(i) => 0 <= i < s.len() && s[i] == b && (forall|j: int| 0 <= j < i ==> s[j] != b),
            None => forall|j: int| 0 <= j < s.len() ==> s[j] != b,
        },
    decreases s.len(),
{
    if s.len() > 0 && s[0] != b {
        lemma_find_characterization(s.skip(1), b);
        match spec_find(s.skip(1), b) {
            Some(i) => {
                assert(s.skip(1)[i] == s[i + 1]);
                assert forall|j: int| 0 <= j < i + 1 implies s[j] != b by {
                    if j > 0 {
                        assert(s.skip(1)[j - 1] == s[j]);
                    }
                }
            },
            None => {
                assert forall|j: int| 0 <= j < s.len() implies s[j] != b by {
                    if j > 0 {
                        assert(s.skip(1)[j - 1] == s[j]);
                    }
                }
            },
        }
    }
}

/// The converse: a position that holds `b` with none before it is what
/// `spec_find` returns.
pub proof fn lemma_find_is(s: Seq<u8>, b: u8, i: int)
    requires
        0 <= i < s.len(),
        s[i] == b,
        forall|j: int| 0 <= j < i ==> s[j] != b,
    ensures
        spec_find(s, b) == Some(i),
{
    lemma_find_characterization(s, b);
    match spec_find(s, b) {
        Some(k) => {
            if k < i {
                assert(s[k] == b);
            } else if k > i {
                assert(s[i] != b);
            }
        },
        None => {
            assert(s[i] != b);
        },
    }
}

/// A first occurrence inside a prefix is the first occurrence in the whole
/// sequence.
pub proof fn lemma_find_in_prefix(s: Seq<u8>, n: int, b: u8)
    requires
        0 <= n <= s.len(),
        spec_find(s.take(n), b) is Some,
    ensures
        spec_find(s, b) == spec_find(s.take(n), b),
{
    lemma_find_characterization(s.take(n), b);
    let i = spec_find(s.take(n), b)->Some_0;
    assert forall|j: int| 0 <= j < i implies s[j] != b by {
        assert(s.take(n)[j] == s[j]);
    }
    assert(s.take(n)[i] == s[i]);
    lemma_find_is(s, b, i);
}

/// Whether `b` is an ASCII decimal digit.
pub open spec fn is_digit(b: u8) -> bool {
    48 <= b <= 57
}

/// The numeric value of a digit byte (0 for non-digits, which the grammar
/// rules out before this is relied on).
pub open spec fn digit_val(b: u8) -> nat {
    if is_digit(b) {
        (b - 48) as nat
    } else {
        0
    }
}

/// A non-empty, all-digit byte sequence: the size field's grammar.
pub open spec fn all_digits(s: Seq<u8>) -> bool {
    s.len() > 0 && forall|i: int| 0 <= i < s.len() ==> is_digit(s[i])
}

/// The value of a digit sequence read as a decimal numeral.
pub open spec fn spec_digits_val(s: Seq<u8>) -> nat
    decreases s.len(),
{
    if s.len() == 0 {
        0
    } else {
        10 * spec_digits_val(s.drop_last()) + digit_val(s.last())
    }
}

/// The canonical decimal numeral of `n`: no sign, no leading zeros.
pub open spec fn spec_decimal(n: nat) -> Seq<u8>
    decreases n,
{
    if n < 10 {
        seq![(48 + n) as u8]
    } else {
        spec_decimal(n / 10).push((48 + n % 10) as u8)
    }
}

/// A numeral's prefixes never exceed its value.
pub proof fn lemma_digits_val_prefix_le(s: Seq<u8>, i: int)
    requires
        0 <= i <= s.len(),
    ensures
        spec_digits_val(s.take(i)) <= spec_digits_val(s),
    decreases s.len(),
{
    if i == s.len() {
        assert(s.take(i) =~= s);
    } else {
        assert(s.drop_last().take(i) =~= s.take(i));
        lemma_digits_val_prefix_le(s.drop_last(), i);
    }
}

/// The canonical numeral of `n` is all digits and reads back as `n`.
pub proof fn lemma_decimal_digits(n: nat)
    ensures
        all_digits(spec_decimal(n)),
        spec_digits_val(spec_decimal(n)) == n,
    decreases n,
{
    if n < 10 {
        let s = spec_decimal(n);
        assert(s.drop_last() =~= Seq::<u8>::empty());
        assert(spec_digits_val(Seq::<u8>::empty()) == 0);
        assert(s.last() == (48 + n) as u8);
        assert(is_digit(s.last()));
        assert(digit_val(s.last()) == n);
    } else {
        lemma_decimal_digits(n / 10);
        assert(n == 10 * (n / 10) + n % 10);
        let s = spec_decimal(n);
        let p = spec_decimal(n / 10);
        assert(s == p.push((48 + n % 10) as u8));
        assert(s.drop_last() =~= p);
        assert(s.last() == (48 + n % 10) as u8);
        assert(spec_digits_val(s) == 10 * (n / 10) + n % 10);
        assert(forall|i: int|
            0 <= i < s.len() ==> is_digit(#[trigger] s[i])) by {
            assert(forall|i: int| 0 <= i < p.len() ==> is_digit(#[trigger] p[i]));
        }
    }
}

/// Powers of ten, for bounding numeral lengths.
pub open spec fn pow10(k: nat) -> nat
    decreases k,
{
    if k == 0 {
        1
    } else {
        10 * pow10((k - 1) as nat)
    }
}

/// A number below `pow10(k)` has a numeral of at most `k` digits.
pub proof fn lemma_decimal_len(n: nat, k: nat)
    requires
        1 <= k,
        n < pow10(k),
    ensures
        spec_decimal(n).len() <= k,
    decreases k,
{
    if n < 10 {
    } else {
        assert(n == 10 * (n / 10) + n % 10);
        assert(k >= 2) by {
            if k == 1 {
                assert(pow10(1) == 10) by {
                    reveal_with_fuel(pow10, 3);
                }
                assert(false);
            }
        }
        assert(pow10(k) == 10 * pow10((k - 1) as nat));
        assert(10 * (n / 10) < 10 * pow10((k - 1) as nat));
        lemma_decimal_len(n / 10, (k - 1) as nat);
    }
}

/// Any `u64` value's numeral fits in 20 digits.
pub proof fn lemma_decimal_len_u64(n: u64)
    ensures
        spec_decimal(n as nat).len() <= 20,
{
    assert(pow10(20) > u64::MAX) by {
        reveal_with_fuel(pow10, 21);
    }
    lemma_decimal_len(n as nat, 20);
}

/// The header bytes for a kind and payload size: token, space, decimal
/// size, NUL.
pub open spec fn spec_header_bytes(kind: Kind, size: nat) -> Seq<u8> {
    kind.spec_token() + seq![SPACE_BYTE] + spec_decimal(size) + seq![NUL_BYTE]
}

/// The kind named by a token, if it is in the closed set.
pub open spec fn spec_kind_of_token(t: Seq<u8>) -> Option<Kind> {
    if t == Kind::Blob.spec_token() {
        Some(Kind::Blob)
    } else if t == Kind::Tree.spec_token() {
        Some(Kind::Tree)
    } else if t == Kind::Commit.spec_token() {
        Some(Kind::Commit)
    } else {
        None
    }
}

/// Whether header bytes are well shaped: non-empty, terminated by a
/// single final NUL, with no NUL before it.
pub open spec fn spec_header_shaped(s: Seq<u8>) -> bool {
    s.len() >= 1 && s[s.len() - 1] == NUL_BYTE && spec_find(s.take(s.len() - 1), NUL_BYTE) is None
}

/// Splits well-shaped header bytes into the kind token and the size field.
///
/// `None` is the malformed case: the bytes are not well shaped, or have no
/// space separator.
pub open spec fn spec_header_fields(s: Seq<u8>) -> Option<(Seq<u8>, Seq<u8>)> {
    if spec_header_shaped(s) {
        let body = s.take(s.len() - 1);
        match spec_find(body, SPACE_BYTE) {
            Some(i) => Some((body.take(i), body.skip(i + 1))),
            None => None,
        }
    } else {
        None
    }
}

/// Whether `s` is a fully valid header: well shaped, known kind, and a
/// decimal size that fits in `u64`.
pub open spec fn spec_header_ok(s: Seq<u8>) -> bool {
    match spec_header_fields(s) {
        Some(f) => spec_kind_of_token(f.0) is Some && all_digits(f.1) && spec_digits_val(f.1)
            <= u64::MAX,
        None => false,
    }
}

/// The kind of a valid header.
pub open spec fn spec_header_kind(s: Seq<u8>) -> Kind
    recommends
        spec_header_ok(s),
{
    spec_kind_of_token(spec_header_fields(s)->Some_0.0)->Some_0
}

/// The declared size of a valid header.
pub open spec fn spec_header_size(s: Seq<u8>) -> nat
    recommends
        spec_header_ok(s),
{
    spec_digits_val(spec_header_fields(s)->Some_0.1)
}

/// Finds the first occurrence of `b` in `v[from..to]`, scanning forward.
pub(crate) fn find_byte(v: &Vec<u8>, from: usize, to: usize, b: u8) -> (r: Option<usize>)
    requires
        from <= to <= v@.len(),
    ensures
        match r {
            Some(i) => from <= i < to && v@[i as int] == b && (forall|j: int|
                from <= j < i ==> v@[j] != b),
            None => forall|j: int| from <= j < to ==> v@[j] != b,
        },
{
    let mut i: usize = from;
    while i < to
        invariant
            from <= i <= to <= v@.len(),
            forall|j: int| from <= j < i ==> v@[j] != b,
        decreases to - i,
    {
        if v[i] == b {
            return Some(i);
        }
        i = i + 1;
    }
    None
}

/// Serializes the envelope for a payload of `size` bytes: the kind token,
/// one space, the size in decimal, and the NUL terminator.
pub fn encode_header(kind: Kind, size: u64) -> (r: Vec<u8>)
    ensures
        r@ == spec_header_bytes(kind, size as nat),
{
    let mut v: Vec<u8> = Vec::new();
    match kind {
        Kind::Blob => {
            v.push(98);
            v.push(108);
            v.push(111);
            v.push(98);
        },
        Kind::Tree => {
            v.push(116);
            v.push(114);
            v.push(101);
            v.push(101);
        },
        Kind::Commit => {
            v.push(99);
            v.push(111);
            v.push(109);
            v.push(109);
            v.push(105);
            v.push(116);
        },
    }
    proof {
        assert(v@ =~= kind.spec_token());
    }
    v.push(SPACE_BYTE);
    push_decimal(&mut v, size);
    v.push(NUL_BYTE);
    proof {
        assert(v@ =~= spec_header_bytes(kind, size as nat));
    }
    v
}

/// The reversal of a byte sequence.
spec fn spec_rev(s: Seq<u8>) -> Seq<u8> {
    Seq::new(s.len(), |i: int| s[s.len() - 1 - i])
}

proof fn lemma_rev_push(s: Seq<u8>, x: u8)
    ensures
        spec_rev(s.push(x)) =~= seq![x] + spec_rev(s),
{
}

/// Appends the canonical decimal numeral of `n` to `v`.
fn push_decimal(v: &mut Vec<u8>, n: u64)
    ensures
        final(v)@ == old(v)@ + spec_decimal(n as nat),
{
    let ghost orig = v@;
    let mut digits: Vec<u8> = Vec::new();
    let mut m: u64 = n;
    proof {
        assert(spec_rev(digits@) =~= Seq::<u8>::empty());
        assert(spec_decimal(n as nat) + spec_rev(digits@) =~= spec_decimal(n as nat));
    }
    loop
        invariant_except_break
            spec_decimal(n as nat) == spec_decimal(m as nat) + spec_rev(digits@),
            v@ == orig,
        ensures
            spec_decimal(n as nat) == spec_rev(digits@),
            v@ == orig,
        decreases m,
    {
        let d: u8 = (m % 10) as u8 + 48;
        let ghost pre = digits@;
        digits.push(d);
        proof {
            lemma_rev_push(pre, d);
            if m < 10 {
                assert(spec_decimal(m as nat) =~= seq![d]);
                assert(spec_decimal(n as nat) =~= spec_rev(digits@));
            } else {
                assert(spec_decimal(m as nat) == spec_decimal((m / 10) as nat).push(d));
                assert(spec_decimal(m as nat) =~= spec_decimal((m / 10) as nat) + seq![d]);
                assert(spec_decimal(n as nat) =~= spec_decimal((m / 10) as nat) + spec_rev(
                    digits@,
                ));
            }
        }
        m = m / 10;
        if m == 0 {
            break;
        }
    }
    let mut i: usize = digits.len();
    while i > 0
        invariant
            i <= digits@.len(),
            spec_decimal(n as nat) == spec_rev(digits@),
            v@ == orig + spec_decimal(n as nat).take(digits@.len() - i),
        decreases i,
    {
        i = i - 1;
        let ghost k = digits@.len() - 1 - i;
        proof {
            assert(spec_rev(digits@)[k] == digits@[i as int]);
        }
        v.push(digits[i]);
        proof {
            assert(v@ =~= orig + spec_decimal(n as nat).take(k + 1));
        }
    }
    proof {
        assert(spec_decimal(n as nat).take(digits@.len() as int) =~= spec_decimal(n as nat));
    }
}

/// Tests whether `v[from..to]` names a kind in the closed set.
fn kind_of_range(v: &Vec<u8>, from: usize, to: usize) -> (r: Option<Kind>)
    requires
        from <= to <= v@.len(),
    ensures
        r == spec_kind_of_token(v@.subrange(from as int, to as int)),
{
    let ghost t = v@.subrange(from as int, to as int);
    let len: usize = to - from;
    if len == 4 && v[from] == 98 && v[from + 1] == 108 && v[from + 2] == 111 && v[from + 3] == 98 {
        proof {
            assert(t =~= Kind::Blob.spec_token());
        }
        Some(Kind::Blob)
    } else if len == 4 && v[from] == 116 && v[from + 1] == 114 && v[from + 2] == 101 && v[from + 3]
        == 101 {
        proof {
            assert(t =~= Kind::Tree.spec_token());
        }
        Some(Kind::Tree)
    } else if len == 6 && v[from] == 99 && v[from + 1] == 111 && v[from + 2] == 109 && v[from + 3]
        == 109 && v[from + 4] == 105 && v[from + 5] == 116 {
        proof {
            assert(t =~= Kind::Commit.spec_token());
        }
        Some(Kind::Commit)
    } else {
        proof {
            if t == Kind::Blob.spec_token() {
                assert(t.len() == 4 && t[0] == 98 && t[1] == 108 && t[2] == 111 && t[3] == 98);
            }
            if t == Kind::Tree.spec_token() {
                assert(t.len() == 4 && t[0] == 116 && t[1] == 114 && t[2] == 101 && t[3] == 101);
            }
            if t == Kind::Commit.spec_token() {
                assert(t.len() == 6 && t[0] == 99 && t[1] == 111 && t[2] == 109 && t[3] == 109
                    && t[4] == 105 && t[5] == 116);
            }
        }
        None
    }
}

/// Relies on core::str::from_utf8: it succeeds exactly when the bytes are
/// valid UTF-8, which is what vstd's `valid_utf8` states.
#[verifier::external_body]
fn utf8_ok(v: &[u8]) -> (r: bool)
    ensures
        r == vstd::utf8::valid_utf8(v@),
{
    core::str::from_utf8(v).is_ok()
}

/// Bytes that are all ASCII form valid UTF-8: each is its own width-1
/// scalar.
pub proof fn lemma_ascii_valid_utf8(s: Seq<u8>)
    requires
        forall|i: int| 0 <= i < s.len() ==> s[i] <= 127,
    ensures
        vstd::utf8::valid_utf8(s),
    decreases s.len(),
{
    if s.len() != 0 {
        let b = s[0];
        assert(vstd::utf8::is_leading_byte_width_1(b));
        assert(vstd::utf8::length_of_first_codepoint(s) == 1);
        assert(b & 0x7f <= 0x7f) by (bit_vector);
        assert(vstd::utf8::not_surrogate(vstd::utf8::decode_first_codepoint(s)));
        assert(vstd::utf8::not_overlong_encoding(vstd::utf8::decode_first_codepoint(s), 1));
        assert(vstd::utf8::valid_first_scalar(s));
        assert(vstd::utf8::pop_first_scalar(s) =~= s.skip(1));
        lemma_ascii_valid_utf8(s.skip(1));
    }
}

/// A header that the grammar accepts is ASCII throughout — a known kind
/// token, a space, digits — so its text before the terminator is valid
/// UTF-8.
pub proof fn lemma_header_ok_text(s: Seq<u8>)
    requires
        spec_header_ok(s),
    ensures
        vstd::utf8::valid_utf8(s.take(s.len() - 1)),
{
    let body = s.take(s.len() - 1);
    lemma_find_characterization(body, SPACE_BYTE);
    let sp = spec_find(body, SPACE_BYTE)->Some_0;
    let f = spec_header_fields(s)->Some_0;
    let kind = spec_kind_of_token(f.0)->Some_0;
    assert(f.0 == kind.spec_token());
    assert forall|j: int| 0 <= j < body.len() implies body[j] <= 127 by {
        if j < sp {
            assert(body.take(sp)[j] == body[j]);
            kind_token_bytes(kind, j);
        } else if j > sp {
            assert(body.skip(sp + 1)[j - (sp + 1)] == body[j]);
            assert(is_digit(f.1[j - (sp + 1)]));
        }
    }
    lemma_ascii_valid_utf8(body);
}

/// Parses a header: the full bytes of the envelope, NUL terminator
/// included, exactly as the reader's scan hands them over.
///
/// Returns the kind and the declared payload size, or:
/// - `MalformedHeader` if the bytes are not NUL-terminated with no earlier
///   NUL, or hold no space separator;
/// - `CorruptObject` if the header text before the terminator is not valid
///   UTF-8;
/// - `UnsupportedKind` with the token bytes if the kind is outside the
///   closed set;
/// - `InvalidSize` if the size field is not a decimal number fitting `u64`.
pub fn parse_header(h: &Vec<u8>) -> (r: Result<(Kind, u64), ObjectError>)
    ensures
        match r {
            Ok(p) => spec_header_ok(h@) && p.0 == spec_header_kind(h@) && p.1 as nat
                == spec_header_size(h@),
            Err(ObjectError::CorruptObject) => spec_header_shaped(h@) && !vstd::utf8::valid_utf8(
                h@.take(h@.len() - 1),
            ),
            Err(ObjectError::MalformedHeader) => spec_header_fields(h@) is None && (
            !spec_header_shaped(h@) || vstd::utf8::valid_utf8(h@.take(h@.len() - 1))),
            Err(ObjectError::UnsupportedKind(t)) => vstd::utf8::valid_utf8(h@.take(h@.len() - 1))
                && (spec_header_fields(h@) matches Some(f) && (spec_kind_of_token(f.0) is None
                && t@ == f.0)),
            Err(ObjectError::InvalidSize) => vstd::utf8::valid_utf8(h@.take(h@.len() - 1)) && (
            spec_header_fields(h@) matches Some(f) && (spec_kind_of_token(f.0) is Some && !(
            all_digits(f.1) && spec_digits_val(f.1) <= u64::MAX))),
            Err(_) => false,
        },
{
    let n: usize = h.len();
    if n == 0 || h[n - 1] != NUL_BYTE {
        return Err(ObjectError::MalformedHeader);
    }
    let ghost body = h@.take(n - 1);
    if let Some(i) = find_byte(h, 0, n - 1, NUL_BYTE) {
        proof {
            assert(body[i as int] == h@[i as int]);
            assert forall|j: int| 0 <= j < i implies body[j] != NUL_BYTE by {
                assert(body[j] == h@[j]);
            }
            lemma_find_is(body, NUL_BYTE, i as int);
        }
        return Err(ObjectError::MalformedHeader);
    }
    proof {
        assert(spec_find(body, NUL_BYTE) is None) by {
            lemma_find_characterization(body, NUL_BYTE);
            if spec_find(body, NUL_BYTE) is Some {
                let i = spec_find(body, NUL_BYTE)->Some_0;
                assert(body[i] == h@[i]);
                assert(false);
            }
        }
    }
    let body_bytes: &[u8] = vstd::slice::slice_subrange(h.as_slice(), 0, n - 1);
    proof {
        assert(body_bytes@ =~= body);
    }
    if !utf8_ok(body_bytes) {
        return Err(ObjectError::CorruptObject);
    }
    let sp: usize = match find_byte(h, 0, n - 1, SPACE_BYTE) {
        Some(i) => i,
        None => {
            proof {
                assert(spec_find(body, SPACE_BYTE) is None) by {
                    lemma_find_characterization(body, SPACE_BYTE);
                    if spec_find(body, SPACE_BYTE) is Some {
                        let i = spec_find(body, SPACE_BYTE)->Some_0;
                        assert(body[i] == h@[i]);
                        assert(false);
                    }
                }
            }
            return Err(ObjectError::MalformedHeader);
        },
    };
    proof {
        assert(body[sp as int] == h@[sp as int]);
        assert forall|j: int| 0 <= j < sp implies body[j] != SPACE_BYTE by {
            assert(body[j] == h@[j]);
        }
        lemma_find_is(body, SPACE_BYTE, sp as int);
        assert(body.take(sp as int) =~= h@.subrange(0, sp as int));
    }
    let ghost digits = h@.subrange(sp + 1, n - 1);
    proof {
        assert(body.skip(sp + 1) =~= digits);
    }
    let kind: Kind = match kind_of_range(h, 0, sp) {
        Some(k) => k,
        None => {
            let mut tok: Vec<u8> = Vec::new();
            let mut i: usize = 0;
            while i < sp
                invariant
                    i <= sp <= n - 1 <= h@.len(),
                    n == h@.len(),
                    tok@ == h@.subrange(0, i as int),
                decreases sp - i,
            {
                tok.push(h[i]);
                proof {
                    assert(tok@ =~= h@.subrange(0, i + 1));
                }
                i = i + 1;
            }
            return Err(ObjectError::UnsupportedKind(tok));
        },
    };
    proof {
        assert(spec_header_fields(h@) == Some((h@.subrange(0, sp as int), digits)));
        assert(spec_kind_of_token(h@.subrange(0, sp as int)) == Some(kind));
    }
    let mut i: usize = sp + 1;
    if i == n - 1 {
        return Err(ObjectError::InvalidSize);
    }
    let mut val: u64 = 0;
    while i < n - 1
        invariant
            sp + 1 <= i <= n - 1,
            n == h@.len(),
            n >= 1,
            digits == h@.subrange(sp + 1, n - 1),
            digits.len() > 0,
            vstd::utf8::valid_utf8(h@.take(n - 1)),
            spec_header_fields(h@) == Some((h@.subrange(0, sp as int), digits)),
            spec_kind_of_token(h@.subrange(0, sp as int)) == Some(kind),
            forall|j: int| sp + 1 <= j < i ==> is_digit(h@[j]),
            val as nat == spec_digits_val(digits.take(i - (sp + 1))),
        decreases n - 1 - i,
    {
        let b: u8 = h[i];
        if b < 48 || b > 57 {
            proof {
                assert(digits[i - (sp + 1)] == h@[i as int]);
            }
            return Err(ObjectError::InvalidSize);
        }
        let d: u64 = (b - 48) as u64;
        let ghost pre = digits.take(i - (sp + 1));
        let ghost cur = digits.take(i + 1 - (sp + 1));
        proof {
            assert(cur.drop_last() =~= pre);
            assert(cur.last() == h@[i as int]);
            assert(spec_digits_val(cur) == 10 * (val as nat) + d);
        }
        if val > (u64::MAX - d) / 10 {
            proof {
                assert(10 * (val as nat) + d > u64::MAX) by {
                    assert(val as nat >= (u64::MAX - d) / 10 + 1);
                    assert(10 * ((u64::MAX - d) as nat / 10) + (u64::MAX - d) as nat % 10 == (
                    u64::MAX - d) as nat);
                }
                lemma_digits_val_prefix_le(digits, i + 1 - (sp + 1));
                assert(spec_digits_val(digits) >= spec_digits_val(cur));
            }
            return Err(ObjectError::InvalidSize);
        }
        val = val * 10 + d;
        i = i + 1;
    }
    proof {
        assert(digits.take(i - (sp + 1)) =~= digits);
        assert(all_digits(digits)) by {
            assert(digits.len() > 0);
            assert(forall|j: int| 0 <= j < digits.len() ==> is_digit(#[trigger] digits[j]));
        }
    }
    Ok((kind, val))
}

/// The envelope round-trips: a serialized header is well shaped, and parses
/// back to exactly the kind and size it was built from. The token holds no
/// space or NUL and the numeral no stray bytes, so the field split is the
/// one the serializer made.
pub proof fn lemma_header_round_trip(kind: Kind, size: u64)
    ensures
        spec_header_ok(spec_header_bytes(kind, size as nat)),
        spec_header_kind(spec_header_bytes(kind, size as nat)) == kind,
        spec_header_size(spec_header_bytes(kind, size as nat)) == size as nat,
        spec_header_bytes(kind, size as nat).len() <= 28,
        spec_find(spec_header_bytes(kind, size as nat), NUL_BYTE) == Some(
            spec_header_bytes(kind, size as nat).len() - 1,
        ),
{
    let s = spec_header_bytes(kind, size as nat);
    let tok = kind.spec_token();
    let num = spec_decimal(size as nat);
    lemma_decimal_digits(size as nat);
    lemma_decimal_len_u64(size);
    assert(tok.len() <= 6) by {
        match kind {
            Kind::Blob => assert(Kind::Blob.spec_token().len() == 4),
            Kind::Tree => assert(Kind::Tree.spec_token().len() == 4),
            Kind::Commit => assert(Kind::Commit.spec_token().len() == 6),
        }
    }
    let body = s.take(s.len() - 1);
    assert(body =~= tok + seq![SPACE_BYTE] + num);
    assert(s[s.len() - 1] == NUL_BYTE);
    assert forall|j: int| 0 <= j < body.len() implies body[j] != NUL_BYTE by {
        kind_token_bytes(kind, j);
    }
    lemma_find_characterization(body, NUL_BYTE);
    assert(spec_find(body, NUL_BYTE) is None) by {
        if spec_find(body, NUL_BYTE) is Some {
            let i = spec_find(body, NUL_BYTE)->Some_0;
            assert(body[i] != NUL_BYTE);
        }
    }
    assert(body[tok.len() as int] == SPACE_BYTE);
    assert forall|j: int| 0 <= j < tok.len() implies body[j] != SPACE_BYTE by {
        kind_token_bytes(kind, j);
    }
    lemma_find_is(body, SPACE_BYTE, tok.len() as int);
    assert(body.take(tok.len() as int) =~= tok);
    assert(body.skip(tok.len() as int + 1) =~= num);
    assert(spec_kind_of_token(tok) == Some(kind)) by {
        if kind == Kind::Blob {
        } else if kind == Kind::Tree {
            assert(tok != Kind::Blob.spec_token()) by {
                assert(tok[0] == 116 && Kind::Blob.spec_token()[0] == 98);
            }
        } else {
            assert(tok != Kind::Blob.spec_token()) by {
                assert(tok.len() == 6 && Kind::Blob.spec_token().len() == 4);
            }
            assert(tok != Kind::Tree.spec_token()) by {
                assert(tok.len() == 6 && Kind::Tree.spec_token().len() == 4);
            }
        }
    }
    lemma_find_is(s, NUL_BYTE, s.len() - 1);
}

/// Every byte of a kind token is a lowercase letter: not NUL, not a space,
/// not a digit.
proof fn kind_token_bytes(kind: Kind, j: int)
    ensures
        0 <= j < kind.spec_token().len() ==> {
            let b = kind.spec_token()[j];
            97 <= b <= 122
        },
{
}

} // verus!
