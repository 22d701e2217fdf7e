//! Text helpers: paths are compared and cut as UTF-8 bytes, while their
//! contents are stated as character sequences.
use vstd::prelude::*;
use vstd::string::*;
use vstd::utf8::*;

verus! {

broadcast use vstd::utf8::encode_utf8_decode_utf8, vstd::utf8::encode_utf8_valid_utf8;

/// The UTF-8 encoding of a text.
pub open spec fn bytes_of(s: Seq<char>) -> Seq<u8> {
    encode_utf8(s)
}

/// The text whose encoding is the given (valid) bytes.
pub open spec fn text_of(b: Seq<u8>) -> Seq<char> {
    decode_utf8(b)
}

/// Whether byte offset `i` starts a character of `s`, or is its end.
pub open spec fn at_boundary(s: Seq<char>, i: int) -> bool {
    0 <= i <= bytes_of(s).len() && is_char_boundary(bytes_of(s), i)
}

/// The part of `s` between two byte offsets.
pub open spec fn byte_slice(s: Seq<char>, start: int, end: int) -> Seq<char> {
    text_of(bytes_of(s).subrange(start, end))
}

/// Two texts are equal exactly when their encodings are.
pub proof fn lemma_bytes_injective(a: Seq<char>, b: Seq<char>)
    ensures
        (bytes_of(a) == bytes_of(b)) == (a == b),
{
    if bytes_of(a) == bytes_of(b) {
        assert(decode_utf8(encode_utf8(a)) == a);
        assert(decode_utf8(encode_utf8(b)) == b);
    }
}

/// Every text encoded as bytes is valid UTF-8.
pub proof fn lemma_bytes_valid(a: Seq<char>)
    ensures
        valid_utf8(bytes_of(a)),
{
}

/// The start and the end of a text are boundaries.
pub proof fn lemma_ends_are_boundaries(a: Seq<char>)
    ensures
        at_boundary(a, 0),
        at_boundary(a, bytes_of(a).len() as int),
{
    is_char_boundary_start_end_of_seq(bytes_of(a));
}

/// A position that holds an ASCII byte is a boundary.
pub proof fn lemma_ascii_byte_is_boundary(a: Seq<char>, i: int)
    requires
        0 <= i < bytes_of(a).len(),
        bytes_of(a)[i] < 0x80,
    ensures
        at_boundary(a, i),
{
    is_char_boundary_iff_not_is_continuation_byte(bytes_of(a), i);
}

/// Boundaries of a text, seen from a boundary inside it, remain boundaries.
pub proof fn lemma_boundary_in_suffix(b: Seq<u8>, s: int, e: int)
    requires
        valid_utf8(b),
        0 <= s <= e <= b.len(),
        is_char_boundary(b, s),
        is_char_boundary(b, e),
    ensures
        valid_utf8(b.subrange(s, b.len() as int)),
        is_char_boundary(b.subrange(s, b.len() as int), e - s),
{
    valid_utf8_split(b, s);
    let sub = b.subrange(s, b.len() as int);
    if e == b.len() {
        is_char_boundary_start_end_of_seq(sub);
    } else {
        is_char_boundary_iff_not_is_continuation_byte(b, e);
        is_char_boundary_iff_not_is_continuation_byte(sub, e - s);
    }
}

/// Whether `p` starts with `s`, byte for byte.
pub open spec fn has_prefix(p: Seq<u8>, s: Seq<u8>) -> bool {
    s.len() <= p.len() && p.subrange(0, s.len() as int) == s
}

/// Whether two texts are equal.
pub fn same_text(a: &str, b: &str) -> (r: bool)
    ensures
        r == (a@ == b@),
{
    let x = a.as_bytes();
    let y = b.as_bytes();
    proof {
        lemma_bytes_injective(a@, b@);
    }
    if x.len() != y.len() {
        return false;
    }
    let mut i: usize = 0;
    while i < x.len()
        invariant
            x@ == bytes_of(a@),
            y@ == bytes_of(b@),
            x@.len() == y@.len(),
            i <= x@.len(),
            forall|j: int| 0 <= j < i ==> x@[j] == y@[j],
        decreases x@.len() - i,
    {
        if x[i] != y[i] {
            return false;
        }
        i = i + 1;
    }
    assert(x@ =~= y@);
    true
}

/// Whether the bytes of `p` start with those of `s`.
pub fn starts_with_text(p: &str, s: &str) -> (r: bool)
    ensures
        r == has_prefix(bytes_of(p@), bytes_of(s@)),
{
    let x = p.as_bytes();
    let y = s.as_bytes();
    if y.len() > x.len() {
        return false;
    }
    let mut i: usize = 0;
    while i < y.len()
        invariant
            x@ == bytes_of(p@),
            y@ == bytes_of(s@),
            y@.len() <= x@.len(),
            i <= y@.len(),
            forall|j: int| 0 <= j < i ==> x@[j] == y@[j],
        decreases y@.len() - i,
    {
        if x[i] != y[i] {
            assert(x@.subrange(0, y@.len() as int)[i as int] != y@[i as int]);
            return false;
        }
        i = i + 1;
    }
    assert(x@.subrange(0, y@.len() as int) =~= y@);
    true
}

/// The byte at offset `i` of a text.
pub fn byte_at(p: &str, i: usize) -> (r: u8)
    requires
        i < bytes_of(p@).len(),
    ensures
        r == bytes_of(p@)[i as int],
{
    p.as_bytes()[i]
}

/// The number of bytes of a text.
pub fn byte_len(p: &str) -> (r: usize)
    ensures
        r == bytes_of(p@).len(),
{
    p.as_bytes().len()
}

/// The part of `p` from byte offset `start` on.
pub fn suffix_from(p: &str, start: usize) -> (r: &str)
    requires
        at_boundary(p@, start as int),
    ensures
        bytes_of(r@) == bytes_of(p@).subrange(start as int, bytes_of(p@).len() as int),
        r@ == byte_slice(p@, start as int, bytes_of(p@).len() as int),
{
    let (_, rest) = p.split_at(start);
    rest
}

/// The part of `p` between byte offsets `start` and `end`.
pub fn slice_between(p: &str, start: usize, end: usize) -> (r: &str)
    requires
        start <= end,
        at_boundary(p@, start as int),
        at_boundary(p@, end as int),
    ensures
        bytes_of(r@) == bytes_of(p@).subrange(start as int, end as int),
        r@ == byte_slice(p@, start as int, end as int),
{
    let ghost b = bytes_of(p@);
    proof {
        lemma_boundary_in_suffix(b, start as int, end as int);
    }
    let (_, rest) = p.split_at(start);
    let (mid, _) = rest.split_at(end - start);
    proof {
        assert(bytes_of(mid@) =~= b.subrange(start as int, end as int));
    }
    mid
}

} // verus!

verus! {

/// A boundary of a suffix that starts at a boundary is a boundary of the
/// whole text.
pub proof fn lemma_boundary_from_suffix(b: Seq<u8>, s: int, k: int)
    requires
        valid_utf8(b),
        0 <= s <= b.len(),
        is_char_boundary(b, s),
        0 <= k <= b.len() - s,
        is_char_boundary(b.subrange(s, b.len() as int), k),
    ensures
        is_char_boundary(b, s + k),
{
    valid_utf8_split(b, s);
    let sub = b.subrange(s, b.len() as int);
    if s + k == b.len() {
        is_char_boundary_start_end_of_seq(b);
    } else {
        is_char_boundary_iff_not_is_continuation_byte(b, s + k);
        is_char_boundary_iff_not_is_continuation_byte(sub, k);
    }
}

} // verus!
