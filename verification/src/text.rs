//! Text as bytes: every offset in this crate counts UTF-8 bytes, and the
//! contracts speak of a string through the bytes that encode it.

use vstd::prelude::*;
use vstd::string::StringSliceAdditionalSpecFns;
use vstd::utf8::{
    encode_utf8, encode_utf8_valid_utf8, is_char_boundary,
    is_char_boundary_iff_not_is_continuation_byte, is_char_boundary_start_end_of_seq,
    length_of_first_scalar, pop_first_scalar, valid_utf8,
};

verus! {

/// The bytes of an owned string.
pub open spec fn bytes_of(s: String) -> Seq<u8> {
    encode_utf8(s@)
}

/// Whether `b` is ASCII whitespace: space, tab, line feed, form feed or
/// carriage return.
pub open spec fn is_space(b: u8) -> bool {
    b == 0x20 || b == 0x09 || b == 0x0a || b == 0x0c || b == 0x0d
}

/// Decides [`is_space`].
pub fn byte_is_space(b: u8) -> (r: bool)
    ensures
        r == is_space(b),
{
    b == 0x20 || b == 0x09 || b == 0x0a || b == 0x0c || b == 0x0d
}

/// Compares two byte strings.
pub fn bytes_eq(a: &[u8], b: &[u8]) -> (r: bool)
    ensures
        r == (a@ == b@),
{
    if a.len() != b.len() {
        return false;
    }
    let mut i: usize = 0;
    while i < a.len()
        invariant
            i <= a.len(),
            a.len() == b.len(),
            forall|k: int| 0 <= k < i ==> a@[k] == b@[k],
        decreases a.len() - i,
    {
        if a[i] != b[i] {
            return false;
        }
        i += 1;
    }
    assert(a@ =~= b@);
    true
}

/// In well-formed UTF-8 the position after an ASCII byte starts a character
/// (or is the end of the text).
pub proof fn lemma_boundary_after_ascii(bytes: Seq<u8>, i: int)
    requires
        valid_utf8(bytes),
        0 <= i < bytes.len(),
        bytes[i] < 0x80,
    ensures
        is_char_boundary(bytes, i + 1),
    decreases bytes.len(),
{
    is_char_boundary_iff_not_is_continuation_byte(bytes, i);
    reveal_with_fuel(is_char_boundary, 2);
    reveal_with_fuel(valid_utf8, 2);
    let width = length_of_first_scalar(bytes);
    let rest = pop_first_scalar(bytes);
    if i == 0 {
        assert(width == 1);
        assert(is_char_boundary(rest, 0));
    } else {
        assert(is_char_boundary(rest, i - width));
        assert(0 <= i - width);
        assert(rest[i - width] == bytes[i]);
        lemma_boundary_after_ascii(rest, i - width);
    }
}

/// The position of an ASCII byte starts a character.
pub proof fn lemma_boundary_at_ascii(bytes: Seq<u8>, i: int)
    requires
        valid_utf8(bytes),
        0 <= i < bytes.len(),
        bytes[i] < 0x80,
    ensures
        is_char_boundary(bytes, i),
{
    is_char_boundary_iff_not_is_continuation_byte(bytes, i);
}

/// The part of `s` between two character boundaries, as a string of its own.
pub fn slice_str(s: &str, from: usize, to: usize) -> (r: &str)
    requires
        from <= to <= s.spec_bytes().len(),
        is_char_boundary(s.spec_bytes(), from as int),
        is_char_boundary(s.spec_bytes(), to as int),
    ensures
        r.spec_bytes() == s.spec_bytes().subrange(from as int, to as int),
{
    let (head, _) = s.split_at(to);
    proof {
        encode_utf8_valid_utf8(s@);
        let all = s.spec_bytes();
        let front = all.subrange(0, to as int);
        vstd::utf8::valid_utf8_split(all, to as int);
        if from < to {
            if from > 0 {
                lemma_boundary_in_prefix(all, to as int, from as int);
            }
        } else {
            is_char_boundary_start_end_of_seq(front);
        }
        assert(head.spec_bytes() == front);
    }
    let (_, tail) = head.split_at(from);
    proof {
        assert(tail.spec_bytes() =~= s.spec_bytes().subrange(from as int, to as int));
    }
    tail
}

/// A boundary of the whole text that lies inside a prefix cut at a boundary
/// is a boundary of that prefix.
pub proof fn lemma_boundary_in_prefix(bytes: Seq<u8>, cut: int, i: int)
    requires
        valid_utf8(bytes),
        is_char_boundary(bytes, cut),
        is_char_boundary(bytes, i),
        0 < i < cut <= bytes.len(),
    ensures
        is_char_boundary(bytes.subrange(0, cut), i),
{
    vstd::utf8::valid_utf8_split(bytes, cut);
    is_char_boundary_iff_not_is_continuation_byte(bytes, i);
    is_char_boundary_iff_not_is_continuation_byte(bytes.subrange(0, cut), i);
}

/// The index of the first `wanted` in `bytes` at or after `from`; the length
/// of `bytes` where there is none.
pub open spec fn first_index_from(bytes: Seq<u8>, wanted: u8, from: int) -> int
    decreases bytes.len() - from,
{
    if from >= bytes.len() {
        bytes.len() as int
    } else if from >= 0 && bytes[from] == wanted {
        from
    } else {
        first_index_from(bytes, wanted, from + 1)
    }
}

/// What [`first_index_from`] returns is the first such index.
pub proof fn lemma_first_index_from(bytes: Seq<u8>, wanted: u8, from: int)
    requires
        0 <= from <= bytes.len(),
    ensures
        from <= first_index_from(bytes, wanted, from) <= bytes.len(),
        first_index_from(bytes, wanted, from) < bytes.len() ==> bytes[first_index_from(
            bytes,
            wanted,
            from,
        )] == wanted,
        forall|k: int| from <= k < first_index_from(bytes, wanted, from) ==> bytes[k] != wanted,
    decreases bytes.len() - from,
{
    if from < bytes.len() && bytes[from] != wanted {
        lemma_first_index_from(bytes, wanted, from + 1);
    }
}

/// Finds the first `wanted` at or after `from`.
pub fn find_byte(bytes: &[u8], wanted: u8, from: usize) -> (at: usize)
    requires
        from <= bytes.len(),
    ensures
        at == first_index_from(bytes@, wanted, from as int),
        from <= at <= bytes.len(),
{
    let mut at: usize = from;
    while at < bytes.len() && bytes[at] != wanted
        invariant
            from <= at <= bytes.len(),
            first_index_from(bytes@, wanted, at as int) == first_index_from(
                bytes@,
                wanted,
                from as int,
            ),
        decreases bytes.len() - at,
    {
        at += 1;
    }
    at
}

} // verus!
