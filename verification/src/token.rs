//! The token extractor: the class name under a cursor inside a string
//! literal that holds a whitespace-separated list of class names.

use vstd::prelude::*;
use vstd::string::StringSliceAdditionalSpecFns;
use vstd::utf8::{encode_utf8_valid_utf8, is_char_boundary_start_end_of_seq};
use crate::text::{
    byte_is_space, bytes_of, is_space, lemma_boundary_after_ascii, lemma_boundary_at_ascii,
    slice_str,
};

verus! {

/// A run of bytes in a text, by its first and last index.
pub ghost struct Run {
    pub first: int,
    pub last: int,
}

/// The bytes of a run.
pub open spec fn run_bytes(bytes: Seq<u8>, run: Run) -> Seq<u8> {
    bytes.subrange(run.first, run.last + 1)
}

/// Whether `first..=last` is a token of `bytes`: a run of bytes that are not
/// whitespace, which neither side can extend.
pub open spec fn is_token(bytes: Seq<u8>, first: int, last: int) -> bool {
    &&& 0 <= first <= last < bytes.len()
    &&& forall|k: int| first <= k <= last ==> !is_space(#[trigger] bytes[k])
    &&& (first == 0 || is_space(bytes[first - 1]))
    &&& (last == bytes.len() - 1 || is_space(bytes[last + 1]))
}

/// Where the run of non-whitespace bytes that reaches `at` begins.
pub open spec fn token_first(bytes: Seq<u8>, at: int) -> int
    decreases at,
{
    if at <= 0 || at > bytes.len() || is_space(bytes[at - 1]) {
        at
    } else {
        token_first(bytes, at - 1)
    }
}

/// Where the run of non-whitespace bytes that holds `at` ends (inclusive).
pub open spec fn token_last(bytes: Seq<u8>, at: int) -> int
    decreases bytes.len() - at,
{
    if at < 0 || at + 1 >= bytes.len() || is_space(bytes[at + 1]) {
        at
    } else {
        token_last(bytes, at + 1)
    }
}

/// The token of `bytes` that holds index `at`, as its first and last index;
/// none where `at` is outside the text or on whitespace.
pub open spec fn token_around(bytes: Seq<u8>, at: int) -> Option<Run> {
    if 0 <= at < bytes.len() && !is_space(bytes[at]) {
        Some(Run { first: token_first(bytes, at), last: token_last(bytes, at) })
    } else {
        None
    }
}

/// The class name under the cursor, for a literal whose quoted source text
/// spans `lo..hi` and whose content is `value`: the content begins one byte
/// after `lo`, behind the opening quote. None unless the cursor is strictly
/// between `lo` and `hi`.
pub open spec fn class_name_span(value: Seq<u8>, lo: int, hi: int, cursor: int) -> Option<Run> {
    if lo < cursor < hi {
        token_around(value, cursor - (lo + 1))
    } else {
        None
    }
}

/// What [`token_first`] returns begins a run that reaches `at`.
pub proof fn lemma_token_first(bytes: Seq<u8>, at: int)
    requires
        0 <= at < bytes.len(),
        !is_space(bytes[at]),
    ensures
        0 <= token_first(bytes, at) <= at,
        forall|k: int| token_first(bytes, at) <= k <= at ==> !is_space(#[trigger] bytes[k]),
        token_first(bytes, at) == 0 || is_space(bytes[token_first(bytes, at) - 1]),
    decreases at,
{
    if at > 0 && !is_space(bytes[at - 1]) {
        lemma_token_first(bytes, at - 1);
    }
}

/// What [`token_last`] returns ends a run that starts at `at`.
pub proof fn lemma_token_last(bytes: Seq<u8>, at: int)
    requires
        0 <= at < bytes.len(),
        !is_space(bytes[at]),
    ensures
        at <= token_last(bytes, at) < bytes.len(),
        forall|k: int| at <= k <= token_last(bytes, at) ==> !is_space(#[trigger] bytes[k]),
        token_last(bytes, at) == bytes.len() - 1 || is_space(bytes[token_last(bytes, at) + 1]),
    decreases bytes.len() - at,
{
    if at + 1 < bytes.len() && !is_space(bytes[at + 1]) {
        lemma_token_last(bytes, at + 1);
    }
}

/// Extraction answers with a token: wherever [`token_around`] finds
/// something, it is a maximal run of non-whitespace bytes that holds the
/// index asked for.
pub proof fn lemma_token_around_is_token(bytes: Seq<u8>, at: int)
    requires
        token_around(bytes, at) is Some,
    ensures
        is_token(
            bytes,
            token_around(bytes, at).unwrap().first,
            token_around(bytes, at).unwrap().last,
        ),
        token_around(bytes, at).unwrap().first <= at <= token_around(bytes, at).unwrap().last,
{
    lemma_token_first(bytes, at);
    lemma_token_last(bytes, at);
}

/// At every index inside a token, extraction returns exactly that token.
pub proof fn lemma_inside_token(bytes: Seq<u8>, first: int, last: int, at: int)
    requires
        is_token(bytes, first, last),
        first <= at <= last,
    ensures
        token_around(bytes, at) == Some(Run { first, last }),
{
    assert(!is_space(bytes[at]));
    lemma_first_of_token(bytes, first, last, at);
    lemma_last_of_token(bytes, first, last, at);
}

proof fn lemma_first_of_token(bytes: Seq<u8>, first: int, last: int, at: int)
    requires
        is_token(bytes, first, last),
        first <= at <= last,
    ensures
        token_first(bytes, at) == first,
    decreases at - first,
{
    if at > first {
        assert(!is_space(bytes[at - 1]));
        lemma_first_of_token(bytes, first, last, at - 1);
    }
}

proof fn lemma_last_of_token(bytes: Seq<u8>, first: int, last: int, at: int)
    requires
        is_token(bytes, first, last),
        first <= at <= last,
    ensures
        token_last(bytes, at) == last,
    decreases last - at,
{
    if at < last {
        assert(!is_space(bytes[at + 1]));
        lemma_last_of_token(bytes, first, last, at + 1);
    }
}

/// On whitespace, and so anywhere between two tokens, before the first or
/// behind the last, extraction returns nothing.
pub proof fn lemma_on_whitespace(bytes: Seq<u8>, at: int)
    requires
        0 <= at < bytes.len() ==> is_space(bytes[at]),
    ensures
        token_around(bytes, at) is None,
{
}

/// A cursor on a byte of a token, strictly inside the literal's span,
/// yields exactly that token.
pub proof fn lemma_cursor_inside_token(
    value: Seq<u8>,
    lo: int,
    hi: int,
    cursor: int,
    first: int,
    last: int,
)
    requires
        is_token(value, first, last),
        lo < cursor < hi,
        lo + 1 + first <= cursor <= lo + 1 + last,
    ensures
        class_name_span(value, lo, hi, cursor) == Some(Run { first, last }),
{
    lemma_inside_token(value, first, last, cursor - (lo + 1));
}

/// A cursor on whitespace between two tokens yields nothing.
pub proof fn lemma_cursor_between_tokens(value: Seq<u8>, lo: int, hi: int, cursor: int)
    requires
        0 <= cursor - (lo + 1) < value.len(),
        is_space(value[cursor - (lo + 1)]),
    ensures
        class_name_span(value, lo, hi, cursor) is None,
{
}

/// A text without a token (empty, or whitespace only) yields nothing at any
/// cursor.
pub proof fn lemma_blank_literal(value: Seq<u8>, lo: int, hi: int, cursor: int)
    requires
        forall|k: int| 0 <= k < value.len() ==> is_space(#[trigger] value[k]),
    ensures
        class_name_span(value, lo, hi, cursor) is None,
{
}

/// A token holds no whitespace.
pub proof fn lemma_token_has_no_space(bytes: Seq<u8>, at: int)
    requires
        token_around(bytes, at) is Some,
    ensures
        forall|k: int|
            0 <= k < run_bytes(bytes, token_around(bytes, at).unwrap()).len() ==> !is_space(
                #[trigger] run_bytes(bytes, token_around(bytes, at).unwrap())[k],
            ),
{
    lemma_token_around_is_token(bytes, at);
    let run = token_around(bytes, at).unwrap();
    assert forall|k: int| 0 <= k < run_bytes(bytes, run).len() implies !is_space(
        #[trigger] run_bytes(bytes, run)[k],
    ) by {
        assert(run_bytes(bytes, run)[k] == bytes[run.first + k]);
    }
}

/// Finds the class name under the cursor in a string literal.
///
/// `value` is the literal's content, `lo` and `hi` the span of its quoted
/// source text, `cursor` the cursor's offset in the same coordinates. The
/// result is the token of `value` that holds the cursor, if the cursor lies
/// strictly inside the span and on a token.
pub fn find_class_name_in_str(value: &str, lo: u32, hi: u32, cursor: u32) -> (r: Option<String>)
    ensures
        match class_name_span(value.spec_bytes(), lo as int, hi as int, cursor as int) {
            Some(run) => r is Some && bytes_of(r.unwrap()) == run_bytes(value.spec_bytes(), run),
            None => r is None,
        },
        r is Some ==> forall|k: int|
            0 <= k < bytes_of(r.unwrap()).len() ==> !is_space(#[trigger] bytes_of(r.unwrap())[k]),
{
    if !(lo < cursor && cursor < hi) {
        return None;
    }
    let bytes = value.as_bytes();
    let at_wide: u32 = cursor - lo - 1;
    if at_wide as usize >= bytes.len() {
        return None;
    }
    let at: usize = at_wide as usize;
    if byte_is_space(bytes[at]) {
        return None;
    }
    let mut first: usize = at;
    while first > 0 && !byte_is_space(bytes[first - 1])
        invariant
            first <= at < bytes.len(),
            token_first(bytes@, first as int) == token_first(bytes@, at as int),
        decreases first,
    {
        first -= 1;
    }
    let mut last: usize = at;
    while last + 1 < bytes.len() && !byte_is_space(bytes[last + 1])
        invariant
            at <= last < bytes.len(),
            token_last(bytes@, last as int) == token_last(bytes@, at as int),
        decreases bytes.len() - last,
    {
        last += 1;
    }
    proof {
        encode_utf8_valid_utf8(value@);
        is_char_boundary_start_end_of_seq(bytes@);
        if first > 0 {
            lemma_boundary_after_ascii(bytes@, first - 1);
        }
        if last + 1 < bytes.len() {
            lemma_boundary_at_ascii(bytes@, last + 1);
        }
    }
    let token = slice_str(value, first, last + 1);
    let found = token.to_owned();
    proof {
        lemma_token_has_no_space(bytes@, at as int);
        assert(bytes_of(found) == run_bytes(bytes@, token_around(bytes@, at as int).unwrap()));
    }
    Some(found)
}

} // verus!
