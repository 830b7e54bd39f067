//! The cross-reference resolver: from a class name to the rule that defines
//! it, over the indexes of the stylesheets in the order in which they were
//! discovered; and from a rule's span to what an editor shows of it.

use vstd::prelude::*;
use vstd::slice::slice_subrange;
use vstd::string::StringSliceAdditionalSpecFns;
use vstd::utf8::valid_utf8;
use crate::classnames::{
    first_entry_from, lemma_first_entry_from, ClassNamesCollector, Entry, Index, Span,
};
use crate::locate::{line_begin, line_of, offset_of, position_of, Position};
use crate::text::bytes_of;

verus! {

/// Where a class is defined: the stylesheet, by its place in the list, and
/// the span of the rule.
#[derive(Clone, Copy, Debug, PartialEq, Eq, Structural)]
pub struct Definition {
    pub stylesheet: usize,
    pub span: Span,
}

/// A range between two editor positions.
#[derive(Clone, Copy, Debug, PartialEq, Eq, Structural)]
pub struct Range {
    pub start: Position,
    pub end: Position,
}

/// Whether an index holds an entry for `token`.
pub open spec fn defines(index: Index, token: Seq<u8>) -> bool {
    first_entry_from(index.entries, token, 0) < index.entries.len()
}

/// The first index at or behind `from` that defines `token`, by its place;
/// the number of indexes where none does.
pub open spec fn first_defining_from(indexes: Seq<Index>, token: Seq<u8>, from: int) -> int
    decreases indexes.len() - from,
{
    if from >= indexes.len() {
        indexes.len() as int
    } else if from >= 0 && defines(indexes[from], token) {
        from
    } else {
        first_defining_from(indexes, token, from + 1)
    }
}

/// The indexes of a list, as values.
pub open spec fn index_models(indexes: Seq<ClassNamesCollector>) -> Seq<Index> {
    indexes.map_values(|c: ClassNamesCollector| c@)
}

/// What resolving `token` gives: the first stylesheet that defines it, and
/// the span of its first entry there; nothing where no stylesheet does.
pub open spec fn resolved(indexes: Seq<Index>, token: Seq<u8>) -> Option<Definition> {
    let sheet = first_defining_from(indexes, token, 0);
    if 0 <= sheet < indexes.len() {
        let entries = indexes[sheet].entries;
        Some(
            Definition {
                stylesheet: sheet as usize,
                span: entries[first_entry_from(entries, token, 0)].span,
            },
        )
    } else {
        None
    }
}

/// What [`first_defining_from`] returns is the first such index.
pub proof fn lemma_first_defining_from(indexes: Seq<Index>, token: Seq<u8>, from: int)
    requires
        0 <= from <= indexes.len(),
    ensures
        from <= first_defining_from(indexes, token, from) <= indexes.len(),
        first_defining_from(indexes, token, from) < indexes.len() ==> defines(
            indexes[first_defining_from(indexes, token, from)],
            token,
        ),
        forall|k: int|
            from <= k < first_defining_from(indexes, token, from) ==> !defines(
                #[trigger] indexes[k],
                token,
            ),
    decreases indexes.len() - from,
{
    if from < indexes.len() && !defines(indexes[from], token) {
        lemma_first_defining_from(indexes, token, from + 1);
    }
}

/// The stylesheet discovered first wins: where two stylesheets define the
/// same class, resolving never answers with the later one.
pub proof fn lemma_first_stylesheet_wins(
    indexes: Seq<Index>,
    token: Seq<u8>,
    earlier: int,
    later: int,
)
    requires
        indexes.len() <= usize::MAX,
        0 <= earlier < later < indexes.len(),
        defines(indexes[earlier], token),
        defines(indexes[later], token),
    ensures
        resolved(indexes, token) is Some,
        resolved(indexes, token).unwrap().stylesheet <= earlier,
        resolved(indexes, token).unwrap().stylesheet != later,
{
    lemma_first_defining_from(indexes, token, 0);
}

/// Resolving answers with an entry for the token: the rule it names holds
/// the class, and no stylesheet before it, nor an entry before it in its
/// stylesheet, does.
pub proof fn lemma_resolved_is_first(indexes: Seq<Index>, token: Seq<u8>)
    requires
        indexes.len() <= usize::MAX,
        resolved(indexes, token) is Some,
    ensures
        ({
            let found = resolved(indexes, token).unwrap();
            let entries = indexes[found.stylesheet as int].entries;
            &&& 0 <= found.stylesheet < indexes.len()
            &&& exists|e: int|
                0 <= e < entries.len() && (#[trigger] entries[e]).value == token && entries[e].span
                    == found.span
            &&& forall|k: int|
                0 <= k < found.stylesheet ==> !defines(#[trigger] indexes[k], token)
        }),
{
    lemma_first_defining_from(indexes, token, 0);
    let found = resolved(indexes, token).unwrap();
    let entries = indexes[found.stylesheet as int].entries;
    lemma_first_entry_from(entries, token, 0);
    let e = first_entry_from(entries, token, 0);
    assert(entries[e].value == token && entries[e].span == found.span);
}

/// Resolves a class name over the indexes of the stylesheets, given in the
/// order in which the stylesheets were discovered.
pub fn resolve(token: &str, indexes: &Vec<ClassNamesCollector>) -> (r: Option<Definition>)
    ensures
        r == resolved(index_models(indexes@), token.spec_bytes()),
{
    let mut i: usize = 0;
    while i < indexes.len()
        invariant
            i <= indexes.len(),
            first_defining_from(index_models(indexes@), token.spec_bytes(), 0)
                == first_defining_from(index_models(indexes@), token.spec_bytes(), i as int),
        decreases indexes.len() - i,
    {
        assert(index_models(indexes@)[i as int] == indexes@[i as int]@);
        match indexes[i].find_class_name_by_value(token) {
            Some(class) => {
                return Some(Definition { stylesheet: i, span: class.span });
            },
            None => {},
        }
        i += 1;
    }
    None
}

/// The bytes that a span covers in a file; none where the span does not lie
/// in the file.
pub open spec fn span_bytes(file: Seq<u8>, span: Span) -> Option<Seq<u8>> {
    if span.lo <= span.hi <= file.len() {
        Some(file.subrange(span.lo as int, span.hi as int))
    } else {
        None
    }
}

/// Reads bytes as text. This is `core::str::from_utf8`, of which it is
/// taken on trust that it accepts exactly the well-formed UTF-8 sequences and
/// hands back the same bytes.
#[verifier::external_body]
fn text_of_bytes(bytes: &[u8]) -> (r: Option<&str>)
    ensures
        r is Some <==> valid_utf8(bytes@),
        r is Some ==> r.unwrap().spec_bytes() == bytes@,
{
    core::str::from_utf8(bytes).ok()
}

/// The text of a rule: the bytes of `file` that `span` covers, verbatim.
/// None where the span does not lie in the file or the bytes are not
/// well-formed UTF-8.
pub fn rule_text(file: &[u8], span: Span) -> (r: Option<String>)
    ensures
        match span_bytes(file@, span) {
            Some(bytes) => if valid_utf8(bytes) {
                r is Some && bytes_of(r.unwrap()) == bytes
            } else {
                r is None
            },
            None => r is None,
        },
{
    if span.lo > span.hi || span.hi as usize > file.len() {
        return None;
    }
    let bytes = slice_subrange(file, span.lo as usize, span.hi as usize);
    match text_of_bytes(bytes) {
        Some(text) => Some(text.to_owned()),
        None => None,
    }
}

/// The editor range of a rule: the positions of the two ends of `span` in
/// the stylesheet's text. None where an end lies behind the text's end.
pub fn definition_range(stylesheet: &str, span: Span) -> (r: Option<Range>)
    ensures
        r is Some <==> span.lo <= stylesheet.spec_bytes().len() && span.hi
            <= stylesheet.spec_bytes().len(),
        r is Some ==> {
            let bytes = stylesheet.spec_bytes();
            let range = r.unwrap();
            &&& range.start.line == line_of(bytes, span.lo as int)
            &&& range.start.character == span.lo - line_begin(bytes, span.lo as int)
            &&& range.end.line == line_of(bytes, span.hi as int)
            &&& range.end.character == span.hi - line_begin(bytes, span.hi as int)
            &&& offset_of(bytes, range.start.line as nat, range.start.character as nat) == Some(
                span.lo as int,
            )
            &&& offset_of(bytes, range.end.line as nat, range.end.character as nat) == Some(
                span.hi as int,
            )
        },
{
    let start = match position_of(stylesheet, span.lo) {
        Some(p) => p,
        None => { return None; },
    };
    let end = match position_of(stylesheet, span.hi) {
        Some(p) => p,
        None => { return None; },
    };
    Some(Range { start, end })
}

} // verus!
