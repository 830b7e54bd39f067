//! Scope descriptors: where in a source file a string literal may hold class
//! names, written as `att:className,class`, `fn:createElement` or
//! `rec:classes`.

use vstd::prelude::*;
use vstd::string::StringSliceAdditionalSpecFns;
use vstd::utf8::{encode_utf8, encode_utf8_valid_utf8, is_char_boundary_start_end_of_seq};
use crate::text::{
    bytes_eq, bytes_of, find_byte, first_index_from, lemma_boundary_after_ascii,
    lemma_boundary_at_ascii, lemma_first_index_from, slice_str,
};

verus! {

/// The byte `:` that ends a descriptor's tag.
pub const COLON: u8 = 0x3a;

/// The byte `,` that separates a descriptor's identifiers.
pub const COMMA: u8 = 0x2c;

/// The kind of syntax that opens a scope.
#[derive(Clone, Copy, Debug, PartialEq, Eq, Structural)]
pub enum ScopeVariant {
    /// The value of an attribute with one of the names (`att`).
    AttrNames,
    /// The arguments of a call of one of the functions (`fn`).
    FnCall,
    /// The value of an object entry under one of the keys (`rec`).
    RecordEntries,
}

/// Why a descriptor was not accepted.
#[derive(Clone, Copy, Debug, PartialEq, Eq, Structural)]
pub enum ScopeError {
    /// What stands before the first `:` is none of `att`, `fn`, `rec`.
    UnknownTag,
    /// Nothing follows the tag.
    NoIdentifiers,
}

/// A descriptor as a value: its variant and its identifiers, each as bytes.
pub ghost struct ScopeModel {
    pub variant: ScopeVariant,
    pub identifiers: Seq<Seq<u8>>,
}

/// One scope descriptor.
#[derive(Clone, Debug)]
pub struct Scope {
    variant: ScopeVariant,
    identifiers: Vec<String>,
}

/// The pieces of `bytes` from `from` on, cut at every `sep`. There is always
/// at least one piece, and a piece may be empty.
pub open spec fn split_from(bytes: Seq<u8>, sep: u8, from: int) -> Seq<Seq<u8>>
    decreases bytes.len() - from,
{
    let stop = first_index_from(bytes, sep, from);
    if 0 <= from <= stop < bytes.len() {
        seq![bytes.subrange(from, stop)] + split_from(bytes, sep, stop + 1)
    } else if 0 <= from <= bytes.len() {
        seq![bytes.subrange(from, bytes.len() as int)]
    } else {
        seq![]
    }
}

/// The variant that a tag selects: `att`, `fn` or `rec`, byte for byte.
pub open spec fn tag_variant(tag: Seq<u8>) -> Option<ScopeVariant> {
    if tag == seq![0x61u8, 0x74u8, 0x74u8] {
        Some(ScopeVariant::AttrNames)
    } else if tag == seq![0x66u8, 0x6eu8] {
        Some(ScopeVariant::FnCall)
    } else if tag == seq![0x72u8, 0x65u8, 0x63u8] {
        Some(ScopeVariant::RecordEntries)
    } else {
        None
    }
}

/// What a descriptor's text means: the tag is what stands before the first
/// `:` (all of the text where there is none), the identifiers are the pieces
/// between the commas of what follows it.
pub open spec fn parse_scope(bytes: Seq<u8>) -> Result<ScopeModel, ScopeError> {
    let colon = first_index_from(bytes, COLON, 0);
    match tag_variant(bytes.subrange(0, colon)) {
        None => Err(ScopeError::UnknownTag),
        Some(variant) => if colon + 1 >= bytes.len() {
            Err(ScopeError::NoIdentifiers)
        } else {
            Ok(ScopeModel { variant, identifiers: split_from(bytes, COMMA, colon + 1) })
        },
    }
}

/// Whether a descriptor admits `identifier` for `variant`: the variant is
/// its own and the identifier is one of its identifiers, byte for byte.
pub open spec fn scope_matches(
    scope: ScopeModel,
    identifier: Seq<u8>,
    variant: ScopeVariant,
) -> bool {
    scope.variant == variant && scope.identifiers.contains(identifier)
}

/// Whether one of the descriptors admits `identifier` for `variant`.
pub open spec fn any_scope_matches(
    scopes: Seq<ScopeModel>,
    identifier: Seq<u8>,
    variant: ScopeVariant,
) -> bool {
    exists|i: int| 0 <= i < scopes.len() && scope_matches(#[trigger] scopes[i], identifier, variant)
}

/// The descriptors of a list, as values.
pub open spec fn scope_models(scopes: Seq<Scope>) -> Seq<ScopeModel> {
    scopes.map_values(|s: Scope| s@)
}

/// The bytes of each string of a list.
pub open spec fn all_bytes(strings: Seq<String>) -> Seq<Seq<u8>> {
    strings.map_values(|s: String| bytes_of(s))
}

/// Reads a tag.
pub fn variant_of_tag(tag: &[u8]) -> (r: Option<ScopeVariant>)
    ensures
        r == tag_variant(tag@),
{
    if tag.len() == 3 && tag[0] == 0x61 && tag[1] == 0x74 && tag[2] == 0x74 {
        assert(tag@ =~= seq![0x61u8, 0x74u8, 0x74u8]);
        Some(ScopeVariant::AttrNames)
    } else if tag.len() == 2 && tag[0] == 0x66 && tag[1] == 0x6e {
        assert(tag@ =~= seq![0x66u8, 0x6eu8]);
        Some(ScopeVariant::FnCall)
    } else if tag.len() == 3 && tag[0] == 0x72 && tag[1] == 0x65 && tag[2] == 0x63 {
        assert(tag@ =~= seq![0x72u8, 0x65u8, 0x63u8]);
        Some(ScopeVariant::RecordEntries)
    } else {
        assert(tag@ != seq![0x61u8, 0x74u8, 0x74u8]) by {
            let t = seq![0x61u8, 0x74u8, 0x74u8];
            assert(t.len() == 3 && t[0] == 0x61 && t[1] == 0x74 && t[2] == 0x74);
        }
        assert(tag@ != seq![0x66u8, 0x6eu8]) by {
            let t = seq![0x66u8, 0x6eu8];
            assert(t.len() == 2 && t[0] == 0x66 && t[1] == 0x6e);
        }
        assert(tag@ != seq![0x72u8, 0x65u8, 0x63u8]) by {
            let t = seq![0x72u8, 0x65u8, 0x63u8];
            assert(t.len() == 3 && t[0] == 0x72 && t[1] == 0x65 && t[2] == 0x63);
        }
        None
    }
}

impl View for Scope {
    type V = ScopeModel;

    closed spec fn view(&self) -> ScopeModel {
        ScopeModel { variant: self.variant, identifiers: all_bytes(self.identifiers@) }
    }
}

impl Scope {
    /// A descriptor made of its parts.
    pub fn new(variant: ScopeVariant, identifiers: Vec<String>) -> (r: Scope)
        ensures
            r@ == (ScopeModel { variant, identifiers: all_bytes(identifiers@) }),
    {
        Scope { variant, identifiers }
    }

    /// The descriptor's variant.
    pub fn variant(&self) -> (r: ScopeVariant)
        ensures
            r == self@.variant,
    {
        self.variant
    }

    /// How many identifiers the descriptor names.
    pub fn identifier_count(&self) -> (r: usize)
        ensures
            r == self@.identifiers.len(),
    {
        self.identifiers.len()
    }

    /// Reads a descriptor. It is refused where the tag is unknown, and where
    /// nothing follows the tag's colon or there is no colon.
    pub fn from_str(s: &str) -> (r: Result<Scope, ScopeError>)
        ensures
            match parse_scope(s.spec_bytes()) {
                Ok(model) => r is Ok && r.unwrap()@ == model,
                Err(e) => r == Err::<Scope, ScopeError>(e),
            },
            r is Ok ==> r.unwrap()@.identifiers.len() > 0,
    {
        let bytes = s.as_bytes();
        let colon = find_byte(bytes, COLON, 0);
        let tag = vstd::slice::slice_subrange(bytes, 0, colon);
        let variant = match variant_of_tag(tag) {
            None => { return Err(ScopeError::UnknownTag); },
            Some(v) => v,
        };
        if colon >= bytes.len() || colon + 1 >= bytes.len() {
            return Err(ScopeError::NoIdentifiers);
        }
        proof {
            encode_utf8_valid_utf8(s@);
            is_char_boundary_start_end_of_seq(bytes@);
            lemma_first_index_from(bytes@, COLON, 0);
        }
        let mut identifiers: Vec<String> = Vec::new();
        let mut from: usize = colon + 1;
        loop
            invariant_except_break
                split_from(bytes@, COMMA, colon + 1) == all_bytes(identifiers@) + split_from(
                    bytes@,
                    COMMA,
                    from as int,
                ),
            invariant
                bytes@ == s.spec_bytes(),
                vstd::utf8::valid_utf8(bytes@),
                0 < from <= bytes.len(),
                bytes@[from - 1] < 0x80,
            ensures
                split_from(bytes@, COMMA, colon + 1) == all_bytes(identifiers@),
                identifiers.len() > 0,
            decreases bytes.len() - from,
        {
            let stop = find_byte(bytes, COMMA, from);
            proof {
                lemma_first_index_from(bytes@, COMMA, from as int);
                lemma_boundary_after_ascii(bytes@, from - 1);
                is_char_boundary_start_end_of_seq(bytes@);
                if stop < bytes.len() {
                    lemma_boundary_at_ascii(bytes@, stop as int);
                }
            }
            let piece = slice_str(s, from, stop).to_owned();
            proof {
                assert(all_bytes(identifiers@.push(piece)) =~= all_bytes(identifiers@).push(
                    bytes_of(piece),
                ));
            }
            identifiers.push(piece);
            if stop >= bytes.len() {
                proof {
                    assert(split_from(bytes@, COMMA, from as int) =~= seq![bytes_of(piece)]);
                    assert(split_from(bytes@, COMMA, colon + 1) =~= all_bytes(identifiers@));
                }
                break;
            }
            proof {
                assert(split_from(bytes@, COMMA, from as int) =~= seq![bytes_of(piece)]
                    + split_from(bytes@, COMMA, stop + 1));
            }
            from = stop + 1;
        }
        Ok(Scope { variant, identifiers })
    }

    /// Whether this descriptor admits `identifier` for `variant`. The
    /// comparison is exact: case counts and nothing is trimmed.
    pub fn matches(&self, identifier: &str, variant: ScopeVariant) -> (r: bool)
        ensures
            r == scope_matches(self@, identifier.spec_bytes(), variant),
    {
        if self.variant != variant {
            return false;
        }
        let wanted = identifier.as_bytes();
        let mut i: usize = 0;
        while i < self.identifiers.len()
            invariant
                i <= self.identifiers.len(),
                self.variant == variant,
                wanted@ == identifier.spec_bytes(),
                forall|k: int| 0 <= k < i ==> all_bytes(self.identifiers@)[k] != wanted@,
            decreases self.identifiers.len() - i,
        {
            if bytes_eq(self.identifiers[i].as_str().as_bytes(), wanted) {
                assert(all_bytes(self.identifiers@)[i as int] == wanted@);
                assert(all_bytes(self.identifiers@).contains(wanted@));
                return true;
            }
            i += 1;
        }
        false
    }
}

/// Whether one of `scopes` admits `identifier` for `variant`.
pub fn starts_a_valid_scope(scopes: &Vec<Scope>, identifier: &str, variant: ScopeVariant) -> (r:
    bool)
    ensures
        r == any_scope_matches(scope_models(scopes@), identifier.spec_bytes(), variant),
{
    let mut i: usize = 0;
    while i < scopes.len()
        invariant
            i <= scopes.len(),
            forall|k: int|
                0 <= k < i ==> !scope_matches(
                    #[trigger] scope_models(scopes@)[k],
                    identifier.spec_bytes(),
                    variant,
                ),
        decreases scopes.len() - i,
    {
        if scopes[i].matches(identifier, variant) {
            assert(scope_models(scopes@)[i as int] == scopes@[i as int]@);
            return true;
        }
        assert(scope_models(scopes@)[i as int] == scopes@[i as int]@);
        i += 1;
    }
    false
}

} // verus!
