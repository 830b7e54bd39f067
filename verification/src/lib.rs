//! Class-name cross-references: from a cursor in a script source to the
//! stylesheet rule that defines the class under it.

use vstd::prelude::*;
use vstd::string::StringSliceAdditionalSpecFns;

pub mod classnames;
pub mod config;
pub mod documents;
pub mod find;
pub mod locate;
pub mod resolve;
pub mod scope;
pub mod syntax;
pub mod text;
pub mod token;

verus! {

/// An owned, immutable piece of text.
#[derive(Clone, Debug)]
pub struct Str(String);

impl View for Str {
    type V = Seq<u8>;

    /// The bytes of the text.
    closed spec fn view(&self) -> Seq<u8> {
        crate::text::bytes_of(self.0)
    }
}

impl Str {
    /// An owned copy of `value`.
    pub fn new(value: &str) -> (r: Str)
        ensures
            r@ == value.spec_bytes(),
    {
        Str(value.to_owned())
    }

    /// The text.
    pub fn as_str(&self) -> (r: &str)
        ensures
            r.spec_bytes() == self@,
    {
        self.0.as_str()
    }

    /// Whether the text is `other`, byte for byte.
    pub fn eq_str(&self, other: &str) -> (r: bool)
        ensures
            r == (self@ == other.spec_bytes()),
    {
        crate::text::bytes_eq(self.0.as_str().as_bytes(), other.as_bytes())
    }
}

} // verus!
