//! The scope configuration: the descriptors in force, replaced as a whole.

use vstd::prelude::*;
use vstd::utf8::encode_utf8;
use crate::scope::{
    all_bytes, parse_scope, scope_models, Scope, ScopeError, ScopeModel, ScopeVariant,
};
use crate::text::bytes_of;

verus! {

/// A descriptor that was refused: its place in the list, and why.
#[derive(Clone, Copy, Debug, PartialEq, Eq, Structural)]
pub struct Rejection {
    pub index: usize,
    pub error: ScopeError,
}

/// The active configuration.
#[derive(Debug)]
pub struct Config {
    scopes: Vec<Scope>,
}

impl View for Config {
    type V = Seq<ScopeModel>;

    closed spec fn view(&self) -> Seq<ScopeModel> {
        scope_models(self.scopes@)
    }
}

/// The descriptors in force before any configuration arrives:
/// `att:className,class` and `fn:createElement`.
pub open spec fn default_scopes() -> Seq<ScopeModel> {
    seq![
        ScopeModel {
            variant: ScopeVariant::AttrNames,
            identifiers: seq![encode_utf8("className"@), encode_utf8("class"@)],
        },
        ScopeModel {
            variant: ScopeVariant::FnCall,
            identifiers: seq![encode_utf8("createElement"@)],
        },
    ]
}

/// The descriptors that the first `upto` texts give, in order: each text
/// that can be read gives one, the others give none.
pub open spec fn accepted(texts: Seq<Seq<u8>>, upto: int) -> Seq<ScopeModel>
    decreases upto,
{
    if upto <= 0 || upto > texts.len() {
        seq![]
    } else {
        match parse_scope(texts[upto - 1]) {
            Ok(model) => accepted(texts, upto - 1).push(model),
            Err(_) => accepted(texts, upto - 1),
        }
    }
}

/// The texts among the first `upto` that cannot be read, in order, each
/// with its place and its error.
pub open spec fn rejected(texts: Seq<Seq<u8>>, upto: int) -> Seq<Rejection>
    decreases upto,
{
    if upto <= 0 || upto > texts.len() {
        seq![]
    } else {
        match parse_scope(texts[upto - 1]) {
            Ok(_) => rejected(texts, upto - 1),
            Err(error) => rejected(texts, upto - 1).push(
                Rejection { index: (upto - 1) as usize, error },
            ),
        }
    }
}

/// Every text is either accepted or rejected: the two lists together are as
/// long as the list of texts.
pub proof fn lemma_accepted_or_rejected(texts: Seq<Seq<u8>>, upto: int)
    requires
        0 <= upto <= texts.len(),
    ensures
        accepted(texts, upto).len() + rejected(texts, upto).len() == upto,
    decreases upto,
{
    if upto > 0 {
        lemma_accepted_or_rejected(texts, upto - 1);
    }
}

impl Default for Config {
    /// The configuration with the default descriptors.
    fn default() -> (r: Config)
        ensures
            r@ == default_scopes(),
    {
        let mut attributes: Vec<String> = Vec::new();
        attributes.push("className".to_owned());
        attributes.push("class".to_owned());
        let mut calls: Vec<String> = Vec::new();
        calls.push("createElement".to_owned());
        let first = Scope::new(ScopeVariant::AttrNames, attributes);
        let second = Scope::new(ScopeVariant::FnCall, calls);
        proof {
            assert(first@.identifiers =~= seq![
                encode_utf8("className"@),
                encode_utf8("class"@),
            ]);
            assert(second@.identifiers =~= seq![encode_utf8("createElement"@)]);
        }
        let mut scopes: Vec<Scope> = Vec::new();
        scopes.push(first);
        scopes.push(second);
        proof {
            assert(scope_models(scopes@) =~= default_scopes());
        }
        Config { scopes }
    }
}

impl Config {
    /// The descriptors in force.
    pub fn scopes(&self) -> (r: &Vec<Scope>)
        ensures
            scope_models(r@) == self@,
    {
        &self.scopes
    }

    /// Replaces the whole configuration by what `texts` describe. A text
    /// that cannot be read is left out and reported; the others still
    /// apply. Nothing of the configuration before the call remains.
    pub fn replace_scopes(&mut self, texts: &Vec<String>) -> (r: Vec<Rejection>)
        ensures
            final(self)@ == accepted(all_bytes(texts@), texts@.len() as int),
            r@ == rejected(all_bytes(texts@), texts@.len() as int),
    {
        let mut scopes: Vec<Scope> = Vec::new();
        let mut refused: Vec<Rejection> = Vec::new();
        let mut i: usize = 0;
        proof {
            assert(scope_models(scopes@) =~= accepted(all_bytes(texts@), 0));
        }
        while i < texts.len()
            invariant
                i <= texts.len(),
                scope_models(scopes@) == accepted(all_bytes(texts@), i as int),
                refused@ == rejected(all_bytes(texts@), i as int),
            decreases texts.len() - i,
        {
            proof {
                assert(all_bytes(texts@)[i as int] == bytes_of(texts@[i as int]));
            }
            match Scope::from_str(texts[i].as_str()) {
                Ok(scope) => {
                    let ghost before = scopes@;
                    scopes.push(scope);
                    proof {
                        assert(scope_models(scopes@) =~= scope_models(before).push(scope@));
                    }
                },
                Err(error) => {
                    refused.push(Rejection { index: i, error });
                },
            }
            i += 1;
        }
        self.scopes = scopes;
        refused
    }
}

} // verus!
