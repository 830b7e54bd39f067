//! The open documents: the current text of each document that the editor
//! has open, by its identifier.

use vstd::prelude::*;
use dashmap::DashMap;

verus! {

/// `dashmap::DashMap`, a concurrent hash map, carried as an opaque value.
#[verifier::external_type_specification]
#[verifier::external_body]
#[verifier::reject_recursive_types(K)]
#[verifier::reject_recursive_types(V)]
#[verifier::reject_recursive_types(S)]
pub struct ExDashMap<K, V, S>(DashMap<K, V, S>);

/// The map that holds the documents: from identifier to text.
pub type DocumentMap = DashMap<String, String>;

/// What a map of documents holds: the text under each identifier.
pub uninterp spec fn documents_in(map: DashMap<String, String>) -> Map<Seq<char>, Seq<char>>;

/// `DashMap::new`: the map it makes holds nothing.
#[verifier::external_body]
fn map_new() -> (r: DocumentMap)
    ensures
        documents_in(r) == (Map::<Seq<char>, Seq<char>>::empty()),
{
    DashMap::new()
}

/// `DashMap::insert`: afterwards the map holds `value` under `key`, in
/// place of what it held there, and everything else as before.
#[verifier::external_body]
fn map_insert(map: &mut DocumentMap, key: String, value: String)
    ensures
        documents_in(*final(map)) == documents_in(*old(map)).insert(key@, value@),
{
    map.insert(key, value);
}

/// `DashMap::remove`: afterwards the map holds nothing under `key`, and
/// everything else as before.
#[verifier::external_body]
fn map_remove(map: &mut DocumentMap, key: &str)
    ensures
        documents_in(*final(map)) == documents_in(*old(map)).remove(key@),
{
    map.remove(key);
}

/// `DashMap::get`: a copy of what the map holds under `key`, if anything.
#[verifier::external_body]
fn map_get(map: &DocumentMap, key: &str) -> (r: Option<String>)
    ensures
        match r {
            Some(text) => documents_in(*map).contains_key(key@) && documents_in(*map)[key@]
                == text@,
            None => !documents_in(*map).contains_key(key@),
        },
{
    match map.get(key) {
        Some(entry) => Some(entry.value().clone()),
        None => None,
    }
}

/// The store of open documents.
pub struct Documents {
    map: DocumentMap,
}

impl View for Documents {
    type V = Map<Seq<char>, Seq<char>>;

    /// The store as a map from identifier to text.
    closed spec fn view(&self) -> Map<Seq<char>, Seq<char>> {
        documents_in(self.map)
    }
}

impl Documents {
    /// A store with no document.
    pub fn new() -> (r: Documents)
        ensures
            r@ == Map::<Seq<char>, Seq<char>>::empty(),
    {
        Documents { map: map_new() }
    }

    /// The text of `uri`, where it is open.
    pub fn get(&self, uri: &str) -> (r: Option<String>)
        ensures
            match r {
                Some(text) => self@.contains_key(uri@) && self@[uri@] == text@,
                None => !self@.contains_key(uri@),
            },
    {
        map_get(&self.map, uri)
    }

    /// Opens a document, or replaces the whole text of one that is open.
    pub fn open(&mut self, uri: String, text: String)
        ensures
            final(self)@ == old(self)@.insert(uri@, text@),
    {
        map_insert(&mut self.map, uri, text)
    }

    /// Replaces the whole text of a document by the latest full text.
    pub fn change(&mut self, uri: String, text: String)
        ensures
            final(self)@ == old(self)@.insert(uri@, text@),
    {
        map_insert(&mut self.map, uri, text)
    }

    /// Closes a document. Closing one that is not open changes nothing.
    pub fn close(&mut self, uri: &str)
        ensures
            final(self)@ == old(self)@.remove(uri@),
    {
        map_remove(&mut self.map, uri)
    }
}

/// A document's text is what was opened or changed last, and a closed
/// document has none, whatever happens to other documents in between.
pub proof fn lemma_last_text_wins(
    before: Map<Seq<char>, Seq<char>>,
    uri: Seq<char>,
    first: Seq<char>,
    second: Seq<char>,
    other: Seq<char>,
    other_text: Seq<char>,
)
    requires
        other != uri,
    ensures
        before.insert(uri, first).insert(other, other_text).insert(uri, second)[uri] == second,
        before.insert(uri, first).insert(uri, second) == before.insert(uri, second),
        !before.insert(uri, first).remove(other).remove(uri).contains_key(uri),
        before.insert(uri, first).remove(other)[uri] == first,
{
    assert(before.insert(uri, first).insert(uri, second) =~= before.insert(uri, second));
}

} // verus!
