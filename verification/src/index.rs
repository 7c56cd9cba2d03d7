//! The membership index: filter entries by identifier, in an `ahash` map.

use vstd::prelude::*;
use crate::types::{FilterFormat, FilterFormatView};

verus! {

/// `ahash::RandomState`, the hasher state that an `AHashMap` carries in its
/// type. Nothing is said of it.
#[verifier::external_type_specification]
#[verifier::external_body]
pub struct ExRandomState(ahash::RandomState);

/// `ahash::AHashMap`, carried as an opaque value.
#[verifier::external_type_specification]
#[verifier::external_body]
#[verifier::reject_recursive_types(K)]
#[verifier::reject_recursive_types(V)]
#[verifier::reject_recursive_types(S)]
pub struct ExAHashMap<K, V, S>(ahash::AHashMap<K, V, S>);

/// What a map holds: each key's text, with the entry stored under it.
pub uninterp spec fn map_contents(map: ahash::AHashMap<String, FilterFormat>) -> Map<
    Seq<char>,
    FilterFormatView,
>;

/// Calls `AHashMap::new`. Trusted: the new map holds nothing.
#[verifier::external_body]
fn map_new() -> (r: ahash::AHashMap<String, FilterFormat>)
    ensures
        map_contents(r) == (Map::<Seq<char>, FilterFormatView>::empty()),
{
    ahash::AHashMap::new()
}

/// Calls `AHashMap::insert`. Trusted: the entry stands under the key
/// afterwards, replacing what stood there, and nothing else changes; the call
/// does not unwind.
#[verifier::external_body]
fn map_insert(map: &mut ahash::AHashMap<String, FilterFormat>, key: String, entry: FilterFormat)
    ensures
        map_contents(*final(map)) == map_contents(*old(map)).insert(key@, entry@),
    no_unwind
{
    map.insert(key, entry);
}

/// Calls `AHashMap::remove`. Trusted: the key is gone afterwards and nothing
/// else changes; the entry that stood under it is returned, `None` where
/// there was none; the call does not unwind.
#[verifier::external_body]
fn map_remove(map: &mut ahash::AHashMap<String, FilterFormat>, key: &str) -> (r: Option<
    FilterFormat,
>)
    ensures
        map_contents(*final(map)) == map_contents(*old(map)).remove(key@),
        match r {
            Some(entry) => map_contents(*old(map)).contains_key(key@) && entry@ == map_contents(
                *old(map),
            )[key@],
            None => !map_contents(*old(map)).contains_key(key@),
        },
    no_unwind
{
    map.remove(key)
}

/// Calls `AHashMap::get`. Trusted: the entry under the key is returned, `None`
/// where there is none.
#[verifier::external_body]
fn map_get<'a>(map: &'a ahash::AHashMap<String, FilterFormat>, key: &str) -> (r: Option<
    &'a FilterFormat,
>)
    ensures
        match r {
            Some(entry) => map_contents(*map).contains_key(key@) && entry@ == map_contents(
                *map,
            )[key@],
            None => !map_contents(*map).contains_key(key@),
        },
{
    map.get(key)
}

/// Calls `HashMap::len` through the map's `Deref`. Trusted: the result is the
/// number of entries.
#[verifier::external_body]
fn map_len(map: &ahash::AHashMap<String, FilterFormat>) -> (n: usize)
    ensures
        n == map_contents(*map).dom().len(),
{
    map.len()
}

/// Calls `AHashMap::into_iter` and collects what it yields. Trusted: every
/// entry of the map comes out once, under its key; the order is the map's
/// own and nothing is said of it.
#[verifier::external_body]
fn map_into_entries(map: ahash::AHashMap<String, FilterFormat>) -> (entries: Vec<
    (String, FilterFormat),
>)
    ensures
        is_listing(entries.deep_view(), map_contents(map)),
{
    map.into_iter().collect()
}

/// `entries` lists `contents`: every key once, with its entry, in some order.
pub open spec fn is_listing(
    entries: Seq<(Seq<char>, FilterFormatView)>,
    contents: Map<Seq<char>, FilterFormatView>,
) -> bool {
    &&& forall|i: int, j: int|
        0 <= i < j < entries.len() ==> (#[trigger] entries[i]).0 != (#[trigger] entries[j]).0
    &&& forall|i: int|
        0 <= i < entries.len() ==> contents.contains_key((#[trigger] entries[i]).0)
            && contents[entries[i].0] == entries[i].1
    &&& forall|key: Seq<char>| #[trigger]
        contents.contains_key(key) ==> exists|i: int|
            0 <= i < entries.len() && (#[trigger] entries[i]).0 == key
}

/// Whether every entry stands under its own identifier.
pub open spec fn keyed_by_identifier(contents: Map<Seq<char>, FilterFormatView>) -> bool {
    forall|id: Seq<char>| #[trigger] contents.contains_key(id) ==> contents[id].id == id
}

/// Filter entries by identifier. Built once from the filter file, it only
/// shrinks while data files are filtered: a matched entry leaves it. It holds
/// finitely many entries, each under its own identifier.
pub struct MembershipIndex {
    map: ahash::AHashMap<String, FilterFormat>,
}

impl View for MembershipIndex {
    type V = Map<Seq<char>, FilterFormatView>;

    closed spec fn view(&self) -> Map<Seq<char>, FilterFormatView> {
        map_contents(self.map)
    }
}

impl MembershipIndex {
    #[verifier::type_invariant]
    closed spec fn well_formed(&self) -> bool {
        map_contents(self.map).dom().finite() && keyed_by_identifier(map_contents(self.map))
    }

    /// An index that holds nothing.
    pub fn new() -> (index: MembershipIndex)
        ensures
            index@ == (Map::<Seq<char>, FilterFormatView>::empty()),
    {
        MembershipIndex { map: map_new() }
    }

    /// Puts an entry under its identifier, replacing any entry that stood
    /// there.
    pub fn insert(&mut self, entry: FilterFormat)
        ensures
            final(self)@ == old(self)@.insert(entry@.id, entry@),
    {
        proof {
            use_type_invariant(&*self);
        }
        let key = entry.id.clone();
        map_insert(&mut self.map, key, entry);
    }

    /// Takes the entry under `id` out of the index.
    pub fn remove(&mut self, id: &str) -> (r: Option<FilterFormat>)
        ensures
            final(self)@ == old(self)@.remove(id@),
            r is Some <==> old(self)@.contains_key(id@),
            r matches Some(entry) ==> entry@ == old(self)@[id@] && entry@.id == id@,
    {
        proof {
            use_type_invariant(&*self);
        }
        map_remove(&mut self.map, id)
    }

    /// The entry under `id`.
    pub fn get(&self, id: &str) -> (r: Option<&FilterFormat>)
        ensures
            r is Some <==> self@.contains_key(id@),
            r matches Some(entry) ==> entry@ == self@[id@] && entry@.id == id@,
    {
        proof {
            use_type_invariant(&*self);
        }
        map_get(&self.map, id)
    }

    /// Whether an entry stands under `id`.
    pub fn contains(&self, id: &str) -> (r: bool)
        ensures
            r == self@.contains_key(id@),
    {
        map_get(&self.map, id).is_some()
    }

    /// The number of entries.
    pub fn len(&self) -> (n: usize)
        ensures
            self@.dom().finite(),
            n == self@.len(),
    {
        proof {
            use_type_invariant(&*self);
        }
        map_len(&self.map)
    }

    /// Hands out every entry with its identifier, in the order in which the
    /// map walks them.
    pub fn into_entries(self) -> (entries: Vec<(String, FilterFormat)>)
        ensures
            is_listing(entries.deep_view(), self@),
            keyed_by_identifier(self@),
    {
        proof {
            use_type_invariant(&self);
        }
        map_into_entries(self.map)
    }
}

} // verus!
