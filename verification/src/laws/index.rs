//! What holds of the index that is built from a filter file.

use vstd::prelude::*;
use crate::engine::{built_index, excluded, index_with};
use crate::index::{is_listing, keyed_by_identifier};
use crate::types::FilterFormatView;

verus! {

/// Whether a line of the filter file puts an entry under `id`: it holds an
/// entry with that identifier which the exclusion set does not keep out.
pub open spec fn enters(
    entry: Option<FilterFormatView>,
    id: Seq<char>,
    exclusions: Option<Seq<Seq<char>>>,
) -> bool {
    match entry {
        Some(entry) => entry.id == id && !excluded(entry, exclusions),
        None => false,
    }
}

/// Whether line `j` is the last one that puts an entry under `id`.
pub open spec fn enters_last(
    entries: Seq<Option<FilterFormatView>>,
    id: Seq<char>,
    exclusions: Option<Seq<Seq<char>>>,
    j: int,
) -> bool {
    &&& 0 <= j < entries.len()
    &&& enters(entries[j], id, exclusions)
    &&& forall|k: int| j < k < entries.len() ==> !enters(#[trigger] entries[k], id, exclusions)
}

/// The built index holds an identifier exactly where some line puts an entry
/// under it, and then it holds the entry of the last such line.
pub proof fn lemma_built_index(
    entries: Seq<Option<FilterFormatView>>,
    exclusions: Option<Seq<Seq<char>>>,
    id: Seq<char>,
)
    ensures
        built_index(entries, exclusions).contains_key(id) <==> exists|j: int|
            0 <= j < entries.len() && enters(#[trigger] entries[j], id, exclusions),
        forall|j: int|
            #![trigger enters_last(entries, id, exclusions, j)]
            enters_last(entries, id, exclusions, j) ==> built_index(entries, exclusions)[id]
                == entries[j].unwrap(),
    decreases entries.len(),
{
    if entries.len() > 0 {
        let before = entries.drop_last();
        let n = entries.len() - 1;
        lemma_built_index(before, exclusions, id);
        assert(built_index(entries, exclusions) == index_with(
            built_index(before, exclusions),
            entries.last(),
            exclusions,
        ));
        if enters(entries.last(), id, exclusions) {
            assert(enters(entries[n], id, exclusions));
            assert forall|j: int| enters_last(entries, id, exclusions, j) implies built_index(
                entries,
                exclusions,
            )[id] == entries[j].unwrap() by {
                if j < n {
                    assert(!enters(entries[n], id, exclusions));
                }
            }
        } else {
            if built_index(entries, exclusions).contains_key(id) {
                let j = choose|j: int|
                    0 <= j < before.len() && enters(#[trigger] before[j], id, exclusions);
                assert(enters(entries[j], id, exclusions));
            }
            if exists|j: int|
                0 <= j < entries.len() && enters(#[trigger] entries[j], id, exclusions) {
                let j = choose|j: int|
                    0 <= j < entries.len() && enters(#[trigger] entries[j], id, exclusions);
                assert(j < n);
                assert(enters(before[j], id, exclusions));
            }
            assert forall|j: int| enters_last(entries, id, exclusions, j) implies built_index(
                entries,
                exclusions,
            )[id] == entries[j].unwrap() by {
                assert(j < n);
                assert forall|k: int| j < k < before.len() implies !enters(
                    #[trigger] before[k],
                    id,
                    exclusions,
                ) by {
                    assert(before[k] == entries[k]);
                }
                assert(enters_last(before, id, exclusions, j));
                assert(before[j] == entries[j]);
            }
        }
    }
}

/// Every line of the filter file that holds an entry with an identifier and
/// no excluded category has its identifier in the built index, with the entry
/// of the last such line that shares the identifier.
pub proof fn lemma_entry_indexed(
    entries: Seq<Option<FilterFormatView>>,
    exclusions: Option<Seq<Seq<char>>>,
    i: int,
)
    requires
        0 <= i < entries.len(),
        entries[i] is Some,
        !excluded(entries[i].unwrap(), exclusions),
    ensures
        built_index(entries, exclusions).contains_key(entries[i].unwrap().id),
        exists|j: int|
            i <= j && #[trigger] enters_last(entries, entries[i].unwrap().id, exclusions, j)
                && built_index(entries, exclusions)[entries[i].unwrap().id]
                == entries[j].unwrap(),
{
    let id = entries[i].unwrap().id;
    lemma_built_index(entries, exclusions, id);
    assert(enters(entries[i], id, exclusions));
    let j = last_entering(entries, id, exclusions, i);
    assert(enters_last(entries, id, exclusions, j));
}

/// The position of the last line, at or after line `i`, that puts an entry
/// under `id`.
proof fn last_entering(
    entries: Seq<Option<FilterFormatView>>,
    id: Seq<char>,
    exclusions: Option<Seq<Seq<char>>>,
    i: int,
) -> (j: int)
    requires
        0 <= i < entries.len(),
        enters(entries[i], id, exclusions),
    ensures
        i <= j,
        enters_last(entries, id, exclusions, j),
    decreases entries.len() - i,
{
    if exists|k: int| i < k < entries.len() && enters(#[trigger] entries[k], id, exclusions) {
        let k = choose|k: int|
            i < k < entries.len() && enters(#[trigger] entries[k], id, exclusions);
        last_entering(entries, id, exclusions, k)
    } else {
        i
    }
}

/// Every entry of the built index stands under its own identifier.
pub proof fn lemma_built_index_keyed(
    entries: Seq<Option<FilterFormatView>>,
    exclusions: Option<Seq<Seq<char>>>,
)
    ensures
        keyed_by_identifier(built_index(entries, exclusions)),
{
    let index = built_index(entries, exclusions);
    assert forall|id: Seq<char>| #[trigger] index.contains_key(id) implies index[id].id == id by {
        lemma_built_index(entries, exclusions, id);
        let i = choose|i: int|
            0 <= i < entries.len() && enters(#[trigger] entries[i], id, exclusions);
        let j = last_entering(entries, id, exclusions, i);
        assert(enters_last(entries, id, exclusions, j));
    }
}

/// The identifier of a line whose categories meet the exclusion set is
/// absent from the built index unless a later line puts an entry under it.
/// This is said of the files in which an entry that an earlier line put under
/// the identifier, if there is one, is overwritten by a later line: an
/// excluded line does not take an earlier entry out.
pub proof fn lemma_excluded_entry_absent(
    entries: Seq<Option<FilterFormatView>>,
    exclusions: Option<Seq<Seq<char>>>,
    i: int,
)
    requires
        0 <= i < entries.len(),
        entries[i] is Some,
        excluded(entries[i].unwrap(), exclusions),
        (exists|k: int|
            0 <= k < i && enters(#[trigger] entries[k], entries[i].unwrap().id, exclusions))
            ==> (exists|j: int|
            i < j < entries.len() && enters(
                #[trigger] entries[j],
                entries[i].unwrap().id,
                exclusions,
            )),
    ensures
        built_index(entries, exclusions).contains_key(entries[i].unwrap().id) <==> exists|j: int|
            i < j < entries.len() && enters(
                #[trigger] entries[j],
                entries[i].unwrap().id,
                exclusions,
            ),
{
    let id = entries[i].unwrap().id;
    lemma_built_index(entries, exclusions, id);
    if built_index(entries, exclusions).contains_key(id) {
        let j = choose|j: int|
            0 <= j < entries.len() && enters(#[trigger] entries[j], id, exclusions);
        assert(j != i);
        if j < i {
            assert(0 <= j < i && enters(entries[j], id, exclusions));
        }
    }
}

/// With no exclusion set, every line that holds an entry has its identifier
/// in the built index, whatever its categories.
pub proof fn lemma_nothing_excluded(entries: Seq<Option<FilterFormatView>>, i: int)
    requires
        0 <= i < entries.len(),
        entries[i] is Some,
    ensures
        built_index(entries, None).contains_key(entries[i].unwrap().id),
{
    lemma_entry_indexed(entries, None, i);
}

/// A listing of an index names every identifier of the index at exactly one
/// position.
pub proof fn lemma_listed_once(
    listing: Seq<(Seq<char>, FilterFormatView)>,
    index: Map<Seq<char>, FilterFormatView>,
    id: Seq<char>,
)
    requires
        is_listing(listing, index),
        index.contains_key(id),
    ensures
        exists|i: int|
            0 <= i < listing.len() && (#[trigger] listing[i]).0 == id && forall|j: int|
                0 <= j < listing.len() && (#[trigger] listing[j]).0 == id ==> j == i,
{
    let i = choose|i: int| 0 <= i < listing.len() && (#[trigger] listing[i]).0 == id;
    assert forall|j: int| 0 <= j < listing.len() && (#[trigger] listing[j]).0 == id implies j
        == i by {
        if j < i {
            assert(listing[j].0 != listing[i].0);
        }
        if i < j {
            assert(listing[i].0 != listing[j].0);
        }
    }
}

} // verus!
