//! What holds of the records written for the entries that nothing matched.

use vstd::prelude::*;
use crate::engine::{index_after, kept_at};
use crate::index::is_listing;
use crate::laws::filter::{lemma_index_after, lemma_kept_at};
use crate::residual::{residual_of, residuals_of, ResidualRecordView};
use crate::types::FilterFormatView;

verus! {

/// Whether line `i` of a run is a kept line with the identifier `id`.
pub open spec fn matches_at(
    index: Map<Seq<char>, FilterFormatView>,
    ids: Seq<Option<Seq<char>>>,
    id: Seq<char>,
    i: int,
) -> bool {
    0 <= i < ids.len() && ids[i] == Some(id) && kept_at(index, ids, i)
}

/// Whether some line of a run of data lines matched the identifier `id`.
pub open spec fn matched(
    index: Map<Seq<char>, FilterFormatView>,
    ids: Seq<Option<Seq<char>>>,
    id: Seq<char>,
) -> bool {
    exists|i: int| matches_at(index, ids, id, i)
}

/// Whether a record with the identifier `id` stands at position `k`.
pub open spec fn written_at(records: Seq<ResidualRecordView>, id: Seq<char>, k: int) -> bool {
    0 <= k < records.len() && records[k].identifier == id
}

/// Whether a record with the identifier `id` is among the records.
pub open spec fn written(records: Seq<ResidualRecordView>, id: Seq<char>) -> bool {
    exists|k: int| written_at(records, id, k)
}

/// The position of the first line of a run that has the identifier `id`.
proof fn first_with(ids: Seq<Option<Seq<char>>>, id: Seq<char>, bound: int) -> (i: int)
    requires
        0 <= bound < ids.len(),
        ids[bound] == Some(id),
    ensures
        0 <= i <= bound,
        ids[i] == Some(id),
        forall|k: int| 0 <= k < i ==> #[trigger] ids[k] != Some(id),
    decreases bound,
{
    if exists|k: int| 0 <= k < bound && #[trigger] ids[k] == Some(id) {
        let k = choose|k: int| 0 <= k < bound && #[trigger] ids[k] == Some(id);
        first_with(ids, id, k)
    } else {
        bound
    }
}

/// An identifier of the index is matched by a run of data lines exactly where
/// a line of the run has it.
pub proof fn lemma_matched(
    index: Map<Seq<char>, FilterFormatView>,
    ids: Seq<Option<Seq<char>>>,
    id: Seq<char>,
)
    ensures
        matched(index, ids, id) <==> index.contains_key(id) && ids.contains(Some(id)),
{
    if matched(index, ids, id) {
        let i = choose|i: int| matches_at(index, ids, id, i);
        lemma_kept_at(index, ids, i);
        assert(ids[i] == Some(id));
    }
    if index.contains_key(id) && ids.contains(Some(id)) {
        let bound = choose|k: int| 0 <= k < ids.len() && ids[k] == Some(id);
        let i = first_with(ids, id, bound);
        lemma_kept_at(index, ids, i);
        assert(matches_at(index, ids, id, i));
    }
}

/// The records made of a list of entries are those of the entries that have
/// a display name and categories.
pub proof fn lemma_residuals_of(entries: Seq<(Seq<char>, FilterFormatView)>, id: Seq<char>)
    ensures
        written(residuals_of(entries), id) <==> exists|i: int|
            0 <= i < entries.len() && (#[trigger] entries[i]).0 == id && residual_of(
                entries[i].0,
                entries[i].1,
            ) is Some,
    decreases entries.len(),
{
    if entries.len() > 0 {
        let before = entries.drop_last();
        let n = entries.len() - 1;
        let records = residuals_of(entries);
        let earlier = residuals_of(before);
        lemma_residuals_of(before, id);
        if written(records, id) {
            let k = choose|k: int| written_at(records, id, k);
            if k < earlier.len() {
                assert(written_at(earlier, id, k));
                let i = choose|i: int|
                    0 <= i < before.len() && (#[trigger] before[i]).0 == id && residual_of(
                        before[i].0,
                        before[i].1,
                    ) is Some;
                assert(entries[i] == before[i]);
            } else {
                assert(entries[n].0 == id);
            }
        }
        if exists|i: int|
            0 <= i < entries.len() && (#[trigger] entries[i]).0 == id && residual_of(
                entries[i].0,
                entries[i].1,
            ) is Some {
            let i = choose|i: int|
                0 <= i < entries.len() && (#[trigger] entries[i]).0 == id && residual_of(
                    entries[i].0,
                    entries[i].1,
                ) is Some;
            if i < n {
                assert(before[i] == entries[i]);
                let k = choose|k: int| written_at(earlier, id, k);
                assert(records[k] == earlier[k]);
                assert(written_at(records, id, k));
            } else {
                assert(written_at(records, id, records.len() - 1));
            }
        }
    } else {
        assert(!written(residuals_of(entries), id)) by {
            if written(residuals_of(entries), id) {
                let k = choose|k: int| written_at(residuals_of(entries), id, k);
            }
        }
    }
}

/// Residual completeness: the identifiers of the records written for what is
/// left of an index after a run of data lines are the identifiers of the
/// index that no data line matched and whose entry has both a display name
/// and categories.
pub proof fn lemma_residual_complete(
    index: Map<Seq<char>, FilterFormatView>,
    ids: Seq<Option<Seq<char>>>,
    listing: Seq<(Seq<char>, FilterFormatView)>,
    id: Seq<char>,
)
    requires
        is_listing(listing, index_after(index, ids)),
    ensures
        written(residuals_of(listing), id) <==> index.contains_key(id) && !matched(index, ids, id)
            && index[id].name is Some && index[id].category is Some,
{
    let left = index_after(index, ids);
    lemma_residuals_of(listing, id);
    lemma_index_after(index, ids, id);
    lemma_matched(index, ids, id);
    if written(residuals_of(listing), id) {
        let i = choose|i: int|
            0 <= i < listing.len() && (#[trigger] listing[i]).0 == id && residual_of(
                listing[i].0,
                listing[i].1,
            ) is Some;
        assert(left.contains_key(listing[i].0) && left[listing[i].0] == listing[i].1);
    }
    if index.contains_key(id) && !matched(index, ids, id) && index[id].name is Some
        && index[id].category is Some {
        assert(left.contains_key(id));
        let i = choose|i: int| 0 <= i < listing.len() && (#[trigger] listing[i]).0 == id;
        assert(left.contains_key(listing[i].0) && left[listing[i].0] == listing[i].1);
    }
}

} // verus!
