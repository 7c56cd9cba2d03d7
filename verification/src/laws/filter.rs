//! What holds of the lines that are kept, and of the index as data lines go
//! through it.

use vstd::prelude::*;
use vstd::utf8::decode_utf8_encode_utf8;
use crate::engine::{identifiers, index_after, kept_at, kept_lines};
use crate::file::reader::{line_text, split_lines, text_lines};
use crate::file::writer::line_bytes;
use crate::types::FilterFormatView;

verus! {

/// After a run of data lines the index holds the entries whose identifier
/// no line of the run had, and holds them unchanged.
pub proof fn lemma_index_after(
    index: Map<Seq<char>, FilterFormatView>,
    ids: Seq<Option<Seq<char>>>,
    id: Seq<char>,
)
    ensures
        index_after(index, ids).contains_key(id) <==> index.contains_key(id) && !ids.contains(
            Some(id),
        ),
        index_after(index, ids).contains_key(id) ==> index_after(index, ids)[id] == index[id],
    decreases ids.len(),
{
    if ids.len() > 0 {
        let before = ids.drop_last();
        lemma_index_after(index, before, id);
        if before.contains(Some(id)) {
            let k = choose|k: int| 0 <= k < before.len() && before[k] == Some(id);
            assert(ids[k] == Some(id));
        }
        if ids.contains(Some(id)) {
            let k = choose|k: int| 0 <= k < ids.len() && ids[k] == Some(id);
            if k < before.len() {
                assert(before[k] == Some(id));
            }
        }
        if ids.last() == Some(id) {
            assert(ids[ids.len() - 1] == Some(id));
        }
    }
}

/// The index only shrinks while data lines go through it: what it holds
/// after a run it held before, with the same entry.
pub proof fn lemma_index_shrinks(
    index: Map<Seq<char>, FilterFormatView>,
    ids: Seq<Option<Seq<char>>>,
)
    ensures
        index_after(index, ids).submap_of(index),
{
    assert forall|id: Seq<char>| #[trigger] index_after(index, ids).dom().contains(id) implies
        index.dom().contains(id) && index_after(index, ids)[id] == index[id] by {
        lemma_index_after(index, ids, id);
    }
}

/// Two runs of data lines, one after the other, leave the index as the one
/// run of all their lines does.
pub proof fn lemma_index_after_both(
    index: Map<Seq<char>, FilterFormatView>,
    first: Seq<Option<Seq<char>>>,
    second: Seq<Option<Seq<char>>>,
)
    ensures
        index_after(index_after(index, first), second) == index_after(index, first + second),
    decreases second.len(),
{
    if second.len() == 0 {
        assert(first + second == first);
    } else {
        lemma_index_after_both(index, first, second.drop_last());
        assert((first + second).drop_last() == first + second.drop_last());
        assert((first + second).last() == second.last());
    }
}

/// A data line is kept exactly where it has an identifier that the index held
/// before the run and that no earlier line of the run had.
pub proof fn lemma_kept_at(
    index: Map<Seq<char>, FilterFormatView>,
    ids: Seq<Option<Seq<char>>>,
    i: int,
)
    requires
        0 <= i < ids.len(),
    ensures
        kept_at(index, ids, i) <==> ids[i] is Some && index.contains_key(ids[i].unwrap())
            && forall|k: int| 0 <= k < i ==> #[trigger] ids[k] != ids[i],
{
    if ids[i] is Some {
        let id = ids[i].unwrap();
        let earlier = ids.take(i);
        lemma_index_after(index, earlier, id);
        if earlier.contains(Some(id)) {
            let k = choose|k: int| 0 <= k < earlier.len() && earlier[k] == Some(id);
            assert(ids[k] == ids[i]);
        }
        if exists|k: int| 0 <= k < i && #[trigger] ids[k] == ids[i] {
            let k = choose|k: int| 0 <= k < i && #[trigger] ids[k] == ids[i];
            assert(earlier[k] == Some(id));
        }
    }
}

/// Of two data lines with the same identifier, the later one is dropped.
pub proof fn lemma_at_most_once(
    index: Map<Seq<char>, FilterFormatView>,
    ids: Seq<Option<Seq<char>>>,
    i: int,
    j: int,
)
    requires
        0 <= i < j < ids.len(),
        ids[i] is Some,
        ids[i] == ids[j],
    ensures
        !kept_at(index, ids, j),
        kept_at(index, ids, i) ==> index.contains_key(ids[i].unwrap()),
{
    lemma_kept_at(index, ids, j);
    lemma_kept_at(index, ids, i);
}

/// First file wins: a line of a later data file whose identifier stood on a
/// line of an earlier one is dropped, because the index went through the
/// earlier file first.
pub proof fn lemma_first_file_wins(
    index: Map<Seq<char>, FilterFormatView>,
    first: Seq<Option<Seq<char>>>,
    second: Seq<Option<Seq<char>>>,
    i: int,
    j: int,
)
    requires
        0 <= i < first.len(),
        0 <= j < second.len(),
        first[i] is Some,
        first[i] == second[j],
    ensures
        !kept_at(index_after(index, first), second, j),
        kept_at(index, first, i) <==> index.contains_key(first[i].unwrap()) && forall|k: int|
            0 <= k < i ==> #[trigger] first[k] != first[i],
{
    let id = first[i].unwrap();
    lemma_index_after(index, first, id);
    assert(first.contains(Some(id)));
    lemma_kept_at(index_after(index, first), second, j);
    lemma_kept_at(index, first, i);
}

/// The positions of the data lines that are kept, in rising order.
pub open spec fn kept_positions(
    index: Map<Seq<char>, FilterFormatView>,
    ids: Seq<Option<Seq<char>>>,
) -> Seq<int>
    decreases ids.len(),
{
    if ids.len() == 0 {
        Seq::empty()
    } else {
        let before = kept_positions(index, ids.drop_last());
        if kept_at(index, ids, ids.len() - 1) {
            before.push(ids.len() - 1)
        } else {
            before
        }
    }
}

/// The kept positions are the positions of the kept lines, each once and in
/// rising order.
pub proof fn lemma_kept_positions(
    index: Map<Seq<char>, FilterFormatView>,
    ids: Seq<Option<Seq<char>>>,
)
    ensures
        forall|k: int|
            0 <= k < kept_positions(index, ids).len() ==> 0 <= (#[trigger] kept_positions(
                index,
                ids,
            )[k]) < ids.len() && kept_at(index, ids, kept_positions(index, ids)[k]),
        forall|k: int, l: int|
            0 <= k < l < kept_positions(index, ids).len() ==> (#[trigger] kept_positions(
                index,
                ids,
            )[k]) < (#[trigger] kept_positions(index, ids)[l]),
        forall|i: int|
            0 <= i < ids.len() && #[trigger] kept_at(index, ids, i) ==> kept_positions(
                index,
                ids,
            ).contains(i),
    decreases ids.len(),
{
    if ids.len() > 0 {
        let before = ids.drop_last();
        let n = ids.len() - 1;
        let positions = kept_positions(index, ids);
        let earlier = kept_positions(index, before);
        lemma_kept_positions(index, before);
        assert forall|i: int| 0 <= i < n implies kept_at(index, before, i) == kept_at(
            index,
            ids,
            i,
        ) by {
            assert(before.take(i) == ids.take(i));
        }
        assert forall|k: int| 0 <= k < positions.len() implies 0 <= (#[trigger] positions[k])
            < ids.len() && kept_at(index, ids, positions[k]) by {
            if k < earlier.len() {
                assert(positions[k] == earlier[k]);
            }
        }
        assert forall|k: int, l: int| 0 <= k < l < positions.len() implies (
        #[trigger] positions[k]) < (#[trigger] positions[l]) by {
            assert(positions[k] == earlier[k]);
            if l < earlier.len() {
                assert(positions[l] == earlier[l]);
            }
        }
        assert forall|i: int| 0 <= i < ids.len() && #[trigger] kept_at(
            index,
            ids,
            i,
        ) implies positions.contains(i) by {
            if i < n {
                assert(kept_at(index, before, i));
                let k = choose|k: int| 0 <= k < earlier.len() && earlier[k] == i;
                assert(positions[k] == i);
            } else {
                assert(positions[positions.len() - 1] == i);
            }
        }
    }
}

/// The kept lines are the lines at the kept positions: a line whose
/// identifier the index holds when the line is read is passed on as it
/// stands, in its place among the kept lines, and no other line is.
pub proof fn lemma_kept_lines(
    index: Map<Seq<char>, FilterFormatView>,
    lines: Seq<Option<Seq<char>>>,
    id_key: Seq<char>,
)
    ensures
        kept_lines(index, lines, id_key).len() == kept_positions(
            index,
            identifiers(lines, id_key),
        ).len(),
        forall|k: int|
            0 <= k < kept_lines(index, lines, id_key).len() ==> lines[kept_positions(
                index,
                identifiers(lines, id_key),
            )[k]] == Some(#[trigger] kept_lines(index, lines, id_key)[k]),
    decreases lines.len(),
{
    let ids = identifiers(lines, id_key);
    if lines.len() > 0 {
        let before = lines.drop_last();
        let n = lines.len() - 1;
        lemma_kept_lines(index, before, id_key);
        lemma_kept_positions(index, ids.drop_last());
        assert(identifiers(before, id_key) == ids.drop_last());
        assert(ids.take(n) == ids.drop_last());
        let kept = kept_lines(index, lines, id_key);
        let positions = kept_positions(index, ids);
        assert forall|k: int| 0 <= k < kept.len() implies lines[positions[k]] == Some(
            #[trigger] kept[k],
        ) by {
            if k < kept_lines(index, before, id_key).len() {
                assert(kept[k] == kept_lines(index, before, id_key)[k]);
                assert(positions[k] == kept_positions(index, ids.drop_last())[k]);
                assert(before[positions[k]] == lines[positions[k]]);
            }
        }
    }
}

/// A line that is passed on stands in the output with the bytes it had in
/// the input, and a newline after them.
pub proof fn lemma_line_unchanged(line: Seq<u8>)
    requires
        line_text(line) is Some,
    ensures
        line_bytes(line_text(line).unwrap()) == line.push(10u8),
{
    decode_utf8_encode_utf8(line);
}

/// Pass-through: every kept line stands in the output with the bytes that
/// its line has in the input file, and a newline after them.
pub proof fn lemma_kept_bytes(
    index: Map<Seq<char>, FilterFormatView>,
    bytes: Seq<u8>,
    id_key: Seq<char>,
    k: int,
)
    requires
        0 <= k < kept_lines(index, text_lines(bytes), id_key).len(),
    ensures
        0 <= kept_positions(index, identifiers(text_lines(bytes), id_key))[k] < split_lines(
            bytes,
        ).len(),
        line_bytes(kept_lines(index, text_lines(bytes), id_key)[k]) == split_lines(
            bytes,
        )[kept_positions(index, identifiers(text_lines(bytes), id_key))[k]].push(10u8),
{
    let lines = text_lines(bytes);
    let ids = identifiers(lines, id_key);
    lemma_kept_lines(index, lines, id_key);
    lemma_kept_positions(index, ids);
    let position = kept_positions(index, ids)[k];
    assert(0 <= position < ids.len());
    assert(lines[position] == Some(kept_lines(index, lines, id_key)[k]));
    lemma_line_unchanged(split_lines(bytes)[position]);
}

} // verus!
