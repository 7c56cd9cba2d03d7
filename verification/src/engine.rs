//! The filter engine: building the membership index from the filter file,
//! and passing the lines of a data file whose identifier the index holds.

use vstd::prelude::*;
use crate::config::Config;
use crate::file::reader::{lemma_text_lines, read_text, text_lines, Reader};
use crate::file::writer::{line_bytes, lines_bytes, Writer};
use crate::index::MembershipIndex;
use crate::types::{data_identifier, filter_entry, BabelFormat, FilterFormat, FilterFormatView};

verus! {

/// Whether two lists of strings share an item.
pub open spec fn intersects(a: Seq<Seq<char>>, b: Seq<Seq<char>>) -> bool {
    exists|i: int, j: int| 0 <= i < a.len() && 0 <= j < b.len() && a[i] == b[j]
}

/// Whether the exclusion set keeps a filter entry out of the index: one is
/// configured, and a category of the entry is in it.
pub open spec fn excluded(entry: FilterFormatView, exclusions: Option<Seq<Seq<char>>>) -> bool {
    match (exclusions, entry.category) {
        (Some(exclusions), Some(categories)) => intersects(categories, exclusions),
        _ => false,
    }
}

/// The index after one line of the filter file: an entry that is not
/// excluded stands under its identifier, in place of any earlier one.
pub open spec fn index_with(
    index: Map<Seq<char>, FilterFormatView>,
    entry: Option<FilterFormatView>,
    exclusions: Option<Seq<Seq<char>>>,
) -> Map<Seq<char>, FilterFormatView> {
    match entry {
        Some(entry) => if excluded(entry, exclusions) {
            index
        } else {
            index.insert(entry.id, entry)
        },
        None => index,
    }
}

/// The index built from the entries of a filter file, taken in their order.
pub open spec fn built_index(
    entries: Seq<Option<FilterFormatView>>,
    exclusions: Option<Seq<Seq<char>>>,
) -> Map<Seq<char>, FilterFormatView>
    decreases entries.len(),
{
    if entries.len() == 0 {
        Map::empty()
    } else {
        index_with(built_index(entries.drop_last(), exclusions), entries.last(), exclusions)
    }
}

/// The number of entries that the exclusion set kept out.
pub open spec fn excluded_count(
    entries: Seq<Option<FilterFormatView>>,
    exclusions: Option<Seq<Seq<char>>>,
) -> nat
    decreases entries.len(),
{
    if entries.len() == 0 {
        0
    } else {
        let before = excluded_count(entries.drop_last(), exclusions);
        match entries.last() {
            Some(entry) => if excluded(entry, exclusions) {
                before + 1
            } else {
                before
            },
            None => before,
        }
    }
}

/// The filter entry on each line of a filter file, `None` for a line that
/// holds none.
pub open spec fn filter_entries(
    lines: Seq<Option<Seq<char>>>,
    id_key: Seq<char>,
    category_key: Seq<char>,
) -> Seq<Option<FilterFormatView>> {
    lines.map_values(
        |line: Option<Seq<char>>|
            match line {
                Some(text) => filter_entry(text, id_key, category_key),
                None => None,
            },
    )
}

/// The identifier on each line of a data file, `None` for a line that holds
/// none.
pub open spec fn identifiers(lines: Seq<Option<Seq<char>>>, id_key: Seq<char>) -> Seq<
    Option<Seq<char>>,
> {
    lines.map_values(
        |line: Option<Seq<char>>|
            match line {
                Some(text) => data_identifier(text, id_key),
                None => None,
            },
    )
}

/// Whether a data line with this identifier is kept: it has one, and the
/// index holds it.
pub open spec fn is_match(index: Map<Seq<char>, FilterFormatView>, id: Option<Seq<char>>) -> bool {
    match id {
        Some(id) => index.contains_key(id),
        None => false,
    }
}

/// The index after a data line with this identifier: the entry it matched
/// has left.
pub open spec fn consume(index: Map<Seq<char>, FilterFormatView>, id: Option<Seq<char>>) -> Map<
    Seq<char>,
    FilterFormatView,
> {
    match id {
        Some(id) => index.remove(id),
        None => index,
    }
}

/// The index after data lines with these identifiers, taken in their order.
pub open spec fn index_after(
    index: Map<Seq<char>, FilterFormatView>,
    ids: Seq<Option<Seq<char>>>,
) -> Map<Seq<char>, FilterFormatView>
    decreases ids.len(),
{
    if ids.len() == 0 {
        index
    } else {
        consume(index_after(index, ids.drop_last()), ids.last())
    }
}

/// Whether the data line at position `i` is kept: its identifier is in the
/// index as the lines before it left it.
pub open spec fn kept_at(
    index: Map<Seq<char>, FilterFormatView>,
    ids: Seq<Option<Seq<char>>>,
    i: int,
) -> bool {
    is_match(index_after(index, ids.take(i)), ids[i])
}

/// The lines of a data file that are kept, in their order and as they stand
/// in the file.
pub open spec fn kept_lines(
    index: Map<Seq<char>, FilterFormatView>,
    lines: Seq<Option<Seq<char>>>,
    id_key: Seq<char>,
) -> Seq<Seq<char>>
    decreases lines.len(),
{
    if lines.len() == 0 {
        Seq::empty()
    } else {
        let before = kept_lines(index, lines.drop_last(), id_key);
        let index_then = index_after(index, identifiers(lines.drop_last(), id_key));
        match lines.last() {
            Some(text) => if is_match(index_then, data_identifier(text, id_key)) {
                before.push(text)
            } else {
                before
            },
            None => before,
        }
    }
}

/// The counts of one pass over a data file. They are for reports only.
#[derive(Clone, Copy, Debug, PartialEq, Eq)]
pub struct FileStats {
    pub lines_read: usize,
    pub lines_kept: usize,
}

/// Tells whether a category of `set` is in `exclude_set`. Strings are
/// compared as they stand.
pub fn has_excluded_category(set: &Vec<String>, exclude_set: &Vec<String>) -> (r: bool)
    ensures
        r == intersects(set.deep_view(), exclude_set.deep_view()),
{
    if exclude_set.is_empty() {
        return false;
    }
    let mut i: usize = 0;
    while i < set.len()
        invariant
            i <= set.len(),
            forall|a: int, b: int|
                0 <= a < i && 0 <= b < exclude_set.len() ==> set.deep_view()[a]
                    != exclude_set.deep_view()[b],
        decreases set.len() - i,
    {
        let mut j: usize = 0;
        while j < exclude_set.len()
            invariant
                i < set.len(),
                j <= exclude_set.len(),
                forall|b: int|
                    0 <= b < j ==> set.deep_view()[i as int] != exclude_set.deep_view()[b],
            decreases exclude_set.len() - j,
        {
            if set[i] == exclude_set[j] {
                assert(set.deep_view()[i as int] == exclude_set.deep_view()[j as int]);
                return true;
            }
            j += 1;
        }
        i += 1;
    }
    false
}

/// Tells whether the exclusion set keeps an entry out of the index.
pub fn is_excluded(entry: &FilterFormat, exclusions: &Option<Vec<String>>) -> (r: bool)
    ensures
        r == excluded(entry@, exclusions.deep_view()),
{
    match exclusions {
        Some(exclude_set) => match &entry.category {
            Some(categories) => has_excluded_category(categories, exclude_set),
            None => false,
        },
        None => false,
    }
}

impl MembershipIndex {
    /// Takes one filter entry into the index unless the exclusion set keeps it
    /// out. Returns whether the entry was taken.
    pub fn enter(&mut self, entry: FilterFormat, exclusions: &Option<Vec<String>>) -> (taken: bool)
        ensures
            taken == !excluded(entry@, exclusions.deep_view()),
            final(self)@ == index_with(old(self)@, Some(entry@), exclusions.deep_view()),
    {
        if is_excluded(&entry, exclusions) {
            false
        } else {
            self.insert(entry);
            true
        }
    }

    /// Passes one data record through the index: where the index holds the
    /// record's identifier, the entry leaves the index and the record is
    /// kept.
    pub fn take(&mut self, record: &Option<BabelFormat>) -> (kept: bool)
        ensures
            kept == is_match(old(self)@, record.deep_view()),
            final(self)@ == consume(old(self)@, record.deep_view()),
    {
        match record {
            Some(record) => self.remove(record.curie.as_str()).is_some(),
            None => false,
        }
    }

    /// Passes one line of a data file through the index. Returns whether the
    /// line is kept; a kept line is written out as it stands.
    pub fn take_line(&mut self, line: &str, id_key: &str) -> (kept: bool)
        ensures
            kept == is_match(old(self)@, data_identifier(line@, id_key@)),
            final(self)@ == consume(old(self)@, data_identifier(line@, id_key@)),
    {
        let record = BabelFormat::parse(line, id_key);
        self.take(&record)
    }
}

/// Builds the membership index from the lines of the filter file. A line that
/// is no text, no JSON, or has no identifier is passed over. Returns the index
/// and the number of entries that the exclusion set kept out.
pub fn build_index(reader: Reader, config: &Config) -> (r: (MembershipIndex, usize))
    ensures
        r.0@ == built_index(
            filter_entries(
                text_lines(reader@),
                config.filter_file_identifier@,
                config.filter_file_category_key@,
            ),
            config.exclude_category.deep_view(),
        ),
        r.1 == excluded_count(
            filter_entries(
                text_lines(reader@),
                config.filter_file_identifier@,
                config.filter_file_category_key@,
            ),
            config.exclude_category.deep_view(),
        ),
{
    let mut source = reader;
    let total: usize = source.remaining();
    let ghost all = text_lines(reader@);
    let ghost id_key = config.filter_file_identifier@;
    let ghost category_key = config.filter_file_category_key@;
    let ghost exclusions = config.exclude_category.deep_view();
    let ghost mut done: Seq<Option<Seq<char>>> = Seq::empty();
    let mut index = MembershipIndex::new();
    let mut removed: usize = 0;
    loop
        invariant
            id_key == config.filter_file_identifier@,
            category_key == config.filter_file_category_key@,
            exclusions == config.exclude_category.deep_view(),
            done + text_lines(source@) == all,
            removed + source@.len() <= total,
            index@ == built_index(filter_entries(done, id_key, category_key), exclusions),
            removed == excluded_count(filter_entries(done, id_key, category_key), exclusions),
        ensures
            done == all,
        decreases source@.len(),
    {
        let ghost before = source@;
        match source.next_line() {
            Some(line) => {
                proof {
                    lemma_text_lines(before);
                    let now = done.push(read_text(line));
                    assert(filter_entries(now, id_key, category_key).drop_last() == filter_entries(
                        done,
                        id_key,
                        category_key,
                    ));
                    done = now;
                }
                match line {
                    Ok(text) => {
                        match FilterFormat::parse(
                            text.as_str(),
                            config.filter_file_identifier.as_str(),
                            config.filter_file_category_key.as_str(),
                        ) {
                            Some(entry) => {
                                if !index.enter(entry, &config.exclude_category) {
                                    removed += 1;
                                }
                            },
                            None => {},
                        }
                    },
                    Err(_) => {},
                }
            },
            None => {
                break ;
            },
        }
    }
    (index, removed)
}

/// Filters one data file: every line whose identifier the index holds is
/// written to `writer` as it stands, and its entry leaves the index, so that
/// no later line, of this file or another, matches it again.
pub fn filter_file(
    index: &mut MembershipIndex,
    reader: Reader,
    writer: &mut Writer,
    id_key: &str,
) -> (stats: FileStats)
    ensures
        final(index)@ == index_after(old(index)@, identifiers(text_lines(reader@), id_key@)),
        final(writer)@ == old(writer)@ + lines_bytes(
            kept_lines(old(index)@, text_lines(reader@), id_key@),
        ),
        final(writer).compressed() == old(writer).compressed(),
        stats.lines_read == text_lines(reader@).len(),
        stats.lines_kept == kept_lines(old(index)@, text_lines(reader@), id_key@).len(),
        stats.lines_kept <= stats.lines_read,
{
    let mut source = reader;
    let total: usize = source.remaining();
    let ghost all = text_lines(reader@);
    let ghost mut done: Seq<Option<Seq<char>>> = Seq::empty();
    let mut read: usize = 0;
    let mut kept: usize = 0;
    loop
        invariant
            done + text_lines(source@) == all,
            read + source@.len() <= total,
            kept <= read,
            read == done.len(),
            index@ == index_after(old(index)@, identifiers(done, id_key@)),
            writer@ == old(writer)@ + lines_bytes(kept_lines(old(index)@, done, id_key@)),
            writer.compressed() == old(writer).compressed(),
            kept == kept_lines(old(index)@, done, id_key@).len(),
        ensures
            done == all,
        decreases source@.len(),
    {
        let ghost before = source@;
        match source.next_line() {
            Some(line) => {
                let ghost earlier = done;
                proof {
                    lemma_text_lines(before);
                    let now = done.push(read_text(line));
                    assert(now.drop_last() == done);
                    assert(identifiers(now, id_key@).drop_last() == identifiers(done, id_key@));
                    done = now;
                }
                read += 1;
                match line {
                    Ok(text) => {
                        if index.take_line(text.as_str(), id_key) {
                            let ghost passed = kept_lines(old(index)@, earlier, id_key@);
                            writer.write_line(text.as_str());
                            kept += 1;
                            proof {
                                assert(passed.push(text@).drop_last() == passed);
                            }
                        }
                    },
                    Err(_) => {},
                }
            },
            None => {
                break ;
            },
        }
    }
    FileStats { lines_read: read, lines_kept: kept }
}

} // verus!
