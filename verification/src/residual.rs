//! The residual emitter: one record for every filter entry that no data
//! record matched.

use vstd::prelude::*;
use vstd::string::*;
use crate::file::writer::{line_bytes, lines_bytes, Writer};
use crate::index::{is_listing, MembershipIndex};
use crate::render::{
    append_decimal, append_quoted, append_quoted_list, decimal, quoted, quoted_list,
};
use crate::types::{FilterFormat, FilterFormatView};

verus! {

/// The prefix that is taken off a category.
pub open spec fn category_prefix() -> Seq<char> {
    "biolink:"@
}

/// A category without the prefix, where it starts with it.
pub open spec fn without_prefix(category: Seq<char>) -> Seq<char> {
    if category_prefix().is_prefix_of(category) {
        category.skip(category_prefix().len() as int)
    } else {
        category
    }
}

/// The record written for a filter entry that nothing matched. It has the
/// shape of a data record.
#[derive(Debug, PartialEq, Eq)]
pub struct ResidualRecord {
    pub identifier: String,
    /// The entry's display name, as the only name.
    pub names: Vec<String>,
    /// The entry's categories, each without the prefix.
    pub types: Vec<String>,
    /// The number of characters of the display name.
    pub shortest_name_length: usize,
}

/// A residual record as a mathematical value.
pub struct ResidualRecordView {
    pub identifier: Seq<char>,
    pub names: Seq<Seq<char>>,
    pub types: Seq<Seq<char>>,
    pub shortest_name_length: nat,
}

impl View for ResidualRecord {
    type V = ResidualRecordView;

    open spec fn view(&self) -> ResidualRecordView {
        ResidualRecordView {
            identifier: self.identifier@,
            names: self.names.deep_view(),
            types: self.types.deep_view(),
            shortest_name_length: self.shortest_name_length as nat,
        }
    }
}

impl DeepView for ResidualRecord {
    type V = ResidualRecordView;

    open spec fn deep_view(&self) -> ResidualRecordView {
        self@
    }
}

/// The record for the entry under `id`: none unless the entry has both a
/// display name and categories.
pub open spec fn residual_of(id: Seq<char>, entry: FilterFormatView) -> Option<ResidualRecordView> {
    match (entry.name, entry.category) {
        (Some(name), Some(categories)) => Some(
            ResidualRecordView {
                identifier: id,
                names: seq![name],
                types: categories.map_values(|category: Seq<char>| without_prefix(category)),
                shortest_name_length: name.len(),
            },
        ),
        _ => None,
    }
}

/// The records for a list of entries, in the list's order.
pub open spec fn residuals_of(entries: Seq<(Seq<char>, FilterFormatView)>) -> Seq<
    ResidualRecordView,
>
    decreases entries.len(),
{
    if entries.len() == 0 {
        Seq::empty()
    } else {
        let before = residuals_of(entries.drop_last());
        match residual_of(entries.last().0, entries.last().1) {
            Some(record) => before.push(record),
            None => before,
        }
    }
}

/// The line written for a record: a JSON object with the identifier under
/// `id_key`, then `names`, `types`, `preferred_name` and
/// `shortest_name_length`.
pub open spec fn rendered(record: ResidualRecordView, id_key: Seq<char>) -> Seq<char> {
    "{"@ + quoted(id_key) + ":"@ + quoted(record.identifier) + ",\"names\":["@ + quoted_list(
        record.names,
    ) + "],\"types\":["@ + quoted_list(record.types) + "],\"preferred_name\":["@ + quoted_list(
        record.names,
    ) + "],\"shortest_name_length\":"@ + decimal(record.shortest_name_length) + "}"@
}

/// The lines written for some records, in their order.
pub open spec fn rendered_lines(records: Seq<ResidualRecordView>, id_key: Seq<char>) -> Seq<
    Seq<char>,
> {
    records.map_values(|record: ResidualRecordView| rendered(record, id_key))
}

/// Takes the prefix `biolink:` off a category that starts with it.
pub fn strip_category_prefix(category: &str) -> (r: String)
    ensures
        r@ == without_prefix(category@),
{
    proof {
        reveal_strlit("biolink:");
    }
    let n: usize = category.unicode_len();
    if n < 8 {
        return String::from_str(category);
    }
    let head = String::from_str(category.substring_char(0, 8));
    let prefix = String::from_str("biolink:");
    if head == prefix {
        String::from_str(category.substring_char(8, n))
    } else {
        String::from_str(category)
    }
}

impl ResidualRecord {
    /// Makes the record for the entry under `id`. An entry without a display
    /// name, or without categories, gives none.
    pub fn from_entry(id: &str, entry: &FilterFormat) -> (r: Option<ResidualRecord>)
        ensures
            r.deep_view() == residual_of(id@, entry@),
    {
        match (&entry.name, &entry.category) {
            (Some(name), Some(categories)) => {
                let mut types: Vec<String> = Vec::new();
                let mut i: usize = 0;
                while i < categories.len()
                    invariant
                        i <= categories.len(),
                        types.len() == i,
                        forall|k: int|
                            0 <= k < i ==> (#[trigger] types[k])@ == without_prefix(
                                categories[k]@,
                            ),
                    decreases categories.len() - i,
                {
                    types.push(strip_category_prefix(categories[i].as_str()));
                    i += 1;
                }
                let mut names: Vec<String> = Vec::new();
                names.push(name.clone());
                let record = ResidualRecord {
                    identifier: String::from_str(id),
                    names,
                    types,
                    shortest_name_length: name.as_str().unicode_len(),
                };
                proof {
                    let expected = residual_of(id@, entry@).unwrap();
                    assert(record@.names =~= expected.names);
                    assert(record@.types =~= expected.types);
                }
                Some(record)
            },
            _ => None,
        }
    }

    /// The line written for this record, with the identifier under `id_key`.
    pub fn render(&self, id_key: &str) -> (line: String)
        ensures
            line@ == rendered(self@, id_key@),
    {
        let mut line = String::from_str("{");
        append_quoted(&mut line, id_key);
        line.append(":");
        append_quoted(&mut line, self.identifier.as_str());
        line.append(",\"names\":[");
        append_quoted_list(&mut line, &self.names);
        line.append("],\"types\":[");
        append_quoted_list(&mut line, &self.types);
        line.append("],\"preferred_name\":[");
        append_quoted_list(&mut line, &self.names);
        line.append("],\"shortest_name_length\":");
        append_decimal(&mut line, self.shortest_name_length);
        line.append("}");
        line
    }
}

/// Makes the records for a list of entries, in the list's order. Entries
/// without a display name or without categories are passed over.
pub fn residual_records(entries: &Vec<(String, FilterFormat)>) -> (records: Vec<ResidualRecord>)
    ensures
        records.deep_view() == residuals_of(entries.deep_view()),
{
    let ghost listing = entries.deep_view();
    let mut records: Vec<ResidualRecord> = Vec::new();
    let mut i: usize = 0;
    while i < entries.len()
        invariant
            i <= entries.len(),
            listing == entries.deep_view(),
            records.deep_view() == residuals_of(listing.take(i as int)),
        decreases entries.len() - i,
    {
        proof {
            assert(listing.take(i + 1).drop_last() == listing.take(i as int));
        }
        match ResidualRecord::from_entry(entries[i].0.as_str(), &entries[i].1) {
            Some(record) => {
                records.push(record);
            },
            None => {},
        }
        i += 1;
    }
    proof {
        assert(listing.take(entries.len() as int) == listing);
    }
    records
}

/// Writes the records, one to a line, with the identifier under `id_key`.
pub fn write_records(records: &Vec<ResidualRecord>, writer: &mut Writer, id_key: &str)
    ensures
        final(writer)@ == old(writer)@ + lines_bytes(rendered_lines(records.deep_view(), id_key@)),
        final(writer).compressed() == old(writer).compressed(),
{
    let ghost lines = rendered_lines(records.deep_view(), id_key@);
    let mut i: usize = 0;
    while i < records.len()
        invariant
            i <= records.len(),
            lines == rendered_lines(records.deep_view(), id_key@),
            writer@ == old(writer)@ + lines_bytes(lines.take(i as int)),
            writer.compressed() == old(writer).compressed(),
        decreases records.len() - i,
    {
        let line = records[i].render(id_key);
        writer.write_line(line.as_str());
        proof {
            assert(lines.take(i + 1).drop_last() == lines.take(i as int));
        }
        i += 1;
    }
    proof {
        assert(lines.take(records.len() as int) == lines);
    }
}

/// Writes one record for every entry left in the index that has a display
/// name and categories, and returns how many were written. The entries come
/// in the order in which the index hands them out.
pub fn write_residual(index: MembershipIndex, writer: &mut Writer, id_key: &str) -> (written: usize)
    ensures
        exists|listing: Seq<(Seq<char>, FilterFormatView)>|
            #![trigger is_listing(listing, index@)]
            is_listing(listing, index@) && written == residuals_of(listing).len()
                && final(writer)@ == old(writer)@ + lines_bytes(
                rendered_lines(residuals_of(listing), id_key@),
            ),
        final(writer).compressed() == old(writer).compressed(),
{
    let entries = index.into_entries();
    let records = residual_records(&entries);
    write_records(&records, writer, id_key);
    records.len()
}

} // verus!
