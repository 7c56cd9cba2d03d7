//! The records that the two kinds of input line hold.

use vstd::prelude::*;
use crate::json::{
    json_parse, json_view, parse_value, string_field, string_list_field, text_list_member,
    text_member, JsonView,
};

verus! {

/// One entry of the filter file: the identifier that data records are matched
/// against, and what is kept of the entry for exclusion and for the record
/// written when nothing matched it.
#[derive(Debug, PartialEq, Eq)]
pub struct FilterFormat {
    pub id: String,
    /// `None` where the line has no category array.
    pub category: Option<Vec<String>>,
    /// `None` where the line has no display name.
    pub name: Option<String>,
}

/// A filter entry as a mathematical value.
pub struct FilterFormatView {
    pub id: Seq<char>,
    pub category: Option<Seq<Seq<char>>>,
    pub name: Option<Seq<char>>,
}

impl View for FilterFormat {
    type V = FilterFormatView;

    open spec fn view(&self) -> FilterFormatView {
        FilterFormatView {
            id: self.id@,
            category: self.category.deep_view(),
            name: self.name.deep_view(),
        }
    }
}

impl DeepView for FilterFormat {
    type V = FilterFormatView;

    open spec fn deep_view(&self) -> FilterFormatView {
        self@
    }
}

/// One record of a data file. Only its identifier is read.
#[derive(Debug, PartialEq, Eq)]
pub struct BabelFormat {
    pub curie: String,
}

impl View for BabelFormat {
    type V = Seq<char>;

    open spec fn view(&self) -> Seq<char> {
        self.curie@
    }
}

impl DeepView for BabelFormat {
    type V = Seq<char>;

    open spec fn deep_view(&self) -> Seq<char> {
        self@
    }
}

/// The key under which a filter-file line holds its display name.
pub open spec fn name_key() -> Seq<char> {
    "name"@
}

/// The filter entry that a JSON value holds: none unless it is an object
/// whose member under `id_key` is a string; the categories are the strings of
/// the array under `category_key`, the name is the string under `name`.
pub open spec fn filter_entry_of(
    value: JsonView,
    id_key: Seq<char>,
    category_key: Seq<char>,
) -> Option<FilterFormatView> {
    match text_member(value, id_key) {
        Some(id) => Some(
            FilterFormatView {
                id,
                category: text_list_member(value, category_key),
                name: text_member(value, name_key()),
            },
        ),
        None => None,
    }
}

/// The filter entry on a line of text: none where the line is no JSON or
/// holds no identifier.
pub open spec fn filter_entry(
    line: Seq<char>,
    id_key: Seq<char>,
    category_key: Seq<char>,
) -> Option<FilterFormatView> {
    match json_parse(line) {
        Some(value) => filter_entry_of(value, id_key, category_key),
        None => None,
    }
}

/// The identifier that a JSON value holds: the string under `id_key`.
pub open spec fn data_identifier_of(value: JsonView, id_key: Seq<char>) -> Option<Seq<char>> {
    text_member(value, id_key)
}

/// The identifier on a data line: none where the line is no JSON or has no
/// string under `id_key`.
pub open spec fn data_identifier(line: Seq<char>, id_key: Seq<char>) -> Option<Seq<char>> {
    match json_parse(line) {
        Some(value) => data_identifier_of(value, id_key),
        None => None,
    }
}

impl FilterFormat {
    /// Reads a filter entry out of a parsed line.
    pub fn from_value(value: &serde_json::Value, id_key: &str, category_key: &str) -> (r: Option<
        FilterFormat,
    >)
        ensures
            r.deep_view() == filter_entry_of(json_view(*value), id_key@, category_key@),
    {
        match string_field(value, id_key) {
            Some(id) => {
                let category = string_list_field(value, category_key);
                let name = string_field(value, "name");
                Some(FilterFormat { id, category, name })
            },
            None => None,
        }
    }

    /// Parses one line of the filter file. A line that is no JSON, or that has
    /// no string under `id_key`, gives `None`.
    pub fn parse(line: &str, id_key: &str, category_key: &str) -> (r: Option<FilterFormat>)
        ensures
            r.deep_view() == filter_entry(line@, id_key@, category_key@),
    {
        match parse_value(line) {
            Some(value) => FilterFormat::from_value(&value, id_key, category_key),
            None => None,
        }
    }
}

impl BabelFormat {
    /// Reads the identifier of a data record out of a parsed line.
    pub fn from_value(value: &serde_json::Value, id_key: &str) -> (r: Option<BabelFormat>)
        ensures
            r.deep_view() == data_identifier_of(json_view(*value), id_key@),
    {
        match string_field(value, id_key) {
            Some(curie) => Some(BabelFormat { curie }),
            None => None,
        }
    }

    /// Parses one line of a data file. A line that is no JSON, or that has no
    /// string under `id_key`, gives `None`.
    pub fn parse(line: &str, id_key: &str) -> (r: Option<BabelFormat>)
        ensures
            r.deep_view() == data_identifier(line@, id_key@),
    {
        match parse_value(line) {
            Some(value) => BabelFormat::from_value(&value, id_key),
            None => None,
        }
    }
}

} // verus!
