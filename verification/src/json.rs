//! Reading JSON lines through `serde_json`.
//!
//! A parsed line is a `serde_json::Value`, which the verifier carries as an
//! opaque value. `JsonView` is the mathematical value that it stands for, and
//! the contracts of the calls into `serde_json` are stated over it. The
//! functions at the bottom of the file are verified against those contracts.

use vstd::prelude::*;
use vstd::string::*;

verus! {

/// `serde_json::Value`, carried as an opaque value.
#[verifier::external_type_specification]
#[verifier::external_body]
pub struct ExValue(serde_json::Value);

/// A JSON value as a mathematical value. What number a number is, is not
/// modelled: nothing here reads it.
pub enum JsonView {
    Null,
    Bool(bool),
    Number,
    Text(Seq<char>),
    Array(Seq<JsonView>),
    Object(Map<Seq<char>, JsonView>),
}

/// The JSON value that a `serde_json::Value` holds.
pub uninterp spec fn json_view(value: serde_json::Value) -> JsonView;

/// The JSON value that `serde_json::from_str` reads from a text, `None`
/// where it rejects the text.
pub uninterp spec fn json_parse(text: Seq<char>) -> Option<JsonView>;

/// The JSON values that a list of `serde_json::Value` holds.
pub open spec fn json_views(values: Seq<serde_json::Value>) -> Seq<JsonView> {
    values.map_values(|value: serde_json::Value| json_view(value))
}

/// The member of an object under a key: none where the value is no object or
/// the object has no such key.
pub open spec fn member_of(json: JsonView, key: Seq<char>) -> Option<JsonView> {
    match json {
        JsonView::Object(members) => if members.contains_key(key) {
            Some(members[key])
        } else {
            None
        },
        _ => None,
    }
}

/// The text of a string: none for every other kind of value.
pub open spec fn text_of(json: JsonView) -> Option<Seq<char>> {
    match json {
        JsonView::Text(text) => Some(text),
        _ => None,
    }
}

/// The items of an array: none for every other kind of value.
pub open spec fn items_of(json: JsonView) -> Option<Seq<JsonView>> {
    match json {
        JsonView::Array(items) => Some(items),
        _ => None,
    }
}

/// The text under `key`, where `json` is an object whose member under `key`
/// is a string.
pub open spec fn text_member(json: JsonView, key: Seq<char>) -> Option<Seq<char>> {
    match member_of(json, key) {
        Some(found) => text_of(found),
        None => None,
    }
}

/// The texts of those of `items` that are strings, in their order.
pub open spec fn texts_among(items: Seq<JsonView>) -> Seq<Seq<char>>
    decreases items.len(),
{
    if items.len() == 0 {
        Seq::empty()
    } else {
        match text_of(items.last()) {
            Some(found) => texts_among(items.drop_last()).push(found),
            None => texts_among(items.drop_last()),
        }
    }
}

/// The strings of the array under `key`, where `json` is an object whose
/// member under `key` is an array. Items that are no strings are left out.
pub open spec fn text_list_member(json: JsonView, key: Seq<char>) -> Option<Seq<Seq<char>>> {
    match member_of(json, key) {
        Some(found) => match items_of(found) {
            Some(items) => Some(texts_among(items)),
            None => None,
        },
        None => None,
    }
}

/// Calls `serde_json::from_str` for a `Value`. Trusted: whether the text is
/// accepted, and the JSON value read from it, depend on the text alone; they
/// are named `json_parse`.
#[verifier::external_body]
pub(crate) fn parse_value(text: &str) -> (r: Option<serde_json::Value>)
    ensures
        match r {
            Some(value) => json_parse(text@) == Some(json_view(value)),
            None => json_parse(text@) is None,
        },
{
    serde_json::from_str::<serde_json::Value>(text).ok()
}

/// Calls `serde_json::Value::get` with a string key. Trusted: it returns the
/// member under the key where the value is an object that has the key, and
/// `None` otherwise.
#[verifier::external_body]
pub(crate) fn member<'a>(value: &'a serde_json::Value, key: &str) -> (r: Option<
    &'a serde_json::Value,
>)
    ensures
        match r {
            Some(found) => member_of(json_view(*value), key@) == Some(json_view(*found)),
            None => member_of(json_view(*value), key@) is None,
        },
{
    value.get(key)
}

/// Calls `serde_json::Value::as_str`. Trusted: it returns the text where the
/// value is a string, and `None` otherwise.
#[verifier::external_body]
pub(crate) fn text<'a>(value: &'a serde_json::Value) -> (r: Option<&'a str>)
    ensures
        match r {
            Some(found) => text_of(json_view(*value)) == Some(found@),
            None => text_of(json_view(*value)) is None,
        },
{
    value.as_str()
}

/// Calls `serde_json::Value::as_array`. Trusted: it returns the items, in
/// their order, where the value is an array, and `None` otherwise.
#[verifier::external_body]
pub(crate) fn items<'a>(value: &'a serde_json::Value) -> (r: Option<&'a Vec<serde_json::Value>>)
    ensures
        match r {
            Some(found) => items_of(json_view(*value)) == Some(json_views(found@)),
            None => items_of(json_view(*value)) is None,
        },
{
    value.as_array()
}

/// Reads the string under `key`.
pub fn string_field(value: &serde_json::Value, key: &str) -> (r: Option<String>)
    ensures
        r.deep_view() == text_member(json_view(*value), key@),
{
    match member(value, key) {
        Some(found) => match text(found) {
            Some(s) => Some(String::from_str(s)),
            None => None,
        },
        None => None,
    }
}

/// Reads the strings of the array under `key`, skipping what is no string.
pub fn string_list_field(value: &serde_json::Value, key: &str) -> (r: Option<Vec<String>>)
    ensures
        r.deep_view() == text_list_member(json_view(*value), key@),
{
    match member(value, key) {
        Some(found) => match items(found) {
            Some(list) => {
                let ghost views = json_views(list@);
                let mut out: Vec<String> = Vec::new();
                let mut i: usize = 0;
                while i < list.len()
                    invariant
                        i <= list.len(),
                        views == json_views(list@),
                        out.deep_view() == texts_among(views.take(i as int)),
                    decreases list.len() - i,
                {
                    proof {
                        assert(views.take(i + 1).drop_last() == views.take(i as int));
                    }
                    match text(&list[i]) {
                        Some(s) => {
                            out.push(String::from_str(s));
                        },
                        None => {},
                    }
                    i += 1;
                }
                proof {
                    assert(views.take(list.len() as int) == views);
                }
                Some(out)
            },
            None => None,
        },
        None => None,
    }
}

} // verus!
