//! Typed access to the fields of a JSON document. Absence of a field and a
//! field of the wrong shape are both failures; nothing is defaulted.
//!
//! Contracts speak of a document by its mathematical value, a [`Json`].

use crate::error::{Error, ErrorView, FieldShape};
use vstd::prelude::*;

verus! {

#[verifier::external_type_specification]
#[verifier::external_body]
pub struct ExValue(serde_json::Value);

#[verifier::external_type_specification]
#[verifier::external_body]
#[verifier::reject_recursive_types(K)]
#[verifier::reject_recursive_types(V)]
pub struct ExMap<K, V>(serde_json::Map<K, V>);

pub type JsonValue = serde_json::Value;

pub type JsonObject = serde_json::Map<String, serde_json::Value>;

/// A JSON document as a mathematical value.
pub enum Json {
    Null,
    Bool(bool),
    /// A number, by the text that is written for it.
    Number(Seq<char>),
    Text(Seq<char>),
    Array(Seq<Json>),
    /// An object, by its entries in the order in which its map walks them.
    Object(Seq<(Seq<char>, Json)>),
}

/// What a `serde_json::Value` holds: null, a boolean, a number, the text of
/// a string, what each element of an array holds, or the entries of an
/// object. The contracts of the calls into `serde_json` below say how each
/// call reads it, and nothing else is claimed of it.
pub uninterp spec fn json_view(value: JsonValue) -> Json;

/// What a `serde_json::Map` from strings to values holds: for each entry
/// its key and what its value holds, in the order in which the map walks
/// its entries.
pub uninterp spec fn object_entries(object: JsonObject) -> Seq<(Seq<char>, Json)>;

/// The text that `serde_json::to_string_pretty` renders for a value that
/// holds `value`.
pub uninterp spec fn pretty_text(value: Json) -> Seq<char>;

/// The text that the `Debug` formatting of a `serde_json::Map` renders for
/// a map that holds `entries`.
pub uninterp spec fn debug_text(entries: Seq<(Seq<char>, Json)>) -> Seq<char>;

/// What each of a list of values holds.
pub open spec fn json_views(values: Seq<JsonValue>) -> Seq<Json> {
    values.map_values(|value: JsonValue| json_view(value))
}

/// The value of the first entry from position `from` on that has the key
/// `key`, if there is such an entry.
pub open spec fn entry_under(entries: Seq<(Seq<char>, Json)>, key: Seq<char>, from: int) -> Option<
    Json,
>
    decreases entries.len() - from,
{
    if from < 0 || from >= entries.len() {
        None
    } else if entries[from].0 == key {
        Some(entries[from].1)
    } else {
        entry_under(entries, key, from + 1)
    }
}

/// The member of an object under `key`; nothing if the value is no object
/// or has no such member.
pub open spec fn member(value: Json, key: Seq<char>) -> Option<Json> {
    match value {
        Json::Object(entries) => entry_under(entries, key, 0),
        _ => None,
    }
}

/// Calls `serde_json::Value::get` with a string key: the member of an object
/// under that key, and nothing for a value that is no object or has no such
/// member.
#[verifier::external_body]
fn value_get<'a>(value: &'a JsonValue, key: &str) -> (found: Option<&'a JsonValue>)
    ensures
        member(json_view(*value), key@) == match found {
            Some(under) => Some(json_view(*under)),
            None => None,
        },
{
    value.get(key)
}

/// Calls `serde_json::Value::as_array`: the elements of an array, and
/// nothing for any other value.
#[verifier::external_body]
fn value_as_array<'a>(value: &'a JsonValue) -> (found: Option<&'a Vec<JsonValue>>)
    ensures
        match found {
            Some(elements) => json_view(*value) == Json::Array(json_views(elements@)),
            None => !(json_view(*value) is Array),
        },
{
    value.as_array()
}

/// Calls `serde_json::Value::as_str`: the text of a string, and nothing for
/// any other value.
#[verifier::external_body]
pub(crate) fn value_as_str<'a>(value: &'a JsonValue) -> (found: Option<&'a str>)
    ensures
        match found {
            Some(text) => json_view(*value) == Json::Text(text@),
            None => !(json_view(*value) is Text),
        },
{
    value.as_str()
}

/// Calls `serde_json::Value::as_object`: the map of an object, and nothing
/// for any other value.
#[verifier::external_body]
fn value_as_object<'a>(value: &'a JsonValue) -> (found: Option<&'a JsonObject>)
    ensures
        match found {
            Some(object) => json_view(*value) == Json::Object(object_entries(*object)),
            None => !(json_view(*value) is Object),
        },
{
    value.as_object()
}

/// Calls `serde_json::Map::get` with a string key: the value of the entry
/// with that key, if there is one.
#[verifier::external_body]
fn object_get<'a>(object: &'a JsonObject, key: &str) -> (found: Option<&'a JsonValue>)
    ensures
        entry_under(object_entries(*object), key@, 0) == match found {
            Some(under) => Some(json_view(*under)),
            None => None,
        },
{
    object.get(key)
}

/// Renders a value with `serde_json::to_string_pretty`, and as the empty text
/// should rendering fail. The contract names the text [`pretty_text`].
#[verifier::external_body]
pub(crate) fn to_string_pretty(value: &JsonValue) -> (text: String)
    ensures
        text@ == pretty_text(json_view(*value)),
{
    serde_json::to_string_pretty(value).unwrap_or(String::new())
}

/// Renders an object with the `Debug` formatting of `serde_json::Map`. The
/// contract names the text [`debug_text`].
#[verifier::external_body]
fn object_to_string(object: &JsonObject) -> (text: String)
    ensures
        text@ == debug_text(object_entries(*object)),
{
    format!("{:?}", object)
}

/// The schema violation reported when `entry` is not found in `value` with
/// the shape `expected`.
pub open spec fn missing_in_value(entry: Seq<char>, expected: FieldShape, value: Json) -> ErrorView {
    ErrorView::SchemaViolation { field: entry, expected, snippet: pretty_text(value) }
}

/// The schema violation reported for an entry of a list of strings that is
/// no string.
pub open spec fn not_text(field: Seq<char>, entry: Json) -> ErrorView {
    ErrorView::SchemaViolation { field, expected: FieldShape::Text, snippet: pretty_text(entry) }
}

/// The array stored under `entry` in `value`, or the schema violation.
pub open spec fn array_field(entry: Seq<char>, value: Json) -> Result<Seq<Json>, ErrorView> {
    match member(value, entry) {
        Some(Json::Array(elements)) => Ok(elements),
        _ => Err(missing_in_value(entry, FieldShape::Array, value)),
    }
}

/// The text stored under `entry` in `value`, or the schema violation.
pub open spec fn text_field(entry: Seq<char>, value: Json) -> Result<Seq<char>, ErrorView> {
    match member(value, entry) {
        Some(Json::Text(text)) => Ok(text),
        _ => Err(missing_in_value(entry, FieldShape::Text, value)),
    }
}

/// The entries of the object stored under `entry` in `value`, or the schema
/// violation.
pub open spec fn object_field(entry: Seq<char>, value: Json) -> Result<
    Seq<(Seq<char>, Json)>,
    ErrorView,
> {
    match member(value, entry) {
        Some(Json::Object(entries)) => Ok(entries),
        _ => Err(missing_in_value(entry, FieldShape::Object, value)),
    }
}

/// The array stored under `entry` among the entries of an object, or the
/// schema violation.
pub open spec fn array_entry(entry: Seq<char>, entries: Seq<(Seq<char>, Json)>) -> Result<
    Seq<Json>,
    ErrorView,
> {
    match entry_under(entries, entry, 0) {
        Some(Json::Array(elements)) => Ok(elements),
        _ => Err(
            ErrorView::SchemaViolation {
                field: entry,
                expected: FieldShape::Array,
                snippet: debug_text(entries),
            },
        ),
    }
}

fn schema_violation(entry: &str, expected: FieldShape, value: &JsonValue) -> (error: Error)
    ensures
        error@ == missing_in_value(entry@, expected, json_view(*value)),
{
    Error::SchemaViolation {
        field: entry.to_owned(),
        expected,
        snippet: to_string_pretty(value),
    }
}

/// Reads the array stored under `entry` in `value`.
pub fn as_array_from_value<'a>(entry: &str, value: &'a JsonValue) -> (found: Result<
    &'a Vec<JsonValue>,
    Error,
>)
    ensures
        match array_field(entry@, json_view(*value)) {
            Ok(elements) => found is Ok && json_views(found->Ok_0@) == elements,
            Err(violation) => found is Err && found->Err_0@ == violation,
        },
{
    match value_get(value, entry) {
        Some(under) => match value_as_array(under) {
            Some(elements) => Ok(elements),
            None => Err(schema_violation(entry, FieldShape::Array, value)),
        },
        None => Err(schema_violation(entry, FieldShape::Array, value)),
    }
}

/// Reads the text stored under `entry` in `value`.
pub fn as_str_from_value<'a>(entry: &str, value: &'a JsonValue) -> (found: Result<&'a str, Error>)
    ensures
        match text_field(entry@, json_view(*value)) {
            Ok(text) => found is Ok && found->Ok_0@ == text,
            Err(violation) => found is Err && found->Err_0@ == violation,
        },
{
    match value_get(value, entry) {
        Some(under) => match value_as_str(under) {
            Some(text) => Ok(text),
            None => Err(schema_violation(entry, FieldShape::Text, value)),
        },
        None => Err(schema_violation(entry, FieldShape::Text, value)),
    }
}

/// Reads the object stored under `entry` in `value`.
pub fn as_object_from_value<'a>(entry: &str, value: &'a JsonValue) -> (found: Result<
    &'a JsonObject,
    Error,
>)
    ensures
        match object_field(entry@, json_view(*value)) {
            Ok(entries) => found is Ok && object_entries(*found->Ok_0) == entries,
            Err(violation) => found is Err && found->Err_0@ == violation,
        },
{
    match value_get(value, entry) {
        Some(under) => match value_as_object(under) {
            Some(object) => Ok(object),
            None => Err(schema_violation(entry, FieldShape::Object, value)),
        },
        None => Err(schema_violation(entry, FieldShape::Object, value)),
    }
}

/// Reads the array stored under `entry` in `object`.
pub fn as_array_from_object<'a>(entry: &str, object: &'a JsonObject) -> (found: Result<
    &'a Vec<JsonValue>,
    Error,
>)
    ensures
        match array_entry(entry@, object_entries(*object)) {
            Ok(elements) => found is Ok && json_views(found->Ok_0@) == elements,
            Err(violation) => found is Err && found->Err_0@ == violation,
        },
{
    let found = match object_get(object, entry) {
        Some(under) => value_as_array(under),
        None => None,
    };
    match found {
        Some(elements) => Ok(elements),
        None => Err(
            Error::SchemaViolation {
                field: entry.to_owned(),
                expected: FieldShape::Array,
                snippet: object_to_string(object),
            },
        ),
    }
}

} // verus!
