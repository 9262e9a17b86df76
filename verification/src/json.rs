//! Reading single fields of JSON documents (manifests, `docker compose ps`
//! lines) through `serde_json`.
use vstd::prelude::*;

verus! {

/// What a JSON document holds under a top-level key.
#[derive(Debug)]
pub enum JsonField {
    /// The text is not a JSON document.
    Invalid,
    /// The document is not an object with that key.
    Missing,
    /// The key holds a string.
    Text(String),
    /// The key holds something other than a string.
    Other,
}

/// `JsonField` as plain values.
pub enum JsonFieldView {
    Invalid,
    Missing,
    Text(Seq<char>),
    Other,
}

/// The view of a field reading.
pub open spec fn field_view(f: JsonField) -> JsonFieldView {
    match f {
        JsonField::Invalid => JsonFieldView::Invalid,
        JsonField::Missing => JsonFieldView::Missing,
        JsonField::Text(s) => JsonFieldView::Text(s@),
        JsonField::Other => JsonFieldView::Other,
    }
}

/// What `serde_json` reads under `key` from the document `text`: `Invalid`
/// when `serde_json::from_str::<Value>` rejects the text, else what
/// `Value::get(key)` and `Value::as_str` give.
pub uninterp spec fn json_field_of(text: Seq<char>, key: Seq<char>) -> JsonFieldView;

/// Reads the top-level field `key` of the JSON document `text` with
/// `serde_json::from_str::<serde_json::Value>`, `Value::get` and `Value::as_str`.
/// The contract only names the outcome (`json_field_of`); which texts
/// `serde_json` accepts is not restated here.
#[verifier::external_body]
pub(crate) fn json_field(text: &str, key: &str) -> (r: JsonField)
    ensures
        field_view(r) == json_field_of(text@, key@),
{
    match serde_json::from_str::<serde_json::Value>(text) {
        Err(_) => JsonField::Invalid,
        Ok(value) => match value.get(key) {
            None => JsonField::Missing,
            Some(v) => match v.as_str() {
                Some(s) => JsonField::Text(s.to_string()),
                None => JsonField::Other,
            },
        },
    }
}

/// The string under `key`, if the document is valid and holds a string there.
pub open spec fn json_text_of(text: Seq<char>, key: Seq<char>) -> Option<Seq<char>> {
    match json_field_of(text, key) {
        JsonFieldView::Text(s) => Some(s),
        _ => None,
    }
}

/// The string under `key` of a JSON document, if there is one.
pub fn json_text(text: &str, key: &str) -> (r: Option<String>)
    ensures
        match json_text_of(text@, key@) {
            Some(s) => r matches Some(x) && x@ == s,
            None => r is None,
        },
{
    match json_field(text, key) {
        JsonField::Text(s) => Some(s),
        _ => None,
    }
}

} // verus!
