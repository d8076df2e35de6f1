//! JSON, read and written by `serde_json`, held as plain values.
use serde_json::Value;
use vstd::prelude::*;

verus! {

/// A member value of a JSON object, as far as records read it: scalars kept,
/// numbers and nested arrays or objects as serde_json writes them.
pub enum JsonField {
    Null,
    Bool(bool),
    Number(String),
    Text(String),
    Nested(String),
}

/// A JSON value read from one line: an object with its members in serde_json's
/// order, or any other value; either way with its compact JSON text.
pub enum JsonValue {
    Object { entries: Vec<(String, JsonField)>, text: String },
    Other { text: String },
}

/// What serde_json's `from_str::<Value>` reads from a line (as above), or the
/// text of the error it reports.
pub uninterp spec fn json_parse(line: Seq<char>) -> Result<JsonValue, Seq<char>>;

/// What serde_json's `to_string` gives for a string-to-string map with these
/// entries, or the text of the error it reports.
pub uninterp spec fn json_map_text(entries: Seq<(Seq<char>, Seq<char>)>) -> Result<Seq<char>, Seq<char>>;

/// Views of string pairs.
pub open spec fn pairs_view(p: Seq<(String, String)>) -> Seq<(Seq<char>, Seq<char>)> {
    p.map_values(|e: (String, String)| (e.0@, e.1@))
}

/// Reads one line as a JSON value with `serde_json::from_str`.
#[verifier::external_body]
pub(crate) fn parse_json_line(line: &str) -> (r: Result<JsonValue, String>)
    ensures
        match r {
            Ok(v) => json_parse(line@) == Ok::<JsonValue, Seq<char>>(v),
            Err(m) => json_parse(line@) == Err::<JsonValue, Seq<char>>(m@),
        },
{
    let value: Value = serde_json::from_str(line).map_err(|error| error.to_string())?;
    let text = value.to_string();
    Ok(match value {
        Value::Object(map) => JsonValue::Object { text, entries: map.into_iter().map(|(key, field)| (key, match field {
            Value::Null => JsonField::Null,
            Value::Bool(b) => JsonField::Bool(b),
            Value::Number(n) => JsonField::Number(n.to_string()),
            Value::String(s) => JsonField::Text(s),
            nested => JsonField::Nested(nested.to_string()),
        })).collect() },
        _ => JsonValue::Other { text },
    })
}

/// Writes a string-to-string map as a JSON object with `serde_json::to_string`
/// (the map built from the pairs as a `BTreeMap`).
#[verifier::external_body]
pub(crate) fn json_object_text(pairs: &Vec<(String, String)>) -> (r: Result<String, String>)
    ensures
        match r {
            Ok(t) => json_map_text(pairs_view(pairs@)) == Ok::<Seq<char>, Seq<char>>(t@),
            Err(m) => json_map_text(pairs_view(pairs@)) == Err::<Seq<char>, Seq<char>>(m@),
        },
{
    let map: std::collections::BTreeMap<&str, &str> = pairs.iter().map(|(k, v)| (k.as_str(), v.as_str())).collect();
    serde_json::to_string(&map).map_err(|error| error.to_string())
}

} // verus!
