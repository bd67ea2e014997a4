//! JSON documents as the logic reads them, and reading one with `serde_json`.

use vstd::prelude::*;

verus! {

#[verifier::external_type_specification]
#[verifier::external_body]
pub struct ExSerdeJsonValue(serde_json::Value);

/// A JSON value. A number is held as the text `serde_json` writes for it, with whether
/// `serde_json` holds it as an `i64` and as a `u64` (`Number::is_i64`, `Number::is_u64`);
/// an object's members keep the order in which `serde_json` yields them.
pub enum JsonValue {
    Null,
    Bool(bool),
    Number { text: String, is_i64: bool, is_u64: bool },
    Str(String),
    Array(Vec<JsonValue>),
    Object(Vec<(String, JsonValue)>),
}

/// What `serde_json::from_str::<serde_json::Value>` reads from a text, copied into a
/// `JsonValue`, or nothing where the text is not JSON.
pub uninterp spec fn parsed_json(text: Seq<char>) -> Option<JsonValue>;

/// A copy of a `serde_json::Value` as a `JsonValue`: each variant to the same variant,
/// a number to its `Display` text, `is_i64` and `is_u64`, arrays and objects member by member in
/// the order `serde_json` yields them.
#[verifier::external_body]
fn copy_serde_value(v: &serde_json::Value) -> JsonValue {
    match v {
        serde_json::Value::Null => JsonValue::Null,
        serde_json::Value::Bool(b) => JsonValue::Bool(*b),
        serde_json::Value::Number(n) => JsonValue::Number { text: n.to_string(), is_i64: n.is_i64(), is_u64: n.is_u64() },
        serde_json::Value::String(s) => JsonValue::Str(s.clone()),
        serde_json::Value::Array(a) => JsonValue::Array(a.iter().map(copy_serde_value).collect()),
        serde_json::Value::Object(m) => JsonValue::Object(
            m.iter().map(|(k, x)| (k.clone(), copy_serde_value(x))).collect(),
        ),
    }
}

/// `serde_json::from_str::<serde_json::Value>` on `text`, copied into a `JsonValue`;
/// `None` where `serde_json` refuses the text. The result is named by `parsed_json`: it
/// depends on the text alone.
#[verifier::external_body]
pub(crate) fn parse_json(text: &str) -> (r: Option<JsonValue>)
    ensures
        r == parsed_json(text@),
{
    match serde_json::from_str::<serde_json::Value>(text) {
        Ok(v) => Some(copy_serde_value(&v)),
        Err(_) => None,
    }
}

} // verus!
