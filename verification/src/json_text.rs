use vstd::prelude::*;
use crate::json::{Json, JVal};

verus! {

// JSON text: reading it and writing it go through serde_json.

#[verifier::external_type_specification]
#[verifier::external_body]
pub struct ExJsonValue(serde_json::Value);

/// What `serde_json::from_str::<serde_json::Value>` makes of a text, as a value of the library
/// (numbers as their text, object members in the order the map walks them), or the text of
/// its error. It depends on the text alone.
pub uninterp spec fn json_parsed(text: Seq<char>) -> Result<JVal, Seq<char>>;

/// What `serde_json::to_string_pretty` writes for a value (numbers written from their text,
/// a text that is no number written as `null`; of two members with one key, the later), or
/// the text of its error. It depends on the value alone.
pub uninterp spec fn json_pretty(v: JVal) -> Result<Seq<char>, Seq<char>>;

/// What `serde_json::Value`'s `Display` writes for a value (the compact form), with numbers
/// and members taken as for `json_pretty`. It depends on the value alone.
pub uninterp spec fn json_compact(v: JVal) -> Seq<char>;

/// The view of a parse result.
pub open spec fn parsed_view(r: Result<Json, String>) -> Result<JVal, Seq<char>> {
    match r {
        Ok(j) => Ok(j@),
        Err(e) => Err(e@),
    }
}

/// `serde_json::Value` as a `Json`, variant by variant.
#[verifier::external_body]
fn value_to_json(v: serde_json::Value) -> Json {
    match v {
        serde_json::Value::Null => Json::Null,
        serde_json::Value::Bool(b) => Json::Bool(b),
        serde_json::Value::Number(n) => Json::Num(n.to_string()),
        serde_json::Value::String(s) => Json::Str(s),
        serde_json::Value::Array(a) => Json::Arr(a.into_iter().map(value_to_json).collect()),
        serde_json::Value::Object(m) => Json::Obj(
            m.into_iter().map(|(k, x)| (k, value_to_json(x))).collect(),
        ),
    }
}

/// A `Json` as a `serde_json::Value`, variant by variant.
#[verifier::external_body]
fn json_to_value(j: &Json) -> serde_json::Value {
    match j {
        Json::Null => serde_json::Value::Null,
        Json::Bool(b) => serde_json::Value::Bool(*b),
        Json::Num(s) => match s.parse::<serde_json::Number>() {
            Ok(n) => serde_json::Value::Number(n),
            Err(_) => serde_json::Value::Null,
        },
        Json::Str(s) => serde_json::Value::String(s.clone()),
        Json::Arr(a) => serde_json::Value::Array(a.iter().map(json_to_value).collect()),
        Json::Obj(e) => serde_json::Value::Object(
            e.iter().map(|(k, x)| (k.clone(), json_to_value(x))).collect(),
        ),
    }
}

/// `serde_json::from_str` into a `serde_json::Value`, converted to a `Json`; the error as
/// its message. Its contract names the result.
#[verifier::external_body]
pub(crate) fn parse_json(text: &str) -> (r: Result<Json, String>)
    ensures
        parsed_view(r) == json_parsed(text@),
{
    match serde_json::from_str::<serde_json::Value>(text) {
        Ok(v) => Ok(value_to_json(v)),
        Err(e) => Err(e.to_string()),
    }
}

/// `serde_json::to_string_pretty` of the value as a `serde_json::Value`; the error as its
/// message. Its contract names the result.
#[verifier::external_body]
pub(crate) fn pretty_text(j: &Json) -> (r: Result<String, String>)
    ensures
        match r {
            Ok(t) => json_pretty(j@) == Ok::<Seq<char>, Seq<char>>(t@),
            Err(e) => json_pretty(j@) == Err::<Seq<char>, Seq<char>>(e@),
        },
{
    serde_json::to_string_pretty(&json_to_value(j)).map_err(|e| e.to_string())
}

/// `Display` of the value as a `serde_json::Value`. Its contract names the result.
#[verifier::external_body]
pub(crate) fn compact_text(j: &Json) -> (r: String)
    ensures
        r@ == json_compact(j@),
{
    json_to_value(j).to_string()
}

} // verus!
