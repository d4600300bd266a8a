//! JSON documents, read by the `serde_json` crate.
use vstd::prelude::*;

verus! {

/// A JSON value, `serde_json::Value`.
#[verifier::external_type_specification]
#[verifier::external_body]
pub struct ExValue(serde_json::Value);

/// The result of a tool call, `rmcp::model::CallToolResult`.
#[verifier::external_type_specification]
#[verifier::external_body]
pub struct ExCallToolResult(rmcp::model::CallToolResult);

/// What `serde_json::from_str` makes of a text; nothing for a text that is no
/// JSON.
pub uninterp spec fn json_document(text: Seq<char>) -> Option<serde_json::Value>;

/// What `serde_json::Value::get` finds under a key.
pub uninterp spec fn json_member(value: serde_json::Value, key: Seq<char>) -> Option<
    serde_json::Value,
>;

/// What `serde_json::Value::as_str` says of a value.
pub uninterp spec fn json_text(value: serde_json::Value) -> Option<Seq<char>>;

/// What `serde_json::Value::as_u64` says of a value.
pub uninterp spec fn json_number(value: serde_json::Value) -> Option<u64>;

/// What `serde_json::from_value` makes of a value that is to be the result of a
/// tool call.
pub uninterp spec fn json_tool_result(value: serde_json::Value) -> Option<
    rmcp::model::CallToolResult,
>;

/// `serde_json::from_str`: the document, or nothing where the text is no JSON.
/// The outcome depends on the text alone.
#[verifier::external_body]
pub(crate) fn parse(text: &str) -> (r: Option<serde_json::Value>)
    ensures
        r == json_document(text@),
{
    serde_json::from_str(text).ok()
}

/// `serde_json::Value::get`: the member of an object with a key, or nothing
/// where there is none or the value is no object.
#[verifier::external_body]
pub(crate) fn member(value: &serde_json::Value, key: &str) -> (r: Option<serde_json::Value>)
    ensures
        r == json_member(*value, key@),
{
    value.get(key).cloned()
}

/// `serde_json::Value::as_str`: the text, where the value is one.
#[verifier::external_body]
pub(crate) fn as_text(value: &serde_json::Value) -> (r: Option<String>)
    ensures
        match r {
            Some(s) => json_text(*value) == Some(s@),
            None => json_text(*value) is None,
        },
{
    value.as_str().map(|s| s.to_string())
}

/// `serde_json::Value::as_u64`: the number, where the value is one from 0 on.
#[verifier::external_body]
pub(crate) fn as_number(value: &serde_json::Value) -> (r: Option<u64>)
    ensures
        r == json_number(*value),
{
    value.as_u64()
}

/// `serde_json::from_value`, for `rmcp::model::CallToolResult`: the result of a
/// tool call, or nothing where the value has another form. The outcome depends
/// on the value alone.
#[verifier::external_body]
pub(crate) fn as_tool_result(value: &serde_json::Value) -> (r: Option<rmcp::model::CallToolResult>)
    ensures
        r == json_tool_result(*value),
{
    serde_json::from_value(value.clone()).ok()
}

/// The text under a key.
pub open spec fn member_text(value: serde_json::Value, key: Seq<char>) -> Option<Seq<char>> {
    match json_member(value, key) {
        Some(v) => json_text(v),
        None => None,
    }
}

/// The number under a key.
pub open spec fn member_number(value: serde_json::Value, key: Seq<char>) -> Option<u64> {
    match json_member(value, key) {
        Some(v) => json_number(v),
        None => None,
    }
}

/// The text under a key.
pub fn text_at(value: &serde_json::Value, key: &str) -> (r: Option<String>)
    ensures
        match r {
            Some(s) => member_text(*value, key@) == Some(s@),
            None => member_text(*value, key@) is None,
        },
{
    match member(value, key) {
        Some(v) => as_text(&v),
        None => None,
    }
}

/// The number under a key.
pub fn number_at(value: &serde_json::Value, key: &str) -> (r: Option<u64>)
    ensures
        r == member_number(*value, key@),
{
    match member(value, key) {
        Some(v) => as_number(&v),
        None => None,
    }
}

/// What a member of a document holds is what its value holds; without the member
/// there is nothing.
pub proof fn law_members(value: serde_json::Value, key: Seq<char>)
    ensures
        json_member(value, key) is None ==> member_text(value, key) is None && member_number(
            value,
            key,
        ) is None,
        json_member(value, key) is Some ==> member_text(value, key) == json_text(
            json_member(value, key)->0,
        ) && member_number(value, key) == json_number(json_member(value, key)->0),
{
}

} // verus!
