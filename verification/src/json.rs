//! JSON bodies of the responses that the library itself produces.

use vstd::prelude::*;

verus! {

/// The JSON text of the string `text`, as `serde_json` renders it: the quoted
/// and escaped form.
pub uninterp spec fn json_string_text(text: Seq<char>) -> Seq<char>;

/// The JSON text of an object with the one member `key`, whose value is the
/// string `value`, in compact form.
pub open spec fn json_member_text(key: Seq<char>, value: Seq<char>) -> Seq<char> {
    seq!['{'] + json_string_text(key) + seq![':'] + json_string_text(value) + seq!['}']
}

/// Renders a JSON string value with `serde_json::Value`'s `Display`, which
/// writes the compact form. Trusted: the result is the text that
/// `json_string_text` names.
#[verifier::external_body]
pub(crate) fn json_string(text: &str) -> (out: String)
    ensures
        out@ == json_string_text(text@),
{
    serde_json::Value::String(text.to_owned()).to_string()
}

/// Renders a JSON object of one string member with `serde_json::Value`'s
/// `Display`. Trusted: the compact form is an opening brace, the key as a
/// JSON string, a colon, the value as a JSON string, and a closing brace.
#[verifier::external_body]
pub(crate) fn json_member(key: &str, value: &str) -> (out: String)
    ensures
        out@ == json_member_text(key@, value@),
{
    let mut members = serde_json::Map::new();
    members.insert(key.to_owned(), serde_json::Value::String(value.to_owned()));
    serde_json::Value::Object(members).to_string()
}

} // verus!
