//! The JSON reader that the message decoder rests on.
//!
//! Parsing is `serde_json`'s work. Nothing in this module is proved: each
//! function states what the parser's documentation says of one of its calls,
//! and the spec functions without a body name what those calls return.

use vstd::prelude::*;

verus! {

/// A parsed JSON value, opaque to the proofs.
#[verifier::external_type_specification]
#[verifier::external_body]
pub struct ExValue(serde_json::Value);

/// The value that `serde_json::from_str` reads from a text; `None` where the
/// text is not one JSON value.
pub uninterp spec fn json_document(text: Seq<char>) -> Option<serde_json::Value>;

/// The member that `Value::get` finds under a key; `None` where the value is
/// no object or has no such member.
pub uninterp spec fn json_member(doc: serde_json::Value, key: Seq<char>) -> Option<serde_json::Value>;

/// The text that `Value::as_str` gives for a JSON string; `None` for any other
/// value.
pub uninterp spec fn json_string(value: serde_json::Value) -> Option<Seq<char>>;

/// The number that `Value::as_u64` gives for an integer that fits `u64`;
/// `None` for any other value.
pub uninterp spec fn json_unsigned(value: serde_json::Value) -> Option<u64>;

/// Whether `Value::is_null` holds of a value.
pub uninterp spec fn json_null(value: serde_json::Value) -> bool;

/// The text that `Value`'s `Display` writes for a JSON string: the string
/// between double quotes, with the escapes that JSON asks for.
pub uninterp spec fn json_quoted(text: Seq<char>) -> Seq<char>;

/// `Value::from` a string slice, written by `Display`: the compact JSON text
/// of that string, which depends on the string alone. The writer escapes
/// every character below U+0020, so the text holds no NUL.
#[verifier::external_body]
pub(crate) fn quote(text: &str) -> (r: String)
    ensures
        r@ == json_quoted(text@),
        !r@.contains('\0'),
{
    serde_json::Value::from(text).to_string()
}

/// `serde_json::from_str` at type `Value`: the parsed value, which depends on
/// the text alone, or `None` where the parser reports an error.
#[verifier::external_body]
pub(crate) fn parse_document(text: &str) -> (r: Option<serde_json::Value>)
    ensures
        r == json_document(text@),
{
    serde_json::from_str::<serde_json::Value>(text).ok()
}

/// `Value::get` with a string key: a reference to the member of that name.
#[verifier::external_body]
pub(crate) fn member<'a>(doc: &'a serde_json::Value, key: &str) -> (r: Option<&'a serde_json::Value>)
    ensures
        r is Some <==> json_member(*doc, key@) is Some,
        r matches Some(v) ==> json_member(*doc, key@) == Some(*v),
{
    doc.get(key)
}

/// `Value::as_str`, copied into an owned string.
#[verifier::external_body]
pub(crate) fn as_text(value: &serde_json::Value) -> (r: Option<String>)
    ensures
        r is Some <==> json_string(*value) is Some,
        r matches Some(s) ==> json_string(*value) == Some(s@),
{
    value.as_str().map(String::from)
}

/// `Value::as_u64`.
#[verifier::external_body]
pub(crate) fn as_unsigned(value: &serde_json::Value) -> (r: Option<u64>)
    ensures
        r == json_unsigned(*value),
{
    value.as_u64()
}

/// `Value::is_null`.
#[verifier::external_body]
pub(crate) fn is_null(value: &serde_json::Value) -> (r: bool)
    ensures
        r == json_null(*value),
{
    value.is_null()
}

} // verus!
