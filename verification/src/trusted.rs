//! Calls into std and into other crates whose contracts are taken on trust.
//!
//! Nothing here is proved. Each item names the function it stands for and says
//! what is claimed of it.

use vstd::prelude::*;
use vstd::utf8::{decode_utf8, valid_utf8};
use crate::models::Headers;
use crate::text::{is_canonical_uuid, optional_text, texts};

verus! {

/// A JSON value of `serde_json`. Nothing is known of what it holds.
#[verifier::external_type_specification]
#[verifier::external_body]
pub struct ExJsonValue(serde_json::Value);

/// The texts of a list of pairs of strings.
pub open spec fn pair_texts(pairs: Seq<(String, String)>) -> Seq<(Seq<char>, Seq<char>)> {
    pairs.map_values(|p: (String, String)| (p.0@, p.1@))
}

/// The texts of a list of names, each with its values.
pub open spec fn field_texts(fields: Seq<(String, Vec<String>)>) -> Seq<
    (Seq<char>, Seq<Seq<char>>),
> {
    fields.map_values(|f: (String, Vec<String>)| (f.0@, texts(f.1@)))
}

/// The texts of an optional list of names, each with its values.
pub open spec fn optional_field_texts(fields: Option<Vec<(String, Vec<String>)>>) -> Option<
    Seq<(Seq<char>, Seq<Seq<char>>)>,
> {
    match fields {
        Some(f) => Some(field_texts(f@)),
        None => None,
    }
}

/// The texts of an optional list of strings.
pub open spec fn optional_texts(v: Option<Vec<String>>) -> Option<Seq<Seq<char>>> {
    match v {
        Some(l) => Some(texts(l@)),
        None => None,
    }
}

/// Whether `uuid::Uuid::parse_str` accepts `text`. It accepts 32 hex digits,
/// the hyphenated form of 36 characters, that form in braces, and that form
/// after `urn:uuid:`.
pub uninterp spec fn is_uuid_text(text: Seq<char>) -> bool;

/// `Uuid::parse_str`: whether it returns `Ok` depends on the text alone, and
/// it does for every UUID in canonical form.
#[verifier::external_body]
pub(crate) fn parses_as_uuid(text: &str) -> (b: bool)
    ensures
        b == is_uuid_text(text@),
        is_canonical_uuid(text@) ==> b,
{
    uuid::Uuid::parse_str(text).is_ok()
}

/// `Uuid::new_v4`, written out by its `Display`: a random identifier. Each
/// call gives another one. Whichever it is, it is written in canonical form,
/// with its 36 characters, and `Uuid::parse_str` accepts it. It panics where
/// the system has no random bytes to give.
#[verifier::external_body]
pub(crate) fn fresh_uuid() -> (r: String)
    ensures
        is_canonical_uuid(r@),
        is_uuid_text(r@),
        r@.len() == 36,
{
    uuid::Uuid::new_v4().to_string()
}

/// `Utc::now`, written out by `DateTime::to_rfc3339`: the time of the call.
/// Nothing is promised of the text. It panics where the system clock stands
/// before 1970.
#[verifier::external_body]
pub(crate) fn current_timestamp() -> String {
    chrono::Utc::now().to_rfc3339()
}

/// The names and values that `form_urlencoded::parse` reads from a query
/// string, in order, percent-decoded.
pub uninterp spec fn form_pairs(query: Seq<char>) -> Seq<(Seq<char>, Seq<char>)>;

/// `url::form_urlencoded::parse` on the bytes of `query`: the pairs depend
/// on the query alone.
#[verifier::external_body]
pub(crate) fn parse_query(query: &str) -> (pairs: Vec<(String, String)>)
    ensures
        pair_texts(pairs@) == form_pairs(query@),
{
    url::form_urlencoded::parse(query.as_bytes()).into_owned().collect()
}

/// `String::from_utf8`: the text that `bytes` encode, where they are valid
/// UTF-8, and nothing where they are not.
#[verifier::external_body]
pub(crate) fn utf8_text(bytes: Vec<u8>) -> (r: Option<String>)
    ensures
        r is Some <==> valid_utf8(bytes@),
        r matches Some(s) ==> s@ == decode_utf8(bytes@),
{
    String::from_utf8(bytes).ok()
}

/// What `String::from_utf8_lossy` makes of `bytes`: the text that they
/// encode, with U+FFFD in place of what is not UTF-8.
pub uninterp spec fn lossy_utf8(bytes: Seq<u8>) -> Seq<char>;

/// `String::from_utf8_lossy`: the text depends on the bytes alone, and is
/// the text that they encode where they are valid UTF-8.
#[verifier::external_body]
pub(crate) fn lossy_text(bytes: &[u8]) -> (r: String)
    ensures
        r@ == lossy_utf8(bytes@),
        valid_utf8(bytes@) ==> r@ == decode_utf8(bytes@),
{
    String::from_utf8_lossy(bytes).into_owned()
}

/// The JSON object that `serde_json::to_string` writes for a mapping from
/// names to lists of strings, names in ascending order.
pub uninterp spec fn json_of_headers(headers: Map<Seq<char>, Seq<Seq<char>>>) -> Seq<char>;

/// `serde_json::to_string` on the headers as a `BTreeMap`: the text depends
/// on the mapping alone. It cannot fail on a map whose keys are strings.
#[verifier::external_body]
pub(crate) fn headers_to_json(headers: &Headers) -> (r: Option<String>)
    ensures
        r is Some,
        optional_text(r) == Some(json_of_headers(headers@)),
{
    let map: std::collections::BTreeMap<&str, &Vec<String>> = headers.fields.iter().map(
        |f| (f.name.as_str(), &f.values),
    ).collect();
    serde_json::to_string(&map).ok()
}

/// The JSON array that `serde_json::to_string` writes for a list of strings.
pub uninterp spec fn json_of_strings(items: Seq<Seq<char>>) -> Seq<char>;

/// `serde_json::to_string` on a list of strings: the text depends on the
/// list alone. It cannot fail on strings.
#[verifier::external_body]
pub(crate) fn strings_to_json(items: &Vec<String>) -> (r: Option<String>)
    ensures
        r is Some,
        optional_text(r) == Some(json_of_strings(texts(items@))),
{
    serde_json::to_string(items).ok()
}

/// The text that `serde_json::to_string` writes for a JSON value.
pub uninterp spec fn json_of_value(value: serde_json::Value) -> Seq<char>;

/// `serde_json::to_string` on a JSON value: the text depends on the value
/// alone. It cannot fail on a JSON value, whose keys are strings.
#[verifier::external_body]
pub(crate) fn value_to_json(value: &serde_json::Value) -> (r: Option<String>)
    ensures
        r is Some,
        optional_text(r) == Some(json_of_value(*value)),
{
    serde_json::to_string(value).ok()
}

/// The names and lists of strings that `serde_json::from_str` reads from a
/// JSON object, names in ascending order; nothing where the text is no such
/// object.
pub uninterp spec fn headers_of_json(text: Seq<char>) -> Option<
    Seq<(Seq<char>, Seq<Seq<char>>)>,
>;

/// `serde_json::from_str` into a `BTreeMap` from names to lists of strings:
/// the outcome depends on the text alone.
#[verifier::external_body]
pub(crate) fn headers_from_json(text: &str) -> (r: Option<Vec<(String, Vec<String>)>>)
    ensures
        optional_field_texts(r) == headers_of_json(text@),
{
    serde_json::from_str::<std::collections::BTreeMap<String, Vec<String>>>(text).ok().map(
        |m| m.into_iter().collect(),
    )
}

/// The list of strings that `serde_json::from_str` reads from a JSON array;
/// nothing where the text is no such array.
pub uninterp spec fn strings_of_json(text: Seq<char>) -> Option<Seq<Seq<char>>>;

/// `serde_json::from_str` into a list of strings: the outcome depends on the
/// text alone.
#[verifier::external_body]
pub(crate) fn strings_from_json(text: &str) -> (r: Option<Vec<String>>)
    ensures
        optional_texts(r) == strings_of_json(text@),
{
    serde_json::from_str::<Vec<String>>(text).ok()
}

/// The JSON value that `serde_json::from_str` reads from `text`; nothing
/// where the text is not JSON.
pub uninterp spec fn value_of_json(text: Seq<char>) -> Option<serde_json::Value>;

/// `serde_json::from_str` into a JSON value: the outcome depends on the text
/// alone.
#[verifier::external_body]
pub(crate) fn value_from_json(text: &str) -> (r: Option<serde_json::Value>)
    ensures
        r == value_of_json(text@),
{
    serde_json::from_str::<serde_json::Value>(text).ok()
}

} // verus!
