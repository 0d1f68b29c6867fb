//! Reading JSON documents with `serde_json`: each trusted item below parses a text and
//! reports one shallow view of the value it holds, the nested values kept as their
//! compact JSON text.
use vstd::prelude::*;

verus! {

/// The entries of the object that `text` holds, each key with the compact text of its
/// value, in the order of `serde_json`'s map; `None` where `text` is not a JSON object.
pub uninterp spec fn json_object_fields(text: Seq<char>) -> Option<Seq<(Seq<char>, Seq<char>)>>;

/// The compact texts of the elements of the array that `text` holds; `None` where `text`
/// is not a JSON array.
pub uninterp spec fn json_array_elements(text: Seq<char>) -> Option<Seq<Seq<char>>>;

/// The string that `text` holds; `None` where `text` is not a JSON string.
pub uninterp spec fn json_string_value(text: Seq<char>) -> Option<Seq<char>>;

/// The number that `text` holds, where it is a JSON number that fits a `u64`.
pub uninterp spec fn json_u64_value(text: Seq<char>) -> Option<u64>;

/// The number that `text` holds, where it is a JSON number that fits an `i64`.
pub uninterp spec fn json_i64_value(text: Seq<char>) -> Option<i64>;

/// The boolean that `text` holds; `None` where `text` is not `true` or `false`.
pub uninterp spec fn json_bool_value(text: Seq<char>) -> Option<bool>;

/// `text` holds a JSON number.
pub uninterp spec fn json_is_number(text: Seq<char>) -> bool;

/// `text` holds JSON `null`.
pub uninterp spec fn json_is_null(text: Seq<char>) -> bool;

/// `serde_json`'s message for why `text` is not valid JSON; `None` where it is valid.
pub uninterp spec fn json_syntax_error(text: Seq<char>) -> Option<Seq<char>>;

/// `s` written as a JSON string by `serde_json`.
pub uninterp spec fn json_quoted(s: Seq<char>) -> Seq<char>;

/// The JSON value that `text` holds, written by `serde_json` in its pretty layout; `None`
/// where `text` is not valid JSON.
pub uninterp spec fn json_pretty(text: Seq<char>) -> Option<Seq<char>>;

/// The views of key/value string pairs.
pub open spec fn pair_views(v: Seq<(String, String)>) -> Seq<(Seq<char>, Seq<char>)> {
    v.map_values(|p: (String, String)| (p.0@, p.1@))
}

/// The views of a sequence of strings.
pub open spec fn string_views(v: Seq<String>) -> Seq<Seq<char>> {
    v.map_values(|s: String| s@)
}

/// `serde_json::from_str` into a `Value`, then `Value::as_object`: the entries of the
/// object, each value written back with `Value::to_string`. Claims only that the result
/// is `json_object_fields` of the text.
#[verifier::external_body]
pub(crate) fn object_fields(text: &str) -> (r: Option<Vec<(String, String)>>)
    ensures
        match r {
            Some(v) => json_object_fields(text@) == Some(pair_views(v@)),
            None => json_object_fields(text@) is None,
        },
{
    let value: serde_json::Value = serde_json::from_str(text).ok()?;
    value.as_object().map(|m| m.iter().map(|(k, v)| (k.clone(), v.to_string())).collect())
}

/// `serde_json::from_str` into a `Value`, then `Value::as_array`, each element written
/// back with `Value::to_string`. Claims only that the result is `json_array_elements`.
#[verifier::external_body]
pub(crate) fn array_elements(text: &str) -> (r: Option<Vec<String>>)
    ensures
        match r {
            Some(v) => json_array_elements(text@) == Some(string_views(v@)),
            None => json_array_elements(text@) is None,
        },
{
    let value: serde_json::Value = serde_json::from_str(text).ok()?;
    value.as_array().map(|a| a.iter().map(|v| v.to_string()).collect())
}

/// `serde_json::from_str` into a `Value`, then `Value::as_str`. Claims only that the
/// result is `json_string_value`.
#[verifier::external_body]
pub(crate) fn string_value(text: &str) -> (r: Option<String>)
    ensures
        match r {
            Some(s) => json_string_value(text@) == Some(s@),
            None => json_string_value(text@) is None,
        },
{
    let value: serde_json::Value = serde_json::from_str(text).ok()?;
    value.as_str().map(|s| s.to_string())
}

/// `serde_json::from_str` into a `Value`, then `Value::as_u64`. Claims only that the
/// result is `json_u64_value`.
#[verifier::external_body]
pub(crate) fn u64_value(text: &str) -> (r: Option<u64>)
    ensures
        r == json_u64_value(text@),
{
    let value: serde_json::Value = serde_json::from_str(text).ok()?;
    value.as_u64()
}

/// `serde_json::from_str` into a `Value`, then `Value::as_i64`. Claims only that the
/// result is `json_i64_value`.
#[verifier::external_body]
pub(crate) fn i64_value(text: &str) -> (r: Option<i64>)
    ensures
        r == json_i64_value(text@),
{
    let value: serde_json::Value = serde_json::from_str(text).ok()?;
    value.as_i64()
}

/// `serde_json::from_str` into a `Value`, then `Value::as_bool`. Claims only that the
/// result is `json_bool_value`.
#[verifier::external_body]
pub(crate) fn bool_value(text: &str) -> (r: Option<bool>)
    ensures
        r == json_bool_value(text@),
{
    let value: serde_json::Value = serde_json::from_str(text).ok()?;
    value.as_bool()
}

/// `serde_json::from_str` into a `Value`, then `Value::is_number`. Claims only that the
/// result is `json_is_number`.
#[verifier::external_body]
pub(crate) fn is_number(text: &str) -> (r: bool)
    ensures
        r == json_is_number(text@),
{
    serde_json::from_str::<serde_json::Value>(text).map(|v| v.is_number()).unwrap_or(false)
}

/// `serde_json::from_str` into a `Value`, then `Value::is_null`. Claims only that the
/// result is `json_is_null`.
#[verifier::external_body]
pub(crate) fn is_null(text: &str) -> (r: bool)
    ensures
        r == json_is_null(text@),
{
    serde_json::from_str::<serde_json::Value>(text).map(|v| v.is_null()).unwrap_or(false)
}

/// `serde_json::from_str` into a `Value`, its error written with `Display`. Claims only
/// that the result is `json_syntax_error`.
#[verifier::external_body]
pub(crate) fn syntax_error(text: &str) -> (r: Option<String>)
    ensures
        match r {
            Some(s) => json_syntax_error(text@) == Some(s@),
            None => json_syntax_error(text@) is None,
        },
{
    serde_json::from_str::<serde_json::Value>(text).err().map(|e| e.to_string())
}

/// A `Value::String` holding `s`, written with `Value::to_string`. Claims only that the
/// result is `json_quoted`.
#[verifier::external_body]
pub(crate) fn quote(s: &str) -> (r: String)
    ensures
        r@ == json_quoted(s@),
{
    serde_json::Value::String(s.to_string()).to_string()
}

/// `serde_json::from_str` into a `Value`, then `serde_json::to_string_pretty`. Claims
/// that the result is `json_pretty`, and that a text that parses is written back: the
/// documentation of `to_string_pretty` names two ways to fail, a `Serialize` impl that
/// fails and a map with non-string keys, and a `Value` has neither.
#[verifier::external_body]
pub(crate) fn pretty(text: &str) -> (r: Option<String>)
    ensures
        match r {
            Some(s) => json_pretty(text@) == Some(s@),
            None => json_pretty(text@) is None,
        },
        json_syntax_error(text@) is None ==> r is Some,
{
    let value: serde_json::Value = serde_json::from_str(text).ok()?;
    serde_json::to_string_pretty(&value).ok()
}

/// The value text that the first entry named `key` holds.
pub open spec fn field_of(fields: Seq<(Seq<char>, Seq<char>)>, key: Seq<char>) -> Option<Seq<char>>
    decreases fields.len(),
{
    if fields.len() == 0 {
        None
    } else if fields[0].0 == key {
        Some(fields[0].1)
    } else {
        field_of(fields.drop_first(), key)
    }
}

/// The value text of the first entry named `key`.
pub fn get_field(fields: &Vec<(String, String)>, key: &str) -> (r: Option<String>)
    ensures
        match r {
            Some(v) => field_of(pair_views(fields@), key@) == Some(v@),
            None => field_of(pair_views(fields@), key@) is None,
        },
{
    let mut i: usize = 0;
    assert(pair_views(fields@).skip(0) =~= pair_views(fields@));
    while i < fields.len()
        invariant
            i <= fields@.len(),
            field_of(pair_views(fields@), key@) == field_of(pair_views(fields@).skip(i as int), key@),
        decreases fields@.len() - i,
    {
        let ghost rest = pair_views(fields@).skip(i as int);
        assert(rest[0] == (fields@[i as int].0@, fields@[i as int].1@));
        if crate::text::str_eq(fields[i].0.as_str(), key) {
            return Some(fields[i].1.clone());
        }
        assert(rest.drop_first() =~= pair_views(fields@).skip(i + 1));
        i = i + 1;
    }
    None
}

/// The string that the entry `key` of an object holds, if it is one.
pub open spec fn string_at(fields: Seq<(Seq<char>, Seq<char>)>, key: Seq<char>) -> Option<Seq<char>> {
    match field_of(fields, key) {
        Some(t) => json_string_value(t),
        None => None,
    }
}

/// The boolean that the entry `key` of an object holds, if it is one.
pub open spec fn bool_at(fields: Seq<(Seq<char>, Seq<char>)>, key: Seq<char>) -> Option<bool> {
    match field_of(fields, key) {
        Some(t) => json_bool_value(t),
        None => None,
    }
}

/// The `u64` that the entry `key` of an object holds, if it is one.
pub open spec fn u64_at(fields: Seq<(Seq<char>, Seq<char>)>, key: Seq<char>) -> Option<u64> {
    match field_of(fields, key) {
        Some(t) => json_u64_value(t),
        None => None,
    }
}

/// The string held by the entry `key`.
pub fn string_field_of(fields: &Vec<(String, String)>, key: &str) -> (r: Option<String>)
    ensures
        match r {
            Some(s) => string_at(pair_views(fields@), key@) == Some(s@),
            None => string_at(pair_views(fields@), key@) is None,
        },
{
    match get_field(fields, key) {
        Some(t) => string_value(t.as_str()),
        None => None,
    }
}

/// The boolean held by the entry `key`.
pub fn bool_field_of(fields: &Vec<(String, String)>, key: &str) -> (r: Option<bool>)
    ensures
        r == bool_at(pair_views(fields@), key@),
{
    match get_field(fields, key) {
        Some(t) => bool_value(t.as_str()),
        None => None,
    }
}

/// The `u64` held by the entry `key`.
pub fn u64_field_of(fields: &Vec<(String, String)>, key: &str) -> (r: Option<u64>)
    ensures
        r == u64_at(pair_views(fields@), key@),
{
    match get_field(fields, key) {
        Some(t) => u64_value(t.as_str()),
        None => None,
    }
}

} // verus!
