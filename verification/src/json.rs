//! Reading the members of a JSON object.

use vstd::prelude::*;

verus! {

/// `serde_json::Value`: a JSON document, opaque to the contracts but for the
/// names below.
#[verifier::external_type_specification]
#[verifier::external_body]
pub struct ExJsonValue(serde_json::Value);

/// The member of `value` under `key`: what `Value::get` returns for a string
/// index. `None` where `value` is no object or has no such member.
pub uninterp spec fn json_member(value: serde_json::Value, key: Seq<char>) -> Option<
    serde_json::Value,
>;

/// The characters of `value` where it is a JSON string: what `Value::as_str` returns.
pub uninterp spec fn json_text(value: serde_json::Value) -> Option<Seq<char>>;

/// The number `value` where it is a JSON integer of 0 to 2^64 - 1: what
/// `Value::as_u64` returns.
pub uninterp spec fn json_unsigned(value: serde_json::Value) -> Option<u64>;

/// Whether `value` is JSON's `null`: what `Value::is_null` returns.
pub uninterp spec fn json_is_null(value: serde_json::Value) -> bool;

/// Calls `Value::get` with a string index, which looks the key up in an
/// object and answers `None` for every other kind of value.
#[verifier::external_body]
fn member<'a>(value: &'a serde_json::Value, key: &str) -> (found: Option<&'a serde_json::Value>)
    ensures
        found matches Some(v) ==> json_member(*value, key@) == Some(*v),
        found is None ==> json_member(*value, key@) is None,
{
    value.get(key)
}

/// Calls `Value::as_str`, which hands out the string of a JSON string and
/// `None` for every other kind of value.
#[verifier::external_body]
fn as_text<'a>(value: &'a serde_json::Value) -> (text: Option<&'a str>)
    ensures
        text matches Some(s) ==> json_text(*value) == Some(s@),
        text is None ==> json_text(*value) is None,
{
    value.as_str()
}

/// Calls `Value::as_u64`, which hands out an integer that is not negative
/// and `None` for every other value.
#[verifier::external_body]
fn as_unsigned(value: &serde_json::Value) -> (n: Option<u64>)
    ensures
        n == json_unsigned(*value),
{
    value.as_u64()
}

/// Calls `Value::is_null`.
#[verifier::external_body]
fn is_null(value: &serde_json::Value) -> (null: bool)
    ensures
        null == json_is_null(*value),
{
    value.is_null()
}

/// What an object holds under one key, read as a `T`.
#[derive(Debug, PartialEq, Eq)]
pub enum Field<T> {
    /// No such member.
    Absent,
    /// The member is `null`.
    Null,
    /// The member is of another kind than the one asked for.
    Mismatch,
    /// The member, read.
    Present(T),
}

/// The member of `value` under `key`, read as text.
pub open spec fn text_field(value: serde_json::Value, key: Seq<char>) -> Field<Seq<char>> {
    match json_member(value, key) {
        None => Field::Absent,
        Some(v) => if json_is_null(v) {
            Field::Null
        } else {
            match json_text(v) {
                Some(s) => Field::Present(s),
                None => Field::Mismatch,
            }
        },
    }
}

/// The member of `value` under `key`, read as an integer that is not negative.
pub open spec fn unsigned_field(value: serde_json::Value, key: Seq<char>) -> Field<u64> {
    match json_member(value, key) {
        None => Field::Absent,
        Some(v) => if json_is_null(v) {
            Field::Null
        } else {
            match json_unsigned(v) {
                Some(n) => Field::Present(n),
                None => Field::Mismatch,
            }
        },
    }
}

/// The characters of a field that was read as text.
pub open spec fn field_text(field: Field<&str>) -> Field<Seq<char>> {
    match field {
        Field::Absent => Field::Absent,
        Field::Null => Field::Null,
        Field::Mismatch => Field::Mismatch,
        Field::Present(s) => Field::Present(s@),
    }
}

/// Reads the member of `value` under `key` as text.
pub fn read_text<'a>(value: &'a serde_json::Value, key: &str) -> (field: Field<&'a str>)
    ensures
        field_text(field) == text_field(*value, key@),
{
    match member(value, key) {
        None => Field::Absent,
        Some(v) => {
            if is_null(v) {
                Field::Null
            } else {
                match as_text(v) {
                    Some(s) => Field::Present(s),
                    None => Field::Mismatch,
                }
            }
        },
    }
}

/// Reads the member of `value` under `key` as an integer that is not negative.
pub fn read_unsigned(value: &serde_json::Value, key: &str) -> (field: Field<u64>)
    ensures
        field == unsigned_field(*value, key@),
{
    match member(value, key) {
        None => Field::Absent,
        Some(v) => {
            if is_null(v) {
                Field::Null
            } else {
                match as_unsigned(v) {
                    Some(n) => Field::Present(n),
                    None => Field::Mismatch,
                }
            }
        },
    }
}

} // verus!
