//! Reading JSON text one level at a time.
//!
//! A record is taken apart from the outside in: an object into its members,
//! an array into its items, and a string or an integer into its value. What
//! lies below the level that is read stays text, so nothing is built for a
//! part that nobody looks at.

use vstd::prelude::*;
use std::collections::BTreeMap;
use serde_json::value::RawValue;

verus! {

#[verifier::external_type_specification]
#[verifier::external_body]
pub struct ExJsonError(serde_json::Error);

/// A member of a JSON object: its key, and the text of its value.
pub type Member = (String, Vec<u8>);

/// The members of the JSON object that `text` starts with, each key once,
/// with the text of its value; `None` where `text` does not start with a JSON
/// object.
pub uninterp spec fn json_members(text: Seq<u8>) -> Option<Seq<(Seq<char>, Seq<u8>)>>;

/// The text of each item of the JSON array that `text` is; `None` where
/// `text` is no JSON array.
pub uninterp spec fn json_items(text: Seq<u8>) -> Option<Seq<Seq<u8>>>;

/// The characters of the JSON string that `text` is; `None` where `text` is
/// no JSON string.
pub uninterp spec fn json_string(text: Seq<u8>) -> Option<Seq<char>>;

/// The JSON integer that `text` is, where it is one that fits in 64 bits with
/// a sign; `None` otherwise.
pub uninterp spec fn json_integer(text: Seq<u8>) -> Option<i64>;

/// The members of an object as plain values.
pub open spec fn members_view(members: Seq<Member>) -> Seq<(Seq<char>, Seq<u8>)> {
    Seq::new(members.len(), |i: int| (members[i].0@, members[i].1@))
}

/// The items of an array as plain values.
pub open spec fn items_view(items: Seq<Vec<u8>>) -> Seq<Seq<u8>> {
    Seq::new(items.len(), |i: int| items[i]@)
}

/// Calls `serde::Deserialize::deserialize` for a map of raw values on a
/// `serde_json::Deserializer` made by `from_slice`. The map holds one entry
/// for each key of the object at the start of `text`, with the text of the
/// key's value, unread; where a key stands more than once, its last value.
/// What follows the object is not looked at. The contract claims that the
/// outcome depends on `text` alone.
#[verifier::external_body]
pub(crate) fn read_members(text: &[u8]) -> (out: Result<Vec<Member>, serde_json::Error>)
    ensures
        out matches Ok(members) ==> json_members(text@) == Some(members_view(members@)),
        out is Err ==> json_members(text@) is None,
{
    let mut reader = serde_json::Deserializer::from_slice(text);
    let map: BTreeMap<String, &RawValue> = serde::Deserialize::deserialize(&mut reader)?;
    Ok(map.into_iter().map(|(key, value)| (key, value.get().as_bytes().to_vec())).collect())
}

/// Calls `serde_json::from_slice` for a sequence of raw values: the items of
/// the array that `text` is, each as its text, unread. The contract claims
/// that the outcome depends on `text` alone.
#[verifier::external_body]
pub(crate) fn read_items(text: &[u8]) -> (out: Result<Vec<Vec<u8>>, serde_json::Error>)
    ensures
        out matches Ok(items) ==> json_items(text@) == Some(items_view(items@)),
        out is Err ==> json_items(text@) is None,
{
    let items: Vec<&RawValue> = serde_json::from_slice(text)?;
    Ok(items.into_iter().map(|item| item.get().as_bytes().to_vec()).collect())
}

/// Calls `serde_json::from_slice` for a `String`: the characters of the JSON
/// string that `text` is, escapes resolved. The contract claims that the
/// outcome depends on `text` alone.
#[verifier::external_body]
pub(crate) fn read_string(text: &[u8]) -> (out: Result<String, serde_json::Error>)
    ensures
        out matches Ok(value) ==> json_string(text@) == Some(value@),
        out is Err ==> json_string(text@) is None,
{
    serde_json::from_slice::<String>(text)
}

/// Calls `serde_json::from_slice` for an `i64`: the integer that `text` is.
/// The contract claims that the outcome depends on `text` alone.
#[verifier::external_body]
pub(crate) fn read_integer(text: &[u8]) -> (out: Result<i64, serde_json::Error>)
    ensures
        out matches Ok(value) ==> json_integer(text@) == Some(value),
        out is Err ==> json_integer(text@) is None,
{
    serde_json::from_slice::<i64>(text)
}

} // verus!
