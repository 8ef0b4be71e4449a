//! The status document: the JSON text of a status response, read with
//! `serde_json`, and the player names listed in it.

use vstd::prelude::*;
use crate::error::PingError;

verus! {

/// A parsed JSON value of `serde_json`, opaque to the verifier.
#[verifier::external_type_specification]
#[verifier::external_body]
pub struct ExJsonValue(serde_json::Value);

/// The error of `serde_json`, opaque to the verifier.
#[verifier::external_type_specification]
#[verifier::external_body]
pub struct ExJsonError(serde_json::Error);

/// The value that `serde_json::from_slice` reads from `text`; `None` where
/// it reports an error.
pub uninterp spec fn json_document(text: Seq<u8>) -> Option<serde_json::Value>;

/// The member that `serde_json::Value::get` finds under the string `key`;
/// `None` where `value` is no object or has no such key.
pub uninterp spec fn json_member(value: serde_json::Value, key: Seq<char>) -> Option<
    serde_json::Value,
>;

/// The elements that `serde_json::Value::as_array` gives; `None` where
/// `value` is no array.
pub uninterp spec fn json_items(value: serde_json::Value) -> Option<Seq<serde_json::Value>>;

/// The characters that `serde_json::Value::as_str` gives; `None` where
/// `value` is no string.
pub uninterp spec fn json_text(value: serde_json::Value) -> Option<Seq<char>>;

/// What `serde_json::Value::is_null` answers.
pub uninterp spec fn json_is_null(value: serde_json::Value) -> bool;

/// What `serde_json::Value::is_object` answers.
pub uninterp spec fn json_is_object(value: serde_json::Value) -> bool;

/// Calls `serde_json::from_slice` for a `serde_json::Value`. Claimed: the
/// outcome depends on the bytes alone, so it is `json_document` of them.
#[verifier::external_body]
fn parse_json(text: &[u8]) -> (res: Result<serde_json::Value, serde_json::Error>)
    ensures
        match res {
            Ok(value) => json_document(text@) == Some(value),
            Err(_) => json_document(text@) is None,
        },
{
    serde_json::from_slice::<serde_json::Value>(text)
}

/// Calls `serde_json::Value::get` with a string key. Claimed: the outcome is
/// `json_member` of the value and the key.
#[verifier::external_body]
fn member<'a>(value: &'a serde_json::Value, key: &str) -> (res: Option<&'a serde_json::Value>)
    ensures
        match res {
            Some(found) => json_member(*value, key@) == Some(*found),
            None => json_member(*value, key@) is None,
        },
{
    value.get(key)
}

/// Calls `serde_json::Value::as_array`. Claimed: the vector holds the
/// elements that `json_items` names, in their order.
#[verifier::external_body]
fn items<'a>(value: &'a serde_json::Value) -> (res: Option<&'a Vec<serde_json::Value>>)
    ensures
        match res {
            Some(found) => json_items(*value) == Some(found@),
            None => json_items(*value) is None,
        },
{
    value.as_array()
}

/// Calls `serde_json::Value::as_str`. Claimed: the string holds the
/// characters that `json_text` names.
#[verifier::external_body]
fn text<'a>(value: &'a serde_json::Value) -> (res: Option<&'a str>)
    ensures
        match res {
            Some(found) => json_text(*value) == Some(found@),
            None => json_text(*value) is None,
        },
{
    value.as_str()
}

/// Calls `serde_json::Value::is_null`. Claimed: the answer depends on the
/// value alone, so it is `json_is_null` of it.
#[verifier::external_body]
fn is_null(value: &serde_json::Value) -> (res: bool)
    ensures
        res == json_is_null(*value),
{
    value.is_null()
}

/// Calls `serde_json::Value::is_object`. Claimed: the answer depends on the
/// value alone, so it is `json_is_object` of it.
#[verifier::external_body]
fn is_object(value: &serde_json::Value) -> (res: bool)
    ensures
        res == json_is_object(*value),
{
    value.is_object()
}

/// The name of one entry of the player sample: the string under its key
/// `name`. `None` where there is no such key, or no string under it.
pub open spec fn entry_name(entry: serde_json::Value) -> Option<Seq<char>> {
    match json_member(entry, "name"@) {
        Some(name) => json_text(name),
        None => None,
    }
}

/// The names of all `entries`, in their order; `None` where one of them has
/// no name.
pub open spec fn entry_names(entries: Seq<serde_json::Value>) -> Option<Seq<Seq<char>>> {
    if forall|i: int| 0 <= i < entries.len() ==> (#[trigger] entry_name(entries[i])) is Some {
        Some(Seq::new(entries.len(), |i: int| entry_name(entries[i]).unwrap()))
    } else {
        None
    }
}

/// The player names that a status document lists, in the order of its
/// `players.sample`, duplicates kept. A document whose `players` object has
/// no `sample`, or a null one, lists nobody. `None` where the document has
/// no `players` object, where `sample` is neither null nor an array, or
/// where an entry of it has no string `name`.
pub open spec fn document_names(document: serde_json::Value) -> Option<Seq<Seq<char>>> {
    match json_member(document, "players"@) {
        None => None,
        Some(players) => if !json_is_object(players) {
            None
        } else {
            match json_member(players, "sample"@) {
                None => Some(Seq::empty()),
                Some(sample) => if json_is_null(sample) {
                    Some(Seq::empty())
                } else {
                    match json_items(sample) {
                        Some(entries) => entry_names(entries),
                        None => None,
                    }
                },
            }
        },
    }
}

/// The names that the bytes of a status document list; `None` where the
/// bytes are no JSON text, or the document has not the shape that
/// `document_names` asks for.
pub open spec fn status_names(json: Seq<u8>) -> Option<Seq<Seq<char>>> {
    match json_document(json) {
        Some(document) => document_names(document),
        None => None,
    }
}

/// The character sequences of a list of strings.
pub open spec fn names_view(names: Seq<String>) -> Seq<Seq<char>> {
    Seq::new(names.len(), |i: int| names[i]@)
}

/// Extracts the player names from a parsed status document.
pub fn player_names(document: &serde_json::Value) -> (res: Result<Vec<String>, PingError>)
    ensures
        match document_names(*document) {
            Some(names) => res matches Ok(found) && names_view(found@) == names,
            None => res matches Err(e) && e == PingError::PayloadError,
        },
{
    let players = match member(document, "players") {
        Some(players) => players,
        None => {
            return Err(PingError::PayloadError);
        },
    };
    if !is_object(players) {
        return Err(PingError::PayloadError);
    }
    let mut names: Vec<String> = Vec::new();
    let sample = match member(players, "sample") {
        Some(sample) => sample,
        None => {
            assert(names_view(names@) =~= Seq::empty());
            return Ok(names);
        },
    };
    if is_null(sample) {
        assert(names_view(names@) =~= Seq::empty());
        return Ok(names);
    }
    let entries = match items(sample) {
        Some(entries) => entries,
        None => {
            return Err(PingError::PayloadError);
        },
    };
    let mut i: usize = 0;
    while i < entries.len()
        invariant
            i <= entries@.len(),
            names@.len() == i,
            document_names(*document) == entry_names(entries@),
            forall|j: int|
                0 <= j < i ==> (#[trigger] entry_name(entries@[j])) == Some(names@[j]@),
        decreases entries@.len() - i,
    {
        let name = match member(&entries[i], "name") {
            Some(field) => text(field),
            None => None,
        };
        match name {
            Some(name) => names.push(name.to_owned()),
            None => {
                assert(entry_name(entries@[i as int]) is None);
                return Err(PingError::PayloadError);
            },
        }
        i = i + 1;
    }
    assert(names_view(names@) =~= entry_names(entries@).unwrap());
    Ok(names)
}

/// Decodes the JSON text of a status response into the player names it
/// lists.
pub fn decode_status(json: &[u8]) -> (res: Result<Vec<String>, PingError>)
    ensures
        match status_names(json@) {
            Some(names) => res matches Ok(found) && names_view(found@) == names,
            None => res matches Err(e) && e == PingError::PayloadError,
        },
{
    match parse_json(json) {
        Ok(document) => player_names(&document),
        Err(_) => Err(PingError::PayloadError),
    }
}

} // verus!
