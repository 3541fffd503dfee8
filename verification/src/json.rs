//! Credential files: the JSON object of string keys and string values in
//! which the scanner stores what it found and from which the guard loads
//! the credentials it watches for.

use vstd::prelude::*;
use crate::string_map::{keys_distinct, map_of, pairs_view, StringMap};

verus! {

/// The entries, in key order, of the JSON object of strings that
/// `serde_json` reads from `bytes`, or `None` where it refuses them.
pub uninterp spec fn json_string_object(bytes: Seq<u8>) -> Option<Seq<(Seq<char>, Seq<char>)>>;

/// The JSON text that `serde_json` writes for the object with these entries.
pub uninterp spec fn json_object_text(entries: Seq<(Seq<char>, Seq<char>)>) -> Seq<char>;

/// `serde_json::from_slice` into a `BTreeMap<String, String>`, its entries
/// handed out in the map's order. The result is taken as a function of the
/// bytes alone; beyond it, only that keys are not repeated (the map holds
/// each key once) is stated.
#[verifier::external_body]
fn json_read_string_object(bytes: &[u8]) -> (r: Option<Vec<(String, String)>>)
    ensures
        match r {
            Some(e) => json_string_object(bytes@) == Some(pairs_view(e@)) && keys_distinct(
                pairs_view(e@),
            ),
            None => json_string_object(bytes@) is None,
        },
{
    match serde_json::from_slice::<std::collections::BTreeMap<String, String>>(bytes) {
        Ok(m) => Some(m.into_iter().collect()),
        Err(_) => None,
    }
}

/// `serde_json::to_string` of the `BTreeMap<&str, &str>` holding `entries`.
/// The text is taken as a function of the entries alone; nothing about its
/// characters is stated. It always succeeds: `serde_json` documents that
/// serialising fails only where a `Serialize` impl fails or a map has keys
/// that are not strings, and a map of strings has neither.
#[verifier::external_body]
fn json_write_string_object(entries: &Vec<(String, String)>) -> (r: Option<String>)
    ensures
        r is Some,
        r matches Some(t) ==> t@ == json_object_text(pairs_view(entries@)),
{
    let m: std::collections::BTreeMap<&str, &str> =
        entries.iter().map(|(k, v)| (k.as_str(), v.as_str())).collect();
    serde_json::to_string(&m).ok()
}

/// The credentials that a credentials file holds: the entries of its JSON
/// object, or none at all when the bytes are not such an object.
pub open spec fn credentials_in(bytes: Seq<u8>) -> Map<Seq<char>, Seq<char>> {
    match json_string_object(bytes) {
        Some(e) => map_of(e),
        None => Map::empty(),
    }
}

/// Loads the credentials from the contents of a credentials file; contents
/// that are no JSON object of strings give no credentials.
pub fn parse_credentials(bytes: &[u8]) -> (r: StringMap)
    ensures
        r.wf(),
        r@ == credentials_in(bytes@),
{
    match json_read_string_object(bytes) {
        Some(e) => StringMap::from_pairs(e),
        None => StringMap::new(),
    }
}

/// The text of the credentials file that holds the entries of `m`.
pub fn encode_credentials(m: &StringMap) -> (r: String)
    ensures
        r@ == json_object_text(m.entries_view()),
{
    let t = json_write_string_object(m.entries());
    t.unwrap()
}

} // verus!
