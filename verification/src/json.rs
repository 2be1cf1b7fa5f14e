//! JSON values, as `serde_json` parses, holds and prints them.
//!
//! [`Json`] is the mathematical model of a JSON value. A
//! `serde_json::Value` is opaque to the verifier; [`json_of`] names the
//! model of what it holds, and the functions below are the only places
//! where this library reaches into `serde_json`. Their contracts are taken
//! from its documentation and source, and are not proved.

use vstd::prelude::*;

verus! {

/// A JSON value.
pub enum Json {
    Null,
    Bool(bool),
    /// A number, by the text that `serde_json` prints for it.
    Number(Seq<char>),
    Text(Seq<char>),
    List(Seq<Json>),
    /// An object: its entries in the order in which they are kept, no two
    /// with the same key.
    Record(Seq<(Seq<char>, Json)>),
}

/// The value of the first entry of `entries` whose key is `key`.
pub open spec fn lookup(entries: Seq<(Seq<char>, Json)>, key: Seq<char>) -> Option<Json>
    decreases entries.len(),
{
    if entries.len() == 0 {
        None
    } else if entries[0].0 == key {
        Some(entries[0].1)
    } else {
        lookup(entries.drop_first(), key)
    }
}

/// Whether no two entries have the same key.
pub open spec fn distinct_keys(entries: Seq<(Seq<char>, Json)>) -> bool {
    forall|i: int, j: int|
        0 <= i < j < entries.len() ==> (#[trigger] entries[i]).0 != (#[trigger] entries[j]).0
}

/// Among entries with distinct keys, each entry is found under its key.
pub proof fn lemma_lookup_finds(entries: Seq<(Seq<char>, Json)>, i: int)
    requires
        distinct_keys(entries),
        0 <= i < entries.len(),
    ensures
        lookup(entries, entries[i].0) == Some(entries[i].1),
    decreases entries.len(),
{
    if i > 0 {
        let rest = entries.drop_first();
        assert forall|a: int, b: int| 0 <= a < b < rest.len() implies (#[trigger] rest[a]).0 != (
        #[trigger] rest[b]).0 by {
            assert(rest[a] == entries[a + 1] && rest[b] == entries[b + 1]);
        }
        assert(rest[i - 1] == entries[i]);
        lemma_lookup_finds(rest, i - 1);
        assert(entries[0].0 != entries[i].0);
    }
}

impl Json {
    /// The member `key` of an object; `None` for a missing key and for a
    /// value that is no object.
    pub open spec fn member(self, key: Seq<char>) -> Option<Json> {
        match self {
            Json::Record(entries) => lookup(entries, key),
            _ => None,
        }
    }
}

/// `serde_json::Value`, which the verifier does not look into.
#[verifier::external_type_specification]
#[verifier::external_body]
pub struct ExValue(serde_json::Value);

/// `serde_json::Error`, which the verifier does not look into.
#[verifier::external_type_specification]
#[verifier::external_body]
pub struct ExError(serde_json::Error);

/// The JSON value that a `serde_json::Value` holds.
pub uninterp spec fn json_of(value: serde_json::Value) -> Json;

/// The JSON value that `serde_json::from_str` reads from a text, or `None`
/// where it reports an error.
pub uninterp spec fn parsed_json(text: Seq<char>) -> Option<Json>;

/// The text that `serde_json::to_string` prints for a JSON value.
pub uninterp spec fn compact_text(json: Json) -> Seq<char>;

/// The text that `serde_json::to_string_pretty` prints for a JSON value.
pub uninterp spec fn pretty_text(json: Json) -> Seq<char>;

/// The JSON values that a sequence of `serde_json::Value`s holds.
pub open spec fn jsons_of(values: Seq<serde_json::Value>) -> Seq<Json> {
    Seq::new(values.len(), |i: int| json_of(values[i]))
}

/// The entries of a JSON object that a sequence of pairs holds.
pub open spec fn entries_of(pairs: Seq<(String, serde_json::Value)>) -> Seq<(Seq<char>, Json)> {
    Seq::new(pairs.len(), |i: int| (pairs[i].0@, json_of(pairs[i].1)))
}

/// `serde_json::from_str::<Value>`: parses a whole text as one JSON value.
/// The outcome is a function of the text alone.
#[verifier::external_body]
pub(crate) fn parse_value(text: &str) -> (r: Result<serde_json::Value, serde_json::Error>)
    ensures
        match r {
            Ok(value) => parsed_json(text@) == Some(json_of(value)),
            Err(_) => parsed_json(text@) is None,
        },
{
    serde_json::from_str::<serde_json::Value>(text)
}

/// `serde_json::to_string` on a `Value`. It reports an error only where a
/// `Serialize` impl fails or a map has a key that is no string; neither can
/// happen for a `Value` written to memory.
#[verifier::external_body]
pub(crate) fn value_to_string(value: &serde_json::Value) -> (r: String)
    ensures
        r@ == compact_text(json_of(*value)),
{
    serde_json::to_string(value).expect("a JSON value can be printed")
}

/// `serde_json::to_string_pretty` on a `Value`; see [`value_to_string`].
#[verifier::external_body]
pub(crate) fn value_to_string_pretty(value: &serde_json::Value) -> (r: String)
    ensures
        r@ == pretty_text(json_of(*value)),
{
    serde_json::to_string_pretty(value).expect("a JSON value can be printed")
}

/// `Value::as_str`: the text of a JSON string, `None` for any other value.
#[verifier::external_body]
pub(crate) fn value_as_str(value: &serde_json::Value) -> (r: Option<&str>)
    ensures
        match r {
            Some(text) => json_of(*value) == Json::Text(text@),
            None => !(json_of(*value) is Text),
        },
{
    value.as_str()
}

/// `Value::as_array`: the elements of a JSON array, `None` for any other
/// value.
#[verifier::external_body]
pub(crate) fn value_as_array(value: &serde_json::Value) -> (r: Option<&Vec<serde_json::Value>>)
    ensures
        match r {
            Some(items) => json_of(*value) == Json::List(jsons_of(items@)),
            None => !(json_of(*value) is List),
        },
{
    value.as_array()
}

/// `Value::get` with a string index: the member of a JSON object under
/// that key; `None` for a missing key and for a value that is no object.
#[verifier::external_body]
pub(crate) fn value_get<'a>(value: &'a serde_json::Value, key: &str) -> (r: Option<
    &'a serde_json::Value,
>)
    ensures
        match r {
            Some(member) => json_of(*value).member(key@) == Some(json_of(*member)),
            None => json_of(*value).member(key@) is None,
        },
{
    value.get(key)
}

/// `Value::from(String)`: the JSON string with that text.
#[verifier::external_body]
pub(crate) fn value_from_string(text: String) -> (r: serde_json::Value)
    ensures
        json_of(r) == Json::Text(text@),
{
    serde_json::Value::from(text)
}

/// `Value::from(Vec<Value>)`: the JSON array of those elements, in order.
#[verifier::external_body]
pub(crate) fn value_from_vec(items: Vec<serde_json::Value>) -> (r: serde_json::Value)
    ensures
        json_of(r) == Json::List(jsons_of(items@)),
{
    serde_json::Value::from(items)
}

/// `Value::from_iter` over (key, value) pairs: the JSON object of those
/// entries. With the `preserve_order` feature the object keeps its entries
/// in the order of insertion. A repeated key would replace the earlier
/// entry's value; the contract leaves such input out.
#[verifier::external_body]
pub(crate) fn value_from_entries(entries: Vec<(String, serde_json::Value)>) -> (r:
    serde_json::Value)
    requires
        distinct_keys(entries_of(entries@)),
    ensures
        json_of(r) == Json::Record(entries_of(entries@)),
{
    entries.into_iter().collect()
}

} // verus!
