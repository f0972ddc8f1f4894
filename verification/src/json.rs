//! JSON documents: what a `serde_json::Value` holds, and the calls into `serde_json`.

use serde_json::Value;
use vstd::prelude::*;
use vstd::utf8::*;

verus! {

#[verifier::external_type_specification]
#[verifier::external_body]
pub struct ExValue(serde_json::Value);

/// What a JSON value holds.
pub enum Json {
    Null,
    Bool(bool),
    /// An integer that is not negative.
    Unsigned(u64),
    /// A negative integer.
    Negative(i64),
    /// Any other number, by the bits of its double precision representation.
    Float(u64),
    Text(Seq<char>),
    Array(Seq<Json>),
    /// An object: its keys, each with one value. Their order is not part of it.
    Object(Map<Seq<char>, Json>),
}

/// The contents of a value: its variant and what the variant holds, all the way down.
pub uninterp spec fn json(value: Value) -> Json;

impl Json {
    /// The entry of an object under `key`.
    pub open spec fn field(self, key: Seq<char>) -> Option<Json> {
        match self {
            Json::Object(entries) => if entries.dom().contains(key) {
                Some(entries[key])
            } else {
                None
            },
            _ => None,
        }
    }

    /// The integer that a value is, if an `i64` holds it.
    pub open spec fn signed(self) -> Option<i64> {
        match self {
            Json::Unsigned(n) => if n <= i64::MAX {
                Some(n as i64)
            } else {
                None
            },
            Json::Negative(n) => Some(n),
            _ => None,
        }
    }

    /// The integer that a value is, if a `u64` holds it.
    pub open spec fn unsigned(self) -> Option<u64> {
        match self {
            Json::Unsigned(n) => Some(n),
            _ => None,
        }
    }

    /// The text that a value is, if it is one.
    pub open spec fn text(self) -> Option<Seq<char>> {
        match self {
            Json::Text(text) => Some(text),
            _ => None,
        }
    }

    /// The number `n` as a JSON integer.
    pub open spec fn integer(n: i64) -> Json {
        if n < 0 {
            Json::Negative(n)
        } else {
            Json::Unsigned(n as u64)
        }
    }
}

/// The document that `bytes` write, if they write one.
pub uninterp spec fn parsed_json(bytes: Seq<u8>) -> Option<Json>;

/// The bytes that write `document`, without optional white space.
pub uninterp spec fn json_bytes(document: Json) -> Seq<u8>;

/// `document` holds no number but integers, and arrays and objects are nested in it at most
/// `depth` deep.
pub open spec fn is_plain(document: Json, depth: nat) -> bool
    decreases depth,
{
    match document {
        Json::Float(_) => false,
        Json::Array(items) => depth > 0 && forall|i: int|
            0 <= i < items.len() ==> is_plain(#[trigger] items[i], (depth - 1) as nat),
        Json::Object(entries) => depth > 0 && forall|key: Seq<char>|
            #[trigger] entries.dom().contains(key) ==> is_plain(entries[key], (depth - 1) as nat),
        _ => true,
    }
}

/// How deep arrays and objects may be nested in a document that is read.
pub const DEPTH_LIMIT: u8 = 127;

/// The text in which a message shows `document`: the one that its bytes encode.
pub open spec fn shown_json(document: Json) -> Seq<char> {
    decode_utf8(json_bytes(document))
}

/// `serde_json::from_slice`, reading a `Value`. Whether the bytes are a JSON document, and which
/// one, depends on the bytes alone.
#[verifier::external_body]
pub(crate) fn parse_value(bytes: &[u8]) -> (value: Option<Value>)
    ensures
        match value {
            Some(document) => parsed_json(bytes@) == Some(json(document)),
            None => parsed_json(bytes@) is None,
        },
{
    serde_json::from_slice::<Value>(bytes).ok()
}

/// `serde_json::to_vec` on a `Value`. A `Value` has string keys only and its serialization
/// reports no error of its own, so writing it into a vector succeeds. The bytes depend on the
/// contents of the value alone: an object keeps its entries in the order of their keys, and they
/// are written in that order. `serde_json::from_slice` reads them back as the same document where
/// that holds no fractions, of which nothing is claimed, and is not nested deeper than the reader
/// goes. The error, were there one, is handed on as text.
#[verifier::external_body]
pub(crate) fn value_to_bytes(value: &Value) -> (bytes: Result<Vec<u8>, String>)
    ensures
        bytes is Ok,
        bytes->Ok_0@ == json_bytes(json(*value)),
        is_plain(json(*value), DEPTH_LIMIT as nat) ==> parsed_json(bytes->Ok_0@) == Some(
            json(*value),
        ),
{
    serde_json::to_vec(value).map_err(|error| error.to_string())
}

/// The `Display` form of a `Value`, by `to_string`. It goes through the same writer as
/// `serde_json::to_vec`, so its UTF-8 encoding is the bytes that this writes.
#[verifier::external_body]
pub(crate) fn show_value(value: &Value) -> (text: String)
    ensures
        encode_utf8(text@) == json_bytes(json(*value)),
{
    value.to_string()
}

/// A clone of a `Value` holds what the value holds.
pub assume_specification[ <serde_json::Value as Clone>::clone ](value: &Value) -> (copy: Value)
    ensures
        json(copy) == json(*value),
;

/// `Value::get` with a string key: the entry under that key if the value is an object that has
/// one, and nothing otherwise.
#[verifier::external_body]
pub(crate) fn field_of<'a>(value: &'a Value, key: &str) -> (entry: Option<&'a Value>)
    ensures
        match entry {
            Some(found) => json(*value).field(key@) == Some(json(*found)),
            None => json(*value).field(key@) is None,
        },
{
    value.get(key)
}

/// `Value::as_i64`: the value of an integer that an `i64` holds.
pub assume_specification[ serde_json::Value::as_i64 ](value: &Value) -> (number: Option<i64>)
    ensures
        number == json(*value).signed(),
;

/// `Value::as_u64`: the value of an integer that is not negative.
pub assume_specification[ serde_json::Value::as_u64 ](value: &Value) -> (number: Option<u64>)
    ensures
        number == json(*value).unsigned(),
;

/// `Value::as_str`: the text of a string.
pub assume_specification[ serde_json::Value::as_str ](value: &Value) -> (text: Option<&str>)
    ensures
        match text {
            Some(found) => json(*value).text() == Some(found@),
            None => json(*value).text() is None,
        },
;

/// `Value::as_array`: the items of an array, in order.
pub assume_specification[ serde_json::Value::as_array ](value: &Value) -> (items: Option<
    &Vec<Value>,
>)
    ensures
        match items {
            Some(found) => json(*value) == Json::Array(found@.map_values(|item: Value| json(item))),
            None => !(json(*value) is Array),
        },
;

/// `Value::is_object`.
pub assume_specification[ serde_json::Value::is_object ](value: &Value) -> (answer: bool)
    ensures
        answer == (json(*value) is Object),
;

/// The value `Value::Null`.
#[verifier::external_body]
pub(crate) fn null_value() -> (value: Value)
    ensures
        json(value) == Json::Null,
{
    Value::Null
}

/// `Value::from` on an `i64`: a JSON integer.
#[verifier::external_body]
pub(crate) fn integer_value(n: i64) -> (value: Value)
    ensures
        json(value) == Json::integer(n),
{
    Value::from(n)
}

/// `Value::from` on a string: a JSON string with that text.
#[verifier::external_body]
pub(crate) fn text_value(text: &str) -> (value: Value)
    ensures
        json(value) == Json::Text(text@),
{
    Value::from(text)
}

/// `Map::new` as a value: an object without entries.
#[verifier::external_body]
pub(crate) fn empty_object() -> (value: Value)
    ensures
        json(value) == Json::Object(Map::<Seq<char>, Json>::empty()),
{
    Value::Object(serde_json::Map::new())
}

/// Assignment through `IndexMut` with a string key: an object gets `entry` under `key`, in place
/// of what it had there, and keeps its other entries. Values that are not objects are left out.
#[verifier::external_body]
pub(crate) fn set_field(object: &mut Value, key: &str, entry: Value)
    requires
        json(*old(object)) is Object,
    ensures
        json(*final(object)) == Json::Object(
            json(*old(object))->Object_0.insert(key@, json(entry)),
        ),
{
    object[key] = entry;
}

/// An object has under a key what its entries have there, and nothing under any other key. A value
/// that is no object has nothing under any key.
pub proof fn law_objects_give_their_entries(
    entries: Map<Seq<char>, Json>,
    key: Seq<char>,
    other: Json,
)
    requires
        !(other is Object),
    ensures
        entries.dom().contains(key) ==> Json::Object(entries).field(key) == Some(entries[key]),
        !entries.dom().contains(key) ==> Json::Object(entries).field(key) is None,
        other.field(key) is None,
{
}

/// An integer is the same number whichever way it is asked for, where the type that is asked for
/// holds it, and an integer that was put in comes out again.
pub proof fn law_integers_keep_their_value(n: u64, m: i64)
    ensures
        Json::Unsigned(n).unsigned() == Some(n),
        Json::Unsigned(n).signed() matches Some(k) ==> k == n,
        Json::Unsigned(n).signed() is Some <==> n < 0x8000_0000_0000_0000,
        Json::integer(m).signed() == Some(m),
        m >= 0 ==> Json::integer(m) == Json::Unsigned(m as u64),
        m < 0 ==> Json::integer(m) == Json::Negative(m) && Json::integer(m).unsigned() is None,
{
}

}
