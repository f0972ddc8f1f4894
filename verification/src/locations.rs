//! Where definitions are, as the server answers it.

use crate::json::{field_of, json, Json};
use crate::uri::{path_of, uri_path, uri_to_path};
use serde_json::Value;
use std::path::PathBuf;
use vstd::prelude::*;

verus! {

/// `PathBuf::clone` gives an equal path.
pub assume_specification[ <std::path::PathBuf as Clone>::clone ](path: &PathBuf) -> (copy: PathBuf)
    ensures
        copy == *path,
;

/// A file, and a line of it, counted from zero.
#[derive(Debug, Eq, Ord, PartialEq, PartialOrd)]
pub struct DefinitionLocation {
    pub path: PathBuf,
    pub line: u32,
}

impl Clone for DefinitionLocation {
    fn clone(&self) -> (copy: Self)
        ensures
            copy == *self,
    {
        DefinitionLocation { path: self.path.clone(), line: self.line }
    }
}

/// The entry of `item` under `key`, or under `other` where there is none under `key`.
pub open spec fn field_or(item: Json, key: Seq<char>, other: Seq<char>) -> Option<Json> {
    match item.field(key) {
        Some(entry) => Some(entry),
        None => item.field(other),
    }
}

/// The line on which `range` starts, if it is one that a `u32` holds.
pub open spec fn start_line(range: Json) -> Option<u32> {
    match range.field("start"@) {
        Some(start) => match start.field("line"@) {
            Some(line) => match line.unsigned() {
                Some(n) => if n <= u32::MAX {
                    Some(n as u32)
                } else {
                    None
                },
                None => None,
            },
            None => None,
        },
        None => None,
    }
}

/// The text of the path that `item` names: it is a `Location` or a `LocationLink`, and its URI
/// a `file` URI.
pub open spec fn location_path(item: Json) -> Option<Seq<char>> {
    match field_or(item, "uri"@, "targetUri"@) {
        Some(uri) => match uri.text() {
            Some(text) => uri_path(text),
            None => None,
        },
        None => None,
    }
}

/// The line that `item` names.
pub open spec fn location_line(item: Json) -> Option<u32> {
    match field_or(item, "range"@, "targetRange"@) {
        Some(range) => start_line(range),
        None => None,
    }
}

/// The location that `item` describes: it needs a path and a line.
pub open spec fn location(item: Json) -> Option<DefinitionLocation> {
    match (location_path(item), location_line(item)) {
        (Some(text), Some(line)) => Some(DefinitionLocation { path: path_of(text), line }),
        _ => None,
    }
}

/// The locations in the answer to a definition request: of an array those of its items, in their
/// order, of an object its own, and none of any other answer. Items that describe no location are
/// passed over.
pub open spec fn locations(result: Json) -> Seq<DefinitionLocation> {
    match result {
        Json::Array(items) => items.filter_map(|item: Json| location(item)),
        Json::Object(_) => match location(result) {
            Some(found) => seq![found],
            None => seq![],
        },
        _ => seq![],
    }
}

/// The entry of `item` under `key`, or under `other` where there is none under `key`.
fn find_field<'a>(item: &'a Value, key: &str, other: &str) -> (entry: Option<&'a Value>)
    ensures
        match entry {
            Some(found) => field_or(json(*item), key@, other@) == Some(json(*found)),
            None => field_or(json(*item), key@, other@) is None,
        },
{
    match field_of(item, key) {
        Some(entry) => Some(entry),
        None => field_of(item, other),
    }
}

/// The line on which `range` starts.
fn read_start_line(range: &Value) -> (line: Option<u32>)
    ensures
        line == start_line(json(*range)),
{
    let start = match field_of(range, "start") {
        Some(start) => start,
        None => {
            return None;
        },
    };
    let line = match field_of(start, "line") {
        Some(line) => line,
        None => {
            return None;
        },
    };
    match line.as_u64() {
        Some(n) => if n <= u32::MAX as u64 {
            Some(n as u32)
        } else {
            None
        },
        None => None,
    }
}

/// The location that `item` describes.
pub fn location_from_value(item: &Value) -> (found: Option<DefinitionLocation>)
    ensures
        found == location(json(*item)),
{
    let uri = match find_field(item, "uri", "targetUri") {
        Some(uri) => uri,
        None => {
            return None;
        },
    };
    let text = match uri.as_str() {
        Some(text) => text,
        None => {
            return None;
        },
    };
    let range = match find_field(item, "range", "targetRange") {
        Some(range) => range,
        None => {
            return None;
        },
    };
    match (uri_to_path(text), read_start_line(range)) {
        (Some(path), Some(line)) => Some(DefinitionLocation { path, line }),
        _ => None,
    }
}

/// The locations in the answer to a definition request.
pub fn locations_from_value(result: &Value) -> (found: Vec<DefinitionLocation>)
    ensures
        found@ == locations(json(*result)),
{
    let mut found: Vec<DefinitionLocation> = Vec::new();
    match result.as_array() {
        Some(items) => {
            let ghost all = items@.map_values(|item: Value| json(item));
            let ghost reading = |item: Json| location(item);
            let mut i: usize = 0;
            assert(all.take(0).filter_map(reading) =~= seq![]);
            while i < items.len()
                invariant
                    i <= items@.len(),
                    all == items@.map_values(|item: Value| json(item)),
                    reading == (|item: Json| location(item)),
                    found@ == all.take(i as int).filter_map(reading),
                decreases items@.len() - i,
            {
                proof {
                    all.lemma_filter_map_take_succ(reading, i as int);
                }
                if let Some(place) = location_from_value(&items[i]) {
                    found.push(place);
                }
                i = i + 1;
            }
            assert(all.take(all.len() as int) =~= all);
        },
        None => {
            if result.is_object() {
                if let Some(place) = location_from_value(result) {
                    found.push(place);
                }
            }
        },
    }
    found
}

/// The locations of two arrays, one behind the other, are those of the first and then those of
/// the second.
pub proof fn law_locations_go_item_by_item(first: Seq<Json>, second: Seq<Json>)
    ensures
        locations(Json::Array(first + second)) == locations(Json::Array(first)) + locations(
            Json::Array(second),
        ),
    decreases second.len(),
{
    let all = first + second;
    let reading = |item: Json| location(item);
    if second.len() == 0 {
        assert(all =~= first);
        assert(first.filter_map(reading) + second.filter_map(reading) =~= first.filter_map(
            reading,
        ));
    } else {
        law_locations_go_item_by_item(first, second.drop_last());
        assert(all.drop_last() =~= first + second.drop_last());
        assert(all.filter_map(reading) =~= first.filter_map(reading) + second.filter_map(reading));
    }
}

/// A single object is read as an array of that one object.
pub proof fn law_single_location_is_an_array_of_one(item: Json)
    requires
        item is Object,
    ensures
        locations(item) == locations(Json::Array(seq![item])),
{
    let reading = |item: Json| location(item);
    Seq::<Json>::lemma_filter_map_singleton(item, reading);
}

/// A location is read from the URI and from the line on which the range starts, and from nothing
/// else: whatever other entries the item, the range and its start have. `uri` and `range` come
/// before `targetUri` and `targetRange`.
pub proof fn law_location_is_path_and_start_line(
    entries: Map<Seq<char>, Json>,
    uri: Seq<char>,
    path: Seq<char>,
    range: Map<Seq<char>, Json>,
    start: Map<Seq<char>, Json>,
    line: u64,
)
    requires
        entries.dom().contains("uri"@) || entries.dom().contains("targetUri"@),
        Json::Text(uri) == if entries.dom().contains("uri"@) {
            entries["uri"@]
        } else {
            entries["targetUri"@]
        },
        uri_path(uri) == Some(path),
        entries.dom().contains("range"@) || entries.dom().contains("targetRange"@),
        Json::Object(range) == if entries.dom().contains("range"@) {
            entries["range"@]
        } else {
            entries["targetRange"@]
        },
        range.dom().contains("start"@),
        range["start"@] == Json::Object(start),
        start.dom().contains("line"@),
        start["line"@] == Json::Unsigned(line),
        line < 0x1_0000_0000,
    ensures
        location(Json::Object(entries)) matches Some(found) && found.path == path_of(path)
            && found.line == line,
{
}

/// Whatever is read as a location has a URI that names a path and a range that starts on a line,
/// and is that path and that line.
pub proof fn law_only_complete_locations_are_read(item: Json)
    requires
        location(item) is Some,
    ensures
        item matches Json::Object(entries) && {
            let uri = if entries.dom().contains("uri"@) {
                entries["uri"@]
            } else {
                entries["targetUri"@]
            };
            let range = if entries.dom().contains("range"@) {
                entries["range"@]
            } else {
                entries["targetRange"@]
            };
            &&& entries.dom().contains("uri"@) || entries.dom().contains("targetUri"@)
            &&& entries.dom().contains("range"@) || entries.dom().contains("targetRange"@)
            &&& uri matches Json::Text(text) && uri_path(text) is Some && location(item)->0.path
                == path_of(uri_path(text)->0)
            &&& range matches Json::Object(limits) && {
                &&& limits.dom().contains("start"@)
                &&& limits["start"@] matches Json::Object(start) && start.dom().contains("line"@)
                    && start["line"@] == Json::Unsigned(location(item)->0.line as u64)
            }
        },
{
}

/// Two ranges that start alike give the same location, wherever they end.
pub proof fn law_end_of_a_range_does_not_matter(
    entries: Map<Seq<char>, Json>,
    range: Map<Seq<char>, Json>,
    other: Map<Seq<char>, Json>,
)
    requires
        range.dom().contains("start"@),
        other.dom().contains("start"@),
        range["start"@] == other["start"@],
    ensures
        location(Json::Object(entries.insert("range"@, Json::Object(range)))) == location(
            Json::Object(entries.insert("range"@, Json::Object(other))),
        ),
{
    reveal_strlit("range");
    reveal_strlit("uri");
    reveal_strlit("targetUri");
    assert("range"@.len() == 5 && "uri"@.len() == 3 && "targetUri"@.len() == 9);
}

/// Where every item of an array is a location, all of them are found, in their order.
pub proof fn law_every_location_is_found(items: Seq<Json>, found: Seq<DefinitionLocation>)
    requires
        items.len() == found.len(),
        forall|i: int| 0 <= i < items.len() ==> location(#[trigger] items[i]) == Some(found[i]),
    ensures
        locations(Json::Array(items)) == found,
    decreases items.len(),
{
    let reading = |item: Json| location(item);
    if items.len() > 0 {
        law_every_location_is_found(items.drop_last(), found.drop_last());
        assert(items.last() == items[items.len() - 1]);
        assert(locations(Json::Array(items)) =~= found);
    } else {
        assert(locations(Json::Array(items)) =~= found);
    }
}

/// An item that is no location adds none, and one that is adds it behind those before. Answers that
/// are neither arrays nor objects have no locations.
pub proof fn law_locations_are_those_of_the_items(items: Seq<Json>, item: Json, other: Json)
    requires
        !(other is Array) && !(other is Object),
    ensures
        locations(Json::Array(Seq::empty())) == Seq::<DefinitionLocation>::empty(),
        location(item) is None ==> locations(Json::Array(items.push(item))) == locations(
            Json::Array(items),
        ),
        location(item) matches Some(found) ==> locations(Json::Array(items.push(item)))
            == locations(Json::Array(items)).push(found),
        item is Object ==> locations(item) == locations(Json::Array(seq![item])),
        locations(other) == Seq::<DefinitionLocation>::empty(),
{
    assert(items.push(item).drop_last() =~= items);
    if item is Object {
        law_single_location_is_an_array_of_one(item);
    }
}

}
