//! Reading the JSON text of a field's new value, through serde_json.
//!
//! Each reader parses the whole text as one JSON value of a given type.  What
//! a text parses to is given a name here; which texts serde_json accepts, and
//! what it makes of them, is left to serde_json.

use vstd::prelude::*;

use crate::model::optional_text;
use crate::time::Timestamp;

verus! {

/// What serde_json makes of `text` read as a `String`: `None` when it is not
/// a JSON string.
pub uninterp spec fn json_text(text: Seq<char>) -> Option<Seq<char>>;

/// What serde_json makes of `text` read as an `Option<String>` (`null` or a
/// JSON string): `None` when it is neither.
pub uninterp spec fn json_optional_text(text: Seq<char>) -> Option<Option<Seq<char>>>;

/// What serde_json makes of `text` read as a `bool`.
pub uninterp spec fn json_bool(text: Seq<char>) -> Option<bool>;

/// What serde_json makes of `text` read as a `Vec<String>`.
pub uninterp spec fn json_text_list(text: Seq<char>) -> Option<Seq<Seq<char>>>;

/// What serde_json makes of `text` read as a chrono `DateTime<Utc>`, as its
/// seconds and sub-second nanoseconds.
pub uninterp spec fn json_time(text: Seq<char>) -> Option<(i64, u32)>;

/// What serde_json makes of `text` read as an `Option<DateTime<Utc>>`.
pub uninterp spec fn json_optional_time(text: Seq<char>) -> Option<Option<(i64, u32)>>;

/// What serde_json makes of `text` read as a list of JSON objects whose
/// values are strings or `null` (a `Vec<BTreeMap<String, Option<String>>>`),
/// each object as its key-value pairs in key order.
pub uninterp spec fn json_object_list(text: Seq<char>) -> Option<Seq<Seq<(Seq<char>, Option<Seq<char>>)>>>;

/// What serde_json makes of `text` read as a uuid `Uuid`, as its 128-bit
/// big-endian value.
pub uninterp spec fn json_uuid(text: Seq<char>) -> Option<u128>;

/// The key-value pairs of an object, as text.
pub open spec fn entries_view(entries: Seq<(String, Option<String>)>) -> Seq<(Seq<char>, Option<Seq<char>>)> {
    entries.map_values(|e: (String, Option<String>)| (e.0@, optional_text(e.1)))
}

/// A list of objects, as text.
pub open spec fn objects_view(objects: Seq<Vec<(String, Option<String>)>>) -> Seq<Seq<(Seq<char>, Option<Seq<char>>)>> {
    objects.map_values(|o: Vec<(String, Option<String>)>| entries_view(o@))
}

/// The pair of parts of a timestamp.
pub open spec fn time_parts(t: Timestamp) -> (i64, u32) {
    (t.secs, t.nanos)
}

/// Calls `serde_json::from_str::<String>(text)`.  Claimed: the result is the
/// named `json_text` of the text.
#[verifier::external_body]
pub(crate) fn read_text(text: &str) -> (r: Option<String>)
    ensures
        match r {
            Some(s) => json_text(text@) == Some(s@),
            None => json_text(text@) is None,
        },
{
    match serde_json::from_str::<String>(text) {
        Ok(s) => Some(s),
        Err(_) => None,
    }
}

/// Calls `serde_json::from_str::<Option<String>>(text)`.  Claimed: the result
/// is the named `json_optional_text` of the text.
#[verifier::external_body]
pub(crate) fn read_optional_text(text: &str) -> (r: Option<Option<String>>)
    ensures
        match r {
            Some(Some(s)) => json_optional_text(text@) == Some(Some(s@)),
            Some(None) => json_optional_text(text@) == Some(None::<Seq<char>>),
            None => json_optional_text(text@) is None,
        },
{
    match serde_json::from_str::<Option<String>>(text) {
        Ok(s) => Some(s),
        Err(_) => None,
    }
}

/// Calls `serde_json::from_str::<bool>(text)`.  Claimed: the result is the
/// named `json_bool` of the text.
#[verifier::external_body]
pub(crate) fn read_bool(text: &str) -> (r: Option<bool>)
    ensures
        r == json_bool(text@),
{
    match serde_json::from_str::<bool>(text) {
        Ok(b) => Some(b),
        Err(_) => None,
    }
}

/// Calls `serde_json::from_str::<Vec<String>>(text)`.  Claimed: the result is
/// the named `json_text_list` of the text, string by string.
#[verifier::external_body]
pub(crate) fn read_text_list(text: &str) -> (r: Option<Vec<String>>)
    ensures
        match r {
            Some(v) => json_text_list(text@) == Some(v@.map_values(|s: String| s@)),
            None => json_text_list(text@) is None,
        },
{
    match serde_json::from_str::<Vec<String>>(text) {
        Ok(v) => Some(v),
        Err(_) => None,
    }
}

/// Calls `serde_json::from_str::<chrono::DateTime<chrono::Utc>>(text)` and
/// takes the `timestamp()` and `timestamp_subsec_nanos()` of the result.
/// Claimed: the result is the named `json_time` of the text, and it is a
/// value a `DateTime<Utc>` holds.
#[verifier::external_body]
pub(crate) fn read_time(text: &str) -> (r: Option<Timestamp>)
    ensures
        match r {
            Some(t) => json_time(text@) == Some(time_parts(t)) && t.wf(),
            None => json_time(text@) is None,
        },
{
    match serde_json::from_str::<chrono::DateTime<chrono::Utc>>(text) {
        Ok(dt) => Some(Timestamp { secs: dt.timestamp(), nanos: dt.timestamp_subsec_nanos() }),
        Err(_) => None,
    }
}

/// Calls `serde_json::from_str::<Option<chrono::DateTime<chrono::Utc>>>(text)`
/// and takes the parts of the date-time, if any.  Claimed: the result is the
/// named `json_optional_time` of the text, and a date-time in it is a value a
/// `DateTime<Utc>` holds.
#[verifier::external_body]
pub(crate) fn read_optional_time(text: &str) -> (r: Option<Option<Timestamp>>)
    ensures
        match r {
            Some(Some(t)) => json_optional_time(text@) == Some(Some(time_parts(t))) && t.wf(),
            Some(None) => json_optional_time(text@) == Some(None::<(i64, u32)>),
            None => json_optional_time(text@) is None,
        },
{
    match serde_json::from_str::<Option<chrono::DateTime<chrono::Utc>>>(text) {
        Ok(Some(dt)) => Some(Some(Timestamp { secs: dt.timestamp(), nanos: dt.timestamp_subsec_nanos() })),
        Ok(None) => Some(None),
        Err(_) => None,
    }
}

/// Calls `serde_json::from_str::<Vec<BTreeMap<String, Option<String>>>>(text)`
/// and turns each map into the list of its entries, in the map's key order.
/// Claimed: the result is the named `json_object_list` of the text.
#[verifier::external_body]
pub(crate) fn read_object_list(text: &str) -> (r: Option<Vec<Vec<(String, Option<String>)>>>)
    ensures
        match r {
            Some(v) => json_object_list(text@) == Some(objects_view(v@)),
            None => json_object_list(text@) is None,
        },
{
    match serde_json::from_str::<Vec<std::collections::BTreeMap<String, Option<String>>>>(text) {
        Ok(v) => Some(v.into_iter().map(|m| m.into_iter().collect()).collect()),
        Err(_) => None,
    }
}

/// Calls `serde_json::from_str::<uuid::Uuid>(text)` and takes `as_u128()` of
/// the result.  Claimed: the result is the named `json_uuid` of the text.
#[verifier::external_body]
pub(crate) fn read_uuid(text: &str) -> (r: Option<u128>)
    ensures
        r == json_uuid(text@),
{
    match serde_json::from_str::<uuid::Uuid>(text) {
        Ok(id) => Some(id.as_u128()),
        Err(_) => None,
    }
}

} // verus!
