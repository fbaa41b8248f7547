//! What the library takes from outside crates, with the contracts it relies on.

use vstd::prelude::*;

verus! {

/// A JSON document of serde_json, carried through unread: processors keep
/// their per-turn state in it.
#[verifier::external_type_specification]
#[verifier::external_body]
pub struct ExJsonValue(serde_json::Value);

/// Relies on chrono::Utc::now and DateTime::timestamp_millis: the current
/// time in milliseconds since the Unix epoch. Nothing is promised of it.
#[verifier::external_body]
pub(crate) fn now_millis() -> (r: i64) {
    chrono::Utc::now().timestamp_millis()
}

/// The text of a UTC time as `YYYY-MM-DD HH:MM:SS`; it depends on the
/// milliseconds alone.
pub uninterp spec fn time_text(ms: i64) -> Seq<char>;

/// Relies on chrono's DateTime::from_timestamp_millis and its `format`
/// with "%Y-%m-%d %H:%M:%S" (an instant out of chrono's range gives "").
#[verifier::external_body]
pub(crate) fn format_timestamp(ms: i64) -> (r: String)
    ensures
        r@ == time_text(ms),
{
    match chrono::DateTime::from_timestamp_millis(ms) {
        Some(t) => t.format("%Y-%m-%d %H:%M:%S").to_string(),
        None => String::new(),
    }
}

/// Relies on serde_json's `Value::Bool`.
#[verifier::external_body]
pub(crate) fn json_bool(b: bool) -> (r: serde_json::Value) {
    serde_json::Value::Bool(b)
}

/// Relies on serde_json's `From<u64> for Value` (a JSON number).
#[verifier::external_body]
pub(crate) fn json_count(n: u64) -> (r: serde_json::Value) {
    serde_json::Value::from(n)
}

/// Relies on serde_json's `Value::String`.
#[verifier::external_body]
pub(crate) fn json_text(s: String) -> (r: serde_json::Value) {
    serde_json::Value::String(s)
}

/// Relies on serde_json's `From<Vec<Value>> for Value` (a JSON array).
#[verifier::external_body]
pub(crate) fn json_list(items: Vec<serde_json::Value>) -> (r: serde_json::Value) {
    serde_json::Value::from(items)
}

/// Relies on serde_json's `Map: FromIterator` and `Value::Object`: an object
/// with the given keys and values.
#[verifier::external_body]
pub(crate) fn json_object(entries: Vec<(String, serde_json::Value)>) -> (r: serde_json::Value) {
    serde_json::Value::Object(entries.into_iter().collect())
}

/// The text with every thinking span removed, as the regex below finds them.
pub uninterp spec fn think_stripped(s: Seq<char>) -> Seq<char>;

/// Relies on regex's `Regex::replace_all` with an empty replacement and the
/// pattern `(?s)<think(?:ing)?[^>]*>.*?</think(?:ing)?>`: each thinking span
/// (both tags and all between) is removed; the result depends on the text
/// alone, and an empty text stays empty.
#[verifier::external_body]
pub(crate) fn remove_think_spans(s: &str) -> (r: String)
    ensures
        r@ == think_stripped(s@),
        s@.len() == 0 ==> r@.len() == 0,
{
    let re = regex::Regex::new(r"(?s)<think(?:ing)?[^>]*>.*?</think(?:ing)?>").unwrap();
    re.replace_all(s, "").into_owned()
}

} // verus!
